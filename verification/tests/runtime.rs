use bigbirdeval::common_types::{Conversion, Uri};
use bigbirdeval::dataset::LazyAction;
use bigbirdeval::runtime::{compute_device_assignments, order_reports, partition_actions, Keyed, PartitionCursor, PROGRESS_UPDATE_FREQ};
use bigbirdeval::stats::final_epochs;

fn conv(device: u64, ts: u64) -> LazyAction {
    LazyAction::Conversion(Conversion {
        querier: Uri::benign(1),
        epoch_id: 1,
        timestamp: ts,
        device_id: device,
        user_action_id: Some(ts),
        source_uris: None,
    })
}

fn keyed(action_num: usize, sub_index: u32, item: &'static str) -> Keyed<&'static str> {
    Keyed { action_num, sub_index, item }
}

#[test]
fn longest_processing_time_assignment() {
    let counts = vec![(1u64, 5usize), (2, 3), (3, 4), (4, 1)];
    let a = compute_device_assignments(&counts, 2);
    assert_eq!(a.len(), 4);
    assert_eq!(a[&1], 0);
    assert_eq!(a[&3], 1);
    assert_eq!(a[&2], 1);
    assert_eq!(a[&4], 0);
}

#[test]
fn assignment_is_balanced() {
    // loads differ by at most the largest count.
    let counts: Vec<(u64, usize)> = (0..20u64).map(|d| (d, (d as usize * 7) % 11 + 1)).collect();
    let a = compute_device_assignments(&counts, 3);
    let mut loads = [0usize; 3];
    for (d, c) in &counts {
        loads[a[d]] += c;
    }
    let max = *counts.iter().map(|(_, c)| c).max().unwrap();
    let total: usize = counts.iter().map(|(_, c)| c).sum();
    assert_eq!(loads.iter().sum::<usize>(), total);
    for i in 0..3 {
        for j in 0..3 {
            assert!(loads[i] <= loads[j] + max);
        }
    }
}

#[test]
fn single_thread_takes_every_device() {
    let a = compute_device_assignments(&vec![(9, 1), (8, 2)], 1);
    assert_eq!((a[&9], a[&8]), (0, 0));
    assert!(compute_device_assignments(&vec![], 4).is_empty());
}

#[test]
fn partitions_actions_by_thread_in_order() {
    let actions = vec![conv(1, 1), conv(2, 2), conv(1, 3), conv(3, 4), conv(2, 5)];
    let a = compute_device_assignments(&vec![(1, 2), (2, 2), (3, 1)], 2);
    let parts = partition_actions(&actions, &a, 2);
    assert_eq!(parts.len(), 2);
    let mut seen = vec![];
    for (t, part) in parts.iter().enumerate() {
        for w in part.windows(2) {
            assert!(w[0] < w[1]);
        }
        for &i in part {
            assert_eq!(a[&actions[i].device_id()], t);
            seen.push(i);
        }
    }
    seen.sort();
    assert_eq!(seen, vec![0, 1, 2, 3, 4]);
}

#[test]
fn orders_reports_by_action_and_sub_index() {
    let parts = vec![
        vec![keyed(4, 0, "d"), keyed(0, 1, "b")],
        vec![],
        vec![keyed(2, 0, "c"), keyed(0, 0, "a"), keyed(7, 3, "e")],
    ];
    let all = order_reports(parts);
    let items: Vec<&str> = all.iter().map(|k| k.item).collect();
    assert_eq!(items, vec!["a", "b", "c", "d", "e"]);
}

#[test]
fn report_order_does_not_depend_on_the_partitioning() {
    let one = order_reports(vec![vec![keyed(3, 0, "x"), keyed(1, 2, "y"), keyed(1, 0, "z")]]);
    let two = order_reports(vec![vec![keyed(1, 2, "y")], vec![keyed(3, 0, "x")], vec![keyed(1, 0, "z")]]);
    let a: Vec<(usize, u32, &str)> = one.iter().map(|k| (k.action_num, k.sub_index, k.item)).collect();
    let b: Vec<(usize, u32, &str)> = two.iter().map(|k| (k.action_num, k.sub_index, k.item)).collect();
    assert_eq!(a, b);
    assert_eq!(a, vec![(1, 0, "z"), (1, 2, "y"), (3, 0, "x")]);
}

#[test]
fn cursor_collects_the_epoch_leaving_the_window() {
    let mut c = PartitionCursor::new();
    assert_eq!(c.advance_epoch(1), None);
    assert_eq!(c.advance_epoch(2), None);
    assert_eq!(c.advance_epoch(3), Some(1));
    assert_eq!(c.advance_epoch(3), None);
    assert_eq!(c.advance_epoch(2), None);
    assert_eq!(c.last_epoch_id, 3);
    assert_eq!(c.advance_epoch(7), Some(5));
    assert_eq!(c.last_epoch_id, 7);
}

#[test]
fn cursor_reports_progress_in_chunks() {
    let mut c = PartitionCursor::new();
    for _ in 0..PROGRESS_UPDATE_FREQ - 1 {
        assert_eq!(c.count_processed(), None);
    }
    assert_eq!(c.count_processed(), Some(4096));
    assert_eq!(c.processed_count, 0);
    assert_eq!(c.count_processed(), None);
    assert_eq!(c.processed_count, 1);
}

#[test]
fn final_epochs_cover_the_window() {
    assert_eq!(final_epochs(0), (1, 0));
    assert_eq!(final_epochs(2), (1, 2));
    assert_eq!(final_epochs(3), (2, 3));
    assert_eq!(final_epochs(10), (9, 10));
}
