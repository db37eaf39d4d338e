use bigbirdeval::common_types::{Conversion, ImpOrConv, Uri};
use bigbirdeval::counting::count_keys;
use bigbirdeval::sorting::count_of;
use bigbirdeval::dataset::{merge_imps_and_convs, rank_by_frequency, Action, ImpressionRow, LazyAction};
use bigbirdeval::workload::{build_dataset, conversion_count, device_action_counts, kept_sites, DatasetCore, DatasetError};

fn row(id: u64, ts: u64, source: u32, campaign: u32, device: u64) -> ImpressionRow {
    ImpressionRow {
        id,
        timestamp: ts,
        epoch_number: ts / 100,
        histogram_index: 1,
        source_uri: Uri::benign(source),
        trigger_uri: Uri::benign(campaign),
        device_id: device,
    }
}

fn conv(uaid: Option<u64>, ts: u64, campaign: u32, device: u64) -> Conversion {
    Conversion {
        querier: Uri::benign(campaign),
        epoch_id: ts / 100,
        timestamp: ts,
        device_id: device,
        user_action_id: uaid,
        source_uris: None,
    }
}

fn timestamps(actions: &[LazyAction]) -> Vec<u64> {
    actions
        .iter()
        .map(|a| match a {
            LazyAction::Impression(r) => r.timestamp,
            LazyAction::Conversion(c) => c.timestamp,
        })
        .collect()
}

/// Each site of `uris` once, in order of first appearance.
fn each_once(uris: &[Uri]) -> Vec<Uri> {
    let mut walk: Vec<Uri> = Vec::new();
    for u in uris {
        if !walk.contains(u) {
            walk.push(*u);
        }
    }
    walk
}

/// Builds the workload with walks that list the kept sites in order of
/// first appearance.
fn build(
    imps: Vec<ImpressionRow>,
    convs: Vec<Conversion>,
    active: &Vec<Uri>,
    cap: Option<usize>,
) -> Result<DatasetCore, DatasetError> {
    let (sources, queriers) = kept_sites(imps.clone(), convs.clone(), active);
    build_dataset(imps, convs, active, cap, &each_once(&sources), &each_once(&queriers))
}

#[test]
fn impression_row_builds_its_impression() {
    let imp = row(11, 250, 3, 8, 42).build();
    assert_eq!(imp.device_id, 42);
    assert_eq!(imp.event.id, 11);
    assert_eq!(imp.event.timestamp, 250);
    assert_eq!(imp.event.epoch_number, 2);
    assert_eq!(imp.event.histogram_index, 1);
    assert_eq!(imp.event.uris.source_uri, Uri::benign(3));
    assert_eq!(imp.event.uris.trigger_uris, vec![Uri::benign(8)]);
    assert_eq!(imp.event.uris.querier_uris, vec![Uri::benign(8)]);
    assert_eq!(imp.event.user_action_id, Some(11));
    assert_eq!(imp.event.filter_data, 0);
}

#[test]
fn lazy_actions_materialize() {
    let l = LazyAction::Impression(row(1, 120, 3, 8, 5));
    assert_eq!(l.device_id(), 5);
    match l.get() {
        Action::Impression(i) => assert_eq!(i.event.id, 1),
        _ => panic!("expected an impression"),
    }
    let c = conv(Some(9), 130, 8, 6);
    let l = LazyAction::Conversion(c.clone());
    assert_eq!(l.device_id(), 6);
    let a = l.get();
    assert_eq!(a, Action::Conversion(c));
    assert_eq!((a.device_id(), a.epoch_id(), a.timestamp(), a.user_action_id()), (6, 1, 130, Some(9)));
}

#[test]
fn merge_orders_by_time_impression_first_on_ties() {
    let imps = vec![row(1, 10, 1, 1, 1), row(2, 20, 1, 1, 1), row(3, 30, 1, 1, 1)];
    let convs = vec![conv(Some(4), 5, 1, 1), conv(Some(5), 20, 1, 1), conv(Some(6), 40, 1, 1)];
    let merged = merge_imps_and_convs(imps, convs);
    assert_eq!(timestamps(&merged), vec![5, 10, 20, 20, 30, 40]);
    assert!(matches!(merged[2], LazyAction::Impression(_)));
    assert!(matches!(merged[3], LazyAction::Conversion(_)));
    assert_eq!(merged.len(), 6);
}

#[test]
fn merge_with_an_empty_stream() {
    let merged = merge_imps_and_convs(vec![], vec![conv(Some(1), 3, 1, 1), conv(Some(2), 4, 1, 1)]);
    assert_eq!(timestamps(&merged), vec![3, 4]);
    let merged = merge_imps_and_convs(vec![row(1, 7, 1, 1, 1)], vec![]);
    assert_eq!(timestamps(&merged), vec![7]);
    assert!(merge_imps_and_convs(vec![], vec![]).is_empty());
}

#[test]
fn ranks_by_frequency() {
    // site 7 occurs three times, site 2 twice, site 9 once; first appearance
    // order (9, 2, 7) differs from frequency order.
    let uris = vec![
        Uri::benign(9),
        Uri::benign(2),
        Uri::benign(7),
        Uri::benign(7),
        Uri::benign(2),
        Uri::benign(7),
    ];
    let table = rank_by_frequency(&uris, &vec![Uri::benign(9), Uri::benign(2), Uri::benign(7)]);
    assert_eq!(table.get(&Uri::benign(7)), Some(1));
    assert_eq!(table.get(&Uri::benign(2)), Some(2));
    assert_eq!(table.get(&Uri::benign(9)), Some(3));
    assert_eq!(table.get(&Uri::benign(4)), None);
    assert_eq!(table.get(&Uri::malicious(7)), None);
}

#[test]
fn equally_frequent_sites_are_ranked_in_walk_order() {
    let uris = vec![Uri::benign(4), Uri::benign(6), Uri::benign(6), Uri::benign(4), Uri::benign(8)];
    let table = rank_by_frequency(&uris, &vec![Uri::benign(6), Uri::benign(8), Uri::benign(4)]);
    assert_eq!(table.get(&Uri::benign(6)), Some(1));
    assert_eq!(table.get(&Uri::benign(4)), Some(2));
    assert_eq!(table.get(&Uri::benign(8)), Some(3));
    let table = rank_by_frequency(&uris, &vec![Uri::benign(4), Uri::benign(8), Uri::benign(6)]);
    assert_eq!(table.get(&Uri::benign(4)), Some(1));
    assert_eq!(table.get(&Uri::benign(6)), Some(2));
    assert_eq!(table.get(&Uri::benign(8)), Some(3));
}

#[test]
fn lists_the_kept_sites_in_time_order() {
    let imps = vec![row(1, 30, 5, 1, 100), row(2, 10, 6, 1, 101), row(3, 20, 7, 2, 100)];
    let convs = vec![conv(Some(10), 25, 1, 100), conv(Some(11), 12, 2, 101), conv(Some(12), 5, 1, 100)];
    let (sources, queriers) = kept_sites(imps, convs, &vec![Uri::benign(1)]);
    assert_eq!(sources, vec![Uri::benign(6), Uri::benign(5)]);
    assert_eq!(queriers, vec![Uri::benign(1), Uri::benign(1)]);
}

#[test]
fn counts_keys_in_first_appearance_order() {
    assert_eq!(count_keys(&vec![5, 3, 5, 5, 8, 3]), vec![(5, 3), (3, 2), (8, 1)]);
    assert!(count_keys(&vec![]).is_empty());
}

#[test]
fn counts_device_actions_and_conversions() {
    let actions = vec![
        LazyAction::Impression(row(1, 1, 1, 1, 20)),
        LazyAction::Conversion(conv(Some(2), 2, 1, 10)),
        LazyAction::Impression(row(3, 3, 1, 1, 20)),
    ];
    assert_eq!(device_action_counts(&actions), vec![(20, 2), (10, 1)]);
    assert_eq!(conversion_count(&actions), 1);
}

#[test]
fn builds_a_sorted_filtered_workload() {
    // unsorted inputs; campaign 2 is not an active querier.
    let imps = vec![row(1, 30, 5, 1, 100), row(2, 10, 6, 1, 101), row(3, 20, 5, 2, 100), row(4, 15, 5, 1, 102)];
    let convs = vec![conv(Some(10), 25, 1, 100), conv(Some(11), 12, 1, 101), conv(Some(12), 5, 2, 100)];
    let active = vec![Uri::benign(1)];
    let core = match build(imps, convs, &active, None) {
        Ok(c) => c,
        Err(e) => panic!("unexpected error {:?}", e),
    };
    assert_eq!(timestamps(&core.actions), vec![10, 12, 15, 25, 30]);
    assert_eq!(core.num_conversions, 2);
    assert_eq!(core.device_action_counts, vec![(101, 2), (102, 1), (100, 2)]);
    // kept sources: 6 once, 5 twice (row 3 belongs to the inactive campaign).
    assert_eq!(core.source_ranks.get(&Uri::benign(5)), Some(1));
    assert_eq!(core.source_ranks.get(&Uri::benign(6)), Some(2));
    assert_eq!(core.querier_ranks.get(&Uri::benign(1)), Some(1));
    assert_eq!(core.querier_ranks.get(&Uri::benign(2)), None);
}

#[test]
fn caps_the_workload() {
    let imps = vec![row(1, 10, 5, 1, 100), row(2, 30, 5, 1, 100)];
    let convs = vec![conv(Some(10), 20, 1, 100), conv(Some(11), 40, 1, 100)];
    let core = match build(imps, convs, &vec![Uri::benign(1)], Some(2)) {
        Ok(c) => c,
        Err(e) => panic!("unexpected error {:?}", e),
    };
    assert_eq!(timestamps(&core.actions), vec![10, 20]);
    assert_eq!(core.num_conversions, 1);
    assert_eq!(core.device_action_counts, vec![(100, 2)]);
}

#[test]
fn rejects_a_duplicate_action_id() {
    let imps = vec![row(7, 10, 5, 1, 100)];
    let convs = vec![conv(Some(7), 20, 1, 100)];
    match build(imps, convs, &vec![Uri::benign(1)], None) {
        Err(e) => assert_eq!(e, DatasetError::DuplicateActionId(7)),
        Ok(_) => panic!("expected an error"),
    }
}

#[test]
fn ignores_duplicates_of_inactive_queriers() {
    let imps = vec![row(7, 10, 5, 1, 100)];
    let convs = vec![conv(Some(7), 20, 2, 100)];
    assert!(build(imps, convs, &vec![Uri::benign(1)], None).is_ok());
}

#[test]
fn rejects_a_missing_action_id() {
    let imps = vec![row(7, 10, 5, 1, 100)];
    let convs = vec![conv(None, 20, 1, 100)];
    match build(imps, convs, &vec![Uri::benign(1)], None) {
        Err(e) => assert_eq!(e, DatasetError::MissingActionId),
        Ok(_) => panic!("expected an error"),
    }
}

#[test]
fn a_cap_is_extended_to_the_first_conversion() {
    let imps = vec![row(1, 10, 5, 1, 100), row(2, 15, 5, 1, 101), row(3, 30, 5, 1, 100)];
    let convs = vec![conv(Some(10), 20, 1, 100), conv(Some(11), 40, 1, 100)];
    let core = match build(imps, convs, &vec![Uri::benign(1)], Some(2)) {
        Ok(c) => c,
        Err(e) => panic!("unexpected error {:?}", e),
    };
    assert_eq!(timestamps(&core.actions), vec![10, 15, 20]);
    assert_eq!(core.num_conversions, 1);
    assert_eq!(core.device_action_counts, vec![(100, 2), (101, 1)]);
}

#[test]
fn a_zero_cap_keeps_the_first_conversion() {
    let imps = vec![row(1, 10, 5, 1, 100)];
    let convs = vec![conv(Some(10), 5, 1, 100)];
    let core = match build(imps, convs, &vec![Uri::benign(1)], Some(0)) {
        Ok(c) => c,
        Err(e) => panic!("unexpected error {:?}", e),
    };
    assert_eq!(timestamps(&core.actions), vec![5]);
    assert_eq!(core.num_conversions, 1);
}

#[test]
fn rejects_a_cap_on_a_workload_without_conversions() {
    let imps = vec![row(1, 10, 5, 1, 100), row(2, 15, 5, 1, 100)];
    // the only conversion belongs to an inactive querier
    let convs = vec![conv(Some(10), 20, 2, 100)];
    match build(imps, convs, &vec![Uri::benign(1)], Some(1)) {
        Err(e) => assert_eq!(e, DatasetError::NoConversionsLeft(1)),
        Ok(_) => panic!("expected an error"),
    }
}

#[test]
fn no_cap_accepts_a_workload_without_conversions() {
    let imps = vec![row(1, 10, 5, 1, 100)];
    match build(imps, vec![], &vec![Uri::benign(1)], None) {
        Ok(core) => assert_eq!(core.num_conversions, 0),
        Err(e) => panic!("unexpected error {:?}", e),
    }
}

#[test]
fn equally_frequent_sources_follow_the_walk() {
    let imps = vec![row(1, 10, 5, 1, 100), row(2, 20, 6, 1, 100)];
    let convs = vec![conv(Some(3), 30, 1, 100)];
    let active = vec![Uri::benign(1)];
    let queriers = vec![Uri::benign(1)];
    let core = match build_dataset(imps.clone(), convs.clone(), &active, None, &vec![Uri::benign(6), Uri::benign(5)], &queriers) {
        Ok(c) => c,
        Err(e) => panic!("unexpected error {:?}", e),
    };
    assert_eq!(core.source_ranks.get(&Uri::benign(6)), Some(1));
    assert_eq!(core.source_ranks.get(&Uri::benign(5)), Some(2));
    let core = match build_dataset(imps, convs, &active, None, &vec![Uri::benign(5), Uri::benign(6)], &queriers) {
        Ok(c) => c,
        Err(e) => panic!("unexpected error {:?}", e),
    };
    assert_eq!(core.source_ranks.get(&Uri::benign(5)), Some(1));
    assert_eq!(core.source_ranks.get(&Uri::benign(6)), Some(2));
}

#[test]
fn reads_a_site_count_by_key() {
    let mut counts: std::collections::HashMap<u64, usize> = std::collections::HashMap::new();
    counts.insert(7, 3);
    counts.insert((1u64 << 32) | 7, 5);
    assert_eq!(count_of(&counts, &Uri::benign(7)), 3);
    assert_eq!(count_of(&counts, &Uri::malicious(7)), 5);
    assert_eq!(count_of(&counts, &Uri::benign(8)), 0);
}
