use bigbirdeval::common_types::{Conversion, FilterId, Uri};
use bigbirdeval::logs::{checked_dropped_counts, process_dropped_epochs, DropEpochReason, DroppedCounts};
use bigbirdeval::querier::{
    attribution_sources, batch_size, batch_sizes_consistent, logged_site_id, report_epoch_range, QuerierStatsLog,
    HISTOGRAM_SIZE, REPORT_REQUEST_EPOCH_WINDOW,
};
use bigbirdeval::reports::ReportBatches;

fn oob(filters: Vec<FilterId>) -> DropEpochReason {
    DropEpochReason::OutOfBudget(filters)
}

#[test]
fn attributes_each_dropped_report_to_one_cause() {
    let q = Uri::benign(3);
    let batch = vec![
        vec![],
        vec![oob(vec![FilterId::Global(1), FilterId::PerQuerier(1, q)])],
        vec![oob(vec![FilterId::SourceQuota(2, q)]), DropEpochReason::CountQuotaExceeded],
        vec![oob(vec![FilterId::TriggerQuota(2, q), FilterId::SourceQuota(2, q)])],
        vec![oob(vec![FilterId::TriggerQuota(2, q)])],
        vec![oob(vec![FilterId::Global(3)]), oob(vec![FilterId::TriggerQuota(3, q)])],
    ];
    let c = process_dropped_epochs(&batch);
    assert_eq!(c, DroppedCounts { dropped: 5, nc: 1, c: 1, qconv: 1, qimp: 1, qcount: 1 });
    assert_eq!(c.dropped, c.nc + c.c + c.qconv + c.qimp + c.qcount);
    assert_eq!(checked_dropped_counts(&batch), Some(c));
}

#[test]
fn no_dropped_epochs_counts_nothing() {
    let zero = DroppedCounts { dropped: 0, nc: 0, c: 0, qconv: 0, qimp: 0, qcount: 0 };
    assert_eq!(process_dropped_epochs(&vec![]), zero);
    assert_eq!(process_dropped_epochs(&vec![vec![], vec![]]), zero);
}

#[test]
fn an_unattributable_report_is_refused() {
    let batch = vec![vec![oob(vec![FilterId::Global(1)])], vec![oob(vec![])]];
    assert_eq!(checked_dropped_counts(&batch), None);
}

#[test]
fn releases_a_batch_when_full() {
    let a = Uri::benign(1);
    let b = Uri::malicious(2);
    let mut batches = ReportBatches::new();
    assert!(batches.process_report(a, vec![], 3).is_none());
    assert!(batches.process_report(b, vec![DropEpochReason::CountQuotaExceeded], 3).is_none());
    assert!(batches.process_report(a, vec![DropEpochReason::CountQuotaExceeded], 3).is_none());
    assert_eq!(batches.pending_count(a), 2);
    assert_eq!(batches.pending_count(b), 1);
    let released = batches.process_report(a, vec![], 3).unwrap();
    assert_eq!(released.item_number, 4);
    assert_eq!(released.reports, vec![vec![], vec![DropEpochReason::CountQuotaExceeded], vec![]]);
    assert_eq!(batches.pending_count(a), 0);
    assert_eq!(batches.pending_count(b), 1);
    assert_eq!(batches.pending_count(Uri::benign(9)), 0);
    assert_eq!((batches.num_actions(), batches.num_reports()), (4, 4));
}

#[test]
fn batch_size_zero_or_one_releases_every_report() {
    let a = Uri::benign(1);
    let mut batches = ReportBatches::new();
    let r = batches.process_report(a, vec![], 0).unwrap();
    assert_eq!((r.item_number, r.reports.len()), (1, 1));
    let r = batches.process_report(a, vec![], 1).unwrap();
    assert_eq!((r.item_number, r.reports.len()), (2, 1));
    assert_eq!(batches.pending_count(a), 0);
}

#[test]
fn report_epochs_span_the_window() {
    assert_eq!(REPORT_REQUEST_EPOCH_WINDOW, 2);
    assert_eq!(HISTOGRAM_SIZE, 5);
    assert_eq!(report_epoch_range(10), (7, 10));
    assert_eq!(report_epoch_range(3), (0, 3));
    assert_eq!(report_epoch_range(1), (0, 1));
}

#[test]
fn batch_size_meets_latency_but_not_below_minimum() {
    assert_eq!(batch_size(10, 700, 5000), 7000);
    assert_eq!(batch_size(10, 300, 5000), 5000);
    assert_eq!(batch_size(10, 500, 5000), 5000);
    assert_eq!(batch_size(0, 500, 0), 0);
}

#[test]
fn querier_stats_log() {
    let s = QuerierStatsLog::new(10, 300, 5000, 17);
    assert_eq!(s, QuerierStatsLog { desired_batch_size: 3000, aggregated_batch_size: 5000, avg_conversions_per_epoch: 300, remainder_reports: 17 });
}

#[test]
fn logged_site_ids() {
    assert_eq!(logged_site_id(Uri::benign(42), false), 42);
    assert_eq!(logged_site_id(Uri::malicious(42), true), 421);
    assert_eq!(logged_site_id(Uri::benign(42), true), 420);
    assert_eq!(logged_site_id(Uri::malicious(u32::MAX), true), u32::MAX as u64 * 10 + 1);
}

#[test]
fn checks_logged_batch_sizes() {
    let a = Uri::benign(1);
    let b = Uri::benign(2);
    let results = vec![(a, 5000), (b, 12), (a, 5000)];
    assert!(batch_sizes_consistent(&results, a, 5000));
    assert!(!batch_sizes_consistent(&results, b, 5000));
    assert!(batch_sizes_consistent(&results, Uri::benign(3), 1));
}

#[test]
fn conversion_sources_take_precedence() {
    let mut c = Conversion {
        querier: Uri::malicious(1),
        epoch_id: 1,
        timestamp: 1,
        device_id: 1,
        user_action_id: None,
        source_uris: Some(vec![Uri::malicious(4)]),
    };
    let own = Some(vec![Uri::benign(7), Uri::benign(8)]);
    assert_eq!(attribution_sources(&c, &own), Some(vec![Uri::malicious(4)]));
    c.source_uris = None;
    assert_eq!(attribution_sources(&c, &own), own);
    assert_eq!(attribution_sources(&c, &None), None);
}
