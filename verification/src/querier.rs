//! The report-request parameters a querier derives from a conversion.

use vstd::prelude::*;

use crate::common_types::{copy_uris, Conversion, EpochId, Uri};

verus! {

/// How many epochs before the conversion epoch a report may attribute over.
pub const REPORT_REQUEST_EPOCH_WINDOW: u64 = 2;

/// Number of histogram buckets.
pub const HISTOGRAM_SIZE: u64 = 5;

/// The epochs a report request for a conversion in `epoch_id` spans:
/// `[epoch_id - (REPORT_REQUEST_EPOCH_WINDOW + 1), epoch_id]`, clamped at 0.
/// The request thus spans four epochs while workers only retain the last
/// two; the two oldest requested epochs always see no events.
pub fn report_epoch_range(epoch_id: EpochId) -> (range: (EpochId, EpochId))
    ensures
        range.0 == if epoch_id >= REPORT_REQUEST_EPOCH_WINDOW + 1 { epoch_id - (REPORT_REQUEST_EPOCH_WINDOW + 1) } else { 0 },
        range.1 == epoch_id,
{
    (epoch_id.saturating_sub(REPORT_REQUEST_EPOCH_WINDOW + 1), epoch_id)
}

/// The smallest batch that meets the latency target, but never below
/// `min_batch_size`.
pub open spec fn spec_batch_size(expected_latency_epochs: u64, avg_conversions_per_epoch: u64, min_batch_size: u64) -> int {
    if expected_latency_epochs * avg_conversions_per_epoch >= min_batch_size {
        expected_latency_epochs * avg_conversions_per_epoch
    } else {
        min_batch_size as int
    }
}

/// A querier's batch size is the larger of its latency target (latency
/// times conversion rate) and `min_batch_size`: never below either, and
/// equal to one of them. A querier with no conversions still batches
/// `min_batch_size` reports.
pub proof fn law_batch_size_is_the_larger_bound(expected_latency_epochs: u64, avg_conversions_per_epoch: u64, min_batch_size: u64)
    ensures ({
        let size = spec_batch_size(expected_latency_epochs, avg_conversions_per_epoch, min_batch_size);
        let target = expected_latency_epochs * avg_conversions_per_epoch;
        &&& size >= min_batch_size
        &&& size >= target
        &&& (size == min_batch_size || size == target)
    }),
{
}

/// The batch size of a querier: the smallest batch that meets the latency
/// target, but never below `min_batch_size`.
pub fn batch_size(expected_latency_epochs: u64, avg_conversions_per_epoch: u64, min_batch_size: u64) -> (size: u64)
    requires
        expected_latency_epochs * avg_conversions_per_epoch <= u64::MAX,
    ensures
        size == spec_batch_size(expected_latency_epochs, avg_conversions_per_epoch, min_batch_size),
{
    let desired = expected_latency_epochs * avg_conversions_per_epoch;
    if desired >= min_batch_size { desired } else { min_batch_size }
}

/// The sources a report request for `conversion` attributes to: those the
/// conversion names, else the querier's own (`querier_sources`); `None` if
/// neither names any, which leaves the request without sources.
pub fn attribution_sources(conversion: &Conversion, querier_sources: &Option<Vec<Uri>>) -> (sources: Option<Vec<Uri>>)
    ensures
        match (conversion.source_uris, *querier_sources) {
            (Some(c), _) => sources matches Some(s) && s@ == c@,
            (None, Some(q)) => sources matches Some(s) && s@ == q@,
            (None, None) => sources is None,
        },
{
    match &conversion.source_uris {
        Some(c) => Some(copy_uris(c)),
        None => match querier_sources {
            Some(q) => Some(copy_uris(q)),
            None => None,
        },
    }
}

/// The batch statistics logged for a querier.
#[derive(Debug, Clone, Copy, PartialEq, Eq, Structural)]
pub struct QuerierStatsLog {
    pub desired_batch_size: u64,
    pub aggregated_batch_size: u64,
    pub avg_conversions_per_epoch: u64,
    pub remainder_reports: usize,
}

impl QuerierStatsLog {
    /// The statistics of a querier with this conversion rate: the batch it
    /// would like (latency times rate), the batch it aggregates, and how
    /// many reports were left over in its last, unreleased batch.
    pub fn new(expected_latency_epochs: u64, avg_conversions_per_epoch: u64, min_batch_size: u64, remainder_reports: usize) -> (s: Self)
        requires
            expected_latency_epochs * avg_conversions_per_epoch <= u64::MAX,
        ensures
            s.desired_batch_size == expected_latency_epochs * avg_conversions_per_epoch,
            s.aggregated_batch_size == spec_batch_size(expected_latency_epochs, avg_conversions_per_epoch, min_batch_size),
            s.avg_conversions_per_epoch == avg_conversions_per_epoch,
            s.remainder_reports == remainder_reports,
    {
        QuerierStatsLog {
            desired_batch_size: expected_latency_epochs * avg_conversions_per_epoch,
            aggregated_batch_size: batch_size(expected_latency_epochs, avg_conversions_per_epoch, min_batch_size),
            avg_conversions_per_epoch,
            remainder_reports,
        }
    }
}

/// The site identifier a querier is logged under: its own identifier for a
/// dataset querier; for one of the attacker's queriers, ten times it plus
/// one if the site is malicious, so that the two kinds never collide.
pub fn logged_site_id(uri: Uri, attacker_querier: bool) -> (id: u64)
    ensures
        id == if attacker_querier { uri.id * 10 + if uri.malicious { 1int } else { 0int } } else { uri.id as int },
{
    if attacker_querier {
        let m: u64 = if uri.malicious { 1 } else { 0 };
        uri.id as u64 * 10 + m
    } else {
        uri.id as u64
    }
}

/// Whether every logged result of `querier` (a querier and the batch size
/// it aggregated) has the batch size `expected`.
pub fn batch_sizes_consistent(results: &Vec<(Uri, usize)>, querier: Uri, expected: u64) -> (ok: bool)
    ensures
        ok == forall|i: int| 0 <= i < results@.len() && (#[trigger] results@[i]).0 == querier ==> results@[i].1 == expected,
{
    let mut i: usize = 0;
    while i < results.len()
        invariant
            i <= results@.len(),
            forall|k: int| 0 <= k < i && (#[trigger] results@[k]).0 == querier ==> results@[k].1 == expected,
        decreases results@.len() - i,
    {
        let (q, b) = results[i];
        if q == querier && b as u64 != expected {
            return false;
        }
        i = i + 1;
    }
    true
}

} // verus!
