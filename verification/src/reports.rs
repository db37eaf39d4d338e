//! Per-querier report batches. Each querier's reports are held until as
//! many have arrived as its batch size, then released together for
//! aggregation; the release is logged under the running count of reports.

use vstd::prelude::*;

use crate::common_types::Uri;
use crate::logs::{batch_views, reason_views, DropEpochReason, DropReasonView};

verus! {

/// The reports held back so far, per querier, and the running counts.
/// `queriers[i]` owns the pending reports `pending[i]`; each report is kept
/// as the reasons why epochs were dropped from it. Only the functions below
/// change the pending reports, so they stay well formed.
pub struct ReportBatches {
    num_actions: u64,
    num_reports: u64,
    queriers: Vec<Uri>,
    pending: Vec<Vec<Vec<DropEpochReason>>>,
}

/// A full batch, released for aggregation: the reports in arrival order and
/// the running report count at the time of release.
pub struct ReleasedBatch {
    pub item_number: u64,
    pub reports: Vec<Vec<DropEpochReason>>,
}

/// The position of `q` among `queriers` (meaningful only where it occurs).
pub open spec fn slot_of(queriers: Seq<Uri>, q: Uri) -> int {
    choose|i: int| 0 <= i < queriers.len() && queriers[i] == q
}

pub proof fn lemma_slot_of(queriers: Seq<Uri>, i: int)
    requires
        queriers.no_duplicates(),
        0 <= i < queriers.len(),
    ensures
        slot_of(queriers, queriers[i]) == i,
{
    let j = slot_of(queriers, queriers[i]);
    assert(0 <= j < queriers.len() && queriers[j] == queriers[i]);
}

impl ReportBatches {
    /// The number of actions (reports) taken so far.
    pub closed spec fn actions_seen(&self) -> u64 {
        self.num_actions
    }

    /// The number of reports taken so far.
    pub closed spec fn reports_seen(&self) -> u64 {
        self.num_reports
    }

    pub fn num_actions(&self) -> (n: u64)
        ensures
            n == self.actions_seen(),
    {
        self.num_actions
    }

    pub fn num_reports(&self) -> (n: u64)
        ensures
            n == self.reports_seen(),
    {
        self.num_reports
    }

    /// Each querier owns one list of pending reports.
    pub closed spec fn wf(&self) -> bool {
        &&& self.queriers@.len() == self.pending@.len()
        &&& self.queriers@.no_duplicates()
    }

    /// The reports held back for `q`, oldest first (none if `q` was never
    /// seen).
    pub closed spec fn pending_of(&self, q: Uri) -> Seq<Seq<DropReasonView>> {
        if self.queriers@.contains(q) {
            batch_views(self.pending@[slot_of(self.queriers@, q)]@)
        } else {
            Seq::empty()
        }
    }

    /// No reports seen, none held back.
    pub fn new() -> (b: Self)
        ensures
            b.wf(),
            b.actions_seen() == 0,
            b.reports_seen() == 0,
            forall|q: Uri| #[trigger] b.pending_of(q) == Seq::<Seq<DropReasonView>>::empty(),
    {
        ReportBatches { num_actions: 0, num_reports: 0, queriers: Vec::new(), pending: Vec::new() }
    }

    /// The slot of `q`, added (with no pending reports) if it is new.
    fn slot(&mut self, q: Uri) -> (i: usize)
        requires
            old(self).wf(),
        ensures
            final(self).wf(),
            i < final(self).queriers@.len(),
            final(self).queriers@[i as int] == q,
            final(self).num_actions == old(self).num_actions,
            final(self).num_reports == old(self).num_reports,
            forall|x: Uri| #[trigger] final(self).pending_of(x) == old(self).pending_of(x),
    {
        let mut i: usize = 0;
        while i < self.queriers.len()
            invariant
                i <= self.queriers@.len(),
                *self == *old(self),
                self.wf(),
                forall|k: int| 0 <= k < i ==> self.queriers@[k] != q,
            decreases self.queriers@.len() - i,
        {
            if self.queriers[i] == q {
                return i;
            }
            i = i + 1;
        }
        let ghost before = *self;
        self.queriers.push(q);
        self.pending.push(Vec::new());
        proof {
            assert(!before.queriers@.contains(q));
            assert forall|x: Uri| #[trigger] self.pending_of(x) == before.pending_of(x) by {
                if before.queriers@.contains(x) {
                    let k = slot_of(before.queriers@, x);
                    assert(self.queriers@[k] == x);
                    lemma_slot_of(self.queriers@, k);
                    lemma_slot_of(before.queriers@, k);
                    assert(self.queriers@.contains(x));
                } else if x == q {
                    let n = before.queriers@.len() as int;
                    assert(self.queriers@[n] == q);
                    lemma_slot_of(self.queriers@, n);
                    assert(batch_views(self.pending@[n]@) =~= Seq::empty());
                } else {
                    assert(!self.queriers@.contains(x));
                }
            }
        }
        i
    }

    /// How many reports are held back for `q`.
    pub fn pending_count(&self, q: Uri) -> (n: usize)
        requires
            self.wf(),
        ensures
            n == self.pending_of(q).len(),
    {
        let mut i: usize = 0;
        while i < self.queriers.len()
            invariant
                i <= self.queriers@.len(),
                self.wf(),
                forall|k: int| 0 <= k < i ==> self.queriers@[k] != q,
            decreases self.queriers@.len() - i,
        {
            if self.queriers[i] == q {
                proof {
                    lemma_slot_of(self.queriers@, i as int);
                    assert(self.queriers@.contains(q));
                }
                return self.pending[i].len();
            }
            i = i + 1;
        }
        0
    }

    /// Takes one report for `querier` and its dropped-epoch reasons. The
    /// report joins the querier's pending ones; once `batch_size` or more
    /// are pending, they are all released, in arrival order, under the new
    /// running count, and the querier starts afresh. No report is lost or
    /// repeated: what is released, followed by what stays pending, is what
    /// was pending followed by the new report.
    pub fn process_report(&mut self, querier: Uri, dropped: Vec<DropEpochReason>, batch_size: usize)
        -> (released: Option<ReleasedBatch>)
        requires
            old(self).wf(),
            old(self).actions_seen() < u64::MAX,
            old(self).reports_seen() < u64::MAX,
        ensures
            final(self).wf(),
            final(self).actions_seen() == old(self).actions_seen() + 1,
            final(self).reports_seen() == old(self).reports_seen() + 1,
            ({
                let all = old(self).pending_of(querier).push(reason_views(dropped@));
                if all.len() >= batch_size {
                    &&& released is Some
                    &&& released->0.item_number == final(self).actions_seen()
                    &&& batch_views(released->0.reports@) == all
                    &&& final(self).pending_of(querier) == Seq::<Seq<DropReasonView>>::empty()
                } else {
                    &&& released is None
                    &&& final(self).pending_of(querier) == all
                }
            }),
            (match released {
                Some(r) => batch_views(r.reports@),
                None => Seq::<Seq<DropReasonView>>::empty(),
            }) + final(self).pending_of(querier) == old(self).pending_of(querier).push(reason_views(dropped@)),
            forall|q: Uri| q != querier ==> #[trigger] final(self).pending_of(q) == old(self).pending_of(q),
    {
        let ghost start = *self;
        self.num_actions = self.num_actions + 1;
        self.num_reports = self.num_reports + 1;
        let i = self.slot(querier);
        let ghost mid = *self;
        proof {
            lemma_slot_of(mid.queriers@, i as int);
            assert(mid.queriers@.contains(querier));
            assert(mid.pending_of(querier) == batch_views(mid.pending@[i as int]@));
        }
        let mut reports: Vec<Vec<DropEpochReason>> = Vec::new();
        self.pending.set_and_swap(i, &mut reports);
        let ghost old_view = batch_views(reports@);
        assert(old_view == start.pending_of(querier));
        reports.push(dropped);
        let ghost all = batch_views(reports@);
        assert(all =~= start.pending_of(querier).push(reason_views(dropped@)));
        let released = if reports.len() >= batch_size {
            Some(ReleasedBatch { item_number: self.num_actions, reports })
        } else {
            self.pending.set(i, reports);
            None
        };
        proof {
            lemma_slot_of(self.queriers@, i as int);
            assert forall|q: Uri| q != querier implies #[trigger] self.pending_of(q) == start.pending_of(q) by {
                assert(self.pending_of(q) == mid.pending_of(q)) by {
                    if self.queriers@.contains(q) {
                        let k = slot_of(self.queriers@, q);
                        assert(k != i);
                    }
                }
            }
            if released is Some {
                assert(batch_views(self.pending@[i as int]@) =~= Seq::empty());
                assert(all + Seq::<Seq<DropReasonView>>::empty() =~= all);
            } else {
                assert(Seq::<Seq<DropReasonView>>::empty() + all =~= all);
            }
        }
        released
    }
}

} // verus!
