//! Attributing dropped reports to the filter that caused them.

use vstd::prelude::*;

use crate::common_types::FilterId;

verus! {

/// Why an epoch was left out of a report.
#[derive(Debug, Clone, PartialEq, Eq)]
pub enum DropEpochReason {
    /// The action already touched as many sites as the domain cap allows.
    CountQuotaExceeded,
    /// These filters did not have enough budget left.
    OutOfBudget(Vec<FilterId>),
}

pub enum DropReasonView {
    CountQuotaExceeded,
    OutOfBudget(Seq<FilterId>),
}

impl View for DropEpochReason {
    type V = DropReasonView;

    open spec fn view(&self) -> DropReasonView {
        match self {
            DropEpochReason::CountQuotaExceeded => DropReasonView::CountQuotaExceeded,
            DropEpochReason::OutOfBudget(f) => DropReasonView::OutOfBudget(f@),
        }
    }
}

/// The single cause a dropped report is attributed to.
#[derive(Debug, Clone, Copy, PartialEq, Eq, Structural)]
pub enum DropCategory {
    /// The domain cap (count quota).
    QuotaCount,
    /// A querier's own budget.
    PerQuerier,
    /// The device-wide budget.
    Global,
    /// An impression site's quota.
    SourceQuota,
    /// A conversion site's quota.
    TriggerQuota,
}

pub open spec fn reason_views(reasons: Seq<DropEpochReason>) -> Seq<DropReasonView> {
    reasons.map_values(|r: DropEpochReason| r@)
}

/// Whether the reason blames a filter of the kind of `cat`.
pub open spec fn names_kind(r: DropReasonView, cat: DropCategory) -> bool {
    match r {
        DropReasonView::OutOfBudget(f) => exists|j: int| 0 <= j < f.len() && #[trigger] filter_category(f[j]) == cat,
        DropReasonView::CountQuotaExceeded => false,
    }
}

/// The cause a filter stands for.
pub open spec fn filter_category(f: FilterId) -> DropCategory {
    match f {
        FilterId::PerQuerier(_, _) => DropCategory::PerQuerier,
        FilterId::Global(_) => DropCategory::Global,
        FilterId::TriggerQuota(_, _) => DropCategory::TriggerQuota,
        FilterId::SourceQuota(_, _) => DropCategory::SourceQuota,
    }
}

/// Whether some reason blames a filter of the kind of `cat`.
pub open spec fn names_filter(reasons: Seq<DropReasonView>, cat: DropCategory) -> bool {
    exists|i: int| 0 <= i < reasons.len() && #[trigger] names_kind(reasons[i], cat)
}

/// The cause a report with these dropped epochs is attributed to: none when
/// no epoch was dropped; otherwise the domain cap if it struck, else the
/// first filter kind, in the order querier budget, global budget, impression
/// quota, conversion quota, that some dropped epoch names.
pub open spec fn report_category(reasons: Seq<DropReasonView>) -> Option<DropCategory> {
    if reasons.len() == 0 {
        None
    } else if exists|i: int| 0 <= i < reasons.len() && #[trigger] reasons[i] is CountQuotaExceeded {
        Some(DropCategory::QuotaCount)
    } else if names_filter(reasons, DropCategory::PerQuerier) {
        Some(DropCategory::PerQuerier)
    } else if names_filter(reasons, DropCategory::Global) {
        Some(DropCategory::Global)
    } else if names_filter(reasons, DropCategory::SourceQuota) {
        Some(DropCategory::SourceQuota)
    } else if names_filter(reasons, DropCategory::TriggerQuota) {
        Some(DropCategory::TriggerQuota)
    } else {
        None
    }
}

/// The place of a cause in the attribution order: domain cap, querier
/// budget, global budget, impression quota, conversion quota.
pub open spec fn cause_priority(cat: DropCategory) -> int {
    match cat {
        DropCategory::QuotaCount => 0,
        DropCategory::PerQuerier => 1,
        DropCategory::Global => 2,
        DropCategory::SourceQuota => 3,
        DropCategory::TriggerQuota => 4,
    }
}

/// Whether some dropped epoch names the cause: the domain cap for
/// `QuotaCount`, a filter of that kind otherwise.
pub open spec fn names_cause(reasons: Seq<DropReasonView>, cat: DropCategory) -> bool {
    match cat {
        DropCategory::QuotaCount => exists|i: int| 0 <= i < reasons.len() && #[trigger] reasons[i] is CountQuotaExceeded,
        _ => names_filter(reasons, cat),
    }
}

/// A report is blamed on a cause exactly when one of its dropped epochs
/// names it and none names a cause earlier in the order domain cap, querier
/// budget, global budget, impression quota, conversion quota; a report
/// whose dropped epochs name no cause is blamed on none.
pub proof fn law_report_blamed_on_first_named_cause(reasons: Seq<DropReasonView>, cat: DropCategory)
    ensures
        report_category(reasons) == Some(cat) <==> (names_cause(reasons, cat)
            && forall|other: DropCategory| cause_priority(other) < cause_priority(cat) ==> !#[trigger] names_cause(reasons, other)),
        report_category(reasons) is None <==> forall|other: DropCategory| !#[trigger] names_cause(reasons, other),
{
    let q = names_cause(reasons, DropCategory::QuotaCount);
    let n = names_cause(reasons, DropCategory::PerQuerier);
    let g = names_cause(reasons, DropCategory::Global);
    let si = names_cause(reasons, DropCategory::SourceQuota);
    let t = names_cause(reasons, DropCategory::TriggerQuota);
    if reasons.len() == 0 {
        assert(!q);
        assert(!n && !g && !si && !t);
    }
    assert forall|other: DropCategory| #![trigger names_cause(reasons, other)]
        names_cause(reasons, other) == match other {
            DropCategory::QuotaCount => q,
            DropCategory::PerQuerier => n,
            DropCategory::Global => g,
            DropCategory::SourceQuota => si,
            DropCategory::TriggerQuota => t,
        } by {}
}

/// Adding a report to a batch adds one to `dropped` when it had epochs
/// dropped, and one to the counter of the cause it is blamed on (`qcount`
/// for the domain cap, `nc` the querier budget, `c` the global budget,
/// `qimp` the impression quota, `qconv` the conversion quota), and leaves
/// the other counters as they were.
pub proof fn law_each_report_counts_once(batch: Seq<Seq<DropReasonView>>, report: Seq<DropReasonView>)
    requires
        batch.len() < u64::MAX,
    ensures ({
        let before = spec_dropped_counts(batch);
        let after = spec_dropped_counts(batch.push(report));
        let cat = report_category(report);
        &&& after.dropped == before.dropped + if report.len() > 0 { 1int } else { 0int }
        &&& after.qcount == before.qcount + if cat == Some(DropCategory::QuotaCount) { 1int } else { 0int }
        &&& after.nc == before.nc + if cat == Some(DropCategory::PerQuerier) { 1int } else { 0int }
        &&& after.c == before.c + if cat == Some(DropCategory::Global) { 1int } else { 0int }
        &&& after.qimp == before.qimp + if cat == Some(DropCategory::SourceQuota) { 1int } else { 0int }
        &&& after.qconv == before.qconv + if cat == Some(DropCategory::TriggerQuota) { 1int } else { 0int }
    }),
{
    let b2 = batch.push(report);
    assert(b2.drop_last() =~= batch);
    lemma_counts_bounded(b2, DropCategory::QuotaCount);
    lemma_counts_bounded(b2, DropCategory::PerQuerier);
    lemma_counts_bounded(b2, DropCategory::Global);
    lemma_counts_bounded(b2, DropCategory::SourceQuota);
    lemma_counts_bounded(b2, DropCategory::TriggerQuota);
    lemma_counts_bounded(batch, DropCategory::QuotaCount);
    lemma_counts_bounded(batch, DropCategory::PerQuerier);
    lemma_counts_bounded(batch, DropCategory::Global);
    lemma_counts_bounded(batch, DropCategory::SourceQuota);
    lemma_counts_bounded(batch, DropCategory::TriggerQuota);
}

/// How many of the reports had dropped epochs, and how many of those are
/// attributed to each cause.
#[derive(Debug, Clone, Copy, PartialEq, Eq, Structural)]
pub struct DroppedCounts {
    pub dropped: u64,
    pub nc: u64,
    pub c: u64,
    pub qconv: u64,
    pub qimp: u64,
    pub qcount: u64,
}

pub open spec fn batch_views(batch: Seq<Vec<DropEpochReason>>) -> Seq<Seq<DropReasonView>> {
    batch.map_values(|r: Vec<DropEpochReason>| reason_views(r@))
}

/// The number of reports with dropped epochs.
pub open spec fn count_dropped(batch: Seq<Seq<DropReasonView>>) -> nat
    decreases batch.len(),
{
    if batch.len() == 0 {
        0
    } else {
        count_dropped(batch.drop_last()) + if batch.last().len() > 0 { 1nat } else { 0nat }
    }
}

/// The number of reports attributed to `cat`.
pub open spec fn count_category(batch: Seq<Seq<DropReasonView>>, cat: DropCategory) -> nat
    decreases batch.len(),
{
    if batch.len() == 0 {
        0
    } else {
        count_category(batch.drop_last(), cat) + if report_category(batch.last()) == Some(cat) { 1nat } else { 0nat }
    }
}

pub proof fn lemma_counts_bounded(batch: Seq<Seq<DropReasonView>>, cat: DropCategory)
    ensures
        count_dropped(batch) <= batch.len(),
        count_category(batch, cat) <= batch.len(),
    decreases batch.len(),
{
    if batch.len() > 0 {
        lemma_counts_bounded(batch.drop_last(), cat);
    }
}

/// Every report that had epochs dropped can be attributed to a cause.
pub open spec fn all_attributable(batch: Seq<Seq<DropReasonView>>) -> bool {
    forall|i: int| 0 <= i < batch.len() && (#[trigger] batch[i]).len() > 0 ==> report_category(batch[i]) is Some
}

pub open spec fn spec_dropped_counts(batch: Seq<Seq<DropReasonView>>) -> DroppedCounts {
    DroppedCounts {
        dropped: count_dropped(batch) as u64,
        nc: count_category(batch, DropCategory::PerQuerier) as u64,
        c: count_category(batch, DropCategory::Global) as u64,
        qconv: count_category(batch, DropCategory::TriggerQuota) as u64,
        qimp: count_category(batch, DropCategory::SourceQuota) as u64,
        qcount: count_category(batch, DropCategory::QuotaCount) as u64,
    }
}

pub proof fn lemma_names_filter_extend(rv: Seq<DropReasonView>, i: int, cat: DropCategory)
    requires
        0 <= i < rv.len(),
    ensures
        names_filter(rv.subrange(0, i + 1), cat) == (names_filter(rv.subrange(0, i), cat) || names_kind(rv[i], cat)),
{
    let a = rv.subrange(0, i);
    let b = rv.subrange(0, i + 1);
    if names_filter(b, cat) {
        let k = choose|k: int| 0 <= k < b.len() && #[trigger] names_kind(b[k], cat);
        if k < i {
            assert(names_kind(a[k], cat));
        }
    }
    if names_filter(a, cat) {
        let k = choose|k: int| 0 <= k < a.len() && #[trigger] names_kind(a[k], cat);
        assert(names_kind(b[k], cat));
    }
    if names_kind(rv[i], cat) {
        assert(names_kind(b[i], cat));
    }
}

pub proof fn lemma_filter_exists_extend(fv: Seq<FilterId>, j: int, cat: DropCategory)
    requires
        0 <= j < fv.len(),
    ensures
        (exists|x: int| 0 <= x < j + 1 && #[trigger] filter_category(fv[x]) == cat) ==
            ((exists|x: int| 0 <= x < j && #[trigger] filter_category(fv[x]) == cat) || filter_category(fv[j]) == cat),
{
}

fn category_of(f: &FilterId) -> (cat: DropCategory)
    ensures
        cat == filter_category(*f),
{
    match f {
        FilterId::PerQuerier(_, _) => DropCategory::PerQuerier,
        FilterId::Global(_) => DropCategory::Global,
        FilterId::TriggerQuota(_, _) => DropCategory::TriggerQuota,
        FilterId::SourceQuota(_, _) => DropCategory::SourceQuota,
    }
}

/// The cause of one report's dropped epochs.
fn categorize(reasons: &Vec<DropEpochReason>) -> (cat: Option<DropCategory>)
    ensures
        cat == report_category(reason_views(reasons@)),
{
    let ghost rv = reason_views(reasons@);
    if reasons.len() == 0 {
        return None;
    }
    let mut qcount = false;
    let mut nc = false;
    let mut c = false;
    let mut qimp = false;
    let mut qconv = false;
    let mut i: usize = 0;
    while i < reasons.len()
        invariant
            i <= reasons.len(),
            rv == reason_views(reasons@),
            qcount == exists|k: int| 0 <= k < i && #[trigger] rv[k] is CountQuotaExceeded,
            nc == names_filter(rv.subrange(0, i as int), DropCategory::PerQuerier),
            c == names_filter(rv.subrange(0, i as int), DropCategory::Global),
            qimp == names_filter(rv.subrange(0, i as int), DropCategory::SourceQuota),
            qconv == names_filter(rv.subrange(0, i as int), DropCategory::TriggerQuota),
        decreases reasons.len() - i,
    {
        assert(rv[i as int] == reasons@[i as int]@);
        proof {
            lemma_names_filter_extend(rv, i as int, DropCategory::PerQuerier);
            lemma_names_filter_extend(rv, i as int, DropCategory::Global);
            lemma_names_filter_extend(rv, i as int, DropCategory::SourceQuota);
            lemma_names_filter_extend(rv, i as int, DropCategory::TriggerQuota);
        }
        match &reasons[i] {
            DropEpochReason::CountQuotaExceeded => {
                qcount = true;
            },
            DropEpochReason::OutOfBudget(filters) => {
                let ghost fv = filters@;
                let mut j: usize = 0;
                let ghost (nc0, c0, qimp0, qconv0) = (nc, c, qimp, qconv);
                assert(rv[i as int] == DropReasonView::OutOfBudget(fv));
                while j < filters.len()
                    invariant
                        j <= filters.len(),
                        fv == filters@,
                        nc == (nc0 || exists|x: int| 0 <= x < j && #[trigger] filter_category(fv[x]) == DropCategory::PerQuerier),
                        c == (c0 || exists|x: int| 0 <= x < j && #[trigger] filter_category(fv[x]) == DropCategory::Global),
                        qimp == (qimp0 || exists|x: int| 0 <= x < j && #[trigger] filter_category(fv[x]) == DropCategory::SourceQuota),
                        qconv == (qconv0 || exists|x: int| 0 <= x < j && #[trigger] filter_category(fv[x]) == DropCategory::TriggerQuota),
                    decreases filters.len() - j,
                {
                    let cat = category_of(&filters[j]);
                    proof {
                        lemma_filter_exists_extend(fv, j as int, DropCategory::PerQuerier);
                        lemma_filter_exists_extend(fv, j as int, DropCategory::Global);
                        lemma_filter_exists_extend(fv, j as int, DropCategory::SourceQuota);
                        lemma_filter_exists_extend(fv, j as int, DropCategory::TriggerQuota);
                    }
                    if cat == DropCategory::PerQuerier {
                        nc = true;
                    } else if cat == DropCategory::Global {
                        c = true;
                    } else if cat == DropCategory::TriggerQuota {
                        qconv = true;
                    } else if cat == DropCategory::SourceQuota {
                        qimp = true;
                    }
                    j = j + 1;
                }
            },
        }
        i = i + 1;
    }
    assert(rv.subrange(0, reasons.len() as int) =~= rv);
    if qcount {
        Some(DropCategory::QuotaCount)
    } else if nc {
        Some(DropCategory::PerQuerier)
    } else if c {
        Some(DropCategory::Global)
    } else if qimp {
        Some(DropCategory::SourceQuota)
    } else if qconv {
        Some(DropCategory::TriggerQuota)
    } else {
        None
    }
}

/// Counts, over a batch of reports, those with dropped epochs, and
/// attributes each to a single cause (the domain cap first, then the
/// querier's budget, the global budget, the impression quota and the
/// conversion quota).
pub fn process_dropped_epochs(batch_dropped_epochs: &Vec<Vec<DropEpochReason>>) -> (counts: DroppedCounts)
    requires
        all_attributable(batch_views(batch_dropped_epochs@)),
    ensures
        counts == spec_dropped_counts(batch_views(batch_dropped_epochs@)),
        counts.dropped == counts.nc + counts.c + counts.qconv + counts.qimp + counts.qcount,
{
    let ghost bv = batch_views(batch_dropped_epochs@);
    let mut counts = DroppedCounts { dropped: 0, nc: 0, c: 0, qconv: 0, qimp: 0, qcount: 0 };
    let mut i: usize = 0;
    while i < batch_dropped_epochs.len()
        invariant
            i <= batch_dropped_epochs.len(),
            bv == batch_views(batch_dropped_epochs@),
            all_attributable(bv),
            counts == spec_dropped_counts(bv.subrange(0, i as int)),
            counts.dropped <= i,
            counts.dropped == counts.nc + counts.c + counts.qconv + counts.qimp + counts.qcount,
        decreases batch_dropped_epochs.len() - i,
    {
        let reasons = &batch_dropped_epochs[i];
        let ghost prefix = bv.subrange(0, i as int);
        let ghost next = bv.subrange(0, i + 1);
        assert(next.drop_last() =~= prefix);
        assert(next.last() == bv[i as int]);
        assert(bv[i as int] == reason_views(reasons@));
        proof {
            lemma_counts_bounded(prefix, DropCategory::QuotaCount);
            lemma_counts_bounded(prefix, DropCategory::PerQuerier);
            lemma_counts_bounded(prefix, DropCategory::Global);
            lemma_counts_bounded(prefix, DropCategory::SourceQuota);
            lemma_counts_bounded(prefix, DropCategory::TriggerQuota);
        }
        if reasons.len() > 0 {
            let cat = categorize(reasons);
            assert(cat is Some);
            counts.dropped = counts.dropped + 1;
            match cat {
                Some(DropCategory::QuotaCount) => { counts.qcount = counts.qcount + 1; },
                Some(DropCategory::PerQuerier) => { counts.nc = counts.nc + 1; },
                Some(DropCategory::Global) => { counts.c = counts.c + 1; },
                Some(DropCategory::SourceQuota) => { counts.qimp = counts.qimp + 1; },
                Some(DropCategory::TriggerQuota) => { counts.qconv = counts.qconv + 1; },
                None => {},
            }
        } else {
            assert(report_category(bv[i as int]) is None);
        }
        i = i + 1;
    }
    assert(bv.subrange(0, batch_dropped_epochs.len() as int) =~= bv);
    counts
}

/// The dropped-report counts of a batch, or `None` when some report with
/// dropped epochs cannot be attributed to any cause.
pub fn checked_dropped_counts(batch_dropped_epochs: &Vec<Vec<DropEpochReason>>) -> (counts: Option<DroppedCounts>)
    ensures
        counts is Some <==> all_attributable(batch_views(batch_dropped_epochs@)),
        counts is Some ==> counts->0 == spec_dropped_counts(batch_views(batch_dropped_epochs@)),
{
    let ghost bv = batch_views(batch_dropped_epochs@);
    let mut i: usize = 0;
    while i < batch_dropped_epochs.len()
        invariant
            i <= batch_dropped_epochs.len(),
            bv == batch_views(batch_dropped_epochs@),
            forall|k: int| 0 <= k < i && (#[trigger] bv[k]).len() > 0 ==> report_category(bv[k]) is Some,
        decreases batch_dropped_epochs.len() - i,
    {
        let reasons = &batch_dropped_epochs[i];
        assert(bv[i as int] == reason_views(reasons@));
        if reasons.len() > 0 && categorize(reasons).is_none() {
            return None;
        }
        i = i + 1;
    }
    Some(process_dropped_epochs(batch_dropped_epochs))
}

} // verus!
