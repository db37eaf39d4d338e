//! The progress display's decisions: what each experiment's bar shows on a
//! refresh, how many experiments are queued, and which bars fit on the
//! screen.

use vstd::prelude::*;

verus! {

/// What one experiment's bar does on a refresh.
#[derive(Debug, Clone, Copy, PartialEq, Eq, Structural)]
pub enum BarStep {
    /// The experiment is finished: its bar is removed.
    Hide,
    /// The experiment has not started (no bar and no label yet).
    Wait,
    /// The bar shows `count` out of `total`.
    Show { total: usize, count: usize },
}

/// The total a bar shows: the experiment's current total, raised to the
/// count if the count ran past a non-zero total.
pub open spec fn shown_total(total: usize, count: usize) -> usize {
    if total > 0 && count > total { count } else { total }
}

/// One experiment's bar on a refresh: a finished experiment's bar is
/// removed; an experiment with neither a bar nor a label waits; otherwise
/// the bar shows the current count out of the current total, the total
/// raised to the count if the count ran past it.
pub fn bar_step(finished: bool, has_bar: bool, has_desc: bool, total: usize, count: usize) -> (step: BarStep)
    ensures
        finished ==> step == BarStep::Hide,
        !finished && !has_bar && !has_desc ==> step == BarStep::Wait,
        !finished && (has_bar || has_desc) ==> step == (BarStep::Show { total: shown_total(total, count), count }),
{
    if finished {
        BarStep::Hide
    } else if !has_bar && !has_desc {
        BarStep::Wait
    } else if total > 0 && count > total {
        BarStep::Show { total: count, count }
    } else {
        BarStep::Show { total, count }
    }
}

/// The experiments neither finished nor running: `total - (finished +
/// running)`, or 0 if that is negative.
pub fn queued_experiments(total: usize, finished: usize, running: usize) -> (queued: usize)
    requires
        finished + running <= usize::MAX,
    ensures
        queued == if finished + running <= total { total - (finished + running) } else { 0 },
        finished + running <= total ==> queued + finished + running == total,
{
    total.saturating_sub(finished + running)
}

/// Lines kept free around the bars: a top offset, the header, the total bar
/// and a line for the cursor, plus one for the current output's name.
pub open spec fn safety_lines(has_suffix: bool) -> int {
    if has_suffix { 5 } else { 4 }
}

/// The positions of the first `k` present bars, in order.
pub open spec fn first_present(present: Seq<bool>, k: int) -> Seq<usize>
    decreases present.len(),
{
    if present.len() == 0 || k <= 0 {
        Seq::empty()
    } else {
        let rest = first_present(present.drop_last(), k);
        if present.last() && rest.len() < k {
            rest.push((present.len() - 1) as usize)
        } else {
            rest
        }
    }
}

/// Which bars fit on a screen of `rows` lines: none if the screen is no
/// taller than the lines kept free; otherwise the first present bars, in
/// order, as many as there are lines left.
pub fn visible_bars(rows: usize, has_suffix: bool, present: &Vec<bool>) -> (shown: Option<Vec<usize>>)
    ensures
        rows <= safety_lines(has_suffix) ==> shown is None,
        rows > safety_lines(has_suffix) ==> (shown matches Some(v) && v@ == first_present(present@, rows - safety_lines(has_suffix))),
        shown matches Some(v) ==> {
            &&& v@.len() <= rows - safety_lines(has_suffix)
            &&& forall|j: int| 0 <= j < v@.len() ==> (#[trigger] v@[j]) < present@.len() && present@[v@[j] as int]
            &&& forall|i: int, j: int| 0 <= i < j < v@.len() ==> #[trigger] v@[i] < #[trigger] v@[j]
        },
{
    let safety: usize = if has_suffix { 5 } else { 4 };
    if rows <= safety {
        return None;
    }
    let slots = rows - safety;
    let mut shown: Vec<usize> = Vec::new();
    let mut i: usize = 0;
    while i < present.len()
        invariant
            i <= present@.len(),
            shown@ == first_present(present@.subrange(0, i as int), slots as int),
            shown@.len() <= slots,
        decreases present@.len() - i,
    {
        assert(present@.subrange(0, i + 1).drop_last() =~= present@.subrange(0, i as int));
        if shown.len() < slots && present[i] {
            shown.push(i);
        }
        i = i + 1;
    }
    assert(present@.subrange(0, present@.len() as int) =~= present@);
    proof {
        lemma_first_present(present@, slots as int);
    }
    Some(shown)
}

/// The bars shown fit in the lines left, each is a present bar, and they
/// come in screen order.
pub proof fn lemma_first_present(present: Seq<bool>, k: int)
    requires
        present.len() <= usize::MAX,
    ensures
        first_present(present, k).len() <= if k < 0 { 0 } else { k },
        forall|j: int| 0 <= j < first_present(present, k).len() ==> {
            &&& (#[trigger] first_present(present, k)[j]) < present.len()
            &&& present[first_present(present, k)[j] as int]
        },
        forall|i: int, j: int| 0 <= i < j < first_present(present, k).len() ==>
            #[trigger] first_present(present, k)[i] < #[trigger] first_present(present, k)[j],
    decreases present.len(),
{
    if present.len() > 0 && k > 0 {
        let p = present.drop_last();
        lemma_first_present(p, k);
        let rest = first_present(p, k);
        let fp = first_present(present, k);
        let n = present.len() as int;
        assert forall|j: int| 0 <= j < rest.len() implies present[rest[j] as int] by {
            assert(present[rest[j] as int] == p[rest[j] as int]);
        }
        if present.last() && rest.len() < k {
            assert(fp == rest.push((n - 1) as usize));
            assert forall|j: int| 0 <= j < fp.len() implies (#[trigger] fp[j]) < present.len() && present[fp[j] as int] by {
                if j < rest.len() {
                    assert(fp[j] == rest[j]);
                } else {
                    assert(fp[j] == (n - 1) as usize);
                }
            }
            assert forall|i: int, j: int| 0 <= i < j < fp.len() implies #[trigger] fp[i] < #[trigger] fp[j] by {
                assert(fp[i] == rest[i]);
                if j < rest.len() {
                    assert(fp[j] == rest[j]);
                } else {
                    assert(fp[j] == (n - 1) as usize);
                }
            }
        } else {
            assert(fp == rest);
        }
    }
}

} // verus!
