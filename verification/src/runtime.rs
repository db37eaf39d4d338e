//! The decisions of the online runtime: how devices are spread over worker
//! threads, which actions each worker gets, when a worker forgets old
//! epochs, and in which order the workers' reports are logged.

use std::collections::HashMap;
use vstd::prelude::*;

use crate::common_types::{DeviceId, EpochId};
use crate::dataset::LazyAction;
use crate::querier::REPORT_REQUEST_EPOCH_WINDOW;
use crate::sorting::{sort_by_count_desc, sorted_by_count_desc};

verus! {

broadcast use vstd::std_specs::hash::group_hash_axioms;

/// The first index holding the least value of a non-empty sequence.
pub open spec fn first_min(loads: Seq<int>) -> int
    decreases loads.len(),
{
    if loads.len() <= 1 {
        0
    } else {
        let m = first_min(loads.drop_last());
        if loads.last() < loads[m] {
            loads.len() - 1
        } else {
            m
        }
    }
}

pub proof fn lemma_first_min(loads: Seq<int>)
    requires
        loads.len() > 0,
    ensures
        0 <= first_min(loads) < loads.len(),
        forall|i: int| 0 <= i < loads.len() ==> loads[first_min(loads)] <= #[trigger] loads[i],
        forall|i: int| 0 <= i < first_min(loads) ==> loads[first_min(loads)] < #[trigger] loads[i],
    decreases loads.len(),
{
    if loads.len() > 1 {
        let p = loads.drop_last();
        lemma_first_min(p);
        assert forall|i: int| 0 <= i < loads.len() - 1 implies p[i] == loads[i] by {}
    }
}

/// The thread loads after greedily placing the first `k` items, each on the
/// least loaded thread (the first one among equals).
pub open spec fn lpt_loads(items: Seq<(u64, usize)>, num_threads: nat, k: nat) -> Seq<int>
    decreases k,
{
    if k == 0 {
        Seq::new(num_threads, |t: int| 0int)
    } else {
        let prev = lpt_loads(items, num_threads, (k - 1) as nat);
        let t = first_min(prev);
        prev.update(t, prev[t] + items[k - 1].1)
    }
}

/// The thread the `k`-th item is placed on.
pub open spec fn lpt_thread(items: Seq<(u64, usize)>, num_threads: nat, k: nat) -> int {
    first_min(lpt_loads(items, num_threads, k))
}

/// The counts of the first `k` items, summed.
pub open spec fn total_count(items: Seq<(u64, usize)>, k: int) -> int
    decreases k,
{
    if k <= 0 {
        0
    } else {
        total_count(items, k - 1) + items[k - 1].1
    }
}

pub open spec fn sum_loads(loads: Seq<int>) -> int
    decreases loads.len(),
{
    if loads.len() == 0 {
        0
    } else {
        sum_loads(loads.drop_last()) + loads.last()
    }
}

pub proof fn lemma_sum_loads_update(loads: Seq<int>, t: int, v: int)
    requires
        0 <= t < loads.len(),
    ensures
        sum_loads(loads.update(t, v)) == sum_loads(loads) - loads[t] + v,
    decreases loads.len(),
{
    if t < loads.len() - 1 {
        assert(loads.update(t, v).drop_last() =~= loads.drop_last().update(t, v));
        lemma_sum_loads_update(loads.drop_last(), t, v);
    } else {
        assert(loads.update(t, v).drop_last() =~= loads.drop_last());
    }
}

pub proof fn lemma_sum_zero(n: nat)
    ensures
        sum_loads(Seq::new(n, |t: int| 0int)) == 0,
    decreases n,
{
    if n > 0 {
        assert(Seq::new(n, |t: int| 0int).drop_last() =~= Seq::new((n - 1) as nat, |t: int| 0int));
        lemma_sum_zero((n - 1) as nat);
    }
}

/// The largest count among the first `k` items (0 for none).
pub open spec fn max_count(items: Seq<(u64, usize)>, k: int) -> int
    decreases k,
{
    if k <= 0 {
        0
    } else {
        let m = max_count(items, k - 1);
        if items[k - 1].1 > m { items[k - 1].1 as int } else { m }
    }
}

/// Greedy placement keeps the threads balanced: after any prefix of items,
/// every load is non-negative, the loads add up to the items' total count,
/// and no thread carries more than any other plus the largest single count.
/// This holds whatever the order of the items.
pub proof fn lemma_lpt_balanced(items: Seq<(u64, usize)>, num_threads: nat, k: nat)
    requires
        num_threads > 0,
        k <= items.len(),
    ensures
        lpt_loads(items, num_threads, k).len() == num_threads,
        sum_loads(lpt_loads(items, num_threads, k)) == total_count(items, k as int),
        forall|i: int| 0 <= i < num_threads ==> #[trigger] lpt_loads(items, num_threads, k)[i] >= 0,
        forall|i: int, j: int| 0 <= i < num_threads && 0 <= j < num_threads ==>
            #[trigger] lpt_loads(items, num_threads, k)[i] <= #[trigger] lpt_loads(items, num_threads, k)[j] + max_count(items, k as int),
    decreases k,
{
    if k == 0 {
        lemma_sum_zero(num_threads);
    } else {
        let kp = (k - 1) as nat;
        lemma_lpt_balanced(items, num_threads, kp);
        let prev = lpt_loads(items, num_threads, kp);
        lemma_first_min(prev);
        let t = first_min(prev);
        lemma_sum_loads_update(prev, t, prev[t] + items[kp as int].1);
        let cur = lpt_loads(items, num_threads, k);
        assert(cur == prev.update(t, prev[t] + items[kp as int].1));
        assert forall|i: int, j: int| 0 <= i < num_threads && 0 <= j < num_threads implies
            #[trigger] cur[i] <= #[trigger] cur[j] + max_count(items, k as int) by {
            assert(prev[t] <= prev[j]);
            assert(prev[i] <= prev[j] + max_count(items, kp as int));
        }
    }
}

pub proof fn lemma_load_le_sum(loads: Seq<int>, t: int)
    requires
        0 <= t < loads.len(),
        forall|i: int| 0 <= i < loads.len() ==> #[trigger] loads[i] >= 0,
    ensures
        loads[t] <= sum_loads(loads),
    decreases loads.len(),
{
    if t < loads.len() - 1 {
        lemma_load_le_sum(loads.drop_last(), t);
    } else {
        lemma_sum_nonneg(loads.drop_last());
    }
}

pub proof fn lemma_sum_nonneg(loads: Seq<int>)
    requires
        forall|i: int| 0 <= i < loads.len() ==> #[trigger] loads[i] >= 0,
    ensures
        sum_loads(loads) >= 0,
    decreases loads.len(),
{
    if loads.len() > 0 {
        lemma_sum_nonneg(loads.drop_last());
    }
}

pub proof fn lemma_total_count_mono(items: Seq<(u64, usize)>, a: int, b: int)
    requires
        0 <= a <= b <= items.len(),
    ensures
        total_count(items, a) <= total_count(items, b),
    decreases b - a,
{
    if a < b {
        lemma_total_count_mono(items, a, b - 1);
    }
}

pub proof fn lemma_total_count_prefix(items: Seq<(u64, usize)>, k: int)
    requires
        0 <= k <= items.len(),
    ensures
        total_count(items.subrange(0, k), k) == total_count(items, k),
    decreases k,
{
    if k > 0 {
        assert(items.subrange(0, k).subrange(0, k - 1) =~= items.subrange(0, k - 1));
        lemma_total_count_prefix(items.subrange(0, k), k - 1);
        lemma_total_count_prefix(items, k - 1);
    }
}

pub proof fn lemma_total_count_remove(items: Seq<(u64, usize)>, i: int)
    requires
        0 <= i < items.len(),
    ensures
        total_count(items, items.len() as int) == total_count(items.remove(i), items.len() - 1) + items[i].1,
    decreases items.len(),
{
    let n = items.len() as int;
    if i == n - 1 {
        assert(items.remove(i) =~= items.subrange(0, n - 1));
        lemma_total_count_prefix(items, n - 1);
    } else {
        let p = items.drop_last();
        lemma_total_count_remove(p, i);
        assert(items.remove(i).drop_last() =~= p.remove(i));
        assert(items.remove(i).last() == items.last());
        lemma_total_count_prefix(items, n - 1);
        assert(p =~= items.subrange(0, n - 1));
        lemma_total_count_prefix(items.remove(i), n - 2);
        assert(items.remove(i).subrange(0, n - 2) =~= p.remove(i));
    }
}

/// The total count of a list of pairs does not depend on their order.
pub proof fn lemma_total_count_perm(a: Seq<(u64, usize)>, b: Seq<(u64, usize)>)
    requires
        a.to_multiset() == b.to_multiset(),
    ensures
        total_count(a, a.len() as int) == total_count(b, b.len() as int),
        a.len() == b.len(),
    decreases a.len(),
{
    broadcast use vstd::seq_lib::group_to_multiset_ensures;
    broadcast use vstd::multiset::group_multiset_axioms;
    assert(a.len() == a.to_multiset().len());
    assert(b.len() == b.to_multiset().len());
    if a.len() > 0 {
        let n = a.len() as int;
        let x = a.last();
        assert(a.to_multiset().count(x) > 0);
        assert(b.contains(x));
        let i = choose|i: int| 0 <= i < b.len() && b[i] == x;
        assert(a.remove(n - 1).to_multiset() == a.to_multiset().remove(x));
        assert(b.remove(i).to_multiset() == b.to_multiset().remove(x));
        lemma_total_count_perm(a.remove(n - 1), b.remove(i));
        lemma_total_count_remove(a, n - 1);
        lemma_total_count_remove(b, i);
    }
}

pub proof fn lemma_ids_perm_contains(a: Seq<(u64, usize)>, b: Seq<(u64, usize)>, d: u64)
    requires
        a.to_multiset() == b.to_multiset(),
    ensures
        device_ids(a).contains(d) <==> device_ids(b).contains(d),
{
    broadcast use vstd::seq_lib::group_to_multiset_ensures;
    if device_ids(a).contains(d) {
        let i = choose|i: int| 0 <= i < a.len() && device_ids(a)[i] == d;
        assert(a.contains(a[i]));
        assert(b.to_multiset().count(a[i]) > 0);
        let j = choose|j: int| 0 <= j < b.len() && b[j] == a[i];
        assert(device_ids(b)[j] == d);
    }
    if device_ids(b).contains(d) {
        let i = choose|i: int| 0 <= i < b.len() && device_ids(b)[i] == d;
        assert(b.contains(b[i]));
        assert(a.to_multiset().count(b[i]) > 0);
        let j = choose|j: int| 0 <= j < a.len() && a[j] == b[i];
        assert(device_ids(a)[j] == d);
    }
}

/// Reordering pairs with distinct keys keeps the keys distinct.
pub proof fn lemma_ids_perm_no_dups(a: Seq<(u64, usize)>, b: Seq<(u64, usize)>)
    requires
        a.to_multiset() == b.to_multiset(),
        device_ids(a).no_duplicates(),
    ensures
        device_ids(b).no_duplicates(),
{
    broadcast use vstd::seq_lib::group_to_multiset_ensures;
    broadcast use vstd::multiset::group_multiset_axioms;
    assert(a.no_duplicates()) by {
        assert forall|i: int, j: int| 0 <= i < a.len() && 0 <= j < a.len() && i != j implies a[i] != a[j] by {
            assert(device_ids(a)[i] != device_ids(a)[j]);
        }
    }
    a.lemma_multiset_has_no_duplicates();
    assert forall|p: (u64, usize)| b.to_multiset().contains(p) implies b.to_multiset().count(p) == 1 by {}
    b.lemma_multiset_has_no_duplicates_conv();
    assert forall|i: int, j: int| 0 <= i < b.len() && 0 <= j < b.len() && i != j implies
        device_ids(b)[i] != device_ids(b)[j] by {
        if b[i].0 == b[j].0 {
            assert(b.to_multiset().count(b[i]) > 0);
            let x = choose|x: int| 0 <= x < a.len() && a[x] == b[i];
            assert(b.to_multiset().count(b[j]) > 0);
            let y = choose|y: int| 0 <= y < a.len() && a[y] == b[j];
            assert(device_ids(a)[x] == device_ids(a)[y]);
        }
    }
}

pub open spec fn device_ids(counts: Seq<(u64, usize)>) -> Seq<u64> {
    counts.map_values(|p: (u64, usize)| p.0)
}

/// The items' values under `w`, summed over the first `k` items.
pub open spec fn weighted_total(items: Seq<(u64, usize)>, k: int, w: spec_fn((u64, usize)) -> int) -> int
    decreases k,
{
    if k <= 0 {
        0
    } else {
        weighted_total(items, k - 1, w) + w(items[k - 1])
    }
}

proof fn lemma_weighted_prefix(items: Seq<(u64, usize)>, k: int, w: spec_fn((u64, usize)) -> int)
    requires
        0 <= k <= items.len(),
    ensures
        weighted_total(items.subrange(0, k), k, w) == weighted_total(items, k, w),
    decreases k,
{
    if k > 0 {
        assert(items.subrange(0, k).subrange(0, k - 1) =~= items.subrange(0, k - 1));
        lemma_weighted_prefix(items.subrange(0, k), k - 1, w);
        lemma_weighted_prefix(items, k - 1, w);
    }
}

proof fn lemma_weighted_remove(items: Seq<(u64, usize)>, i: int, w: spec_fn((u64, usize)) -> int)
    requires
        0 <= i < items.len(),
    ensures
        weighted_total(items, items.len() as int, w) == weighted_total(items.remove(i), items.len() - 1, w) + w(items[i]),
    decreases items.len(),
{
    let n = items.len() as int;
    if i == n - 1 {
        assert(items.remove(i) =~= items.subrange(0, n - 1));
        lemma_weighted_prefix(items, n - 1, w);
    } else {
        let p = items.drop_last();
        lemma_weighted_remove(p, i, w);
        assert(items.remove(i).drop_last() =~= p.remove(i));
        assert(items.remove(i).last() == items.last());
        lemma_weighted_prefix(items, n - 1, w);
        assert(p =~= items.subrange(0, n - 1));
        lemma_weighted_prefix(items.remove(i), n - 2, w);
        assert(items.remove(i).subrange(0, n - 2) =~= p.remove(i));
    }
}

/// A weighted total does not depend on the order of the items.
pub proof fn lemma_weighted_perm(a: Seq<(u64, usize)>, b: Seq<(u64, usize)>, w: spec_fn((u64, usize)) -> int)
    requires
        a.to_multiset() == b.to_multiset(),
    ensures
        weighted_total(a, a.len() as int, w) == weighted_total(b, b.len() as int, w),
    decreases a.len(),
{
    broadcast use vstd::seq_lib::group_to_multiset_ensures;
    broadcast use vstd::multiset::group_multiset_axioms;
    assert(a.len() == a.to_multiset().len());
    assert(b.len() == b.to_multiset().len());
    if a.len() > 0 {
        let n = a.len() as int;
        let x = a.last();
        assert(a.to_multiset().count(x) > 0);
        assert(b.contains(x));
        let i = choose|i: int| 0 <= i < b.len() && b[i] == x;
        assert(a.remove(n - 1).to_multiset() == a.to_multiset().remove(x));
        assert(b.remove(i).to_multiset() == b.to_multiset().remove(x));
        lemma_weighted_perm(a.remove(n - 1), b.remove(i), w);
        lemma_weighted_remove(a, n - 1, w);
        lemma_weighted_remove(b, i, w);
    }
}

/// The count of a device if `assignment` pins it to thread `t`, else 0.
pub open spec fn load_weight(assignment: Map<u64, usize>, t: int) -> spec_fn((u64, usize)) -> int {
    |p: (u64, usize)| if assignment[p.0] == t { p.1 as int } else { 0int }
}

/// The load thread `t` carries under `assignment`: the action counts of the
/// devices pinned to it.
pub open spec fn thread_load(counts: Seq<(u64, usize)>, assignment: Map<u64, usize>, t: int) -> int {
    weighted_total(counts, counts.len() as int, load_weight(assignment, t))
}

/// The greedy loads are the loads of the threads the items were placed on.
proof fn lemma_lpt_loads_weighted(items: Seq<(u64, usize)>, nt: nat, k: nat, a: Map<u64, usize>, t: int)
    requires
        nt > 0,
        k <= items.len(),
        0 <= t < nt,
        forall|j: int| 0 <= j < k ==> a[#[trigger] items[j].0] == lpt_thread(items, nt, j as nat),
    ensures
        lpt_loads(items, nt, k)[t] == weighted_total(items, k as int, load_weight(a, t)),
    decreases k,
{
    if k > 0 {
        let kp = (k - 1) as nat;
        lemma_lpt_loads_weighted(items, nt, kp, a, t);
        lemma_lpt_balanced(items, nt, kp);
        let prev = lpt_loads(items, nt, kp);
        lemma_first_min(prev);
        assert(a[items[kp as int].0] == first_min(prev));
    }
}

/// The largest count bounds every count, and is one of them (or 0).
proof fn lemma_max_count_char(items: Seq<(u64, usize)>, k: int)
    requires
        0 <= k <= items.len(),
    ensures
        forall|i: int| 0 <= i < k ==> (#[trigger] items[i]).1 <= max_count(items, k),
        max_count(items, k) == 0 || exists|i: int| 0 <= i < k && (#[trigger] items[i]).1 == max_count(items, k),
        max_count(items, k) >= 0,
    decreases k,
{
    if k > 0 {
        lemma_max_count_char(items, k - 1);
    }
}

/// The largest count does not depend on the order of the items.
pub proof fn lemma_max_count_perm(a: Seq<(u64, usize)>, b: Seq<(u64, usize)>)
    requires
        a.to_multiset() == b.to_multiset(),
    ensures
        max_count(a, a.len() as int) == max_count(b, b.len() as int),
{
    broadcast use vstd::seq_lib::group_to_multiset_ensures;
    lemma_max_count_char(a, a.len() as int);
    lemma_max_count_char(b, b.len() as int);
    let ma = max_count(a, a.len() as int);
    let mb = max_count(b, b.len() as int);
    if ma != 0 {
        let i = choose|i: int| 0 <= i < a.len() && (#[trigger] a[i]).1 == ma;
        assert(a.to_multiset().count(a[i]) > 0);
        let j = choose|j: int| 0 <= j < b.len() && b[j] == a[i];
        assert(b[j].1 <= mb);
    }
    if mb != 0 {
        let i = choose|i: int| 0 <= i < b.len() && (#[trigger] b[i]).1 == mb;
        assert(b.to_multiset().count(b[i]) > 0);
        let j = choose|j: int| 0 <= j < a.len() && a[j] == b[i];
        assert(a[j].1 <= ma);
    }
}

/// Pins each device to one worker thread with longest-processing-time greedy
/// balancing: devices by non-increasing action count, each to the currently
/// least loaded thread. `counts` lists each device once with its number of
/// actions, in the order the caller's counting map yields them; devices with
/// equal counts are taken in the order the standard library's unstable sort
/// leaves them, which depends on that order.
pub fn compute_device_assignments(counts: &Vec<(DeviceId, usize)>, num_threads: usize) -> (assignment: HashMap<DeviceId, usize>)
    requires
        num_threads > 0,
        device_ids(counts@).no_duplicates(),
        total_count(counts@, counts@.len() as int) <= usize::MAX,
    ensures
        forall|d: u64| #[trigger] assignment@.contains_key(d) <==> device_ids(counts@).contains(d),
        forall|d: u64| #[trigger] assignment@.contains_key(d) ==> assignment@[d] < num_threads,
        sorted_by_count_desc(counts@).to_multiset() == counts@.to_multiset(),
        forall|i: int, j: int| 0 <= i <= j < counts@.len() ==>
            (#[trigger] sorted_by_count_desc(counts@)[i]).1 >= (#[trigger] sorted_by_count_desc(counts@)[j]).1,
        forall|k: int| 0 <= k < counts@.len() ==>
            assignment@[#[trigger] sorted_by_count_desc(counts@)[k].0]
                == lpt_thread(sorted_by_count_desc(counts@), num_threads as nat, k as nat),
        forall|t1: int, t2: int| 0 <= t1 < num_threads && 0 <= t2 < num_threads ==>
            #[trigger] thread_load(counts@, assignment@, t1)
                <= #[trigger] thread_load(counts@, assignment@, t2) + max_count(counts@, counts@.len() as int),
{
    let mut items: Vec<(DeviceId, usize)> = Vec::new();
    let mut i: usize = 0;
    while i < counts.len()
        invariant
            i <= counts.len(),
            items@ == counts@.subrange(0, i as int),
        decreases counts.len() - i,
    {
        items.push(counts[i]);
        i = i + 1;
        assert(items@ =~= counts@.subrange(0, i as int));
    }
    assert(counts@.subrange(0, counts.len() as int) =~= counts@);
    sort_by_count_desc(&mut items);
    let ghost sorted = items@;
    proof {
        lemma_total_count_perm(counts@, sorted);
        lemma_ids_perm_no_dups(counts@, sorted);
    }
    let mut loads: Vec<usize> = Vec::new();
    let mut t: usize = 0;
    while t < num_threads
        invariant
            t <= num_threads,
            loads@.len() == t,
            forall|j: int| 0 <= j < t ==> loads@[j] == 0,
        decreases num_threads - t,
    {
        loads.push(0);
        t = t + 1;
    }
    let mut assignment: HashMap<DeviceId, usize> = HashMap::new();
    let mut k: usize = 0;
    while k < items.len()
        invariant
            k <= items.len(),
            items@ == sorted,
            sorted == sorted_by_count_desc(counts@),
            sorted.len() == counts@.len(),
            device_ids(sorted).no_duplicates(),
            total_count(sorted, sorted.len() as int) <= usize::MAX,
            num_threads > 0,
            loads@.len() == num_threads,
            forall|j: int| 0 <= j < num_threads ==> loads@[j] as int == #[trigger] lpt_loads(sorted, num_threads as nat, k as nat)[j],
            forall|d: u64| #[trigger] assignment@.contains_key(d) <==> device_ids(sorted.subrange(0, k as int)).contains(d),
            forall|j: int| 0 <= j < k ==> assignment@[#[trigger] sorted[j].0] == lpt_thread(sorted, num_threads as nat, j as nat),
        decreases items.len() - k,
    {
        let (device, count) = items[k];
        let ghost prev = lpt_loads(sorted, num_threads as nat, k as nat);
        proof {
            lemma_lpt_balanced(sorted, num_threads as nat, k as nat);
            assert(prev =~= Seq::new(num_threads as nat, |j: int| loads@[j] as int));
            lemma_first_min(prev);
            lemma_total_count_mono(sorted, k + 1, sorted.len() as int);
        }
        let mut best: usize = 0;
        let mut j: usize = 1;
        while j < num_threads
            invariant
                1 <= j <= num_threads,
                loads@.len() == num_threads,
                prev.len() == num_threads,
                forall|x: int| 0 <= x < num_threads ==> loads@[x] as int == #[trigger] prev[x],
                best == first_min(prev.subrange(0, j as int)),
            decreases num_threads - j,
        {
            assert(prev.subrange(0, j + 1).drop_last() =~= prev.subrange(0, j as int));
            proof { lemma_first_min(prev.subrange(0, j as int)); }
            if loads[j] < loads[best] {
                best = j;
            }
            j = j + 1;
        }
        assert(prev.subrange(0, num_threads as int) =~= prev);
        proof {
            assert(total_count(sorted, k + 1) == total_count(sorted, k as int) + count);
            assert(loads@[best as int] as int <= sum_loads(prev)) by {
                lemma_load_le_sum(prev, best as int);
            }
        }
        assignment.insert(device, best);
        let new_load = loads[best] + count;
        loads.set(best, new_load);
        proof {
            assert(sorted.subrange(0, k + 1) =~= sorted.subrange(0, k as int).push(sorted[k as int]));
            assert(device_ids(sorted.subrange(0, k + 1)) =~= device_ids(sorted.subrange(0, k as int)).push(device));
            assert forall|x: int| 0 <= x < k implies sorted[x].0 != device by {
                assert(device_ids(sorted)[x] == sorted[x].0);
                assert(device_ids(sorted)[k as int] == device);
            }
            assert forall|d: u64| #[trigger] assignment@.contains_key(d) <==> device_ids(sorted.subrange(0, k + 1)).contains(d) by {
                vstd::seq_lib::lemma_seq_contains_after_push(device_ids(sorted.subrange(0, k as int)), device, d);
            }
        }
        k = k + 1;
    }
    proof {
        assert(sorted.subrange(0, sorted.len() as int) =~= sorted);
        assert forall|d: u64| #[trigger] assignment@.contains_key(d) <==> device_ids(counts@).contains(d) by {
            lemma_ids_perm_contains(counts@, sorted, d);
        }
        assert forall|d: u64| #[trigger] assignment@.contains_key(d) implies assignment@[d] < num_threads by {
            let x = choose|x: int| 0 <= x < sorted.len() && device_ids(sorted)[x] == d;
            assert(sorted[x].0 == d);
            lemma_lpt_balanced(sorted, num_threads as nat, x as nat);
            lemma_first_min(lpt_loads(sorted, num_threads as nat, x as nat));
        }
        let n = sorted.len() as nat;
        lemma_lpt_balanced(sorted, num_threads as nat, n);
        lemma_max_count_perm(counts@, sorted);
        assert forall|t1: int, t2: int| 0 <= t1 < num_threads && 0 <= t2 < num_threads implies
            #[trigger] thread_load(counts@, assignment@, t1)
                <= #[trigger] thread_load(counts@, assignment@, t2) + max_count(counts@, counts@.len() as int) by {
            lemma_lpt_loads_weighted(sorted, num_threads as nat, n, assignment@, t1);
            lemma_lpt_loads_weighted(sorted, num_threads as nat, n, assignment@, t2);
            lemma_weighted_perm(counts@, sorted, load_weight(assignment@, t1));
            lemma_weighted_perm(counts@, sorted, load_weight(assignment@, t2));
        }
    }
    assignment
}

/// Whether `s` is strictly increasing.
pub open spec fn strictly_increasing(s: Seq<usize>) -> bool {
    forall|i: int, j: int| 0 <= i < j < s.len() ==> s[i] < s[j]
}

/// Splits the action stream by worker thread: the `t`-th list holds, in
/// order, the positions of the actions whose device is pinned to thread
/// `t`. Every device must be pinned to an existing thread.
pub fn partition_actions(actions: &Vec<LazyAction>, assignment: &HashMap<DeviceId, usize>, num_threads: usize) -> (parts: Vec<Vec<usize>>)
    requires
        forall|i: int| 0 <= i < actions@.len() ==> #[trigger] assignment@.contains_key(actions@[i].spec_device_id()),
        forall|i: int| 0 <= i < actions@.len() ==> assignment@[#[trigger] actions@[i].spec_device_id()] < num_threads,
    ensures
        parts@.len() == num_threads,
        forall|t: int| 0 <= t < num_threads ==> strictly_increasing(#[trigger] parts@[t]@),
        forall|t: int, i: usize| 0 <= t < num_threads ==> (#[trigger] parts@[t]@.contains(i) <==>
            (i < actions@.len() && assignment@[actions@[i as int].spec_device_id()] == t)),
{
    let mut parts: Vec<Vec<usize>> = Vec::new();
    let mut t: usize = 0;
    while t < num_threads
        invariant
            t <= num_threads,
            parts@.len() == t,
            forall|x: int| 0 <= x < t ==> (#[trigger] parts@[x])@.len() == 0,
        decreases num_threads - t,
    {
        parts.push(Vec::new());
        t = t + 1;
    }
    let mut i: usize = 0;
    while i < actions.len()
        invariant
            i <= actions.len(),
            parts@.len() == num_threads,
            forall|k: int| 0 <= k < actions@.len() ==> #[trigger] assignment@.contains_key(actions@[k].spec_device_id()),
            forall|k: int| 0 <= k < actions@.len() ==> assignment@[#[trigger] actions@[k].spec_device_id()] < num_threads,
            forall|x: int| 0 <= x < num_threads ==> strictly_increasing(#[trigger] parts@[x]@),
            forall|x: int| 0 <= x < num_threads ==> forall|j: int| 0 <= j < (#[trigger] parts@[x])@.len() ==> parts@[x]@[j] < i,
            forall|x: int, k: usize| 0 <= x < num_threads ==> (#[trigger] parts@[x]@.contains(k) <==>
                (k < i && assignment@[actions@[k as int].spec_device_id()] == x)),
        decreases actions.len() - i,
    {
        let device = actions[i].device_id();
        let thread = match assignment.get(&device) {
            Some(t) => *t,
            None => 0,
        };
        let ghost old_parts = parts@;
        parts[thread].push(i);
        proof {
            assert forall|x: int| 0 <= x < num_threads implies strictly_increasing(#[trigger] parts@[x]@) by {
                if x != thread {
                    assert(parts@[x] == old_parts[x]);
                }
            }
            assert forall|x: int, k: usize| 0 <= x < num_threads implies (#[trigger] parts@[x]@.contains(k) <==>
                (k < i + 1 && assignment@[actions@[k as int].spec_device_id()] == x)) by {
                if x != thread {
                    assert(parts@[x] == old_parts[x]);
                } else {
                    vstd::seq_lib::lemma_seq_contains_after_push(old_parts[x]@, i, k);
                }
            }
        }
        i = i + 1;
    }
    parts
}

/// A report tagged with its place in the single-threaded order: the
/// position of the action that produced it, and its order among that
/// action's reports.
pub struct Keyed<T> {
    pub action_num: usize,
    pub sub_index: u32,
    pub item: T,
}

pub open spec fn key_of_report<T>(r: Keyed<T>) -> (usize, u32) {
    (r.action_num, r.sub_index)
}

pub open spec fn key_le(a: (usize, u32), b: (usize, u32)) -> bool {
    a.0 < b.0 || (a.0 == b.0 && a.1 <= b.1)
}

/// Whether the reports are in non-decreasing key order.
pub open spec fn sorted_by_report_key<T>(s: Seq<Keyed<T>>) -> bool {
    forall|i: int, j: int| 0 <= i <= j < s.len() ==> key_le(key_of_report(s[i]), key_of_report(s[j]))
}

/// Whether no two reports share a key.
pub open spec fn distinct_keys<T>(s: Seq<Keyed<T>>) -> bool {
    forall|i: int, j: int| 0 <= i < s.len() && 0 <= j < s.len() && i != j ==>
        key_of_report(s[i]) != key_of_report(s[j])
}

/// `slice::sort_by_key` with the key `(action_num, sub_index)`: a stable
/// sort, whose documentation promises a permutation of the input in
/// non-decreasing key order.
#[verifier::external_body]
pub(crate) fn sort_by_report_key<T>(reports: &mut Vec<Keyed<T>>)
    ensures
        final(reports)@.to_multiset() == old(reports)@.to_multiset(),
        sorted_by_report_key(final(reports)@),
{
    reports.sort_by_key(|r| (r.action_num, r.sub_index));
}

pub open spec fn concat_all<T>(parts: Seq<Vec<Keyed<T>>>) -> Seq<Keyed<T>>
    decreases parts.len(),
{
    if parts.len() == 0 {
        Seq::empty()
    } else {
        concat_all(parts.drop_last()) + parts.last()@
    }
}

/// Gathers the workers' reports and puts them in the single-threaded order:
/// the result holds exactly the reports the workers produced, in
/// non-decreasing `(action_num, sub_index)` order.
pub fn order_reports<T>(parts: Vec<Vec<Keyed<T>>>) -> (all: Vec<Keyed<T>>)
    ensures
        all@.to_multiset() == concat_all(parts@).to_multiset(),
        sorted_by_report_key(all@),
{
    let total_parts = parts.len();
    let mut rest = parts;
    let mut all: Vec<Keyed<T>> = Vec::new();
    proof {
        assert(rest@ =~= parts@.subrange(0, parts@.len() as int));
    }
    let ghost n = parts@.len();
    assert(n == total_parts);
    let mut reversed: Vec<Vec<Keyed<T>>> = Vec::new();
    while rest.len() > 0
        invariant
            rest@.len() + reversed@.len() == n,
            n == parts@.len(),
            forall|x: int| 0 <= x < rest@.len() ==> #[trigger] rest@[x] == parts@[x],
            forall|x: int| 0 <= x < reversed@.len() ==> #[trigger] reversed@[x] == parts@[n - 1 - x],
        decreases rest.len(),
    {
        let p = rest.pop().unwrap();
        reversed.push(p);
    }
    let mut k: usize = 0;
    while reversed.len() > 0
        invariant
            reversed@.len() + k == n,
            n == parts@.len(),
            n == total_parts,
            forall|x: int| 0 <= x < reversed@.len() ==> #[trigger] reversed@[x] == parts@[n - 1 - x],
            all@ == concat_all(parts@.subrange(0, k as int)),
        decreases reversed.len(),
    {
        let mut p = reversed.pop().unwrap();
        let ghost pv = p@;
        assert(pv == parts@[k as int]@);
        all.append(&mut p);
        proof {
            assert(parts@.subrange(0, k + 1).drop_last() =~= parts@.subrange(0, k as int));
            assert(parts@.subrange(0, k + 1).last() == parts@[k as int]);
        }
        k = k + 1;
    }
    assert(parts@.subrange(0, n as int) =~= parts@);
    sort_by_report_key(&mut all);
    all
}

/// The single-threaded order is unique: two key-sorted arrangements of the
/// same reports, no two of which share a key, are identical. Hence the
/// logged order does not depend on how the actions were spread over worker
/// threads.
pub proof fn lemma_report_order_unique<T>(a: Seq<Keyed<T>>, b: Seq<Keyed<T>>)
    requires
        a.to_multiset() == b.to_multiset(),
        sorted_by_report_key(a),
        sorted_by_report_key(b),
        distinct_keys(a),
    ensures
        a == b,
    decreases a.len(),
{
    broadcast use vstd::seq_lib::group_to_multiset_ensures;
    broadcast use vstd::multiset::group_multiset_axioms;
    assert(a.len() == a.to_multiset().len());
    assert(b.len() == b.to_multiset().len());
    if a.len() == 0 {
        assert(a =~= b);
    } else {
        assert(a.to_multiset().count(b[0]) > 0);
        let j = choose|j: int| 0 <= j < a.len() && a[j] == b[0];
        assert(b.to_multiset().count(a[0]) > 0);
        let i = choose|i: int| 0 <= i < b.len() && b[i] == a[0];
        assert(key_le(key_of_report(a[0]), key_of_report(a[j])));
        assert(key_le(key_of_report(b[0]), key_of_report(b[i])));
        assert(key_of_report(a[0]) == key_of_report(a[j]));
        assert(j == 0);
        assert(a[0] == b[0]);
        assert(a.remove(0).to_multiset() == a.to_multiset().remove(a[0]));
        assert(b.remove(0).to_multiset() == b.to_multiset().remove(b[0]));
        assert(a.remove(0) =~= a.drop_first());
        assert(b.remove(0) =~= b.drop_first());
        lemma_report_order_unique(a.drop_first(), b.drop_first());
        assert(a =~= seq![a[0]] + a.drop_first());
        assert(b =~= seq![b[0]] + b.drop_first());
    }
}

/// What a worker remembers between actions: the latest epoch it has seen,
/// and how many actions it has processed since it last reported progress.
pub struct PartitionCursor {
    pub last_epoch_id: EpochId,
    pub processed_count: usize,
}

/// The epoch a worker collects when an action of `epoch_id` arrives after
/// `last_epoch_id`: when the epoch moves forward past the report window, the
/// epoch that just left it.
pub open spec fn collected_epoch(last_epoch_id: EpochId, epoch_id: EpochId) -> Option<EpochId> {
    if epoch_id > last_epoch_id && epoch_id > REPORT_REQUEST_EPOCH_WINDOW {
        Some((epoch_id - REPORT_REQUEST_EPOCH_WINDOW) as u64)
    } else {
        None
    }
}

/// The newest epoch a worker has seen after an action of `epoch_id`.
pub open spec fn newest_epoch(last_epoch_id: EpochId, epoch_id: EpochId) -> EpochId {
    if epoch_id > last_epoch_id { epoch_id } else { last_epoch_id }
}

/// A worker collects each epoch at most once, in increasing order, and
/// always one that lies `REPORT_REQUEST_EPOCH_WINDOW` epochs behind the
/// newest epoch it has seen: of two collections on successive actions, the
/// later one is of a later epoch.
pub proof fn lemma_collections_increase(last: EpochId, e1: EpochId, e2: EpochId)
    ensures
        collected_epoch(last, e1) matches Some(a) ==> a + REPORT_REQUEST_EPOCH_WINDOW == newest_epoch(last, e1),
        collected_epoch(last, e1) is Some && collected_epoch(newest_epoch(last, e1), e2) is Some ==>
            collected_epoch(last, e1).unwrap() < collected_epoch(newest_epoch(last, e1), e2).unwrap(),
{
}

/// Actions processed between two progress reports.
pub const PROGRESS_UPDATE_FREQ: usize = 4096;

impl PartitionCursor {
    pub fn new() -> (c: Self)
        ensures
            c.last_epoch_id == 0,
            c.processed_count == 0,
    {
        PartitionCursor { last_epoch_id: 0, processed_count: 0 }
    }

    /// Called for each action's epoch. When the epoch moves forward past the
    /// report window, the epoch that just left the window
    /// (`epoch_id - REPORT_REQUEST_EPOCH_WINDOW`) is returned for garbage
    /// collection.
    pub fn advance_epoch(&mut self, epoch_id: EpochId) -> (collect: Option<EpochId>)
        ensures
            old(self).processed_count == final(self).processed_count,
            epoch_id > old(self).last_epoch_id ==> final(self).last_epoch_id == epoch_id,
            epoch_id <= old(self).last_epoch_id ==> final(self).last_epoch_id == old(self).last_epoch_id,
            collect == collected_epoch(old(self).last_epoch_id, epoch_id),
    {
        if epoch_id > self.last_epoch_id {
            let collect = if epoch_id > REPORT_REQUEST_EPOCH_WINDOW {
                Some(epoch_id - REPORT_REQUEST_EPOCH_WINDOW)
            } else {
                None
            };
            self.last_epoch_id = epoch_id;
            collect
        } else {
            None
        }
    }

    /// Counts one processed action; every `PROGRESS_UPDATE_FREQ` actions the
    /// count is handed back for reporting and restarts from zero.
    pub fn count_processed(&mut self) -> (flush: Option<usize>)
        requires
            old(self).processed_count < PROGRESS_UPDATE_FREQ,
        ensures
            final(self).last_epoch_id == old(self).last_epoch_id,
            final(self).processed_count < PROGRESS_UPDATE_FREQ,
            old(self).processed_count + 1 == PROGRESS_UPDATE_FREQ ==> flush == Some(PROGRESS_UPDATE_FREQ) && final(self).processed_count == 0,
            old(self).processed_count + 1 < PROGRESS_UPDATE_FREQ ==> flush is None && final(self).processed_count == old(self).processed_count + 1,
    {
        self.processed_count = self.processed_count + 1;
        if self.processed_count >= PROGRESS_UPDATE_FREQ {
            let n = self.processed_count;
            self.processed_count = 0;
            Some(n)
        } else {
            None
        }
    }
}

} // verus!
