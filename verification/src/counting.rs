//! Counting occurrences of integer keys, in order of first appearance.

use std::collections::HashMap;
use vstd::prelude::*;

use crate::runtime::device_ids;

verus! {

broadcast use vstd::std_specs::hash::group_hash_axioms;

/// How often `x` occurs in `s`.
pub open spec fn occurrences(s: Seq<u64>, x: u64) -> nat
    decreases s.len(),
{
    if s.len() == 0 {
        0
    } else {
        occurrences(s.drop_last(), x) + if s.last() == x { 1nat } else { 0nat }
    }
}

/// The distinct elements of `s`, in order of first appearance.
pub open spec fn first_appearances(s: Seq<u64>) -> Seq<u64>
    decreases s.len(),
{
    if s.len() == 0 {
        Seq::empty()
    } else {
        let r = first_appearances(s.drop_last());
        if r.contains(s.last()) {
            r
        } else {
            r.push(s.last())
        }
    }
}

/// The distinct keys of `s` in order of first appearance, each with its
/// number of occurrences.
pub open spec fn key_counts(s: Seq<u64>) -> Seq<(u64, usize)> {
    first_appearances(s).map_values(|x: u64| (x, occurrences(s, x) as usize))
}

pub proof fn lemma_first_appearances(s: Seq<u64>)
    ensures
        first_appearances(s).no_duplicates(),
        forall|x: u64| #[trigger] first_appearances(s).contains(x) <==> s.contains(x),
        first_appearances(s).len() <= s.len(),
    decreases s.len(),
{
    if s.len() > 0 {
        let p = s.drop_last();
        lemma_first_appearances(p);
        assert(s =~= p.push(s.last()));
        assert forall|x: u64| #[trigger] first_appearances(s).contains(x) <==> s.contains(x) by {
            vstd::seq_lib::lemma_seq_contains_after_push(p, s.last(), x);
            vstd::seq_lib::lemma_seq_contains_after_push(first_appearances(p), s.last(), x);
        }
    }
}

pub proof fn lemma_occurrences_bound(s: Seq<u64>, x: u64)
    ensures
        occurrences(s, x) <= s.len(),
        occurrences(s, x) > 0 <==> s.contains(x),
    decreases s.len(),
{
    if s.len() > 0 {
        let p = s.drop_last();
        lemma_occurrences_bound(p, x);
        assert(s =~= p.push(s.last()));
        vstd::seq_lib::lemma_seq_contains_after_push(p, s.last(), x);
    }
}

/// Counts each distinct key of `keys`, listing the keys in order of first
/// appearance.
pub fn count_keys(keys: &Vec<u64>) -> (counts: Vec<(u64, usize)>)
    ensures
        counts@ == key_counts(keys@),
{
    let mut pos: HashMap<u64, usize> = HashMap::new();
    let mut counts: Vec<(u64, usize)> = Vec::new();
    let mut i: usize = 0;
    while i < keys.len()
        invariant
            i <= keys.len(),
            device_ids(counts@) == first_appearances(keys@.subrange(0, i as int)),
            forall|j: int| 0 <= j < counts@.len() ==> (#[trigger] counts@[j]).1 == occurrences(keys@.subrange(0, i as int), counts@[j].0),
            forall|x: u64| #[trigger] pos@.contains_key(x) <==> device_ids(counts@).contains(x),
            forall|x: u64| #[trigger] pos@.contains_key(x) ==> pos@[x] < counts@.len() && counts@[pos@[x] as int].0 == x,
        decreases keys.len() - i,
    {
        let k = keys[i];
        let ghost prefix = keys@.subrange(0, i as int);
        let ghost next = keys@.subrange(0, i + 1);
        proof {
            assert(next =~= prefix.push(k));
            assert(next.drop_last() =~= prefix);
            lemma_first_appearances(prefix);
            lemma_occurrences_bound(prefix, k);
            assert forall|x: u64| occurrences(next, x) == occurrences(prefix, x) + if x == k { 1nat } else { 0nat } by {}
        }
        match pos.get(&k) {
            Some(p) => {
                let p = *p;
                let c = counts[p].1;
                let ghost old_counts = counts@;
                proof {
                    assert(device_ids(old_counts).contains(k));
                    lemma_occurrences_bound(prefix, k);
                }
                counts.set(p, (k, c + 1));
                proof {
                    assert(device_ids(counts@) =~= device_ids(old_counts));
                    assert forall|j: int| 0 <= j < counts@.len() implies (#[trigger] counts@[j]).1 == occurrences(next, counts@[j].0) by {
                        if j != p {
                            assert(device_ids(old_counts)[j] != device_ids(old_counts)[p as int]);
                            assert(counts@[j] == old_counts[j]);
                        }
                    }
                }
            },
            None => {
                let ghost old_counts = counts@;
                pos.insert(k, counts.len());
                counts.push((k, 1));
                proof {
                    assert(device_ids(counts@) =~= device_ids(old_counts).push(k));
                    assert(!first_appearances(prefix).contains(k));
                    assert forall|j: int| 0 <= j < counts@.len() implies (#[trigger] counts@[j]).1 == occurrences(next, counts@[j].0) by {
                        if j < old_counts.len() {
                            assert(device_ids(old_counts)[j] == counts@[j].0);
                            assert(counts@[j].0 != k);
                        } else {
                            lemma_occurrences_bound(prefix, k);
                        }
                    }
                    assert forall|x: u64| #[trigger] pos@.contains_key(x) <==> device_ids(counts@).contains(x) by {
                        vstd::seq_lib::lemma_seq_contains_after_push(device_ids(old_counts), k, x);
                    }
                }
            },
        }
        i = i + 1;
    }
    assert(keys@.subrange(0, keys.len() as int) =~= keys@);
    assert(counts@ =~= key_counts(keys@));
    counts
}

} // verus!
