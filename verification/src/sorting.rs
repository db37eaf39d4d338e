//! The standard library sorts the engine relies on.

use std::collections::HashMap;
use vstd::prelude::*;

use crate::common_types::{key_of, uri_key, Conversion, ConversionView, Uri};
use crate::dataset::ImpressionRow;

verus! {

broadcast use vstd::std_specs::hash::group_hash_axioms;

/// The count `counts` holds under a site's key; 0 for a site it does not
/// hold.
pub open spec fn site_count(counts: Map<u64, usize>, uri: Uri) -> usize {
    if counts.contains_key(uri_key(uri)) {
        counts[uri_key(uri)]
    } else {
        0
    }
}

/// The count `counts` holds under a site's key, 0 where it holds none.
pub fn count_of(counts: &HashMap<u64, usize>, uri: &Uri) -> (n: usize)
    ensures
        n == site_count(counts@, *uri),
{
    match counts.get(&key_of(*uri)) {
        Some(n) => *n,
        None => 0,
    }
}

/// The result of `slice::sort_unstable_by_key` on sites with the key
/// `Reverse(count_of(counts, site))`: the sites by non-increasing count. The
/// standard library leaves the order of equal counts unspecified; it is a
/// function of the sites and their counts alone.
pub uninterp spec fn sites_sorted_by_count_desc(uris: Seq<Uri>, counts: Map<u64, usize>) -> Seq<Uri>;

/// Sorts sites by non-increasing count (as `count_of` reads it from
/// `counts`) with `slice::sort_unstable_by_key`. Its documentation promises
/// a permutation of the input sorted by the key; which of two equally
/// counted sites comes first is left unstated.
#[verifier::external_body]
pub(crate) fn sort_sites_by_count_desc(uris: &mut Vec<Uri>, counts: &HashMap<u64, usize>)
    ensures
        final(uris)@ == sites_sorted_by_count_desc(old(uris)@, counts@),
        final(uris)@.to_multiset() == old(uris)@.to_multiset(),
        forall|i: int, j: int| 0 <= i <= j < final(uris)@.len() ==>
            site_count(counts@, final(uris)@[i]) >= site_count(counts@, final(uris)@[j]),
{
    uris.sort_unstable_by_key(|u| std::cmp::Reverse(count_of(counts, u)));
}

/// The result of `slice::sort_unstable_by_key` on `(key, count)` pairs with
/// the key `Reverse(count)`: the pairs by non-increasing count. The standard
/// library leaves the order of equal counts unspecified; it is a function of
/// the input alone.
pub uninterp spec fn sorted_by_count_desc(pairs: Seq<(u64, usize)>) -> Seq<(u64, usize)>;

/// Sorts `(key, count)` pairs by non-increasing count with
/// `slice::sort_unstable_by_key`. Its documentation promises a sorted
/// permutation of the input; which of two equal counts comes first is left
/// unstated.
#[verifier::external_body]
pub(crate) fn sort_by_count_desc(pairs: &mut Vec<(u64, usize)>)
    ensures
        final(pairs)@ == sorted_by_count_desc(old(pairs)@),
        final(pairs)@.to_multiset() == old(pairs)@.to_multiset(),
        forall|i: int, j: int| 0 <= i <= j < final(pairs)@.len() ==> final(pairs)@[i].1 >= final(pairs)@[j].1,
{
    pairs.sort_unstable_by_key(|p| std::cmp::Reverse(p.1));
}

/// The result of `slice::sort_unstable_by_key` on impression rows with the
/// key `timestamp`: the rows by non-decreasing timestamp, equal timestamps in
/// an order the standard library leaves unspecified (a function of the input
/// alone).
pub uninterp spec fn rows_sorted_by_timestamp(rows: Seq<ImpressionRow>) -> Seq<ImpressionRow>;

/// The same, for conversions (taken by their views).
pub uninterp spec fn conversions_sorted_by_timestamp(convs: Seq<ConversionView>) -> Seq<ConversionView>;

/// Sorts impression rows by timestamp with `slice::sort_unstable_by_key`:
/// a permutation of the rows in non-decreasing timestamp order.
#[verifier::external_body]
pub(crate) fn sort_rows_by_timestamp(rows: &mut Vec<ImpressionRow>)
    ensures
        final(rows)@ == rows_sorted_by_timestamp(old(rows)@),
        final(rows)@.to_multiset() == old(rows)@.to_multiset(),
        forall|i: int, j: int| 0 <= i <= j < final(rows)@.len() ==> final(rows)@[i].timestamp <= final(rows)@[j].timestamp,
{
    rows.sort_unstable_by_key(|r| r.timestamp);
}

pub open spec fn conversion_views(convs: Seq<Conversion>) -> Seq<ConversionView> {
    convs.map_values(|c: Conversion| c@)
}

/// Sorts conversions by timestamp with `slice::sort_unstable_by_key`:
/// a permutation of the conversions in non-decreasing timestamp order.
#[verifier::external_body]
pub(crate) fn sort_conversions_by_timestamp(convs: &mut Vec<Conversion>)
    ensures
        conversion_views(final(convs)@) == conversions_sorted_by_timestamp(conversion_views(old(convs)@)),
        conversion_views(final(convs)@).to_multiset() == conversion_views(old(convs)@).to_multiset(),
        forall|i: int, j: int| 0 <= i <= j < final(convs)@.len() ==> final(convs)@[i].timestamp <= final(convs)@[j].timestamp,
{
    convs.sort_unstable_by_key(|c| c.timestamp);
}

} // verus!
