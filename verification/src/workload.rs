//! Turning the loaded impressions and conversions into the engine's
//! workload: only the active queriers' actions, chronologically merged, with
//! the popularity ranks the attacks target and the per-device action counts
//! the runtime balances.

use std::collections::HashSet;
use vstd::prelude::*;

use crate::common_types::{key_of, uri_key, Conversion, ConversionView, DeviceId, Uri};
use crate::counting::{count_keys, key_counts};
use crate::merge_laws::{conversions_sorted, lemma_merge_interleaves, rows_sorted, sorted_by_timestamp};
use crate::dataset::{
    lazy_views, merge_imps_and_convs, rank_by_frequency, ranked_by_frequency, spec_merge, walk_lists_sites,
    ImpressionRow, LazyAction, LazyActionView, RankTable,
};
use crate::sorting::{
    conversion_views, conversions_sorted_by_timestamp, rows_sorted_by_timestamp,
    sort_conversions_by_timestamp, sort_rows_by_timestamp,
};

verus! {

broadcast use vstd::std_specs::hash::group_hash_axioms;

/// Why a workload cannot be built.
#[derive(Debug, Clone, Copy, PartialEq, Eq, Structural)]
pub enum DatasetError {
    /// Two actions share this id.
    DuplicateActionId(u64),
    /// A conversion carries no action id.
    MissingActionId,
    /// A cap of this many actions was given, but the workload holds no
    /// conversion to keep.
    NoConversionsLeft(usize),
}

/// The workload: the merged action stream and what is precomputed on it.
pub struct DatasetCore {
    pub actions: Vec<LazyAction>,
    pub source_ranks: RankTable,
    pub querier_ranks: RankTable,
    pub device_action_counts: Vec<(DeviceId, usize)>,
    pub num_conversions: usize,
}

/// The rows attributed to an active querier, in order.
pub open spec fn active_rows(rows: Seq<ImpressionRow>, active: Set<u64>) -> Seq<ImpressionRow>
    decreases rows.len(),
{
    if rows.len() == 0 {
        Seq::empty()
    } else {
        let r = active_rows(rows.drop_last(), active);
        if active.contains(uri_key(rows.last().trigger_uri)) { r.push(rows.last()) } else { r }
    }
}

/// The conversions of an active querier, in order.
pub open spec fn active_conversions(convs: Seq<ConversionView>, active: Set<u64>) -> Seq<ConversionView>
    decreases convs.len(),
{
    if convs.len() == 0 {
        Seq::empty()
    } else {
        let r = active_conversions(convs.drop_last(), active);
        if active.contains(uri_key(convs.last().querier)) { r.push(convs.last()) } else { r }
    }
}

/// The action ids, impressions first: each row's id and each conversion's
/// user action.
pub open spec fn action_ids(rows: Seq<ImpressionRow>, convs: Seq<ConversionView>) -> Seq<Option<u64>> {
    rows.map_values(|r: ImpressionRow| Some(r.id)) + convs.map_values(|c: ConversionView| c.user_action_id)
}

/// The first `n` ids are all present and pairwise distinct.
pub open spec fn ids_ok_upto(ids: Seq<Option<u64>>, n: int) -> bool {
    &&& forall|i: int| 0 <= i < n ==> (#[trigger] ids[i]) is Some
    &&& forall|i: int, j: int| 0 <= i < j < n ==> #[trigger] ids[i] != #[trigger] ids[j]
}

/// The first problem among the ids is at `j`, where `x` repeats an earlier id.
pub open spec fn first_duplicate_at(ids: Seq<Option<u64>>, j: int, x: u64) -> bool {
    &&& 0 <= j < ids.len()
    &&& ids_ok_upto(ids, j)
    &&& ids[j] == Some(x)
    &&& exists|i: int| 0 <= i < j && ids[i] == Some(x)
}

/// The first problem among the ids is at `j`, where an id is missing.
pub open spec fn first_missing_at(ids: Seq<Option<u64>>, j: int) -> bool {
    &&& 0 <= j < ids.len()
    &&& ids_ok_upto(ids, j)
    &&& ids[j] is None
}

/// What an error says about the ids: a repeated id or a missing one is the
/// first problem among them; no other error comes from checking ids.
pub open spec fn explains_ids(ids: Seq<Option<u64>>, e: DatasetError) -> bool {
    match e {
        DatasetError::DuplicateActionId(x) => exists|j: int| #[trigger] first_duplicate_at(ids, j, x),
        DatasetError::MissingActionId => exists|j: int| #[trigger] first_missing_at(ids, j),
        DatasetError::NoConversionsLeft(_) => false,
    }
}

/// The number of conversions in an action stream.
pub open spec fn count_conversions(s: Seq<LazyActionView>) -> nat
    decreases s.len(),
{
    if s.len() == 0 {
        0
    } else {
        count_conversions(s.drop_last()) + if s.last() is Conversion { 1nat } else { 0nat }
    }
}

/// The position of the first conversion of `s` at or after `i` (the
/// stream's length if there is none).
pub open spec fn first_conversion_from(s: Seq<LazyActionView>, i: int) -> int
    decreases s.len() - i,
{
    if i >= s.len() {
        s.len() as int
    } else if s[i] is Conversion {
        i
    } else {
        first_conversion_from(s, i + 1)
    }
}

/// Whether the stream holds a conversion.
pub open spec fn has_conversion(s: Seq<LazyActionView>) -> bool {
    first_conversion_from(s, 0) < s.len()
}

/// How many actions a cap of `n` keeps: the first `n`, and, when those hold
/// no conversion, on up to and including the stream's first conversion, so
/// that a conversion is kept whatever the cap.
pub open spec fn cap_len(s: Seq<LazyActionView>, n: int) -> int {
    let f = first_conversion_from(s, 0);
    if n >= s.len() {
        s.len() as int
    } else if f < n || f >= s.len() {
        n
    } else {
        f + 1
    }
}

/// The stream capped to `max_items` actions (see `cap_len`).
pub open spec fn capped(s: Seq<LazyActionView>, max_items: Option<usize>) -> Seq<LazyActionView> {
    match max_items {
        Some(n) => s.take(cap_len(s, n as int)),
        None => s,
    }
}

pub proof fn lemma_first_conversion(s: Seq<LazyActionView>, i: int)
    requires
        0 <= i <= s.len(),
    ensures
        i <= first_conversion_from(s, i) <= s.len(),
        first_conversion_from(s, i) < s.len() ==> s[first_conversion_from(s, i)] is Conversion,
        forall|j: int| i <= j < first_conversion_from(s, i) ==> !(#[trigger] s[j] is Conversion),
    decreases s.len() - i,
{
    if i < s.len() && !(s[i] is Conversion) {
        lemma_first_conversion(s, i + 1);
    }
}

/// A stream with a conversion at position `k` counts at least one.
pub proof fn lemma_count_conversions_pos(s: Seq<LazyActionView>, k: int)
    requires
        0 <= k < s.len(),
        s[k] is Conversion,
    ensures
        count_conversions(s) >= 1,
    decreases s.len(),
{
    if k < s.len() - 1 {
        lemma_count_conversions_pos(s.drop_last(), k);
    }
}

pub open spec fn device_keys(s: Seq<LazyActionView>) -> Seq<u64> {
    s.map_values(|a: LazyActionView| match a {
        LazyActionView::Impression(r) => r.device_id,
        LazyActionView::Conversion(c) => c.device_id,
    })
}

pub open spec fn key_set(uris: Seq<Uri>) -> Set<u64> {
    uris.map_values(|u: Uri| uri_key(u)).to_set()
}

fn active_keys(queriers: &Vec<Uri>) -> (set: HashSet<u64>)
    ensures
        set@ == key_set(queriers@),
{
    let mut set: HashSet<u64> = HashSet::new();
    let mut i: usize = 0;
    while i < queriers.len()
        invariant
            i <= queriers.len(),
            set@ == key_set(queriers@.subrange(0, i as int)),
        decreases queriers.len() - i,
    {
        set.insert(key_of(queriers[i]));
        proof {
            let p = queriers@.subrange(0, i as int).map_values(|u: Uri| uri_key(u));
            let q = queriers@.subrange(0, i + 1).map_values(|u: Uri| uri_key(u));
            assert(q =~= p.push(uri_key(queriers@[i as int])));
            assert(q.to_set() =~= p.to_set().insert(uri_key(queriers@[i as int]))) by {
                assert forall|x: u64| q.to_set().contains(x) <==> p.to_set().insert(uri_key(queriers@[i as int])).contains(x) by {
                    vstd::seq_lib::lemma_seq_contains_after_push(p, uri_key(queriers@[i as int]), x);
                }
            }
        }
        i = i + 1;
    }
    assert(queriers@.subrange(0, queriers.len() as int) =~= queriers@);
    set
}

fn keep_active_rows(rows: &Vec<ImpressionRow>, active: &HashSet<u64>) -> (kept: Vec<ImpressionRow>)
    ensures
        kept@ == active_rows(rows@, active@),
{
    let mut kept: Vec<ImpressionRow> = Vec::new();
    let mut i: usize = 0;
    while i < rows.len()
        invariant
            i <= rows.len(),
            kept@ == active_rows(rows@.subrange(0, i as int), active@),
        decreases rows.len() - i,
    {
        let row = rows[i];
        assert(rows@.subrange(0, i + 1).drop_last() =~= rows@.subrange(0, i as int));
        if active.contains(&key_of(row.trigger_uri)) {
            kept.push(row);
        }
        i = i + 1;
    }
    assert(rows@.subrange(0, rows.len() as int) =~= rows@);
    kept
}

fn keep_active_conversions(convs: Vec<Conversion>, active: &HashSet<u64>) -> (kept: Vec<Conversion>)
    ensures
        conversion_views(kept@) == active_conversions(conversion_views(convs@), active@),
{
    let ghost views = conversion_views(convs@);
    let n = convs.len();
    let mut rest = convs;
    let mut rev: Vec<Conversion> = Vec::new();
    while rest.len() > 0
        invariant
            rest@.len() + rev@.len() == n,
            n == views.len(),
            forall|i: int| 0 <= i < rest@.len() ==> (#[trigger] rest@[i])@ == views[i],
            forall|i: int| 0 <= i < rev@.len() ==> (#[trigger] rev@[i])@ == views[n - 1 - i],
        decreases rest.len(),
    {
        let c = rest.pop().unwrap();
        rev.push(c);
    }
    let mut kept: Vec<Conversion> = Vec::new();
    let mut k: usize = 0;
    while rev.len() > 0
        invariant
            rev@.len() + k == n,
            n == views.len(),
            forall|i: int| 0 <= i < rev@.len() ==> (#[trigger] rev@[i])@ == views[n - 1 - i],
            conversion_views(kept@) == active_conversions(views.subrange(0, k as int), active@),
        decreases rev.len(),
    {
        let c = rev.pop().unwrap();
        assert(c@ == views[k as int]);
        assert(views.subrange(0, k + 1).drop_last() =~= views.subrange(0, k as int));
        let ghost before = kept@;
        if active.contains(&key_of(c.querier)) {
            kept.push(c);
            assert(conversion_views(kept@) =~= conversion_views(before).push(c@));
        }
        k = k + 1;
    }
    assert(views.subrange(0, n as int) =~= views);
    kept
}

/// Checks that every action id is present and unique, impressions first,
/// stopping at the first missing or repeated one.
fn check_action_ids(rows: &Vec<ImpressionRow>, convs: &Vec<Conversion>) -> (res: Result<(), DatasetError>)
    ensures
        res is Ok <==> ids_ok_upto(action_ids(rows@, conversion_views(convs@)), (rows@.len() + convs@.len()) as int),
        res matches Err(e) ==> explains_ids(action_ids(rows@, conversion_views(convs@)), e),
{
    let ghost ids = action_ids(rows@, conversion_views(convs@));
    let ghost nr = rows@.len();
    assert(ids.len() == rows@.len() + convs@.len());
    let mut seen: HashSet<u64> = HashSet::new();
    let mut i: usize = 0;
    while i < rows.len()
        invariant
            i <= rows.len(),
            nr == rows@.len(),
            ids == action_ids(rows@, conversion_views(convs@)),
            ids.len() == rows@.len() + convs@.len(),
            ids_ok_upto(ids, i as int),
            forall|x: u64| #[trigger] seen@.contains(x) <==> exists|j: int| 0 <= j < i && ids[j] == Some(x),
        decreases rows.len() - i,
    {
        let id = rows[i].id;
        assert(ids[i as int] == Some(id));
        if !seen.insert(id) {
            proof {
                let k = choose|k: int| 0 <= k < i && ids[k] == Some(id);
                assert(first_duplicate_at(action_ids(rows@, conversion_views(convs@)), i as int, id));
                assert(ids[k] == ids[i as int]);
                assert(!ids_ok_upto(ids, ids.len() as int));
                assert(first_duplicate_at(ids, i as int, id));
                let e = DatasetError::DuplicateActionId(id);
                assert(e->DuplicateActionId_0 == id);
                assert(exists|j: int| #[trigger] first_duplicate_at(ids, j, e->DuplicateActionId_0));
                assert(explains_ids(ids, e));
            }
            return Err(DatasetError::DuplicateActionId(id));
        }
        proof {
            assert forall|x: u64| #[trigger] seen@.contains(x) <==> exists|j: int| 0 <= j < i + 1 && ids[j] == Some(x) by {
                if x == id { assert(ids[i as int] == Some(x)); }
            }
        }
        i = i + 1;
    }
    let mut c: usize = 0;
    while c < convs.len()
        invariant
            c <= convs.len(),
            nr == rows@.len(),
            ids == action_ids(rows@, conversion_views(convs@)),
            ids.len() == rows@.len() + convs@.len(),
            ids_ok_upto(ids, nr + c),
            forall|x: u64| #[trigger] seen@.contains(x) <==> exists|j: int| 0 <= j < nr + c && ids[j] == Some(x),
        decreases convs.len() - c,
    {
        assert(ids[nr + c] == convs@[c as int].user_action_id);
        match convs[c].user_action_id {
            None => {
                assert(first_missing_at(action_ids(rows@, conversion_views(convs@)), nr + c));
                assert(explains_ids(ids, DatasetError::MissingActionId));
                return Err(DatasetError::MissingActionId);
            },
            Some(id) => {
                if !seen.insert(id) {
                    proof {
                        let k = choose|k: int| 0 <= k < nr + c && ids[k] == Some(id);
                        assert(first_duplicate_at(action_ids(rows@, conversion_views(convs@)), nr + c, id));
                        assert(ids[k] == ids[nr + c]);
                        assert(!ids_ok_upto(ids, ids.len() as int));
                        assert(first_duplicate_at(ids, nr + c, id));
                        let e = DatasetError::DuplicateActionId(id);
                assert(e->DuplicateActionId_0 == id);
                        assert(exists|j: int| #[trigger] first_duplicate_at(ids, j, e->DuplicateActionId_0));
                        assert(explains_ids(ids, e));
                    }
                    return Err(DatasetError::DuplicateActionId(id));
                }
                proof {
                    assert forall|x: u64| #[trigger] seen@.contains(x) <==> exists|j: int| 0 <= j < nr + c + 1 && ids[j] == Some(x) by {
                        if x == id { assert(ids[nr + c] == Some(x)); }
                    }
                }
            },
        }
        c = c + 1;
    }
    Ok(())
}

pub open spec fn row_sources(rows: Seq<ImpressionRow>) -> Seq<Uri> {
    rows.map_values(|r: ImpressionRow| r.source_uri)
}

pub open spec fn conversion_queriers(convs: Seq<ConversionView>) -> Seq<Uri> {
    convs.map_values(|c: ConversionView| c.querier)
}

/// The impressions the workload keeps: sorted by timestamp, then only those
/// of the active queriers.
pub open spec fn kept_rows(impressions: Seq<ImpressionRow>, active: Seq<Uri>) -> Seq<ImpressionRow> {
    active_rows(rows_sorted_by_timestamp(impressions), key_set(active))
}

/// The conversions the workload keeps: sorted by timestamp, then only those
/// of the active queriers.
pub open spec fn kept_conversions(conversions: Seq<ConversionView>, active: Seq<Uri>) -> Seq<ConversionView> {
    active_conversions(conversions_sorted_by_timestamp(conversions), key_set(active))
}

/// The workload built from the kept impressions and conversions: their
/// chronological merge, capped to `max_items` actions (extended to the first
/// conversion if the cap would leave none); the sources ranked
/// among the kept impressions and the queriers among the kept conversions
/// (before capping, equal counts taken in the given walk orders); and
/// per-device action counts and the number of conversions of the capped
/// stream.
pub open spec fn is_workload(core: DatasetCore, rows: Seq<ImpressionRow>, convs: Seq<ConversionView>, max_items: Option<usize>,
    source_walk: Seq<Uri>, querier_walk: Seq<Uri>) -> bool {
    &&& lazy_views(core.actions@) == capped(spec_merge(rows, convs), max_items)
    &&& ranked_by_frequency(core.source_ranks, row_sources(rows), source_walk)
    &&& ranked_by_frequency(core.querier_ranks, conversion_queriers(convs), querier_walk)
    &&& core.device_action_counts@ == key_counts(device_keys(lazy_views(core.actions@)))
    &&& core.num_conversions == count_conversions(lazy_views(core.actions@))
}

/// Whether a cap, when one is given, can keep a conversion: the merged
/// stream must hold one.
pub open spec fn cap_keeps_conversions(rows: Seq<ImpressionRow>, convs: Seq<ConversionView>, max_items: Option<usize>) -> bool {
    max_items is Some ==> has_conversion(spec_merge(rows, convs))
}

/// What a failed build reports: the first problem among the action ids, or,
/// the ids being sound, that a cap was given but the stream holds no
/// conversion to keep.
pub open spec fn build_error(rows: Seq<ImpressionRow>, convs: Seq<ConversionView>, max_items: Option<usize>, e: DatasetError) -> bool {
    let ids = action_ids(rows, convs);
    ||| !ids_ok_upto(ids, ids.len() as int) && explains_ids(ids, e)
    ||| ids_ok_upto(ids, ids.len() as int) && max_items is Some && e == DatasetError::NoConversionsLeft(max_items.unwrap())
        && !cap_keeps_conversions(rows, convs, max_items)
}

fn sources_of(rows: &Vec<ImpressionRow>) -> (uris: Vec<Uri>)
    ensures
        uris@ == row_sources(rows@),
{
    let mut uris: Vec<Uri> = Vec::new();
    let mut i: usize = 0;
    while i < rows.len()
        invariant
            i <= rows.len(),
            uris@ =~= row_sources(rows@).subrange(0, i as int),
        decreases rows.len() - i,
    {
        uris.push(rows[i].source_uri);
        i = i + 1;
    }
    assert(uris@ =~= row_sources(rows@));
    uris
}

fn queriers_of(convs: &Vec<Conversion>) -> (uris: Vec<Uri>)
    ensures
        uris@ == conversion_queriers(conversion_views(convs@)),
{
    let mut uris: Vec<Uri> = Vec::new();
    let mut i: usize = 0;
    while i < convs.len()
        invariant
            i <= convs.len(),
            uris@ =~= conversion_queriers(conversion_views(convs@)).subrange(0, i as int),
        decreases convs.len() - i,
    {
        uris.push(convs[i].querier);
        i = i + 1;
    }
    assert(uris@ =~= conversion_queriers(conversion_views(convs@)));
    uris
}

/// The number of conversions in a stored action stream.
pub fn conversion_count(actions: &Vec<LazyAction>) -> (n: usize)
    ensures
        n == count_conversions(lazy_views(actions@)),
{
    let mut n: usize = 0;
    let mut i: usize = 0;
    while i < actions.len()
        invariant
            i <= actions.len(),
            n == count_conversions(lazy_views(actions@).subrange(0, i as int)),
            n <= i,
        decreases actions.len() - i,
    {
        assert(lazy_views(actions@).subrange(0, i + 1).drop_last() =~= lazy_views(actions@).subrange(0, i as int));
        if let LazyAction::Conversion(_) = &actions[i] {
            n = n + 1;
        }
        i = i + 1;
    }
    assert(lazy_views(actions@).subrange(0, actions.len() as int) =~= lazy_views(actions@));
    n
}

/// The number of actions of each device, devices in order of first action.
pub fn device_action_counts(actions: &Vec<LazyAction>) -> (counts: Vec<(DeviceId, usize)>)
    ensures
        counts@ == key_counts(device_keys(lazy_views(actions@))),
{
    let mut keys: Vec<u64> = Vec::new();
    let mut i: usize = 0;
    while i < actions.len()
        invariant
            i <= actions.len(),
            keys@ =~= device_keys(lazy_views(actions@)).subrange(0, i as int),
        decreases actions.len() - i,
    {
        keys.push(actions[i].device_id());
        i = i + 1;
    }
    assert(keys@ =~= device_keys(lazy_views(actions@)));
    count_keys(&keys)
}

/// The position of the first conversion of the stream (its length if none).
fn first_conversion(actions: &Vec<LazyAction>) -> (f: usize)
    ensures
        f == first_conversion_from(lazy_views(actions@), 0),
{
    let ghost v = lazy_views(actions@);
    let mut i: usize = 0;
    while i < actions.len()
        invariant
            i <= actions@.len(),
            v == lazy_views(actions@),
            first_conversion_from(v, i as int) == first_conversion_from(v, 0),
        decreases actions@.len() - i,
    {
        assert(v[i as int] == actions@[i as int]@);
        if let LazyAction::Conversion(_) = &actions[i] {
            return i;
        }
        i = i + 1;
    }
    i
}

/// Keeping only the active queriers' rows keeps timestamp order.
proof fn lemma_active_rows_sorted(rows: Seq<ImpressionRow>, active: Set<u64>)
    requires
        rows_sorted(rows),
    ensures
        rows_sorted(active_rows(rows, active)),
        forall|x: ImpressionRow| #[trigger] active_rows(rows, active).contains(x) ==> rows.contains(x),
    decreases rows.len(),
{
    if rows.len() > 0 {
        let p = rows.drop_last();
        assert(rows_sorted(p)) by {
            assert forall|i: int, j: int| 0 <= i <= j < p.len() implies (#[trigger] p[i]).timestamp <= (#[trigger] p[j]).timestamp by {
                assert(p[i] == rows[i] && p[j] == rows[j]);
            }
        }
        lemma_active_rows_sorted(p, active);
        let r = active_rows(p, active);
        let last = rows.last();
        assert forall|x: ImpressionRow| #[trigger] r.contains(x) implies rows.contains(x) && x.timestamp <= last.timestamp by {
            assert(p.contains(x));
            let k = choose|k: int| 0 <= k < p.len() && p[k] == x;
            assert(rows[k] == x);
            assert(rows[k].timestamp <= rows[rows.len() - 1].timestamp);
        }
        if active.contains(uri_key(last.trigger_uri)) {
            let q = r.push(last);
            assert forall|i: int, j: int| 0 <= i <= j < q.len() implies (#[trigger] q[i]).timestamp <= (#[trigger] q[j]).timestamp by {
                if j == q.len() - 1 {
                    if i < j {
                        assert(r.contains(q[i]));
                    }
                } else {
                    assert(q[i] == r[i] && q[j] == r[j]);
                }
            }
            assert forall|x: ImpressionRow| #[trigger] q.contains(x) implies rows.contains(x) by {
                if x != last {
                    let k = choose|k: int| 0 <= k < q.len() && q[k] == x;
                    assert(r[k] == x);
                    assert(r.contains(x));
                } else {
                    assert(rows[rows.len() - 1] == x);
                }
            }
        }
    }
}

/// Keeping only the active queriers' conversions keeps timestamp order.
proof fn lemma_active_conversions_sorted(convs: Seq<ConversionView>, active: Set<u64>)
    requires
        conversions_sorted(convs),
    ensures
        conversions_sorted(active_conversions(convs, active)),
        forall|x: ConversionView| #[trigger] active_conversions(convs, active).contains(x) ==> convs.contains(x),
    decreases convs.len(),
{
    if convs.len() > 0 {
        let p = convs.drop_last();
        assert(conversions_sorted(p)) by {
            assert forall|i: int, j: int| 0 <= i <= j < p.len() implies (#[trigger] p[i]).timestamp <= (#[trigger] p[j]).timestamp by {
                assert(p[i] == convs[i] && p[j] == convs[j]);
            }
        }
        lemma_active_conversions_sorted(p, active);
        let r = active_conversions(p, active);
        let last = convs.last();
        assert forall|x: ConversionView| #[trigger] r.contains(x) implies convs.contains(x) && x.timestamp <= last.timestamp by {
            assert(p.contains(x));
            let k = choose|k: int| 0 <= k < p.len() && p[k] == x;
            assert(convs[k] == x);
            assert(convs[k].timestamp <= convs[convs.len() - 1].timestamp);
        }
        if active.contains(uri_key(last.querier)) {
            let q = r.push(last);
            assert forall|i: int, j: int| 0 <= i <= j < q.len() implies (#[trigger] q[i]).timestamp <= (#[trigger] q[j]).timestamp by {
                if j == q.len() - 1 {
                    if i < j {
                        assert(r.contains(q[i]));
                    }
                } else {
                    assert(q[i] == r[i] && q[j] == r[j]);
                }
            }
            assert forall|x: ConversionView| #[trigger] q.contains(x) implies convs.contains(x) by {
                if x != last {
                    let k = choose|k: int| 0 <= k < q.len() && q[k] == x;
                    assert(r[k] == x);
                    assert(r.contains(x));
                } else {
                    assert(convs[convs.len() - 1] == x);
                }
            }
        }
    }
}

/// The sites the workload ranks: the sources of the kept impressions and
/// the queriers of the kept conversions, in stream order (with repeats).
/// A caller that counts them in a map gets from its walk the order in which
/// `build_dataset` takes equally frequent sites.
pub fn kept_sites(impressions: Vec<ImpressionRow>, conversions: Vec<Conversion>, active_queriers: &Vec<Uri>) -> (sites: (Vec<Uri>, Vec<Uri>))
    ensures
        sites.0@ == row_sources(kept_rows(impressions@, active_queriers@)),
        sites.1@ == conversion_queriers(kept_conversions(conversion_views(conversions@), active_queriers@)),
{
    let mut impressions = impressions;
    let mut conversions = conversions;
    sort_rows_by_timestamp(&mut impressions);
    sort_conversions_by_timestamp(&mut conversions);
    let active = active_keys(active_queriers);
    let rows = keep_active_rows(&impressions, &active);
    let convs = keep_active_conversions(conversions, &active);
    (sources_of(&rows), queriers_of(&convs))
}

/// Builds the workload from the loaded impressions and conversions: sorts
/// each by timestamp, keeps those of the active queriers, checks that every
/// action id is present and unique, ranks the sites, merges the two streams
/// chronologically, and caps the result to `max_items` actions, extended
/// to the first conversion if the cap would leave none; with a cap, the
/// workload must hold a conversion. The result is in timestamp order.
/// `source_walk` and `querier_walk` list the kept sources and queriers
/// (see `kept_sites`) each once, in the order the caller's counting maps
/// yield them; equally frequent sites are ranked from that order.
pub fn build_dataset(impressions: Vec<ImpressionRow>, conversions: Vec<Conversion>, active_queriers: &Vec<Uri>, max_items: Option<usize>,
    source_walk: &Vec<Uri>, querier_walk: &Vec<Uri>) -> (res: Result<DatasetCore, DatasetError>)
    requires
        walk_lists_sites(source_walk@, row_sources(kept_rows(impressions@, active_queriers@))),
        walk_lists_sites(querier_walk@, conversion_queriers(kept_conversions(conversion_views(conversions@), active_queriers@))),
    ensures
        res is Ok <==> {
            let rows = kept_rows(impressions@, active_queriers@);
            let convs = kept_conversions(conversion_views(conversions@), active_queriers@);
            let ids = action_ids(rows, convs);
            ids_ok_upto(ids, ids.len() as int) && cap_keeps_conversions(rows, convs, max_items)
        },
        res matches Ok(core) ==> is_workload(core, kept_rows(impressions@, active_queriers@),
            kept_conversions(conversion_views(conversions@), active_queriers@), max_items, source_walk@, querier_walk@),
        res matches Err(e) ==> build_error(kept_rows(impressions@, active_queriers@),
            kept_conversions(conversion_views(conversions@), active_queriers@), max_items, e),
        res matches Ok(core) ==> sorted_by_timestamp(lazy_views(core.actions@)),
        res matches Ok(core) ==> (max_items is Some ==> core.num_conversions >= 1),
{
    let ghost rows_spec = kept_rows(impressions@, active_queriers@);
    let ghost convs_spec = kept_conversions(conversion_views(conversions@), active_queriers@);
    let mut impressions = impressions;
    let mut conversions = conversions;
    sort_rows_by_timestamp(&mut impressions);
    sort_conversions_by_timestamp(&mut conversions);
    proof {
        assert(rows_sorted(impressions@));
        assert(conversions_sorted(conversion_views(conversions@))) by {
            let cv = conversion_views(conversions@);
            assert forall|i: int, j: int| 0 <= i <= j < cv.len() implies (#[trigger] cv[i]).timestamp <= (#[trigger] cv[j]).timestamp by {
                assert(cv[i] == conversions@[i]@ && cv[j] == conversions@[j]@);
                assert(conversions@[i].timestamp <= conversions@[j].timestamp);
            }
        }
    }
    let active = active_keys(active_queriers);
    let rows = keep_active_rows(&impressions, &active);
    let convs = keep_active_conversions(conversions, &active);
    assert(rows@ == rows_spec);
    assert(conversion_views(convs@) == convs_spec);
    proof {
        lemma_active_rows_sorted(impressions@, active@);
        lemma_active_conversions_sorted(conversion_views(conversions@), active@);
        lemma_merge_interleaves(rows_spec, convs_spec);
    }
    match check_action_ids(&rows, &convs) {
        Err(e) => {
            return Err(e);
        },
        Ok(()) => {},
    }
    let source_ranks = rank_by_frequency(&sources_of(&rows), source_walk);
    let querier_ranks = rank_by_frequency(&queriers_of(&convs), querier_walk);
    let mut actions = merge_imps_and_convs(rows, convs);
    let ghost merged = lazy_views(actions@);
    assert(merged == spec_merge(rows_spec, convs_spec));
    if let Some(n) = max_items {
        let f = first_conversion(&actions);
        proof {
            lemma_first_conversion(merged, 0);
        }
        if f == actions.len() {
            return Err(DatasetError::NoConversionsLeft(n));
        }
        let cut: usize = if n >= actions.len() {
            actions.len()
        } else if f < n {
            n
        } else {
            f + 1
        };
        actions.truncate(cut);
        assert(lazy_views(actions@) =~= capped(merged, max_items));
        proof {
            lemma_count_conversions_pos(lazy_views(actions@), f as int);
        }
    }
    assert(lazy_views(actions@) =~= capped(merged, max_items));
    proof {
        let c = lazy_views(actions@);
        assert forall|i: int, j: int| 0 <= i <= j < c.len() implies
            crate::dataset::view_timestamp(#[trigger] c[i]) <= crate::dataset::view_timestamp(#[trigger] c[j]) by {
            assert(c[i] == merged[i] && c[j] == merged[j]);
        }
    }
    let num_conversions = conversion_count(&actions);
    let device_action_counts = device_action_counts(&actions);
    Ok(DatasetCore { actions, source_ranks, querier_ranks, device_action_counts, num_conversions })
}

} // verus!
