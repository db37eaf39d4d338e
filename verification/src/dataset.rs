//! The action stream a dataset yields: impressions and conversions in
//! chronological order, and the per-site popularity ranks the attacks target.

use std::collections::HashMap;
use vstd::prelude::*;

use crate::common_types::{
    copy_uris, key_of, uri_key, BucketKey, Conversion, ConversionView, DeviceId, EpochId, Event, EventUris,
    ImpOrConv, Impression, ImpressionView, Timestamp, Uri,
};
use crate::counting::{count_keys, key_counts, lemma_first_appearances, lemma_occurrences_bound, occurrences, first_appearances};
use crate::sorting::{conversion_views, site_count, sites_sorted_by_count_desc, sort_sites_by_count_desc};

verus! {

broadcast use vstd::std_specs::hash::group_hash_axioms;

/// A materialized impression or conversion.
#[derive(Debug, Clone, PartialEq, Eq)]
pub enum Action {
    Impression(Impression),
    Conversion(Conversion),
}

pub enum ActionView {
    Impression(ImpressionView),
    Conversion(ConversionView),
}

impl View for Action {
    type V = ActionView;

    open spec fn view(&self) -> ActionView {
        match self {
            Action::Impression(i) => ActionView::Impression(i@),
            Action::Conversion(c) => ActionView::Conversion(c@),
        }
    }
}

impl Action {
    pub open spec fn spec_device_id(&self) -> DeviceId {
        match self {
            Action::Impression(i) => i.device_id,
            Action::Conversion(c) => c.device_id,
        }
    }

    pub open spec fn spec_epoch_id(&self) -> EpochId {
        match self {
            Action::Impression(i) => i.event.epoch_number,
            Action::Conversion(c) => c.epoch_id,
        }
    }

    pub open spec fn spec_timestamp(&self) -> Timestamp {
        match self {
            Action::Impression(i) => i.event.timestamp,
            Action::Conversion(c) => c.timestamp,
        }
    }

    pub open spec fn spec_user_action_id(&self) -> Option<u64> {
        match self {
            Action::Impression(i) => i.event.user_action_id,
            Action::Conversion(c) => c.user_action_id,
        }
    }
}

impl ActionView {
    pub open spec fn device_id(self) -> DeviceId {
        match self {
            ActionView::Impression(i) => i.device_id,
            ActionView::Conversion(c) => c.device_id,
        }
    }

    pub open spec fn epoch_id(self) -> EpochId {
        match self {
            ActionView::Impression(i) => i.event.epoch_number,
            ActionView::Conversion(c) => c.epoch_id,
        }
    }

    pub open spec fn timestamp(self) -> Timestamp {
        match self {
            ActionView::Impression(i) => i.event.timestamp,
            ActionView::Conversion(c) => c.timestamp,
        }
    }
}

impl ImpOrConv for Action {
    fn device_id(&self) -> (d: DeviceId)
        ensures
            d == self.spec_device_id(),
    {
        match self {
            Action::Impression(i) => i.device_id,
            Action::Conversion(c) => c.device_id,
        }
    }

    fn epoch_id(&self) -> (e: EpochId)
        ensures
            e == self.spec_epoch_id(),
    {
        match self {
            Action::Impression(i) => i.event.epoch_number,
            Action::Conversion(c) => c.epoch_id,
        }
    }

    fn timestamp(&self) -> (t: Timestamp)
        ensures
            t == self.spec_timestamp(),
    {
        match self {
            Action::Impression(i) => i.event.timestamp,
            Action::Conversion(c) => c.timestamp,
        }
    }

    fn user_action_id(&self) -> (u: Option<u64>)
        ensures
            u == self.spec_user_action_id(),
    {
        match self {
            Action::Impression(i) => i.event.user_action_id,
            Action::Conversion(c) => c.user_action_id,
        }
    }
}

/// Everything needed to rebuild an impression, as plain values.
/// `trigger_uri` doubles as the querier: each impression is attributed to a
/// single campaign that is both trigger and querier.
#[derive(Debug, Clone, Copy, PartialEq, Eq, Structural)]
pub struct ImpressionRow {
    pub id: u64,
    pub timestamp: Timestamp,
    pub epoch_number: EpochId,
    pub histogram_index: BucketKey,
    pub source_uri: Uri,
    pub trigger_uri: Uri,
    pub device_id: DeviceId,
}

/// The impression a row stands for.
pub open spec fn spec_build(row: ImpressionRow) -> ImpressionView {
    ImpressionView {
        device_id: row.device_id,
        event: crate::common_types::EventView {
            id: row.id,
            timestamp: row.timestamp,
            epoch_number: row.epoch_number,
            histogram_index: row.histogram_index,
            source_uri: row.source_uri,
            trigger_uris: seq![row.trigger_uri],
            querier_uris: seq![row.trigger_uri],
            user_action_id: Some(row.id),
            filter_data: 0,
        },
    }
}

impl ImpressionRow {
    pub fn build(&self) -> (imp: Impression)
        ensures
            imp@ == spec_build(*self),
    {
        let trigger_uris = vec![self.trigger_uri];
        let querier_uris = vec![self.trigger_uri];
        let event = Event {
            id: self.id,
            timestamp: self.timestamp,
            epoch_number: self.epoch_number,
            histogram_index: self.histogram_index,
            uris: EventUris { source_uri: self.source_uri, trigger_uris, querier_uris },
            user_action_id: Some(self.id),
            filter_data: 0,
        };
        let imp = Impression { device_id: self.device_id, event };
        assert(imp@.event.trigger_uris =~= seq![self.trigger_uri]);
        assert(imp@.event.querier_uris =~= seq![self.trigger_uri]);
        imp
    }
}

/// An action in the stored stream: an impression row (materialized on
/// demand) or a conversion (copied on demand).
#[derive(Debug, Clone, PartialEq, Eq)]
pub enum LazyAction {
    Impression(ImpressionRow),
    Conversion(Conversion),
}

impl LazyAction {
    pub open spec fn spec_device_id(&self) -> DeviceId {
        match self {
            LazyAction::Impression(row) => row.device_id,
            LazyAction::Conversion(conv) => conv.device_id,
        }
    }

    pub open spec fn spec_timestamp(&self) -> Timestamp {
        match self {
            LazyAction::Impression(row) => row.timestamp,
            LazyAction::Conversion(conv) => conv.timestamp,
        }
    }

    /// The materialized action.
    pub open spec fn spec_get(&self) -> ActionView {
        match self {
            LazyAction::Impression(row) => ActionView::Impression(spec_build(*row)),
            LazyAction::Conversion(conv) => ActionView::Conversion(conv@),
        }
    }

    pub fn get(&self) -> (action: Action)
        ensures
            action@ == self.spec_get(),
    {
        match self {
            LazyAction::Impression(row) => Action::Impression(row.build()),
            LazyAction::Conversion(conv) => Action::Conversion(conv.duplicate()),
        }
    }

    pub fn device_id(&self) -> (d: DeviceId)
        ensures
            d == self.spec_device_id(),
    {
        match self {
            LazyAction::Impression(row) => row.device_id,
            LazyAction::Conversion(conv) => conv.device_id,
        }
    }
}

/// Popularity ranks of sites (1 = busiest), keyed by `uri_key`.
pub struct RankTable {
    pub ranks: HashMap<u64, usize>,
}

impl RankTable {
    pub open spec fn spec_rank(&self, uri: Uri) -> Option<usize> {
        if self.ranks@.contains_key(uri_key(uri)) {
            Some(self.ranks@[uri_key(uri)])
        } else {
            None
        }
    }

    pub fn get(&self, uri: &Uri) -> (rank: Option<usize>)
        ensures
            rank == self.spec_rank(*uri),
    {
        let key = key_of(*uri);
        match self.ranks.get(&key) {
            Some(r) => Some(*r),
            None => None,
        }
    }
}

/// The ranks an attack consults: impression sources are ranked among
/// sources, conversion queriers among queriers.
pub struct SiteRanks {
    pub source_ranks: RankTable,
    pub querier_ranks: RankTable,
}

impl SiteRanks {
    pub open spec fn spec_rank_of(&self, action: Action) -> Option<usize> {
        match action {
            Action::Impression(i) => self.source_ranks.spec_rank(i.event.uris.source_uri),
            Action::Conversion(c) => self.querier_ranks.spec_rank(c.querier),
        }
    }

    pub fn source_rank(&self, uri: &Uri) -> (rank: Option<usize>)
        ensures
            rank == self.source_ranks.spec_rank(*uri),
    {
        self.source_ranks.get(uri)
    }

    pub fn querier_rank(&self, uri: &Uri) -> (rank: Option<usize>)
        ensures
            rank == self.querier_ranks.spec_rank(*uri),
    {
        self.querier_ranks.get(uri)
    }

    /// The rank of the site an action happens on.
    pub fn rank_of(&self, action: &Action) -> (rank: Option<usize>)
        ensures
            rank == self.spec_rank_of(*action),
    {
        match action {
            Action::Impression(impression) => self.source_rank(&impression.event.uris.source_uri),
            Action::Conversion(conversion) => self.querier_rank(&conversion.querier),
        }
    }
}

/// The keys of a list of sites.
pub open spec fn uri_keys(uris: Seq<Uri>) -> Seq<u64> {
    uris.map_values(|u: Uri| uri_key(u))
}

/// `walk` lists each site of `uris` exactly once (in the order in which a
/// counting map over `uris` yields its keys).
pub open spec fn walk_lists_sites(walk: Seq<Uri>, uris: Seq<Uri>) -> bool {
    &&& walk.no_duplicates()
    &&& forall|u: Uri| #[trigger] walk.contains(u) <==> uris.contains(u)
}

/// Each site key of `uris` with its number of occurrences.
pub open spec fn site_counts(uris: Seq<Uri>) -> Map<u64, usize> {
    Map::new(|x: u64| uri_keys(uris).contains(x), |x: u64| occurrences(uri_keys(uris), x) as usize)
}

/// The sites of `walk`, sorted by non-increasing number of occurrences in
/// `uris` (equal counts in the order the standard library's unstable sort
/// leaves them).
pub open spec fn frequency_order(uris: Seq<Uri>, walk: Seq<Uri>) -> Seq<Uri> {
    sites_sorted_by_count_desc(walk, site_counts(uris))
}

/// `table` ranks the sites of `uris` by frequency: a site's rank is its
/// position in `frequency_order`, plus one. So exactly the sites of `uris`
/// are ranked, ranks are distinct and between 1 and the number of distinct
/// sites, and a more frequent site has a smaller rank.
pub open spec fn ranked_by_frequency(table: RankTable, uris: Seq<Uri>, walk: Seq<Uri>) -> bool {
    &&& forall|k: int| 0 <= k < frequency_order(uris, walk).len() ==>
        table.ranks@[uri_key(#[trigger] frequency_order(uris, walk)[k])] == k + 1
    &&& forall|u: Uri| #[trigger] table.spec_rank(u) is Some <==> uris.contains(u)
    &&& forall|u: Uri| #[trigger] table.spec_rank(u) is Some ==>
        1 <= table.spec_rank(u).unwrap() <= walk.len()
    &&& forall|u: Uri, v: Uri| u != v && #[trigger] table.spec_rank(u) is Some && #[trigger] table.spec_rank(v) is Some ==>
        table.spec_rank(u) != table.spec_rank(v)
    &&& forall|u: Uri, v: Uri| #[trigger] table.spec_rank(u) is Some && #[trigger] table.spec_rank(v) is Some
        && occurrences(uri_keys(uris), uri_key(u)) > occurrences(uri_keys(uris), uri_key(v)) ==>
        table.spec_rank(u).unwrap() < table.spec_rank(v).unwrap()
}

/// A reordering of a list without repeats has none, has the same length and
/// holds the same elements.
proof fn lemma_perm_keeps_distinct(a: Seq<Uri>, b: Seq<Uri>)
    requires
        a.to_multiset() == b.to_multiset(),
        a.no_duplicates(),
    ensures
        b.no_duplicates(),
        b.len() == a.len(),
        forall|u: Uri| #[trigger] b.contains(u) <==> a.contains(u),
{
    broadcast use vstd::seq_lib::group_to_multiset_ensures;
    a.lemma_multiset_has_no_duplicates();
    b.lemma_multiset_has_no_duplicates_conv();
    assert(a.len() == a.to_multiset().len());
    assert(b.len() == b.to_multiset().len());
    assert forall|u: Uri| #[trigger] b.contains(u) <==> a.contains(u) by {
        assert(b.contains(u) <==> b.to_multiset().count(u) > 0);
        assert(a.contains(u) <==> a.to_multiset().count(u) > 0);
    }
}

/// Frequency ranks (1 = busiest) of the sites in `uris`. `walk` lists each
/// site once, in the order the caller's counting map yields them; the walk
/// is sorted by non-increasing number of occurrences, and a site's rank is
/// its position in that order, plus one. Sites that occur equally often are
/// ranked in the order the standard library's unstable sort leaves them,
/// which depends on the walk order.
pub fn rank_by_frequency(uris: &Vec<Uri>, walk: &Vec<Uri>) -> (table: RankTable)
    requires
        walk_lists_sites(walk@, uris@),
    ensures
        ranked_by_frequency(table, uris@, walk@),
{
    let mut keys: Vec<u64> = Vec::new();
    let mut i: usize = 0;
    while i < uris.len()
        invariant
            i <= uris.len(),
            keys@ =~= uri_keys(uris@).subrange(0, i as int),
        decreases uris.len() - i,
    {
        keys.push(key_of(uris[i]));
        i = i + 1;
    }
    assert(keys@ =~= uri_keys(uris@));
    assert(keys@.len() <= usize::MAX);
    let counted = count_keys(&keys);
    proof {
        lemma_first_appearances(keys@);
    }
    // occurrences by key
    let mut occ: HashMap<u64, usize> = HashMap::new();
    let mut c: usize = 0;
    while c < counted.len()
        invariant
            c <= counted@.len(),
            keys@.len() <= usize::MAX,
            counted@ == key_counts(keys@),
            forall|x: u64| #[trigger] occ@.contains_key(x) <==> first_appearances(keys@).subrange(0, c as int).contains(x),
            forall|x: u64| #[trigger] occ@.contains_key(x) ==> occ@[x] == occurrences(keys@, x),
        decreases counted@.len() - c,
    {
        let (key, n) = counted[c];
        let ghost fa = first_appearances(keys@);
        assert(key == fa[c as int]);
        proof {
            lemma_occurrences_bound(keys@, key);
            assert(n == occurrences(keys@, key));
        }
        occ.insert(key, n);
        proof {
            assert(fa.subrange(0, c + 1) =~= fa.subrange(0, c as int).push(key));
            assert forall|x: u64| #[trigger] occ@.contains_key(x) <==> fa.subrange(0, c + 1).contains(x) by {
                vstd::seq_lib::lemma_seq_contains_after_push(fa.subrange(0, c as int), key, x);
            }
        }
        c = c + 1;
    }
    proof {
        assert(first_appearances(keys@).subrange(0, counted@.len() as int) =~= first_appearances(keys@));
        assert forall|x: u64| #[trigger] occ@.contains_key(x) implies occ@[x] == occurrences(keys@, x) as usize by {
            lemma_occurrences_bound(keys@, x);
        }
        assert(occ@ =~= site_counts(uris@));
    }
    // the walk, busiest site first
    let mut busiest = copy_uris(walk);
    sort_sites_by_count_desc(&mut busiest, &occ);
    let ghost sorted = busiest@;
    proof {
        lemma_perm_keeps_distinct(walk@, sorted);
        assert(sorted == frequency_order(uris@, walk@));
    }
    let mut ranks: HashMap<u64, usize> = HashMap::new();
    let mut k: usize = 0;
    while k < busiest.len()
        invariant
            k <= busiest.len(),
            busiest@ == sorted,
            sorted.no_duplicates(),
            sorted.len() == walk@.len(),
            forall|x: u64| #[trigger] ranks@.contains_key(x) <==> uri_keys(sorted.subrange(0, k as int)).contains(x),
            forall|j: int| 0 <= j < k ==> ranks@[uri_key(#[trigger] sorted[j])] == j + 1,
        decreases busiest.len() - k,
    {
        let key = key_of(busiest[k]);
        ranks.insert(key, k + 1);
        proof {
            assert(uri_keys(sorted.subrange(0, k + 1)) =~= uri_keys(sorted.subrange(0, k as int)).push(key));
            assert forall|j: int| 0 <= j < k implies uri_key(#[trigger] sorted[j]) != key by {
                crate::common_types::lemma_uri_key_injective(sorted[j], sorted[k as int]);
            }
            assert forall|x: u64| #[trigger] ranks@.contains_key(x) <==> uri_keys(sorted.subrange(0, k + 1)).contains(x) by {
                vstd::seq_lib::lemma_seq_contains_after_push(uri_keys(sorted.subrange(0, k as int)), key, x);
            }
        }
        k = k + 1;
    }
    let table = RankTable { ranks };
    proof {
        assert(sorted.subrange(0, sorted.len() as int) =~= sorted);
        // A ranked key is the key of a site at some position of `sorted`.
        assert forall|u: Uri| #[trigger] table.spec_rank(u) is Some <==> sorted.contains(u) by {
            if sorted.contains(u) {
                let x = choose|x: int| 0 <= x < sorted.len() && sorted[x] == u;
                assert(uri_keys(sorted)[x] == uri_key(u));
            }
            if uri_keys(sorted).contains(uri_key(u)) {
                let x = choose|x: int| 0 <= x < sorted.len() && uri_keys(sorted)[x] == uri_key(u);
                crate::common_types::lemma_uri_key_injective(sorted[x], u);
            }
        }
        assert forall|u: Uri| #[trigger] table.spec_rank(u) is Some implies
            exists|x: int| 0 <= x < sorted.len() && sorted[x] == u && table.spec_rank(u) == Some((x + 1) as usize) by {
            let x = choose|x: int| 0 <= x < sorted.len() && sorted[x] == u;
            assert(ranks@[uri_key(sorted[x])] == x + 1);
        }
        assert forall|u: Uri| #[trigger] table.spec_rank(u) is Some <==> uris@.contains(u) by {
            assert(walk@.contains(u) <==> uris@.contains(u));
        }
        assert forall|u: Uri, v: Uri| #[trigger] table.spec_rank(u) is Some && #[trigger] table.spec_rank(v) is Some
            && occurrences(uri_keys(uris@), uri_key(u)) > occurrences(uri_keys(uris@), uri_key(v)) implies
            table.spec_rank(u).unwrap() < table.spec_rank(v).unwrap() by {
            let x = choose|x: int| 0 <= x < sorted.len() && sorted[x] == u && table.spec_rank(u) == Some((x + 1) as usize);
            let y = choose|y: int| 0 <= y < sorted.len() && sorted[y] == v && table.spec_rank(v) == Some((y + 1) as usize);
            lemma_occurrences_bound(keys@, uri_key(u));
            lemma_occurrences_bound(keys@, uri_key(v));
            let iu = choose|i: int| 0 <= i < uris@.len() && uris@[i] == u;
            let iv = choose|i: int| 0 <= i < uris@.len() && uris@[i] == v;
            assert(keys@[iu] == uri_key(u));
            assert(keys@[iv] == uri_key(v));
            assert(site_count(occ@, sorted[x]) == occurrences(keys@, uri_key(u)));
            assert(site_count(occ@, sorted[y]) == occurrences(keys@, uri_key(v)));
            if y <= x {
                assert(site_count(occ@, sorted[y]) >= site_count(occ@, sorted[x]));
            }
        }
    }
    table
}

/// What a stored action holds, with a conversion's site list as a sequence.
pub enum LazyActionView {
    Impression(ImpressionRow),
    Conversion(ConversionView),
}

impl View for LazyAction {
    type V = LazyActionView;

    open spec fn view(&self) -> LazyActionView {
        match self {
            LazyAction::Impression(row) => LazyActionView::Impression(*row),
            LazyAction::Conversion(c) => LazyActionView::Conversion(c@),
        }
    }
}

pub open spec fn lazy_views(s: Seq<LazyAction>) -> Seq<LazyActionView> {
    s.map_values(|a: LazyAction| a@)
}

pub open spec fn view_timestamp(a: LazyActionView) -> Timestamp {
    match a {
        LazyActionView::Impression(r) => r.timestamp,
        LazyActionView::Conversion(c) => c.timestamp,
    }
}

/// Two timestamp-ordered streams merged: a conversion is taken only while
/// it is strictly earlier than the next impression, so on a tie the
/// impression comes first.
pub open spec fn spec_merge(imps: Seq<ImpressionRow>, convs: Seq<ConversionView>) -> Seq<LazyActionView>
    decreases imps.len() + convs.len(),
{
    if imps.len() == 0 {
        convs.map_values(|c: ConversionView| LazyActionView::Conversion(c))
    } else if convs.len() == 0 {
        imps.map_values(|r: ImpressionRow| LazyActionView::Impression(r))
    } else if convs[0].timestamp < imps[0].timestamp {
        seq![LazyActionView::Conversion(convs[0])] + spec_merge(imps, convs.drop_first())
    } else {
        seq![LazyActionView::Impression(imps[0])] + spec_merge(imps.drop_first(), convs)
    }
}

pub proof fn lemma_lazy_views_push(s: Seq<LazyAction>, a: LazyAction)
    ensures
        lazy_views(s.push(a)) == lazy_views(s).push(a@),
{
    assert(lazy_views(s.push(a)) =~= lazy_views(s).push(a@));
}

/// Moves the elements of `v` into a list in reverse order.
fn reversed_conversions(v: Vec<Conversion>) -> (r: Vec<Conversion>)
    ensures
        r@.len() == v@.len(),
        forall|i: int| 0 <= i < v@.len() ==> #[trigger] r@[i] == v@[v@.len() - 1 - i],
{
    let ghost orig = v@;
    let mut v = v;
    let mut r: Vec<Conversion> = Vec::new();
    while v.len() > 0
        invariant
            v@.len() + r@.len() == orig.len(),
            forall|i: int| 0 <= i < v@.len() ==> #[trigger] v@[i] == orig[i],
            forall|i: int| 0 <= i < r@.len() ==> #[trigger] r@[i] == orig[orig.len() - 1 - i],
        decreases v.len(),
    {
        let c = v.pop().unwrap();
        r.push(c);
    }
    r
}

/// Merges two already-sorted streams by timestamp, an impression before a
/// conversion with the same timestamp.
pub fn merge_imps_and_convs(impressions: Vec<ImpressionRow>, conversions: Vec<Conversion>) -> (actions: Vec<LazyAction>)
    ensures
        lazy_views(actions@) == spec_merge(impressions@, conversion_views(conversions@)),
{
    let ghost imps = impressions@;
    let ghost convs = conversion_views(conversions@);
    let n_convs = conversions.len();
    let mut rev = reversed_conversions(conversions);
    let mut actions: Vec<LazyAction> = Vec::new();
    let mut pi: usize = 0;
    proof {
        assert(imps.skip(0) =~= imps);
        assert(convs.skip(0) =~= convs);
        assert(lazy_views(actions@) + spec_merge(imps, convs) =~= spec_merge(imps, convs));
    }
    while pi < impressions.len() && rev.len() > 0
        invariant
            pi <= impressions.len(),
            impressions@ == imps,
            rev@.len() <= n_convs,
            n_convs == convs.len(),
            forall|i: int| 0 <= i < rev@.len() ==> (#[trigger] rev@[i])@ == convs[n_convs - 1 - i],
            lazy_views(actions@) + spec_merge(imps.skip(pi as int), convs.skip(n_convs - rev@.len()))
                == spec_merge(imps, convs),
        decreases impressions.len() - pi + rev.len(),
    {
        let pc = n_convs - rev.len();
        let ghost ri = imps.skip(pi as int);
        let ghost rc = convs.skip(pc as int);
        let last = rev.len() - 1;
        let row = impressions[pi];
        assert(rev@[last as int]@ == convs[pc as int]);
        if rev[last].timestamp < row.timestamp {
            let c = rev.pop().unwrap();
            proof {
                assert(rc.drop_first() =~= convs.skip(pc + 1));
                lemma_lazy_views_push(actions@, LazyAction::Conversion(c));
            }
            actions.push(LazyAction::Conversion(c));
            proof {
                assert(lazy_views(actions@) + spec_merge(imps.skip(pi as int), convs.skip(pc + 1)) =~=
                    spec_merge(imps, convs));
            }
        } else {
            proof {
                assert(ri.drop_first() =~= imps.skip(pi + 1));
                lemma_lazy_views_push(actions@, LazyAction::Impression(row));
            }
            actions.push(LazyAction::Impression(row));
            pi = pi + 1;
            proof {
                assert(lazy_views(actions@) + spec_merge(imps.skip(pi as int), convs.skip(pc as int)) =~=
                    spec_merge(imps, convs));
            }
        }
    }
    while pi < impressions.len()
        invariant
            pi <= impressions.len(),
            impressions@ == imps,
            rev@.len() <= n_convs,
            n_convs == convs.len(),
            forall|i: int| 0 <= i < rev@.len() ==> (#[trigger] rev@[i])@ == convs[n_convs - 1 - i],
            pi < impressions.len() ==> rev@.len() == 0,
            lazy_views(actions@) + spec_merge(imps.skip(pi as int), convs.skip(n_convs - rev@.len()))
                == spec_merge(imps, convs),
        decreases impressions.len() - pi,
    {
        let row = impressions[pi];
        proof {
            let ri = imps.skip(pi as int);
            assert(convs.skip(n_convs as int) =~= Seq::<ConversionView>::empty());
            assert(ri.drop_first() =~= imps.skip(pi + 1));
            if ri.len() > 1 {
                assert(spec_merge(ri, Seq::empty()) =~= seq![LazyActionView::Impression(row)] + spec_merge(ri.drop_first(), Seq::empty()));
            } else {
                assert(ri.drop_first() =~= Seq::<ImpressionRow>::empty());
                assert(spec_merge(ri, Seq::empty()) =~= seq![LazyActionView::Impression(row)]);
            }
            lemma_lazy_views_push(actions@, LazyAction::Impression(row));
        }
        actions.push(LazyAction::Impression(row));
        pi = pi + 1;
        proof {
            assert(lazy_views(actions@) + spec_merge(imps.skip(pi as int), convs.skip(n_convs - rev@.len())) =~=
                spec_merge(imps, convs));
        }
    }
    while rev.len() > 0
        invariant
            pi == impressions.len(),
            impressions@ == imps,
            rev@.len() <= n_convs,
            n_convs == convs.len(),
            forall|i: int| 0 <= i < rev@.len() ==> (#[trigger] rev@[i])@ == convs[n_convs - 1 - i],
            lazy_views(actions@) + spec_merge(imps.skip(pi as int), convs.skip(n_convs - rev@.len()))
                == spec_merge(imps, convs),
        decreases rev.len(),
    {
        let pc = n_convs - rev.len();
        let c = rev.pop().unwrap();
        proof {
            let rc = convs.skip(pc as int);
            assert(imps.skip(pi as int) =~= Seq::<ImpressionRow>::empty());
            assert(rc.drop_first() =~= convs.skip(pc + 1));
            assert(spec_merge(Seq::empty(), rc) =~= seq![LazyActionView::Conversion(c@)] + spec_merge(Seq::empty(), rc.drop_first()));
            lemma_lazy_views_push(actions@, LazyAction::Conversion(c));
        }
        actions.push(LazyAction::Conversion(c));
        proof {
            assert(lazy_views(actions@) + spec_merge(imps.skip(pi as int), convs.skip(pc + 1)) =~=
                spec_merge(imps, convs));
        }
    }
    proof {
        assert(imps.skip(pi as int) =~= Seq::<ImpressionRow>::empty());
        assert(convs.skip(n_convs as int) =~= Seq::<ConversionView>::empty());
        assert(spec_merge(Seq::<ImpressionRow>::empty(), Seq::<ConversionView>::empty()) =~= Seq::<LazyActionView>::empty());
        assert(lazy_views(actions@) =~= lazy_views(actions@) + Seq::<LazyActionView>::empty());
    }
    actions
}

} // verus!
