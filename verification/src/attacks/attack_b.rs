//! The random attacker: on every action of a hijacked site it injects, for
//! each of a few randomly chosen sybils, an impression from that sybil and a
//! conversion by it that attributes to other, randomly chosen sybils.

use vstd::prelude::*;

use crate::attacks::scaffold::{
    begin_attack, begin_attack_ok, injected_conversion, injected_impression, is_target,
    scaffold_for, views, AttackScaffold, Targeting,
};
use crate::common_types::{copy_uris, contains_uri, Conversion, Event, EventUris, Impression, Uri, UriId};
use crate::dataset::{Action, ActionView, SiteRanks};
use crate::rng::choose_multiple;

verus! {

broadcast use vstd::seq_lib::group_to_multiset_ensures;

#[derive(Debug, Clone, Copy, PartialEq, Eq, Structural, Hash)]
pub struct AttackBConfig {
    /// The hijacked sites: those whose popularity rank lies in
    /// `[malicious_site_rank_start, malicious_site_rank_start + malicious_site_count)`.
    pub malicious_site_rank_start: u64,
    pub malicious_site_count: u64,
    /// Number of malicious redirections after the organic site visit; each
    /// injects an impression and a conversion.
    pub num_redirections: u64,
    /// Number of sybils the attacker has access to.
    pub num_sybils: u64,
    /// For every conversion, how many sybils to list as impression sites.
    pub sybils_per_conversion: u64,
    /// Chance, in percent, that the genuine action comes first (vs last).
    pub genuine_first_chance: u32,
    /// Whether the malicious sites are sisters of the benign ones (same visit
    /// pattern, different user actions) rather than hijacked redirections
    /// (same user action).
    pub malicious_sister_sites: bool,
}

pub open spec fn spec_targeting_b(cfg: AttackBConfig) -> Targeting {
    Targeting {
        rank_start: cfg.malicious_site_rank_start,
        count: cfg.malicious_site_count,
        num_redirections: cfg.num_redirections,
        genuine_first_chance: cfg.genuine_first_chance,
        sister_sites: cfg.malicious_sister_sites,
    }
}

/// The sybil sites `0 .. n` of an attacker, as malicious sites (identifiers
/// are truncated to `UriId`).
pub open spec fn spec_sybil_uris(n: u64) -> Seq<Uri> {
    Seq::new(n as nat, |i: int| Uri { id: i as UriId, malicious: true })
}

/// The sybil sites of an attacker with `num_sybils` sybils.
pub fn sybil_uris(num_sybils: u64) -> (uris: Vec<Uri>)
    ensures
        uris@ == spec_sybil_uris(num_sybils),
{
    let mut uris: Vec<Uri> = Vec::new();
    let mut i: u64 = 0;
    while i < num_sybils
        invariant
            i <= num_sybils,
            uris@ =~= spec_sybil_uris(num_sybils).subrange(0, i as int),
        decreases num_sybils - i,
    {
        uris.push(Uri::malicious(i as UriId));
        i = i + 1;
    }
    uris
}

impl AttackBConfig {
    pub fn targeting(&self) -> (t: Targeting)
        ensures
            t == spec_targeting_b(*self),
    {
        Targeting {
            rank_start: self.malicious_site_rank_start,
            count: self.malicious_site_count,
            num_redirections: self.num_redirections,
            genuine_first_chance: self.genuine_first_chance,
            sister_sites: self.malicious_sister_sites,
        }
    }
}

/// The elements of `all` that occur in neither `a` nor `b`, in order.
pub open spec fn outside(all: Seq<Uri>, a: Seq<Uri>, b: Seq<Uri>) -> Seq<Uri>
    decreases all.len(),
{
    if all.len() == 0 {
        Seq::empty()
    } else {
        let rest = outside(all.drop_last(), a, b);
        if !a.contains(all.last()) && !b.contains(all.last()) {
            rest.push(all.last())
        } else {
            rest
        }
    }
}

pub proof fn lemma_outside(all: Seq<Uri>, a: Seq<Uri>, b: Seq<Uri>)
    ensures
        outside(all, a, b).to_multiset().subset_of(all.to_multiset()),
        forall|x: Uri| #[trigger] outside(all, a, b).contains(x) <==> (all.contains(x) && !a.contains(x) && !b.contains(x)),
        all.no_duplicates() ==> outside(all, a, b).no_duplicates(),
        outside(all, a, b).len() <= all.len(),
    decreases all.len(),
{
    broadcast use vstd::multiset::group_multiset_axioms;
    if all.len() > 0 {
        let p = all.drop_last();
        lemma_outside(p, a, b);
        assert(all =~= p.push(all.last()));
        let r = outside(p, a, b);
        assert forall|x: Uri| #[trigger] outside(all, a, b).contains(x) <==> (all.contains(x) && !a.contains(x) && !b.contains(x)) by {
            vstd::seq_lib::lemma_seq_contains_after_push(p, all.last(), x);
            if !a.contains(all.last()) && !b.contains(all.last()) {
                vstd::seq_lib::lemma_seq_contains_after_push(r, all.last(), x);
            }
        }
        if all.no_duplicates() {
            if !a.contains(all.last()) && !b.contains(all.last()) {
                assert(!p.contains(all.last()));
                assert(!r.contains(all.last()));
            }
        }
    }
}

/// A sub-multiset of a sequence without duplicates has none either, and
/// its elements are elements of the sequence.
pub proof fn lemma_sub_multiset_no_dups(s: Seq<Uri>, t: Seq<Uri>)
    requires
        s.to_multiset().subset_of(t.to_multiset()),
    ensures
        forall|x: Uri| #[trigger] s.contains(x) ==> t.contains(x),
        t.no_duplicates() ==> s.no_duplicates(),
{
    broadcast use vstd::multiset::group_multiset_axioms;
    assert forall|x: Uri| #[trigger] s.contains(x) implies t.contains(x) by {
        assert(s.to_multiset().count(x) > 0);
        assert(t.to_multiset().count(x) > 0);
    }
    if t.no_duplicates() {
        t.lemma_multiset_has_no_duplicates();
        assert forall|x: Uri| s.to_multiset().contains(x) implies s.to_multiset().count(x) == 1 by {
            assert(t.to_multiset().count(x) > 0);
        }
        s.lemma_multiset_has_no_duplicates_conv();
    }
}

/// Every element of a sub-multiset occurs in the larger sequence.
pub proof fn lemma_sub_multiset_contains(s: Seq<Uri>, t: Seq<Uri>)
    requires
        s.to_multiset().subset_of(t.to_multiset()),
    ensures
        forall|x: Uri| #[trigger] s.contains(x) ==> t.contains(x),
{
    broadcast use vstd::seq_lib::group_to_multiset_ensures;
    assert forall|x: Uri| #[trigger] s.contains(x) implies t.contains(x) by {
        assert(s.to_multiset().count(x) > 0);
        assert(t.to_multiset().count(x) > 0);
    }
}

/// A sub-multiset as long as the larger sequence holds all of its elements.
pub proof fn lemma_sub_multiset_same_len(s: Seq<Uri>, t: Seq<Uri>)
    requires
        s.to_multiset().subset_of(t.to_multiset()),
        s.len() == t.len(),
    ensures
        forall|x: Uri| #[trigger] t.contains(x) ==> s.contains(x),
{
    broadcast use vstd::seq_lib::group_to_multiset_ensures;
    broadcast use vstd::multiset::group_multiset_axioms;
    let d = t.to_multiset().sub(s.to_multiset());
    assert(d.len() == 0);
    assert forall|x: Uri| #[trigger] t.contains(x) implies s.contains(x) by {
        assert(t.to_multiset().count(x) > 0);
        assert(d.count(x) <= d.len());
        assert(s.to_multiset().count(x) > 0);
    }
}

/// A sequence without duplicates whose elements all occur in another one
/// without duplicates is no longer than it.
pub proof fn lemma_no_dups_subset_len(s: Seq<Uri>, t: Seq<Uri>)
    requires
        s.no_duplicates(),
        t.no_duplicates(),
        forall|x: Uri| #[trigger] s.contains(x) ==> t.contains(x),
    ensures
        s.len() <= t.len(),
{
    s.unique_seq_to_set();
    t.unique_seq_to_set();
    assert(s.to_set().subset_of(t.to_set()));
    vstd::set_lib::lemma_len_subset(s.to_set(), t.to_set());
}

/// A sequence without duplicates whose elements are exactly those of two
/// disjoint sequences without duplicates is as long as both together.
pub proof fn lemma_no_dups_partition_len(q: Seq<Uri>, a: Seq<Uri>, b: Seq<Uri>)
    requires
        q.no_duplicates(),
        a.no_duplicates(),
        b.no_duplicates(),
        forall|x: Uri| #[trigger] q.contains(x) <==> (a.contains(x) || b.contains(x)),
        forall|x: Uri| !(#[trigger] a.contains(x) && b.contains(x)),
    ensures
        q.len() == a.len() + b.len(),
{
    q.unique_seq_to_set();
    a.unique_seq_to_set();
    b.unique_seq_to_set();
    assert(q.to_set() =~= a.to_set() + b.to_set());
    assert(a.to_set().disjoint(b.to_set()));
    vstd::set_lib::lemma_set_disjoint_lens(a.to_set(), b.to_set());
}

/// Two disjoint sequences without duplicates concatenate to one without.
pub proof fn lemma_concat_no_dups(a: Seq<Uri>, b: Seq<Uri>)
    requires
        a.no_duplicates(),
        b.no_duplicates(),
        forall|x: Uri| !(#[trigger] a.contains(x) && b.contains(x)),
    ensures
        (a + b).no_duplicates(),
        forall|x: Uri| #[trigger] (a + b).contains(x) <==> (a.contains(x) || b.contains(x)),
{
    let c = a + b;
    assert forall|i: int, j: int| 0 <= i < c.len() && 0 <= j < c.len() && i != j implies c[i] != c[j] by {
        if i < a.len() && j >= a.len() {
            assert(a.contains(c[i]));
            assert(b.contains(c[j]));
        } else if j < a.len() && i >= a.len() {
            assert(a.contains(c[j]));
            assert(b.contains(c[i]));
        }
    }
    assert forall|x: Uri| #[trigger] c.contains(x) <==> (a.contains(x) || b.contains(x)) by {
        if c.contains(x) {
            let i = choose|i: int| 0 <= i < c.len() && c[i] == x;
            if i < a.len() { assert(a[i] == x); } else { assert(b[i - a.len()] == x); }
        }
        if a.contains(x) {
            let i = choose|i: int| 0 <= i < a.len() && a[i] == x;
            assert(c[i] == x);
        }
        if b.contains(x) {
            let i = choose|i: int| 0 <= i < b.len() && b[i] == x;
            assert(c[i + a.len()] == x);
        }
    }
}

/// Collects the elements of `all` that occur in neither `a` nor `b`.
pub fn uris_outside(all: &Vec<Uri>, a: &Vec<Uri>, b: &Vec<Uri>) -> (res: Vec<Uri>)
    ensures
        res@ == outside(all@, a@, b@),
{
    let mut res: Vec<Uri> = Vec::new();
    let mut i: usize = 0;
    while i < all.len()
        invariant
            i <= all.len(),
            res@ == outside(all@.subrange(0, i as int), a@, b@),
        decreases all.len() - i,
    {
        let x = all[i];
        let in_a = contains_uri(a, x);
        let in_b = contains_uri(b, x);
        assert(all@.subrange(0, i + 1).drop_last() =~= all@.subrange(0, i as int));
        if !in_a && !in_b {
            res.push(x);
        }
        i = i + 1;
    }
    assert(all@.subrange(0, all.len() as int) =~= all@);
    res
}

/// The attack for one action, given its random choices: `chosen` are the
/// sybils redirected to, and `sources[k]` the sybils the `k`-th conversion
/// attributes to.
pub open spec fn injected_pairs(action: Action, t: Targeting, all: Seq<Uri>, chosen: Seq<Uri>, sources: Seq<Seq<Uri>>, k: int) -> Seq<ActionView> {
    Seq::new((2 * k) as nat, |i: int|
        if i % 2 == 0 {
            injected_impression(action, t, chosen[i / 2], all)
        } else {
            injected_conversion(action, t, chosen[i / 2], sources[i / 2])
        })
}

pub open spec fn min_int(a: int, b: int) -> int {
    if a <= b { a } else { b }
}

/// The sybils the first conversions attributed to, in order.
pub open spec fn flatten(sources: Seq<Seq<Uri>>) -> Seq<Uri>
    decreases sources.len(),
{
    if sources.len() == 0 {
        Seq::empty()
    } else {
        flatten(sources.drop_last()) + sources.last()
    }
}

/// A conversion's sources spread the attribution over the sybils: with
/// `fresh` the sybils neither redirected to nor attributed to by an earlier
/// conversion (in the sybils' order), the sources are all fresh when at
/// least `n` sybils are fresh, and otherwise begin with every fresh sybil,
/// in order.
pub open spec fn rotates(all: Seq<Uri>, chosen: Seq<Uri>, converted: Seq<Uri>, picked: Seq<Uri>, n: int) -> bool {
    let fresh = outside(all, converted, chosen);
    &&& fresh.len() >= n ==> forall|x: Uri| #[trigger] picked.contains(x) ==> fresh.contains(x)
    &&& fresh.len() < n ==> forall|x: Uri| #[trigger] fresh.contains(x) ==> picked.contains(x)
    &&& fresh.len() <= n ==> picked.take(fresh.len() as int) == fresh
}

/// The random choices of the attack for one action are consistent with
/// rand's contracts: the redirected sybils are `min(num_redirections,
/// #sybils)` distinct positions of the sybil list (all of it, in order, when
/// there are no more sybils than redirections), and each conversion lists
/// at most `sybils_per_conversion` sybils, none of them redirected to in
/// this action, preferring those no earlier conversion attributed to; with
/// distinct sybils, each conversion lists exactly
/// `min(sybils_per_conversion, #sybils - #redirected)` distinct ones.
pub open spec fn valid_b_choices(cfg: AttackBConfig, all: Seq<Uri>, chosen: Seq<Uri>, sources: Seq<Seq<Uri>>) -> bool {
    &&& chosen.len() == min_int((cfg.num_redirections as usize) as int, all.len() as int)
    &&& chosen.to_multiset().subset_of(all.to_multiset())
    &&& (cfg.num_redirections as usize) as int >= all.len() ==> chosen == all
    &&& sources.len() == chosen.len()
    &&& forall|k: int, x: Uri| 0 <= k < sources.len() && #[trigger] sources[k].contains(x) ==>
        all.contains(x) && !chosen.contains(x)
    &&& forall|k: int| 0 <= k < sources.len() ==> #[trigger] sources[k].len() <= (cfg.sybils_per_conversion as usize) as int
    &&& forall|k: int| 0 <= k < sources.len() ==>
        rotates(all, chosen, flatten(sources.take(k)), #[trigger] sources[k], (cfg.sybils_per_conversion as usize) as int)
    &&& all.no_duplicates() ==> forall|k: int| 0 <= k < sources.len() ==> {
        &&& (#[trigger] sources[k]).no_duplicates()
        &&& sources[k].len() == min_int((cfg.sybils_per_conversion as usize) as int, all.len() - chosen.len())
    }
}

/// What the attack emits for one targeted action, given its coin flip and
/// draws: the genuine action first or last, around one injected impression /
/// conversion pair per redirected sybil.
pub open spec fn b_emitted(action: Action, cfg: AttackBConfig, all: Seq<Uri>, genuine_first: bool, chosen: Seq<Uri>, sources: Seq<Seq<Uri>>) -> Seq<ActionView> {
    let pairs = injected_pairs(action, spec_targeting_b(cfg), all, chosen, sources, chosen.len() as int);
    if genuine_first {
        seq![action@] + pairs
    } else {
        pairs + seq![action@]
    }
}

/// An action on a site outside the hijacked rank window (ranked before
/// `malicious_site_rank_start`, at or after the window's end, or unranked)
/// comes out of the attack alone and unchanged.
pub proof fn law_b_leaves_sites_outside_the_window_alone(cfg: AttackBConfig, all: Seq<Uri>, ranks: &SiteRanks, action: Action, out: Seq<Action>)
    requires
        b_outcome(cfg, all, ranks, action, out),
        match ranks.spec_rank_of(action) {
            Some(r) => r < cfg.malicious_site_rank_start || r >= cfg.malicious_site_rank_start + cfg.malicious_site_count,
            None => true,
        },
    ensures
        out == seq![action],
{
    crate::attacks::scaffold::law_targets_only_the_rank_window(ranks.spec_rank_of(action), spec_targeting_b(cfg));
}

/// Every outcome of the attack on one action: untargeted actions pass
/// through alone; a targeted action is surrounded by injected pairs for some
/// coin flip and draws that rand's contracts allow.
pub open spec fn b_outcome(cfg: AttackBConfig, all: Seq<Uri>, ranks: &SiteRanks, action: Action, out: Seq<Action>) -> bool {
    if !is_target(ranks.spec_rank_of(action), spec_targeting_b(cfg)) {
        out == seq![action]
    } else {
        exists|gf: bool, chosen: Seq<Uri>, sources: Seq<Seq<Uri>>|
            #![trigger b_emitted(action, cfg, all, gf, chosen, sources)]
            {
                &&& valid_b_choices(cfg, all, chosen, sources)
                &&& (cfg.genuine_first_chance == 0 ==> !gf)
                &&& (cfg.genuine_first_chance == 100 ==> gf)
                &&& views(out) == b_emitted(action, cfg, all, gf, chosen, sources)
            }
    }
}

/// The random attacker. `sybils` lists the attacker's sybil sites in the
/// order in which the sybil set yields them.
pub struct AttackB {
    pub cfg: AttackBConfig,
    pub sybils: Vec<Uri>,
}

pub proof fn lemma_views_push(s: Seq<Action>, a: Action)
    ensures
        views(s.push(a)) == views(s).push(a@),
{
    assert(views(s.push(a)) =~= views(s).push(a@));
}

impl AttackB {
    /// One injected pair and the sybils it converted, for the `k`-th
    /// redirected sybil.
    fn injected_impression_for(ctx: &AttackScaffold, sybil: Uri, all: &Vec<Uri>) -> (a: Action)
        ensures
            a@ == crate::dataset::ActionView::Impression(crate::common_types::ImpressionView {
                device_id: ctx.device_id,
                event: crate::common_types::EventView {
                    id: 0,
                    timestamp: ctx.timestamp,
                    epoch_number: ctx.epoch_number,
                    histogram_index: 0,
                    source_uri: sybil,
                    trigger_uris: all@,
                    querier_uris: all@,
                    user_action_id: ctx.user_action_id,
                    filter_data: 0,
                },
            }),
    {
        let event = Event {
            id: 0,
            uris: EventUris { source_uri: sybil, trigger_uris: copy_uris(all), querier_uris: copy_uris(all) },
            timestamp: ctx.timestamp,
            epoch_number: ctx.epoch_number,
            histogram_index: 0,
            user_action_id: ctx.user_action_id,
            filter_data: 0,
        };
        Action::Impression(Impression { device_id: ctx.device_id, event })
    }

    /// Takes an action, and pushes to `out` what the device sees instead: the
    /// action itself if its site is not hijacked; otherwise the genuine
    /// action first or last, around one injected impression / conversion
    /// pair per redirected sybil.
    #[verifier::rlimit(40)]
    pub fn process_action(&self, action: Action, ranks: &SiteRanks, out: &mut Vec<Action>)
        requires
            old(out)@.len() == 0,
            begin_attack_ok(action, ranks, spec_targeting_b(self.cfg)),
        ensures
            b_outcome(self.cfg, self.sybils@, ranks, action, final(out)@),
    {
        let ghost t = spec_targeting_b(self.cfg);
        let ctx_opt = begin_attack(action, ranks, out, self.cfg.targeting());
        let mut ctx = match ctx_opt {
            None => return,
            Some(c) => c,
        };
        let ghost gf = ctx.genuine_first;
        let ghost head = views(out@);
        let all = &self.sybils;
        let wanted: usize = self.cfg.num_redirections as usize;
        let amount = if wanted <= all.len() { wanted } else { all.len() };
        let pool = copy_uris(all);
        let chosen = choose_multiple(&mut ctx.rng, pool, amount);
        let mut converted: Vec<Uri> = Vec::new();
        let ghost mut sources: Seq<Seq<Uri>> = Seq::empty();
        let mut k: usize = 0;
        while k < chosen.len()
            invariant
                k <= chosen.len(),
                chosen.len() == amount,
                amount == min_int((self.cfg.num_redirections as usize) as int, self.sybils@.len() as int),
                chosen@.to_multiset().subset_of(self.sybils@.to_multiset()),
                (self.cfg.num_redirections as usize) as int >= self.sybils@.len() ==> chosen@ == self.sybils@,
                t == spec_targeting_b(self.cfg),
                all@ == self.sybils@,
                scaffold_for(ctx, action, t),
                gf == ctx.genuine_first,
                head == if gf { seq![action@] } else { Seq::<ActionView>::empty() },
                sources.len() == k,
                forall|j: int, x: Uri| 0 <= j < k && #[trigger] sources[j].contains(x) ==>
                    self.sybils@.contains(x) && !chosen@.contains(x),
                forall|j: int| 0 <= j < k ==> #[trigger] sources[j].len() <= (self.cfg.sybils_per_conversion as usize) as int,
                converted@ == flatten(sources),
                forall|j: int| 0 <= j < k ==>
                    rotates(self.sybils@, chosen@, flatten(sources.take(j)), #[trigger] sources[j], (self.cfg.sybils_per_conversion as usize) as int),
                self.sybils@.no_duplicates() ==> forall|j: int| 0 <= j < k ==> {
                    &&& (#[trigger] sources[j]).no_duplicates()
                    &&& sources[j].len() == min_int((self.cfg.sybils_per_conversion as usize) as int,
                            self.sybils@.len() - chosen.len())
                },
                views(out@) == head + injected_pairs(action, t, self.sybils@, chosen@, sources, k as int),
            decreases chosen.len() - k,
        {
            let sybil = chosen[k];
            let imp = Self::injected_impression_for(&ctx, sybil, all);
            proof { lemma_views_push(out@, imp); }
            out.push(imp);
            let picked = self.pick_conversion_sources(&mut ctx.rng, &converted, &chosen);
            let mut picked_copy = copy_uris(&picked);
            converted.append(&mut picked_copy);
            let ghost picked_view = picked@;
            let conversion = Conversion {
                querier: sybil,
                epoch_id: ctx.epoch_number,
                timestamp: ctx.timestamp,
                device_id: ctx.device_id,
                user_action_id: ctx.user_action_id,
                source_uris: Some(picked),
            };
            let conv = Action::Conversion(conversion);
            proof {
                lemma_views_push(out@, conv);
                let old_sources = sources;
                sources = sources.push(picked_view);
                assert(sources.drop_last() =~= old_sources);
                assert(sources.take(k as int) =~= old_sources);
                assert forall|j: int| 0 <= j < k implies #[trigger] sources.take(j) == old_sources.take(j) by {
                    assert(sources.take(j) =~= old_sources.take(j));
                }
                if self.sybils@.no_duplicates() {
                    self.sybils@.unique_seq_to_set();
                    lemma_sub_multiset_no_dups(chosen@, self.sybils@);
                    lemma_outside(self.sybils@, chosen@, Seq::empty());
                    let q = outside(self.sybils@, chosen@, Seq::empty());
                    lemma_no_dups_partition_len(self.sybils@, q, chosen@);
                }
                assert(injected_pairs(action, t, self.sybils@, chosen@, sources, k + 1) =~=
                    injected_pairs(action, t, self.sybils@, chosen@, old_sources, k as int)
                        .push(injected_impression(action, t, sybil, self.sybils@))
                        .push(injected_conversion(action, t, sybil, picked_view)));
            }
            let ghost before = views(out@);
            out.push(conv);
            proof {
                assert(imp@ == injected_impression(action, t, sybil, self.sybils@));
                assert(conv@ == injected_conversion(action, t, sybil, picked_view));
                let old_pairs = injected_pairs(action, t, self.sybils@, chosen@, sources.drop_last(), k as int);
                assert(sources.drop_last() =~= sources.subrange(0, k as int));
                assert(views(out@) =~= head + injected_pairs(action, t, self.sybils@, chosen@, sources, k + 1));
            }
            k = k + 1;
        }
        let ghost body = out@;
        ctx.emit_genuine_last(out);
        proof {
            if !gf {
                lemma_views_push(body, action);
            }
            assert(views(out@) =~= b_emitted(action, self.cfg, self.sybils@, gf, chosen@, sources));
        }
    }

    /// The sybils one conversion attributes to: first up to
    /// `sybils_per_conversion` sybils not yet converted and not redirected to,
    /// then, if those run out, more from those not redirected to and not
    /// already picked.
    fn pick_conversion_sources(&self, rng: &mut rand::rngs::StdRng, converted: &Vec<Uri>, chosen: &Vec<Uri>) -> (picked: Vec<Uri>)
        ensures
            forall|x: Uri| #[trigger] picked@.contains(x) ==> self.sybils@.contains(x) && !chosen@.contains(x),
            picked.len() <= (self.cfg.sybils_per_conversion as usize) as int,
            rotates(self.sybils@, chosen@, converted@, picked@, (self.cfg.sybils_per_conversion as usize) as int),
            self.sybils@.no_duplicates() ==> {
                &&& picked@.no_duplicates()
                &&& picked.len() == min_int((self.cfg.sybils_per_conversion as usize) as int,
                        outside(self.sybils@, chosen@, Seq::empty()).len() as int)
            },
    {
        let all = &self.sybils;
        let wanted: usize = self.cfg.sybils_per_conversion as usize;
        let pool = uris_outside(all, converted, chosen);
        proof { lemma_outside(all@, converted@, chosen@); }
        let amount = if wanted <= pool.len() { wanted } else { pool.len() };
        let ghost pool1 = pool@;
        let mut picked = choose_multiple(rng, pool, amount);
        let ghost q = outside(self.sybils@, chosen@, Seq::empty());
        proof {
            lemma_outside(self.sybils@, chosen@, Seq::empty());
            lemma_sub_multiset_no_dups(picked@, pool1);
            lemma_sub_multiset_contains(picked@, pool1);
            if pool1.len() <= wanted {
                lemma_sub_multiset_same_len(picked@, pool1);
                assert(picked@ == pool1);
            }
        }
        let ghost first_pick = picked@;
        if picked.len() < wanted {
            let short = wanted - picked.len();
            let pool2 = uris_outside(all, chosen, &picked);
            proof { lemma_outside(all@, chosen@, picked@); }
            let amount2 = if short <= pool2.len() { short } else { pool2.len() };
            let ghost p2 = pool2@;
            let ghost first = picked@;
            let mut extra = choose_multiple(rng, pool2, amount2);
            proof {
                lemma_sub_multiset_no_dups(extra@, p2);
            }
            let ghost second = extra@;
            picked.append(&mut extra);
            proof {
                assert(picked@ == first + second);
                if self.sybils@.no_duplicates() {
                    assert forall|x: Uri| !(#[trigger] first.contains(x) && second.contains(x)) by {
                        if second.contains(x) { assert(p2.contains(x)); }
                    }
                    lemma_concat_no_dups(first, second);
                    assert forall|x: Uri| #[trigger] q.contains(x) <==> (p2.contains(x) || first.contains(x)) by {
                        if first.contains(x) { assert(pool1.contains(x)); }
                    }
                    assert forall|x: Uri| !(#[trigger] p2.contains(x) && first.contains(x)) by {}
                    lemma_no_dups_partition_len(q, p2, first);
                }
                assert forall|x: Uri| #[trigger] picked@.contains(x) implies self.sybils@.contains(x) && !chosen@.contains(x) by {
                    vstd::seq_lib::lemma_seq_concat_contains_all_elements(first, second, x);
                    if first.contains(x) { assert(pool1.contains(x)); } else { assert(p2.contains(x)); }
                }
                assert forall|x: Uri| #[trigger] pool1.contains(x) implies picked@.contains(x) by {
                    assert(first.contains(x));
                    vstd::seq_lib::lemma_seq_concat_contains_all_elements(first, second, x);
                }
                assert(picked@.take(pool1.len() as int) =~= first);
            }
        } else {
            proof {
                if pool1.len() <= wanted {
                    assert(picked@.take(pool1.len() as int) =~= picked@);
                }
                assert forall|x: Uri| #[trigger] picked@.contains(x) implies self.sybils@.contains(x) && !chosen@.contains(x) by {
                    assert(pool1.contains(x));
                }
                if self.sybils@.no_duplicates() {
                    assert forall|x: Uri| #[trigger] picked@.contains(x) implies q.contains(x) by {
                        assert(pool1.contains(x));
                    }
                    lemma_no_dups_subset_len(picked@, q);
                }
            }
        }
        picked
    }
}

} // verus!
