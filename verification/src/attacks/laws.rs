//! What holds of every attack's output, whatever its random draws.

use vstd::prelude::*;

use crate::attacks::attack_b::{
    b_emitted, b_outcome, flatten, injected_pairs, lemma_concat_no_dups, lemma_no_dups_partition_len, lemma_outside,
    lemma_sub_multiset_contains, lemma_sub_multiset_no_dups, min_int, outside, rotates, spec_targeting_b, valid_b_choices,
    AttackBConfig,
};
use crate::attacks::attack_c::{c_injected, c_outcome, redirected, spec_targeting_c, with_budget, AttackCConfig};
use crate::attacks::scaffold::{is_target, views, Targeting};
use crate::common_types::Uri;
use crate::dataset::{Action, ActionView, SiteRanks};

verus! {

/// Every action of `s` happens on the device, in the epoch and at the time
/// of `action`.
pub open spec fn same_place_and_time(s: Seq<ActionView>, action: Action) -> bool {
    forall|i: int| 0 <= i < s.len() ==> {
        &&& (#[trigger] s[i]).device_id() == action.spec_device_id()
        &&& s[i].epoch_id() == action.spec_epoch_id()
        &&& s[i].timestamp() == action.spec_timestamp()
    }
}

proof fn lemma_action_view_fields(action: Action)
    ensures
        action@.device_id() == action.spec_device_id(),
        action@.epoch_id() == action.spec_epoch_id(),
        action@.timestamp() == action.spec_timestamp(),
{
}

proof fn lemma_pairs_place(action: Action, t: Targeting, all: Seq<Uri>, chosen: Seq<Uri>, sources: Seq<Seq<Uri>>, k: int)
    requires
        0 <= k,
    ensures
        same_place_and_time(injected_pairs(action, t, all, chosen, sources, k), action),
        injected_pairs(action, t, all, chosen, sources, k).len() == 2 * k,
{
}

/// The random attack keeps the genuine action and adds two actions per
/// redirection: it emits the action alone when the site is not hijacked,
/// and otherwise `1 + 2 * min(num_redirections, #sybils)` actions, the
/// genuine one first or last, all on the same device, in the same epoch and
/// at the same time. So the runtime may process them on that device without
/// going back in time.
pub proof fn lemma_attack_b_shape(cfg: AttackBConfig, all: Seq<Uri>, ranks: &SiteRanks, action: Action, out: Seq<Action>)
    requires
        b_outcome(cfg, all, ranks, action, out),
    ensures
        out.len() == if is_target(ranks.spec_rank_of(action), spec_targeting_b(cfg)) {
            1 + 2 * min_int((cfg.num_redirections as usize) as int, all.len() as int)
        } else {
            1
        },
        views(out)[0] == action@ || views(out)[out.len() - 1] == action@,
        same_place_and_time(views(out), action),
{
    lemma_action_view_fields(action);
    if is_target(ranks.spec_rank_of(action), spec_targeting_b(cfg)) {
        let (gf, chosen, sources) = choose|gf: bool, chosen: Seq<Uri>, sources: Seq<Seq<Uri>>| {
            &&& valid_b_choices(cfg, all, chosen, sources)
            &&& (cfg.genuine_first_chance == 0 ==> !gf)
            &&& (cfg.genuine_first_chance == 100 ==> gf)
            &&& views(out) == #[trigger] b_emitted(action, cfg, all, gf, chosen, sources)
        };
        let pairs = injected_pairs(action, spec_targeting_b(cfg), all, chosen, sources, chosen.len() as int);
        lemma_pairs_place(action, spec_targeting_b(cfg), all, chosen, sources, chosen.len() as int);
        assert(views(out).len() == out.len());
    } else {
        assert(views(out) =~= seq![action@]);
    }
}

/// The random attack never lets a conversion attribute to a sybil it
/// redirected to for the same action, and (with distinct sybils) every
/// conversion lists `min(sybils_per_conversion, #sybils - #redirections)`
/// distinct sybils.
pub proof fn lemma_attack_b_sources(cfg: AttackBConfig, all: Seq<Uri>, ranks: &SiteRanks, action: Action, out: Seq<Action>)
    requires
        b_outcome(cfg, all, ranks, action, out),
        is_target(ranks.spec_rank_of(action), spec_targeting_b(cfg)),
    ensures
        exists|chosen: Seq<Uri>, sources: Seq<Seq<Uri>>| #[trigger] valid_b_choices(cfg, all, chosen, sources)
            && chosen.len() == min_int((cfg.num_redirections as usize) as int, all.len() as int)
            && (forall|k: int, x: Uri| 0 <= k < sources.len() && #[trigger] sources[k].contains(x) ==> !chosen.contains(x))
            && (all.no_duplicates() ==> forall|k: int| 0 <= k < sources.len() ==>
                (#[trigger] sources[k]).len() == min_int((cfg.sybils_per_conversion as usize) as int, all.len() - chosen.len())),
{
    let (gf, chosen, sources) = choose|gf: bool, chosen: Seq<Uri>, sources: Seq<Seq<Uri>>| {
        &&& valid_b_choices(cfg, all, chosen, sources)
        &&& (cfg.genuine_first_chance == 0 ==> !gf)
        &&& (cfg.genuine_first_chance == 100 ==> gf)
        &&& views(out) == #[trigger] b_emitted(action, cfg, all, gf, chosen, sources)
    };
    assert(valid_b_choices(cfg, all, chosen, sources));
}

/// A sybil attributed to by a conversion occurs in every later prefix of the
/// attributions.
proof fn lemma_flatten_contains(sources: Seq<Seq<Uri>>, i: int, j: int, x: Uri)
    requires
        0 <= i < j <= sources.len(),
        sources[i].contains(x),
    ensures
        flatten(sources.take(j)).contains(x),
    decreases j,
{
    let t = sources.take(j);
    assert(t.drop_last() =~= sources.take(j - 1));
    assert(t.last() == sources[j - 1]);
    if i == j - 1 {
        vstd::seq_lib::lemma_seq_concat_contains_all_elements(flatten(sources.take(j - 1)), sources[j - 1], x);
    } else {
        lemma_flatten_contains(sources, i, j - 1, x);
        vstd::seq_lib::lemma_seq_concat_contains_all_elements(flatten(sources.take(j - 1)), sources[j - 1], x);
    }
}

/// The first `k` conversions of a spread-out attack: `k * p` distinct
/// sybils, none redirected to, no two conversions sharing one.
proof fn lemma_spread_prefix(cfg: AttackBConfig, all: Seq<Uri>, chosen: Seq<Uri>, sources: Seq<Seq<Uri>>, k: int)
    requires
        valid_b_choices(cfg, all, chosen, sources),
        all.no_duplicates(),
        chosen.len() * ((cfg.sybils_per_conversion as usize) as int) <= all.len() - chosen.len(),
        0 <= k <= sources.len(),
    ensures
        flatten(sources.take(k)).no_duplicates(),
        flatten(sources.take(k)).len() == k * ((cfg.sybils_per_conversion as usize) as int),
        forall|x: Uri| #[trigger] flatten(sources.take(k)).contains(x) ==> all.contains(x) && !chosen.contains(x),
        forall|i: int, j: int, x: Uri| 0 <= i < j < k && #[trigger] sources[i].contains(x) ==>
            !(#[trigger] sources[j].contains(x)),
    decreases k,
{
    let p = (cfg.sybils_per_conversion as usize) as int;
    let n = all.len() as int;
    let c = chosen.len() as int;
    if k == 0 {
        assert(flatten(sources.take(0)) =~= Seq::<Uri>::empty());
        return;
    }
    let k0 = k - 1;
    lemma_spread_prefix(cfg, all, chosen, sources, k0);
    lemma_sub_multiset_no_dups(chosen, all);
    lemma_sub_multiset_contains(chosen, all);
    let f = flatten(sources.take(k0));
    let fresh = outside(all, f, chosen);
    lemma_outside(all, f, chosen);
    assert forall|x: Uri| !(#[trigger] f.contains(x) && chosen.contains(x)) by {}
    lemma_concat_no_dups(f, chosen);
    assert forall|x: Uri| #[trigger] all.contains(x) <==> (fresh.contains(x) || (f + chosen).contains(x)) by {
        vstd::seq_lib::lemma_seq_concat_contains_all_elements(f, chosen, x);
    }
    assert forall|x: Uri| !(#[trigger] fresh.contains(x) && (f + chosen).contains(x)) by {
        vstd::seq_lib::lemma_seq_concat_contains_all_elements(f, chosen, x);
    }
    lemma_no_dups_partition_len(all, fresh, f + chosen);
    assert(fresh.len() == n - c - k0 * p);
    assert(n - c - k0 * p >= p) by (nonlinear_arith)
        requires
            c * p <= n - c,
            0 <= k0 < c,
            p >= 0,
    ;
    assert(rotates(all, chosen, f, sources[k0], p));
    let s = sources[k0];
    assert forall|x: Uri| #[trigger] s.contains(x) implies fresh.contains(x) by {}
    assert(s.no_duplicates());
    assert(p <= n - c) by (nonlinear_arith)
        requires
            c * p <= n - c,
            1 <= c,
            p >= 0,
    ;
    assert(s.len() == p);
    let g = flatten(sources.take(k));
    assert(sources.take(k).drop_last() =~= sources.take(k0));
    assert(sources.take(k).last() == s);
    assert(g == f + s);
    assert forall|x: Uri| !(#[trigger] f.contains(x) && s.contains(x)) by {}
    lemma_concat_no_dups(f, s);
    assert forall|x: Uri| #[trigger] g.contains(x) implies all.contains(x) && !chosen.contains(x) by {
        vstd::seq_lib::lemma_seq_concat_contains_all_elements(f, s, x);
    }
    assert(k * p == k0 * p + p) by (nonlinear_arith)
        requires
            k == k0 + 1,
    ;
    assert forall|i: int, j: int, x: Uri| 0 <= i < j < k && #[trigger] sources[i].contains(x) implies
        !(#[trigger] sources[j].contains(x)) by {
        if j == k0 {
            lemma_flatten_contains(sources, i, k0, x);
        }
    }
}

/// With distinct sybils and enough of them not redirected to (at least
/// `sybils_per_conversion` per redirection), the random attack never
/// attributes two conversions of one action to the same sybil: the
/// conversions' sources are pairwise disjoint, and together they are
/// `#redirections * sybils_per_conversion` distinct sybils.
pub proof fn lemma_attack_b_spreads_sources(cfg: AttackBConfig, all: Seq<Uri>, chosen: Seq<Uri>, sources: Seq<Seq<Uri>>)
    requires
        valid_b_choices(cfg, all, chosen, sources),
        all.no_duplicates(),
        chosen.len() * ((cfg.sybils_per_conversion as usize) as int) <= all.len() - chosen.len(),
    ensures
        forall|i: int, j: int, x: Uri| 0 <= i < j < sources.len() && #[trigger] sources[i].contains(x) ==>
            !(#[trigger] sources[j].contains(x)),
        flatten(sources).no_duplicates(),
        flatten(sources).len() == chosen.len() * ((cfg.sybils_per_conversion as usize) as int),
{
    lemma_spread_prefix(cfg, all, chosen, sources, sources.len() as int);
    assert(sources.take(sources.len() as int) =~= sources);
}

proof fn lemma_c_injected(action: Action, t: Targeting, all: Seq<Uri>, imps: Seq<Uri>, budget: Seq<Uri>, k: int)
    requires
        0 <= k <= imps.len(),
    ensures
        same_place_and_time(c_injected(action, t, all, imps, budget, k), action),
        c_injected(action, t, all, imps, budget, k).len() == k + min_int(k, budget.len() as int),
    decreases k,
{
    if k > 0 {
        lemma_c_injected(action, t, all, imps, budget, k - 1);
    }
}

/// The omniscient attack keeps the genuine action, first or last, and adds
/// one impression per redirected sybil and one conversion for each of the
/// first of them while registered sybils with budget last; all on the
/// action's device, epoch and time.
pub proof fn lemma_attack_c_shape(cfg: AttackCConfig, sybils: Seq<Uri>, ranks: &SiteRanks, obs: Seq<(Uri, bool)>, action: Action, out: Seq<Action>)
    requires
        c_outcome(cfg, sybils, ranks, obs, action, out),
    ensures
        out.len() == if is_target(ranks.spec_rank_of(action), spec_targeting_c(cfg)) {
            1 + redirected(cfg, sybils, obs).len() + min_int(redirected(cfg, sybils, obs).len() as int, with_budget(obs).len() as int)
        } else {
            1
        },
        views(out)[0] == action@ || views(out)[out.len() - 1] == action@,
        same_place_and_time(views(out), action),
{
    lemma_action_view_fields(action);
    if is_target(ranks.spec_rank_of(action), spec_targeting_c(cfg)) {
        let imps = redirected(cfg, sybils, obs);
        lemma_c_injected(action, spec_targeting_c(cfg), sybils, imps, with_budget(obs), imps.len() as int);
        assert(views(out).len() == out.len());
    } else {
        assert(views(out) =~= seq![action@]);
    }
}

} // verus!
