//! The omniscient attacker: it reads the device's state and redirects to the
//! sybils best placed to drain budget, converting each against a sybil that
//! already has an impression on the device and source-quota budget left.

use vstd::prelude::*;

use crate::attacks::scaffold::{
    begin_attack, begin_attack_ok, injected_conversion, injected_impression, is_target,
    scaffold_for, views, AttackScaffold, Targeting,
};
use crate::common_types::{copy_uris, contains_uri, Conversion, Event, EventUris, Impression, Uri};
use crate::dataset::{Action, ActionView, SiteRanks};

verus! {

#[derive(Debug, Clone, Copy, PartialEq, Eq, Structural, Hash)]
pub struct AttackCConfig {
    /// The hijacked sites: those whose popularity rank lies in
    /// `[malicious_site_rank_start, malicious_site_rank_start + malicious_site_count)`.
    pub malicious_site_rank_start: u64,
    pub malicious_site_count: u64,
    /// Number of malicious redirections after the organic site visit.
    pub num_redirections: u64,
    /// Number of sybils the attacker has access to.
    pub num_sybils: u64,
    /// Chance, in percent, that the genuine action comes first (vs last).
    pub genuine_first_chance: u32,
    /// Whether the malicious sites are sisters of the benign ones rather than
    /// hijacked redirections.
    pub malicious_sister_sites: bool,
}

pub open spec fn spec_targeting_c(cfg: AttackCConfig) -> Targeting {
    Targeting {
        rank_start: cfg.malicious_site_rank_start,
        count: cfg.malicious_site_count,
        num_redirections: cfg.num_redirections,
        genuine_first_chance: cfg.genuine_first_chance,
        sister_sites: cfg.malicious_sister_sites,
    }
}

impl AttackCConfig {
    pub fn targeting(&self) -> (t: Targeting)
        ensures
            t == spec_targeting_c(*self),
    {
        Targeting {
            rank_start: self.malicious_site_rank_start,
            count: self.malicious_site_count,
            num_redirections: self.num_redirections,
            genuine_first_chance: self.genuine_first_chance,
            sister_sites: self.malicious_sister_sites,
        }
    }
}

/// The sybils that already have an impression registered on the device in
/// the action's epoch, in the order the device's set yields them, each with
/// whether its source quota for that epoch still has budget for a full
/// per-querier charge.
pub struct SybilObservation {
    pub registered: Vec<(Uri, bool)>,
}

pub open spec fn registered_uris(obs: Seq<(Uri, bool)>) -> Seq<Uri> {
    obs.map_values(|p: (Uri, bool)| p.0)
}

/// The registered sybils with budget left, in order.
pub open spec fn with_budget(obs: Seq<(Uri, bool)>) -> Seq<Uri>
    decreases obs.len(),
{
    if obs.len() == 0 {
        Seq::empty()
    } else {
        let rest = with_budget(obs.drop_last());
        if obs.last().1 {
            rest.push(obs.last().0)
        } else {
            rest
        }
    }
}

/// The sybils without a registered impression, in the attacker's order.
pub open spec fn without_impressions(sybils: Seq<Uri>, regs: Seq<Uri>) -> Seq<Uri>
    decreases sybils.len(),
{
    if sybils.len() == 0 {
        Seq::empty()
    } else {
        let rest = without_impressions(sybils.drop_last(), regs);
        if !regs.contains(sybils.last()) {
            rest.push(sybils.last())
        } else {
            rest
        }
    }
}

/// The sybils redirected to: first those without an impression, then (if
/// those run out) those with one, at most `num_redirections` in all.
pub open spec fn redirected(cfg: AttackCConfig, sybils: Seq<Uri>, obs: Seq<(Uri, bool)>) -> Seq<Uri> {
    let candidates = without_impressions(sybils, registered_uris(obs)) + registered_uris(obs);
    let r = cfg.num_redirections as usize;
    if r < candidates.len() {
        candidates.take(r as int)
    } else {
        candidates
    }
}

/// The injected actions for the first `k` redirected sybils: each gets an
/// impression, and, while registered sybils with budget last, a conversion
/// attributing to the next of them.
pub open spec fn c_injected(action: Action, t: Targeting, all: Seq<Uri>, imps: Seq<Uri>, budget: Seq<Uri>, k: int) -> Seq<ActionView>
    decreases k,
{
    if k <= 0 {
        Seq::empty()
    } else {
        let rest = c_injected(action, t, all, imps, budget, k - 1).push(injected_impression(action, t, imps[k - 1], all));
        if k - 1 < budget.len() {
            rest.push(injected_conversion(action, t, imps[k - 1], seq![budget[k - 1]]))
        } else {
            rest
        }
    }
}

/// Everything the attack emits for one action: untargeted actions pass
/// through alone; a targeted one is surrounded by the injected actions, the
/// genuine action first or last by the coin flip.
pub open spec fn c_outcome(cfg: AttackCConfig, sybils: Seq<Uri>, ranks: &SiteRanks, obs: Seq<(Uri, bool)>, action: Action, out: Seq<Action>) -> bool {
    if !is_target(ranks.spec_rank_of(action), spec_targeting_c(cfg)) {
        out == seq![action]
    } else {
        let imps = redirected(cfg, sybils, obs);
        let injected = c_injected(action, spec_targeting_c(cfg), sybils, imps, with_budget(obs), imps.len() as int);
        ||| views(out) == seq![action@] + injected && cfg.genuine_first_chance != 0
        ||| views(out) == injected + seq![action@] && cfg.genuine_first_chance != 100
    }
}

/// An action on a site outside the hijacked rank window (ranked before
/// `malicious_site_rank_start`, at or after the window's end, or unranked)
/// comes out of the attack alone and unchanged.
pub proof fn law_c_leaves_sites_outside_the_window_alone(cfg: AttackCConfig, sybils: Seq<Uri>, ranks: &SiteRanks, obs: Seq<(Uri, bool)>, action: Action, out: Seq<Action>)
    requires
        c_outcome(cfg, sybils, ranks, obs, action, out),
        match ranks.spec_rank_of(action) {
            Some(r) => r < cfg.malicious_site_rank_start || r >= cfg.malicious_site_rank_start + cfg.malicious_site_count,
            None => true,
        },
    ensures
        out == seq![action],
{
    crate::attacks::scaffold::law_targets_only_the_rank_window(ranks.spec_rank_of(action), spec_targeting_c(cfg));
}

/// Whether `x` is a sybil without a registered impression: one of `sybils`
/// that `regs` does not hold.
pub proof fn law_without_impressions_keeps_the_unregistered(sybils: Seq<Uri>, regs: Seq<Uri>)
    ensures
        forall|x: Uri| #[trigger] without_impressions(sybils, regs).contains(x) <==> (sybils.contains(x) && !regs.contains(x)),
        without_impressions(sybils, regs).len() <= sybils.len(),
    decreases sybils.len(),
{
    if sybils.len() > 0 {
        let p = sybils.drop_last();
        law_without_impressions_keeps_the_unregistered(p, regs);
        assert(sybils =~= p.push(sybils.last()));
        assert forall|x: Uri| #[trigger] without_impressions(sybils, regs).contains(x) <==> (sybils.contains(x) && !regs.contains(x)) by {
            vstd::seq_lib::lemma_seq_contains_after_push(p, sybils.last(), x);
            vstd::seq_lib::lemma_seq_contains_after_push(without_impressions(p, regs), sybils.last(), x);
        }
    }
}

/// The attack redirects first to the sybils without an impression on the
/// device, in the attacker's order, then to every registered sybil in the
/// device's order, whether or not it has budget left, and stops after
/// `num_redirections`: it redirects to min(num_redirections, sybils without
/// an impression + registered sybils) sybils.
pub proof fn law_redirects_to_unimpressed_then_registered(cfg: AttackCConfig, sybils: Seq<Uri>, obs: Seq<(Uri, bool)>)
    ensures ({
        let red = redirected(cfg, sybils, obs);
        let fresh = without_impressions(sybils, registered_uris(obs));
        let n = fresh.len() + obs.len();
        &&& red.len() == if (cfg.num_redirections as usize) < n { (cfg.num_redirections as usize) as int } else { n as int }
        &&& forall|i: int| 0 <= i < red.len() && i < fresh.len() ==> red[i] == fresh[i]
        &&& forall|i: int| fresh.len() <= i < red.len() ==> red[i] == (#[trigger] obs[i - fresh.len()]).0
        &&& forall|x: Uri| #[trigger] red.contains(x) ==> sybils.contains(x) || registered_uris(obs).contains(x)
    }),
{
    let red = redirected(cfg, sybils, obs);
    let fresh = without_impressions(sybils, registered_uris(obs));
    let cands = fresh + registered_uris(obs);
    assert(cands.len() == fresh.len() + obs.len());
    law_without_impressions_keeps_the_unregistered(sybils, registered_uris(obs));
    assert forall|i: int| 0 <= i < red.len() implies red[i] == cands[i] by {}
    assert forall|i: int| fresh.len() <= i < red.len() implies red[i] == (#[trigger] obs[i - fresh.len()]).0 by {
        assert(cands[i] == registered_uris(obs)[i - fresh.len()]);
    }
    assert forall|x: Uri| #[trigger] red.contains(x) implies sybils.contains(x) || registered_uris(obs).contains(x) by {
        let i = choose|i: int| 0 <= i < red.len() && red[i] == x;
        if i < fresh.len() {
            assert(fresh.contains(fresh[i]));
        } else {
            assert(registered_uris(obs)[i - fresh.len()] == x);
        }
    }
}

/// `k` redirections inject `k` impressions and one conversion for each of
/// the first `k` budgeted sybils.
proof fn lemma_c_injected_len(action: Action, t: Targeting, all: Seq<Uri>, imps: Seq<Uri>, budget: Seq<Uri>, k: int)
    requires
        k >= 0,
    ensures
        c_injected(action, t, all, imps, budget, k).len() == k + if k < budget.len() { k } else { budget.len() as int },
    decreases k,
{
    if k > 0 {
        lemma_c_injected_len(action, t, all, imps, budget, k - 1);
    }
}

/// For an action on a hijacked site, the attack emits the genuine action,
/// one impression for each sybil it redirects to, and one conversion for
/// each redirection while registered sybils with budget last: with `n`
/// redirections and `b` such sybils, `1 + n + min(n, b)` actions.
pub proof fn law_c_emits_one_impression_per_redirection(cfg: AttackCConfig, sybils: Seq<Uri>, ranks: &SiteRanks, obs: Seq<(Uri, bool)>, action: Action, out: Seq<Action>)
    requires
        c_outcome(cfg, sybils, ranks, obs, action, out),
        ranks.spec_rank_of(action) matches Some(r) && cfg.malicious_site_rank_start <= r
            && r < cfg.malicious_site_rank_start + cfg.malicious_site_count,
    ensures ({
        let n = redirected(cfg, sybils, obs).len();
        let b = with_budget(obs).len();
        out.len() == 1 + n + if n < b { n } else { b }
    }),
{
    crate::attacks::scaffold::law_targets_only_the_rank_window(ranks.spec_rank_of(action), spec_targeting_c(cfg));
    let imps = redirected(cfg, sybils, obs);
    lemma_c_injected_len(action, spec_targeting_c(cfg), sybils, imps, with_budget(obs), imps.len() as int);
    assert(views(out).len() == out.len());
}

/// The omniscient attacker; `sybils_vec` lists its sybils in order.
pub struct AttackC {
    pub cfg: AttackCConfig,
    pub sybils_vec: Vec<Uri>,
}

impl AttackC {
    /// Whether the attack acts on this action (whether its site is hijacked).
    pub fn targets(&self, action: &Action, ranks: &SiteRanks) -> (hit: bool)
        requires
            ranks.spec_rank_of(*action) is Some ==> self.cfg.malicious_site_rank_start + self.cfg.malicious_site_count <= u64::MAX,
        ensures
            hit == is_target(ranks.spec_rank_of(*action), spec_targeting_c(self.cfg)),
    {
        match ranks.rank_of(action) {
            None => false,
            Some(r) => {
                let r: u64 = r as u64;
                r >= self.cfg.malicious_site_rank_start && r < self.cfg.malicious_site_rank_start + self.cfg.malicious_site_count
            },
        }
    }

    fn impression_for(ctx: &AttackScaffold, sybil: Uri, all: &Vec<Uri>) -> (a: Action)
        ensures
            a@ == ActionView::Impression(crate::common_types::ImpressionView {
                device_id: ctx.device_id,
                event: crate::common_types::EventView {
                    id: 0,
                    timestamp: ctx.timestamp,
                    epoch_number: ctx.epoch_number,
                    histogram_index: 0,
                    source_uri: sybil,
                    trigger_uris: all@,
                    querier_uris: all@,
                    user_action_id: ctx.user_action_id,
                    filter_data: 0,
                },
            }),
    {
        let event = Event {
            id: 0,
            uris: EventUris { source_uri: sybil, trigger_uris: copy_uris(all), querier_uris: copy_uris(all) },
            timestamp: ctx.timestamp,
            epoch_number: ctx.epoch_number,
            histogram_index: 0,
            user_action_id: ctx.user_action_id,
            filter_data: 0,
        };
        Action::Impression(Impression { device_id: ctx.device_id, event })
    }

    /// The sybils to redirect to, given what the device holds.
    fn redirected_sybils(&self, obs: &SybilObservation) -> (imps: Vec<Uri>)
        ensures
            imps@ == redirected(self.cfg, self.sybils_vec@, obs.registered@),
    {
        let ghost regs = registered_uris(obs.registered@);
        let mut reg: Vec<Uri> = Vec::new();
        let mut i: usize = 0;
        while i < obs.registered.len()
            invariant
                i <= obs.registered.len(),
                regs == registered_uris(obs.registered@),
                reg@ =~= regs.subrange(0, i as int),
            decreases obs.registered.len() - i,
        {
            reg.push(obs.registered[i].0);
            i = i + 1;
        }
        assert(reg@ =~= regs);
        let mut candidates: Vec<Uri> = Vec::new();
        let mut j: usize = 0;
        while j < self.sybils_vec.len()
            invariant
                j <= self.sybils_vec.len(),
                reg@ == regs,
                candidates@ == without_impressions(self.sybils_vec@.subrange(0, j as int), regs),
            decreases self.sybils_vec.len() - j,
        {
            let s = self.sybils_vec[j];
            assert(self.sybils_vec@.subrange(0, j + 1).drop_last() =~= self.sybils_vec@.subrange(0, j as int));
            if !contains_uri(&reg, s) {
                candidates.push(s);
            }
            j = j + 1;
        }
        assert(self.sybils_vec@.subrange(0, self.sybils_vec.len() as int) =~= self.sybils_vec@);
        let ghost first = candidates@;
        candidates.append(&mut reg);
        let r: usize = self.cfg.num_redirections as usize;
        if r < candidates.len() {
            candidates.truncate(r);
            assert(candidates@ =~= (first + regs).take(r as int));
        }
        candidates
    }

    /// The registered sybils with budget left, in order.
    fn sybils_with_budget(obs: &SybilObservation) -> (b: Vec<Uri>)
        ensures
            b@ == with_budget(obs.registered@),
    {
        let mut b: Vec<Uri> = Vec::new();
        let mut i: usize = 0;
        while i < obs.registered.len()
            invariant
                i <= obs.registered.len(),
                b@ == with_budget(obs.registered@.subrange(0, i as int)),
            decreases obs.registered.len() - i,
        {
            let (s, has_budget) = obs.registered[i];
            assert(obs.registered@.subrange(0, i + 1).drop_last() =~= obs.registered@.subrange(0, i as int));
            if has_budget {
                b.push(s);
            }
            i = i + 1;
        }
        assert(obs.registered@.subrange(0, obs.registered.len() as int) =~= obs.registered@);
        b
    }

    /// Takes an action, and pushes to `out` what the device sees instead. For
    /// a hijacked site it redirects to up to `num_redirections` sybils,
    /// preferring those without an impression in the epoch; each redirection
    /// injects an impression, and, while registered sybils with budget last,
    /// a conversion that attributes to one of them. `observed` describes the
    /// device's sybil impressions in the action's epoch; it is read only for
    /// a targeted action.
    pub fn process_action(&self, action: Action, ranks: &SiteRanks, observed: &SybilObservation, out: &mut Vec<Action>)
        requires
            old(out)@.len() == 0,
            begin_attack_ok(action, ranks, spec_targeting_c(self.cfg)),
        ensures
            c_outcome(self.cfg, self.sybils_vec@, ranks, observed.registered@, action, final(out)@),
    {
        let ghost t = spec_targeting_c(self.cfg);
        let ctx_opt = begin_attack(action, ranks, out, self.cfg.targeting());
        let ctx = match ctx_opt {
            None => return,
            Some(c) => c,
        };
        let ghost gf = ctx.genuine_first;
        let ghost head = views(out@);
        let all = &self.sybils_vec;
        let imps = self.redirected_sybils(observed);
        let budget = Self::sybils_with_budget(observed);
        let mut k: usize = 0;
        while k < imps.len()
            invariant
                k <= imps.len(),
                t == spec_targeting_c(self.cfg),
                all@ == self.sybils_vec@,
                scaffold_for(ctx, action, t),
                head == if gf { seq![action@] } else { Seq::<ActionView>::empty() },
                gf == ctx.genuine_first,
                views(out@) == head + c_injected(action, t, all@, imps@, budget@, k as int),
            decreases imps.len() - k,
        {
            let sybil = imps[k];
            let imp = Self::impression_for(&ctx, sybil, all);
            proof { crate::attacks::attack_b::lemma_views_push(out@, imp); }
            out.push(imp);
            if k < budget.len() {
                let imp_sybil = budget[k];
                let sources = vec![imp_sybil];
                assert(sources@ =~= seq![imp_sybil]);
                let conversion = Conversion {
                    querier: sybil,
                    epoch_id: ctx.epoch_number,
                    timestamp: ctx.timestamp,
                    device_id: ctx.device_id,
                    user_action_id: ctx.user_action_id,
                    source_uris: Some(sources),
                };
                let conv = Action::Conversion(conversion);
                proof {
                    crate::attacks::attack_b::lemma_views_push(out@, conv);
                    assert(conv@ == injected_conversion(action, t, sybil, seq![imp_sybil]));
                }
                out.push(conv);
            }
            proof {
                assert(views(out@) =~= head + c_injected(action, t, all@, imps@, budget@, k + 1));
            }
            k = k + 1;
        }
        let ghost body = out@;
        ctx.emit_genuine_last(out);
        proof {
            if !gf {
                crate::attacks::attack_b::lemma_views_push(body, action);
            }
            assert(views(out@) =~= head + c_injected(action, t, all@, imps@, budget@, imps.len() as int)
                + if gf { Seq::<ActionView>::empty() } else { seq![action@] });
        }
    }
}

} // verus!
