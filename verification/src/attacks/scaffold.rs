//! The part every attack shares: the site-rank targeting gate, the
//! sister-site user-action offset, the seeded generator and the
//! genuine-first coin flip.

use vstd::prelude::*;

use crate::common_types::{
    ActionId, ConversionView, DeviceId, EpochId, EventView, ImpOrConv, ImpressionView,
    Timestamp, Uri,
};
use crate::dataset::{Action, ActionView, SiteRanks};
use crate::rng::{deterministic_rng, gen_ratio};

verus! {

/// Offset added to the user action of a sister site, so that the malicious
/// user action is distinct from the benign one.
pub const SISTER_SITE_ACTION_OFFSET: u64 = 1000000;

/// The site-targeting and injection knobs shared by every attack config.
#[derive(Debug, Clone, Copy, PartialEq, Eq, Structural)]
pub struct Targeting {
    pub rank_start: u64,
    pub count: u64,
    pub num_redirections: u64,
    pub genuine_first_chance: u32,
    pub sister_sites: bool,
}

/// Whether a site of the given rank is one the attacker hijacks: its rank
/// lies in `[rank_start, rank_start + count)`. Unranked sites never are.
pub open spec fn is_target(rank: Option<usize>, targeting: Targeting) -> bool {
    match rank {
        Some(r) => targeting.rank_start <= r < targeting.rank_start + targeting.count,
        None => false,
    }
}

/// The attacker hijacks exactly the ranked sites whose rank lies in the
/// window of `count` ranks that starts at `rank_start`: a site ranked
/// below the window, at or past its end, or not ranked at all is left alone,
/// and every rank inside the window is hijacked.
pub proof fn law_targets_only_the_rank_window(rank: Option<usize>, targeting: Targeting)
    ensures
        rank is None ==> !is_target(rank, targeting),
        rank matches Some(r) && r < targeting.rank_start ==> !is_target(rank, targeting),
        rank matches Some(r) && r >= targeting.rank_start + targeting.count ==> !is_target(rank, targeting),
        rank matches Some(r) && targeting.rank_start <= r && r < targeting.rank_start + targeting.count
            ==> is_target(rank, targeting),
{
}

/// The user action the injected actions carry: the genuine one, shifted by
/// `SISTER_SITE_ACTION_OFFSET` for sister sites.
pub open spec fn attack_user_action_id(uaid: Option<ActionId>, sister_sites: bool) -> Option<ActionId> {
    if sister_sites {
        match uaid {
            Some(id) => Some((id + SISTER_SITE_ACTION_OFFSET) as u64),
            None => None,
        }
    } else {
        uaid
    }
}

/// The inputs on which `begin_attack` does not panic: the end of the rank
/// window fits in a `u64`, and for a targeted action the genuine-first
/// chance is a percentage and the shifted user action fits in a `u64`.
pub open spec fn begin_attack_ok(action: Action, ranks: &SiteRanks, targeting: Targeting) -> bool {
    &&& ranks.spec_rank_of(action) is Some ==> targeting.rank_start + targeting.count <= u64::MAX
    &&& is_target(ranks.spec_rank_of(action), targeting) ==> {
        &&& targeting.genuine_first_chance <= 100
        &&& (targeting.sister_sites && action.spec_user_action_id() is Some) ==>
            action.spec_user_action_id().unwrap() + SISTER_SITE_ACTION_OFFSET <= u64::MAX
    }
}

/// Whether `begin_attack` may be called on this action: the end of the rank
/// window fits in a `u64`, and for a targeted action the genuine-first chance
/// is a percentage and the shifted user action fits in a `u64`.
pub fn begin_attack_ok_for(action: &Action, ranks: &SiteRanks, targeting: &Targeting) -> (ok: bool)
    ensures
        ok == begin_attack_ok(*action, ranks, *targeting),
{
    match ranks.rank_of(action) {
        None => true,
        Some(r) => {
            if targeting.rank_start > u64::MAX - targeting.count {
                return false;
            }
            let r: u64 = r as u64;
            if r < targeting.rank_start || r >= targeting.rank_start + targeting.count {
                return true;
            }
            if targeting.genuine_first_chance > 100 {
                return false;
            }
            if targeting.sister_sites {
                match action.user_action_id() {
                    Some(id) => id <= u64::MAX - SISTER_SITE_ACTION_OFFSET,
                    None => true,
                }
            } else {
                true
            }
        },
    }
}

/// The views of a list of actions.
pub open spec fn views(actions: Seq<Action>) -> Seq<ActionView> {
    actions.map_values(|a: Action| a@)
}

/// The impression an attack injects for `sybil` around `action`: it carries
/// the action's device, time, epoch and (shifted) user action, has `sybil` as
/// its source, and lists every sybil as trigger and querier.
pub open spec fn injected_impression(action: Action, targeting: Targeting, sybil: Uri, all_sybils: Seq<Uri>) -> ActionView {
    ActionView::Impression(ImpressionView {
        device_id: action.spec_device_id(),
        event: EventView {
            id: 0,
            timestamp: action.spec_timestamp(),
            epoch_number: action.spec_epoch_id(),
            histogram_index: 0,
            source_uri: sybil,
            trigger_uris: all_sybils,
            querier_uris: all_sybils,
            user_action_id: attack_user_action_id(action.spec_user_action_id(), targeting.sister_sites),
            filter_data: 0,
        },
    })
}

/// The conversion an attack injects for querier `sybil` around `action`,
/// attributing to the sites `sources`.
pub open spec fn injected_conversion(action: Action, targeting: Targeting, sybil: Uri, sources: Seq<Uri>) -> ActionView {
    ActionView::Conversion(ConversionView {
        querier: sybil,
        epoch_id: action.spec_epoch_id(),
        timestamp: action.spec_timestamp(),
        device_id: action.spec_device_id(),
        user_action_id: attack_user_action_id(action.spec_user_action_id(), targeting.sister_sites),
        source_uris: Some(sources),
    })
}

/// Context produced by `begin_attack` for a targeted action: the per-action
/// data every attack needs, the seeded generator and the pending genuine
/// action.
pub struct AttackScaffold {
    pub device_id: DeviceId,
    pub timestamp: Timestamp,
    pub epoch_number: EpochId,
    pub user_action_id: Option<ActionId>,
    pub rng: rand::rngs::StdRng,
    pub genuine_first: bool,
    pub genuine_action: Option<Action>,
}

/// What `begin_attack` hands a targeted action's attack: the action's data
/// with the shifted user action, and the genuine action still pending unless
/// the coin flip emitted it first.
pub open spec fn scaffold_for(ctx: AttackScaffold, action: Action, targeting: Targeting) -> bool {
    &&& ctx.device_id == action.spec_device_id()
    &&& ctx.timestamp == action.spec_timestamp()
    &&& ctx.epoch_number == action.spec_epoch_id()
    &&& ctx.user_action_id == attack_user_action_id(action.spec_user_action_id(), targeting.sister_sites)
    &&& (targeting.genuine_first_chance == 0 ==> !ctx.genuine_first)
    &&& (targeting.genuine_first_chance == 100 ==> ctx.genuine_first)
    &&& if ctx.genuine_first {
        ctx.genuine_action is None
    } else {
        ctx.genuine_action == Some(action)
    }
}

/// Runs the shared attack scaffold. An action that is not a target is passed
/// through to `out` and `None` is returned. For a target, the generator is
/// seeded from `(device, timestamp, epoch, user action)` (with the
/// sister-site offset applied) and the genuine-first coin is flipped with
/// it before the attack body draws anything; the genuine action goes to `out`
/// now if the coin says so, and is otherwise held in the returned context.
pub fn begin_attack(action: Action, ranks: &SiteRanks, out: &mut Vec<Action>, targeting: Targeting) -> (ctx: Option<AttackScaffold>)
    requires
        old(out)@.len() == 0,
        begin_attack_ok(action, ranks, targeting),
    ensures
        ctx is None <==> !is_target(ranks.spec_rank_of(action), targeting),
        ctx is None ==> final(out)@ == seq![action],
        ranks.spec_rank_of(action) matches Some(r) && (r < targeting.rank_start || r >= targeting.rank_start + targeting.count)
            ==> ctx is None && final(out)@ == seq![action],
        ranks.spec_rank_of(action) is None ==> ctx is None && final(out)@ == seq![action],
        ranks.spec_rank_of(action) matches Some(r) && targeting.rank_start <= r && r < targeting.rank_start + targeting.count
            ==> ctx is Some,
        ctx matches Some(c) ==> {
            &&& scaffold_for(c, action, targeting)
            &&& final(out)@ == if c.genuine_first { seq![action] } else { Seq::<Action>::empty() }
        },
{
    let site_rank = ranks.rank_of(&action);
    let site_rank = match site_rank {
        None => {
            out.push(action);
            return None;
        },
        Some(r) => r,
    };
    let site_rank: u64 = site_rank as u64;
    let malicious_site_rank_end = targeting.rank_start + targeting.count;
    let site_is_malicious = site_rank >= targeting.rank_start && site_rank < malicious_site_rank_end;
    if !site_is_malicious {
        out.push(action);
        return None;
    }
    let device_id = action.device_id();
    let timestamp = action.timestamp();
    let epoch_number = action.epoch_id();
    let mut user_action_id = action.user_action_id();
    if targeting.sister_sites {
        user_action_id = match user_action_id {
            Some(id) => Some(id + SISTER_SITE_ACTION_OFFSET),
            None => None,
        };
    }
    let mut rng = deterministic_rng((device_id, timestamp, epoch_number, user_action_id));
    let genuine_first = if targeting.genuine_first_chance == 0 {
        false
    } else if targeting.genuine_first_chance == 100 {
        true
    } else {
        gen_ratio(&mut rng, targeting.genuine_first_chance, 100)
    };
    let genuine_action = if genuine_first {
        out.push(action);
        None
    } else {
        Some(action)
    };
    Some(AttackScaffold { device_id, timestamp, epoch_number, user_action_id, rng, genuine_first, genuine_action })
}

impl AttackScaffold {
    /// Emits the genuine action last, unless the coin flip already emitted it
    /// first. Called after the attack body has pushed its injected actions.
    pub fn emit_genuine_last(self, out: &mut Vec<Action>)
        ensures
            final(out)@ == match self.genuine_action {
                Some(a) => old(out)@.push(a),
                None => old(out)@,
            },
    {
        if let Some(action) = self.genuine_action {
            out.push(action);
        }
    }
}

} // verus!
