//! The attack configurations and the no-op attack.

use vstd::prelude::*;
use vstd::string::StringExecFns;

use crate::attacks::attack_b::{b_outcome, spec_sybil_uris, spec_targeting_b, sybil_uris, AttackB, AttackBConfig};
use crate::attacks::attack_c::{c_outcome, spec_targeting_c, AttackC, AttackCConfig, SybilObservation};
use crate::attacks::scaffold::{begin_attack_ok, begin_attack_ok_for};
use crate::common_types::{copy_uris, Uri};
use crate::dataset::{Action, SiteRanks};
use crate::text::{append_decimal, decimal};

verus! {

/// An attack: it rewrites the action stream, and names its output files.
pub trait Attack {
    /// The suffix of the attack's output file.
    fn file_suffix(&self) -> String;

    /// The identifier the attack's results are grouped by: 0 for none, 2 for
    /// the random attack and 3 for the omniscient one.
    fn attack_id(&self) -> u64;
}

/// An attack's configuration; each attack has one configuration type.
pub trait AttackConfig: Sized {
    fn into_any(self) -> AnyAttackConfig;
}

/// The configuration of the no-op attack.
#[derive(Debug, Clone, Copy, PartialEq, Eq, Structural, Hash)]
pub struct NoAttackConfig;

/// An attack configuration of any kind.
#[derive(Debug, Clone, Copy, PartialEq, Eq, Structural, Hash)]
pub enum AnyAttackConfig {
    NoAttackConfig(NoAttackConfig),
    AttackBConfig(AttackBConfig),
    AttackCConfig(AttackCConfig),
}

/// The identifier an attack's results are grouped by in the plots.
pub open spec fn spec_attack_id(config: AnyAttackConfig) -> u64 {
    match config {
        AnyAttackConfig::NoAttackConfig(_) => 0,
        AnyAttackConfig::AttackBConfig(_) => 2,
        AnyAttackConfig::AttackCConfig(_) => 3,
    }
}

/// The configuration with its redirection count set to `n` (the no-op
/// attack has none).
pub open spec fn spec_with_num_redirections(config: AnyAttackConfig, n: u64) -> AnyAttackConfig {
    match config {
        AnyAttackConfig::NoAttackConfig(c) => AnyAttackConfig::NoAttackConfig(c),
        AnyAttackConfig::AttackBConfig(c) => AnyAttackConfig::AttackBConfig(AttackBConfig { num_redirections: n, ..c }),
        AnyAttackConfig::AttackCConfig(c) => AnyAttackConfig::AttackCConfig(AttackCConfig { num_redirections: n, ..c }),
    }
}

impl AnyAttackConfig {
    pub fn attack_id(&self) -> (id: u64)
        ensures
            id == spec_attack_id(*self),
    {
        match self {
            AnyAttackConfig::NoAttackConfig(_) => 0,
            AnyAttackConfig::AttackBConfig(_) => 2,
            AnyAttackConfig::AttackCConfig(_) => 3,
        }
    }

    pub fn with_num_redirections(self, n: u64) -> (c: Self)
        ensures
            c == spec_with_num_redirections(self, n),
    {
        match self {
            AnyAttackConfig::NoAttackConfig(c) => AnyAttackConfig::NoAttackConfig(c),
            AnyAttackConfig::AttackBConfig(c) => AnyAttackConfig::AttackBConfig(AttackBConfig { num_redirections: n, ..c }),
            AnyAttackConfig::AttackCConfig(c) => AnyAttackConfig::AttackCConfig(AttackCConfig { num_redirections: n, ..c }),
        }
    }
}

impl AttackConfig for NoAttackConfig {
    fn into_any(self) -> (c: AnyAttackConfig)
        ensures
            c == AnyAttackConfig::NoAttackConfig(self),
    {
        AnyAttackConfig::NoAttackConfig(self)
    }
}

impl AttackConfig for AttackBConfig {
    fn into_any(self) -> (c: AnyAttackConfig)
        ensures
            c == AnyAttackConfig::AttackBConfig(self),
    {
        AnyAttackConfig::AttackBConfig(self)
    }
}

impl AttackConfig for AttackCConfig {
    fn into_any(self) -> (c: AnyAttackConfig)
        ensures
            c == AnyAttackConfig::AttackCConfig(self),
    {
        AnyAttackConfig::AttackCConfig(self)
    }
}

/// The no-op attack, which passes every action through.
#[derive(Debug, Clone, Copy, PartialEq, Eq, Structural)]
pub struct NoAttack;

impl NoAttack {
    pub fn process_action(&self, action: Action, out: &mut Vec<Action>)
        requires
            old(out)@.len() == 0,
        ensures
            final(out)@ == seq![action],
    {
        out.push(action);
    }
}

impl Attack for NoAttack {
    fn file_suffix(&self) -> (s: String)
        ensures
            s@ == "NoAttack"@,
    {
        String::from_str("NoAttack")
    }

    fn attack_id(&self) -> (id: u64)
        ensures
            id == 0,
    {
        0
    }
}

impl NoAttackConfig {
    pub fn create_attack(&self) -> (a: NoAttack)
        ensures
            a == NoAttack,
    {
        NoAttack
    }
}

/// How many distinct sybil sites `n` sybil identifiers name: identifiers
/// are truncated to `UriId`, so at most `2^32` of them are distinct.
pub open spec fn distinct_sybil_count(n: u64) -> u64 {
    if n > 0x1_0000_0000 { 0x1_0000_0000 } else { n }
}

impl AttackBConfig {
    /// The random attacker of this configuration, with the set of sybils
    /// `0 .. num_sybils` (listed in ascending order).
    pub fn create_attack(&self) -> (a: AttackB)
        ensures
            a.cfg == *self,
            a.sybils@ == spec_sybil_uris(distinct_sybil_count(self.num_sybils)),
            a.sybils@.no_duplicates(),
    {
        let n: u64 = if self.num_sybils > 0x1_0000_0000 { 0x1_0000_0000 } else { self.num_sybils };
        let sybils = sybil_uris(n);
        assert forall|i: int, j: int| 0 <= i < sybils@.len() && 0 <= j < sybils@.len() && i != j
            implies sybils@[i] != sybils@[j] by {
            assert(sybils@[i].id == i && sybils@[j].id == j);
        }
        AttackB { cfg: *self, sybils }
    }
}

impl AttackCConfig {
    /// The omniscient attacker of this configuration, with the sybils
    /// `0 .. num_sybils` in order.
    pub fn create_attack(&self) -> (a: AttackC)
        ensures
            a.cfg == *self,
            a.sybils_vec@ == spec_sybil_uris(self.num_sybils),
    {
        AttackC { cfg: *self, sybils_vec: sybil_uris(self.num_sybils) }
    }
}

/// The suffix of a random attack's output file:
/// `atkB_malicious={start}+{count}_sybils={n},_redirects={r}_perconv={p}`.
pub open spec fn spec_suffix_b(c: AttackBConfig) -> Seq<char> {
    "atkB_malicious="@ + decimal(c.malicious_site_rank_start as nat) + "+"@
        + decimal(c.malicious_site_count as nat) + "_sybils="@ + decimal(c.num_sybils as nat)
        + ",_redirects="@ + decimal(c.num_redirections as nat) + "_perconv="@
        + decimal(c.sybils_per_conversion as nat)
}

/// The suffix of an omniscient attack's output file:
/// `atkC_malicious={start}+{count}_sybils={n},_redirects={r}`.
pub open spec fn spec_suffix_c(c: AttackCConfig) -> Seq<char> {
    "atkC_malicious="@ + decimal(c.malicious_site_rank_start as nat) + "+"@
        + decimal(c.malicious_site_count as nat) + "_sybils="@ + decimal(c.num_sybils as nat)
        + ",_redirects="@ + decimal(c.num_redirections as nat)
}

fn append_number(s: &mut String, n: u64)
    ensures
        final(s)@ == old(s)@ + decimal(n as nat),
{
    append_decimal(s, n);
}

impl Attack for AttackB {
    fn file_suffix(&self) -> (s: String)
        ensures
            s@ == spec_suffix_b(self.cfg),
    {
        let mut s = String::from_str("atkB_malicious=");
        append_number(&mut s, self.cfg.malicious_site_rank_start);
        s.append("+");
        append_number(&mut s, self.cfg.malicious_site_count);
        s.append("_sybils=");
        append_number(&mut s, self.cfg.num_sybils);
        s.append(",_redirects=");
        append_number(&mut s, self.cfg.num_redirections);
        s.append("_perconv=");
        append_number(&mut s, self.cfg.sybils_per_conversion);
        s
    }

    fn attack_id(&self) -> (id: u64)
        ensures
            id == 2,
    {
        2
    }
}

impl Attack for AttackC {
    fn file_suffix(&self) -> (s: String)
        ensures
            s@ == spec_suffix_c(self.cfg),
    {
        let mut s = String::from_str("atkC_malicious=");
        append_number(&mut s, self.cfg.malicious_site_rank_start);
        s.append("+");
        append_number(&mut s, self.cfg.malicious_site_count);
        s.append("_sybils=");
        append_number(&mut s, self.cfg.num_sybils);
        s.append(",_redirects=");
        append_number(&mut s, self.cfg.num_redirections);
        s
    }

    fn attack_id(&self) -> (id: u64)
        ensures
            id == 3,
    {
        3
    }
}

/// An attack of any kind.
pub enum AnyAttack {
    NoAttack(NoAttack),
    AttackB(AttackB),
    AttackC(AttackC),
}

/// Whether the attack may process this action (see `begin_attack_ok`).
pub open spec fn any_process_ok(attack: AnyAttack, action: Action, ranks: &SiteRanks) -> bool {
    match attack {
        AnyAttack::NoAttack(_) => true,
        AnyAttack::AttackB(a) => begin_attack_ok(action, ranks, spec_targeting_b(a.cfg)),
        AnyAttack::AttackC(a) => begin_attack_ok(action, ranks, spec_targeting_c(a.cfg)),
    }
}

/// Every outcome of the attack on one action, given what the omniscient
/// attack observes of the device.
pub open spec fn any_outcome(attack: AnyAttack, ranks: &SiteRanks, obs: Seq<(Uri, bool)>, action: Action, out: Seq<Action>) -> bool {
    match attack {
        AnyAttack::NoAttack(_) => out == seq![action],
        AnyAttack::AttackB(a) => b_outcome(a.cfg, a.sybils@, ranks, action, out),
        AnyAttack::AttackC(a) => c_outcome(a.cfg, a.sybils_vec@, ranks, obs, action, out),
    }
}

/// The sybils of an attack, in the attack's order (none without one).
pub open spec fn any_sybils(attack: AnyAttack) -> Seq<Uri> {
    match attack {
        AnyAttack::NoAttack(_) => Seq::empty(),
        AnyAttack::AttackB(a) => a.sybils@,
        AnyAttack::AttackC(a) => a.sybils_vec@,
    }
}

impl AnyAttackConfig {
    /// The attack of this configuration.
    pub fn create_attack(&self) -> (a: AnyAttack)
        ensures
            match *self {
                AnyAttackConfig::NoAttackConfig(_) => a == AnyAttack::NoAttack(NoAttack),
                AnyAttackConfig::AttackBConfig(c) => a matches AnyAttack::AttackB(b) && b.cfg == c
                    && b.sybils@ == spec_sybil_uris(distinct_sybil_count(c.num_sybils)),
                AnyAttackConfig::AttackCConfig(c) => a matches AnyAttack::AttackC(x) && x.cfg == c
                    && x.sybils_vec@ == spec_sybil_uris(c.num_sybils),
            },
    {
        match self {
            AnyAttackConfig::NoAttackConfig(c) => AnyAttack::NoAttack(c.create_attack()),
            AnyAttackConfig::AttackBConfig(c) => AnyAttack::AttackB(c.create_attack()),
            AnyAttackConfig::AttackCConfig(c) => AnyAttack::AttackC(c.create_attack()),
        }
    }
}

impl AnyAttack {
    /// Whether the attack may process this action: the checks `begin_attack`
    /// needs on a targeted action.
    pub fn process_ok(&self, action: &Action, ranks: &SiteRanks) -> (ok: bool)
        ensures
            ok == any_process_ok(*self, *action, ranks),
    {
        match self {
            AnyAttack::NoAttack(_) => true,
            AnyAttack::AttackB(a) => begin_attack_ok_for(action, ranks, &a.cfg.targeting()),
            AnyAttack::AttackC(a) => begin_attack_ok_for(action, ranks, &a.cfg.targeting()),
        }
    }

    /// Whether the attack reads the device for this action (only the
    /// omniscient attack does, and only on a hijacked site).
    pub fn observes(&self, action: &Action, ranks: &SiteRanks) -> (b: bool)
        requires
            any_process_ok(*self, *action, ranks),
        ensures
            b == (self is AttackC && crate::attacks::scaffold::is_target(ranks.spec_rank_of(*action), spec_targeting_c(self->AttackC_0.cfg))),
    {
        match self {
            AnyAttack::AttackC(a) => a.targets(action, ranks),
            _ => false,
        }
    }

    /// Pushes to `out` what the device sees instead of `action`; `observed`
    /// is what the omniscient attack reads of the device (ignored by the
    /// others).
    pub fn process_action(&self, action: Action, ranks: &SiteRanks, observed: &SybilObservation, out: &mut Vec<Action>)
        requires
            old(out)@.len() == 0,
            any_process_ok(*self, action, ranks),
        ensures
            any_outcome(*self, ranks, observed.registered@, action, final(out)@),
    {
        match self {
            AnyAttack::NoAttack(a) => a.process_action(action, out),
            AnyAttack::AttackB(a) => a.process_action(action, ranks, out),
            AnyAttack::AttackC(a) => a.process_action(action, ranks, observed, out),
        }
    }

    /// The attack's sybils, in the attack's order.
    pub fn sybils(&self) -> (s: Vec<Uri>)
        ensures
            s@ == any_sybils(*self),
    {
        match self {
            AnyAttack::NoAttack(_) => Vec::new(),
            AnyAttack::AttackB(a) => copy_uris(&a.sybils),
            AnyAttack::AttackC(a) => copy_uris(&a.sybils_vec),
        }
    }
}

impl Attack for AnyAttack {
    fn file_suffix(&self) -> (s: String)
        ensures
            s@ == match *self {
                AnyAttack::NoAttack(_) => "NoAttack"@,
                AnyAttack::AttackB(a) => spec_suffix_b(a.cfg),
                AnyAttack::AttackC(a) => spec_suffix_c(a.cfg),
            },
    {
        match self {
            AnyAttack::NoAttack(a) => a.file_suffix(),
            AnyAttack::AttackB(a) => a.file_suffix(),
            AnyAttack::AttackC(a) => a.file_suffix(),
        }
    }

    fn attack_id(&self) -> (id: u64)
        ensures
            id == match *self {
                AnyAttack::NoAttack(_) => 0u64,
                AnyAttack::AttackB(_) => 2u64,
                AnyAttack::AttackC(_) => 3u64,
            },
    {
        match self {
            AnyAttack::NoAttack(a) => a.attack_id(),
            AnyAttack::AttackB(a) => a.attack_id(),
            AnyAttack::AttackC(a) => a.attack_id(),
        }
    }
}

} // verus!
