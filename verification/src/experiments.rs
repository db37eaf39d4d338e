//! The attack side of the experiment suites: the attacker parameters every
//! suite starts from, and how a suite point derives its redirection count
//! from the domain cap.

use vstd::prelude::*;

use crate::attacks::attack_b::AttackBConfig;
use crate::attacks::attack_c::AttackCConfig;
use crate::attacks::attack_trait::{spec_with_num_redirections, AnyAttackConfig};

verus! {

/// Redirections an attacker gets without a domain cap.
pub const UNCAPPED_REDIRECTIONS: u64 = 20;

/// The redirection count of an attacker under a domain cap: `c + 2` with a
/// cap of `c`, a flat 20 without one.
pub open spec fn spec_num_redirections(quota_count: Option<usize>) -> u64 {
    match quota_count {
        Some(c) => (c + 2) as u64,
        None => UNCAPPED_REDIRECTIONS,
    }
}

pub fn num_redirections_for(quota_count: Option<usize>) -> (n: u64)
    requires
        quota_count matches Some(c) ==> c + 2 <= usize::MAX,
    ensures
        n == spec_num_redirections(quota_count),
{
    match quota_count {
        Some(c) => (c + 2) as u64,
        None => UNCAPPED_REDIRECTIONS,
    }
}

/// The attack configuration of one experiment point: the redirection count
/// is always derived from the domain cap, never set independently.
pub fn attack_config_for(quota_count: Option<usize>, attack_config: AnyAttackConfig) -> (c: AnyAttackConfig)
    requires
        quota_count matches Some(q) ==> q + 2 <= usize::MAX,
    ensures
        c == spec_with_num_redirections(attack_config, spec_num_redirections(quota_count)),
{
    let n = num_redirections_for(quota_count);
    attack_config.with_num_redirections(n)
}

/// The attacker parameters shared by the random and the omniscient attack.
#[derive(Debug, Clone, Copy, PartialEq, Eq, Structural)]
pub struct CommonAttackParams {
    pub malicious_site_rank_start: u64,
    pub malicious_site_count: u64,
    pub num_redirections: u64,
    pub num_sybils: u64,
    pub genuine_first_chance: u32,
    pub malicious_sister_sites: bool,
}

impl Default for CommonAttackParams {
    /// The sites ranked 1 to 10 are hijacked, by an attacker with 25 sybil
    /// sister sites who puts the genuine action first half of the time. The
    /// redirection count is derived per experiment from the domain cap.
    fn default() -> (p: Self)
        ensures
            p == (CommonAttackParams {
                malicious_site_rank_start: 1,
                malicious_site_count: 10,
                num_redirections: 0,
                num_sybils: 25,
                genuine_first_chance: 50,
                malicious_sister_sites: true,
            }),
    {
        Self {
            malicious_site_rank_start: 1,
            malicious_site_count: 10,
            num_redirections: 0,
            num_sybils: 25,
            genuine_first_chance: 50,
            malicious_sister_sites: true,
        }
    }
}

impl CommonAttackParams {
    /// The random attack with these parameters, listing
    /// `sybils_per_conversion` sybils in each conversion.
    pub fn to_attack_b(&self, sybils_per_conversion: u64) -> (c: AttackBConfig)
        ensures
            c == (AttackBConfig {
                malicious_site_rank_start: self.malicious_site_rank_start,
                malicious_site_count: self.malicious_site_count,
                num_redirections: self.num_redirections,
                num_sybils: self.num_sybils,
                sybils_per_conversion,
                genuine_first_chance: self.genuine_first_chance,
                malicious_sister_sites: self.malicious_sister_sites,
            }),
    {
        AttackBConfig {
            malicious_site_rank_start: self.malicious_site_rank_start,
            malicious_site_count: self.malicious_site_count,
            num_redirections: self.num_redirections,
            num_sybils: self.num_sybils,
            sybils_per_conversion,
            genuine_first_chance: self.genuine_first_chance,
            malicious_sister_sites: self.malicious_sister_sites,
        }
    }

    /// The omniscient attack with these parameters.
    pub fn to_attack_c(&self) -> (c: AttackCConfig)
        ensures
            c == (AttackCConfig {
                malicious_site_rank_start: self.malicious_site_rank_start,
                malicious_site_count: self.malicious_site_count,
                num_redirections: self.num_redirections,
                num_sybils: self.num_sybils,
                genuine_first_chance: self.genuine_first_chance,
                malicious_sister_sites: self.malicious_sister_sites,
            }),
    {
        AttackCConfig {
            malicious_site_rank_start: self.malicious_site_rank_start,
            malicious_site_count: self.malicious_site_count,
            num_redirections: self.num_redirections,
            num_sybils: self.num_sybils,
            genuine_first_chance: self.genuine_first_chance,
            malicious_sister_sites: self.malicious_sister_sites,
        }
    }

    /// The parameters with `num_sybils` replaced.
    pub fn with_num_sybils(&self, num_sybils: u64) -> (p: Self)
        ensures
            p == (CommonAttackParams { num_sybils, ..*self }),
    {
        CommonAttackParams { num_sybils, ..*self }
    }

    /// The parameters with the first hijacked rank replaced.
    pub fn with_rank_start(&self, malicious_site_rank_start: u64) -> (p: Self)
        ensures
            p == (CommonAttackParams { malicious_site_rank_start, ..*self }),
    {
        CommonAttackParams { malicious_site_rank_start, ..*self }
    }
}

/// The attacker variations of the sybil-count panel: the base parameters
/// with 5, 10, 25, 50, 75 and 100 sybils.
pub fn num_sybils_variations(base: CommonAttackParams) -> (v: Vec<CommonAttackParams>)
    ensures
        v@ == seq![5u64, 10, 25, 50, 75, 100].map_values(|n: u64| CommonAttackParams { num_sybils: n, ..base }),
{
    let v = vec![base.with_num_sybils(5), base.with_num_sybils(10), base.with_num_sybils(25),
        base.with_num_sybils(50), base.with_num_sybils(75), base.with_num_sybils(100)];
    assert(v@ =~= seq![5u64, 10, 25, 50, 75, 100].map_values(|n: u64| CommonAttackParams { num_sybils: n, ..base }));
    v
}

/// The attacker variations of the site-popularity panel: the base parameters
/// hijacking from rank 1, 2, 3, 4 and 5 on.
pub fn popularity_variations(base: CommonAttackParams) -> (v: Vec<CommonAttackParams>)
    ensures
        v@ == Seq::new(5, |i: int| CommonAttackParams { malicious_site_rank_start: (i + 1) as u64, ..base }),
{
    let mut v: Vec<CommonAttackParams> = Vec::new();
    let mut start: u64 = 1;
    while start <= 5
        invariant
            1 <= start <= 6,
            v@ =~= Seq::new((start - 1) as nat, |i: int| CommonAttackParams { malicious_site_rank_start: (i + 1) as u64, ..base }),
        decreases 6 - start,
    {
        v.push(base.with_rank_start(start));
        start = start + 1;
    }
    v
}

} // verus!
