use bigbirdeval::attacks::attack_b::AttackBConfig;
use bigbirdeval::attacks::attack_c::AttackCConfig;
use bigbirdeval::attacks::attack_trait::{AnyAttackConfig, AttackConfig, NoAttackConfig};
use bigbirdeval::common_types::Uri;
use bigbirdeval::experiments::{
    attack_config_for, num_redirections_for, num_sybils_variations, popularity_variations, CommonAttackParams,
    UNCAPPED_REDIRECTIONS,
};
use bigbirdeval::stats::{FilterReading, SybilReadings, SybilUsage};

fn reading(finite_capacity: bool, depleted: bool) -> Option<FilterReading> {
    Some(FilterReading { finite_capacity, depleted })
}

#[test]
fn readings_classify_sybils() {
    let none = SybilReadings { per_querier: None, trigger_quota: None, source_quota: None };
    assert!(!none.used() && !none.exhausted());
    let used = SybilReadings { per_querier: reading(true, false), ..none };
    assert!(used.used() && !used.exhausted());
    let infinite = SybilReadings { source_quota: reading(false, true), ..none };
    assert!(infinite.used() && !infinite.exhausted());
    let exhausted = SybilReadings { trigger_quota: reading(true, true), ..none };
    assert!(exhausted.used() && exhausted.exhausted());
}

#[test]
fn sybil_usage_accumulates_over_epochs() {
    let sybils = vec![Uri::malicious(0), Uri::malicious(1), Uri::malicious(2)];
    let none = SybilReadings { per_querier: None, trigger_quota: None, source_quota: None };
    let used = SybilReadings { per_querier: reading(true, false), ..none };
    let exhausted = SybilReadings { source_quota: reading(true, true), ..none };
    let mut u = SybilUsage::new();
    assert_eq!(u.counts(), (0, 0));
    u.record_epoch(&sybils, &vec![used, none, exhausted]);
    assert_eq!(u.counts(), (1, 2));
    // the same sybils again count once; sybil 1 becomes used.
    u.record_epoch(&sybils, &vec![exhausted, used, none]);
    assert_eq!(u.counts(), (2, 3));
    assert!(u.exhausted_sybils().contains(&Uri::malicious(0)) && u.exhausted_sybils().contains(&Uri::malicious(2)));
    assert_eq!(u.used_sybils().len(), 3);
    for x in u.exhausted_sybils() {
        assert!(u.used_sybils().contains(x));
    }
}

#[test]
fn redirections_follow_the_domain_cap() {
    assert_eq!(num_redirections_for(Some(2)), 4);
    assert_eq!(num_redirections_for(Some(0)), 2);
    assert_eq!(num_redirections_for(None), 20);
    assert_eq!(UNCAPPED_REDIRECTIONS, 20);
}

#[test]
fn experiment_attack_configs() {
    let p = CommonAttackParams::default();
    let b = p.to_attack_b(9);
    let c = p.to_attack_c();
    match attack_config_for(Some(3), b.into_any()) {
        AnyAttackConfig::AttackBConfig(x) => assert_eq!(x, AttackBConfig { num_redirections: 5, ..b }),
        _ => panic!("wrong variant"),
    }
    match attack_config_for(None, c.into_any()) {
        AnyAttackConfig::AttackCConfig(x) => assert_eq!(x, AttackCConfig { num_redirections: 20, ..c }),
        _ => panic!("wrong variant"),
    }
    assert_eq!(attack_config_for(Some(1), NoAttackConfig.into_any()), AnyAttackConfig::NoAttackConfig(NoAttackConfig));
}

#[test]
fn default_attack_params() {
    let p = CommonAttackParams::default();
    assert_eq!(
        p,
        CommonAttackParams {
            malicious_site_rank_start: 1,
            malicious_site_count: 10,
            num_redirections: 0,
            num_sybils: 25,
            genuine_first_chance: 50,
            malicious_sister_sites: true,
        }
    );
    assert_eq!(
        p.to_attack_b(9),
        AttackBConfig {
            malicious_site_rank_start: 1,
            malicious_site_count: 10,
            num_redirections: 0,
            num_sybils: 25,
            sybils_per_conversion: 9,
            genuine_first_chance: 50,
            malicious_sister_sites: true,
        }
    );
    assert_eq!(
        p.to_attack_c(),
        AttackCConfig {
            malicious_site_rank_start: 1,
            malicious_site_count: 10,
            num_redirections: 0,
            num_sybils: 25,
            genuine_first_chance: 50,
            malicious_sister_sites: true,
        }
    );
}

#[test]
fn attacker_strength_variations() {
    let p = CommonAttackParams::default();
    let n: Vec<u64> = num_sybils_variations(p).iter().map(|v| v.num_sybils).collect();
    assert_eq!(n, vec![5, 10, 25, 50, 75, 100]);
    let r: Vec<u64> = popularity_variations(p).iter().map(|v| v.malicious_site_rank_start).collect();
    assert_eq!(r, vec![1, 2, 3, 4, 5]);
    for v in popularity_variations(p) {
        assert_eq!(v.num_sybils, 25);
    }
}

use bigbirdeval::stats::attack_stats_devices;

#[test]
fn attack_statistics_cover_devices_that_used_sybils() {
    assert_eq!(attack_stats_devices(&vec![0, 3, 0, 1], 25), Some(vec![1, 3]));
    assert_eq!(attack_stats_devices(&vec![0, 0], 25), None);
    assert_eq!(attack_stats_devices(&vec![], 25), None);
    assert_eq!(attack_stats_devices(&vec![2], 0), None);
}
