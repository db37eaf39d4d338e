use std::collections::HashMap;

use bigbirdeval::attacks::attack_b::{AttackB, AttackBConfig};
use bigbirdeval::attacks::attack_c::{AttackC, AttackCConfig, SybilObservation};
use bigbirdeval::attacks::attack_trait::{AnyAttack, AnyAttackConfig, Attack, AttackConfig, NoAttack, NoAttackConfig};
use bigbirdeval::attacks::scaffold::{begin_attack, begin_attack_ok_for, Targeting, SISTER_SITE_ACTION_OFFSET};
use bigbirdeval::common_types::{Conversion, Event, EventUris, ImpOrConv, Impression, Uri};
use bigbirdeval::dataset::{Action, RankTable, SiteRanks};

fn impression(device: u64, ts: u64, epoch: u64, source: Uri, uaid: Option<u64>) -> Action {
    Action::Impression(Impression {
        device_id: device,
        event: Event {
            id: 77,
            timestamp: ts,
            epoch_number: epoch,
            histogram_index: 3,
            uris: EventUris { source_uri: source, trigger_uris: vec![Uri::benign(9)], querier_uris: vec![Uri::benign(9)] },
            user_action_id: uaid,
            filter_data: 0,
        },
    })
}

fn conversion(device: u64, ts: u64, epoch: u64, querier: Uri, uaid: Option<u64>) -> Action {
    Action::Conversion(Conversion {
        querier,
        epoch_id: epoch,
        timestamp: ts,
        device_id: device,
        user_action_id: uaid,
        source_uris: None,
    })
}

/// Source site 5 has rank 1, site 6 rank 20; querier 9 has rank 2.
fn ranks() -> SiteRanks {
    let mut s = HashMap::new();
    s.insert(5u64, 1usize);
    s.insert(6u64, 20usize);
    let mut q = HashMap::new();
    q.insert(9u64, 2usize);
    SiteRanks { source_ranks: RankTable { ranks: s }, querier_ranks: RankTable { ranks: q } }
}

fn cfg_b(redirections: u64, sybils: u64, per_conv: u64, first: u32) -> AttackBConfig {
    AttackBConfig {
        malicious_site_rank_start: 1,
        malicious_site_count: 10,
        num_redirections: redirections,
        num_sybils: sybils,
        sybils_per_conversion: per_conv,
        genuine_first_chance: first,
        malicious_sister_sites: true,
    }
}

fn cfg_c(redirections: u64, sybils: u64, first: u32) -> AttackCConfig {
    AttackCConfig {
        malicious_site_rank_start: 1,
        malicious_site_count: 10,
        num_redirections: redirections,
        num_sybils: sybils,
        genuine_first_chance: first,
        malicious_sister_sites: true,
    }
}

fn is_genuine(a: &Action) -> bool {
    match a {
        Action::Impression(i) => i.event.id == 77,
        Action::Conversion(c) => !c.querier.malicious,
    }
}

#[test]
fn targeting_copies_the_config() {
    let b = cfg_b(4, 25, 9, 50).targeting();
    assert_eq!(b, Targeting { rank_start: 1, count: 10, num_redirections: 4, genuine_first_chance: 50, sister_sites: true });
    let c = cfg_c(3, 5, 0).targeting();
    assert_eq!(c, Targeting { rank_start: 1, count: 10, num_redirections: 3, genuine_first_chance: 0, sister_sites: true });
}

#[test]
fn attack_ids_and_suffixes() {
    let b = cfg_b(4, 25, 9, 50).create_attack();
    let c = cfg_c(4, 25, 50).create_attack();
    let n = NoAttackConfig.create_attack();
    assert_eq!(n.attack_id(), 0);
    assert_eq!(b.attack_id(), 2);
    assert_eq!(c.attack_id(), 3);
    assert_eq!(n.file_suffix(), "NoAttack");
    assert_eq!(b.file_suffix(), "atkB_malicious=1+10_sybils=25,_redirects=4_perconv=9");
    assert_eq!(c.file_suffix(), "atkC_malicious=1+10_sybils=25,_redirects=4");
    let big = AttackB { cfg: AttackBConfig { malicious_site_rank_start: 1234567890123, ..cfg_b(0, 0, 0, 0) }, sybils: vec![] };
    assert_eq!(big.file_suffix(), "atkB_malicious=1234567890123+10_sybils=0,_redirects=0_perconv=0");
}

#[test]
fn any_config_ids_and_redirections() {
    assert_eq!(NoAttackConfig.into_any().attack_id(), 0);
    assert_eq!(cfg_b(0, 1, 1, 0).into_any().attack_id(), 2);
    assert_eq!(cfg_c(0, 1, 0).into_any().attack_id(), 3);
    match cfg_b(0, 1, 1, 0).into_any().with_num_redirections(7) {
        AnyAttackConfig::AttackBConfig(c) => assert_eq!(c, cfg_b(7, 1, 1, 0)),
        _ => panic!("wrong variant"),
    }
    match cfg_c(0, 1, 0).into_any().with_num_redirections(4) {
        AnyAttackConfig::AttackCConfig(c) => assert_eq!(c, cfg_c(4, 1, 0)),
        _ => panic!("wrong variant"),
    }
    assert_eq!(NoAttackConfig.into_any().with_num_redirections(4), AnyAttackConfig::NoAttackConfig(NoAttackConfig));
}

#[test]
fn created_attacks_list_their_sybils() {
    let b = cfg_b(4, 3, 1, 50).create_attack();
    assert_eq!(b.sybils, vec![Uri::malicious(0), Uri::malicious(1), Uri::malicious(2)]);
    let c = cfg_c(4, 2, 50).create_attack();
    assert_eq!(c.sybils_vec, vec![Uri::malicious(0), Uri::malicious(1)]);
    assert!(cfg_b(4, 0, 1, 50).create_attack().sybils.is_empty());
}

#[test]
fn no_attack_passes_actions_through() {
    let mut out = Vec::new();
    NoAttack.process_action(impression(1, 10, 3, Uri::benign(5), Some(4)), &mut out);
    assert_eq!(out.len(), 1);
    assert!(is_genuine(&out[0]));
}

#[test]
fn begin_attack_ignores_unranked_and_untargeted_sites() {
    let r = ranks();
    let t = cfg_b(2, 3, 1, 100).targeting();
    let mut out = Vec::new();
    assert!(begin_attack(impression(1, 10, 3, Uri::benign(42), Some(4)), &r, &mut out, t).is_none());
    assert_eq!(out.len(), 1);
    let mut out = Vec::new();
    assert!(begin_attack(impression(1, 10, 3, Uri::benign(6), Some(4)), &r, &mut out, t).is_none());
    assert_eq!(out.len(), 1);
}

#[test]
fn begin_attack_on_a_target_shifts_the_user_action() {
    let r = ranks();
    let mut out = Vec::new();
    let ctx = begin_attack(conversion(8, 11, 2, Uri::benign(9), Some(5)), &r, &mut out, cfg_b(2, 3, 1, 100).targeting()).unwrap();
    assert_eq!(out.len(), 1);
    assert!(ctx.genuine_first);
    assert!(ctx.genuine_action.is_none());
    assert_eq!((ctx.device_id, ctx.timestamp, ctx.epoch_number), (8, 11, 2));
    assert_eq!(ctx.user_action_id, Some(5 + SISTER_SITE_ACTION_OFFSET));

    let mut out = Vec::new();
    let t = Targeting { sister_sites: false, genuine_first_chance: 0, ..cfg_b(2, 3, 1, 0).targeting() };
    let ctx = begin_attack(conversion(8, 11, 2, Uri::benign(9), Some(5)), &r, &mut out, t).unwrap();
    assert!(out.is_empty());
    assert!(!ctx.genuine_first);
    assert_eq!(ctx.user_action_id, Some(5));
    let mut out2 = Vec::new();
    ctx.emit_genuine_last(&mut out2);
    assert_eq!(out2.len(), 1);
    assert!(is_genuine(&out2[0]));
}

#[test]
fn attack_b_untargeted_action_passes_through() {
    let attack = cfg_b(3, 5, 2, 50).create_attack();
    let mut out = Vec::new();
    attack.process_action(impression(1, 10, 3, Uri::benign(6), Some(4)), &ranks(), &mut out);
    assert_eq!(out.len(), 1);
    assert!(is_genuine(&out[0]));
}

#[test]
fn attack_b_injects_one_pair_per_redirection() {
    let attack = cfg_b(3, 5, 2, 100).create_attack();
    let mut out = Vec::new();
    attack.process_action(impression(1, 10, 3, Uri::benign(5), Some(4)), &ranks(), &mut out);
    // genuine first, then 3 (impression, conversion) pairs.
    assert_eq!(out.len(), 7);
    assert!(is_genuine(&out[0]));
    let mut chosen = Vec::new();
    for k in 0..3 {
        let (imp, conv) = (&out[1 + 2 * k], &out[2 + 2 * k]);
        let sybil = match imp {
            Action::Impression(i) => {
                assert!(i.event.uris.source_uri.malicious);
                assert_eq!(i.event.uris.trigger_uris, attack.sybils);
                assert_eq!(i.event.uris.querier_uris, attack.sybils);
                assert_eq!(i.event.user_action_id, Some(4 + SISTER_SITE_ACTION_OFFSET));
                i.event.uris.source_uri
            }
            _ => panic!("expected an impression"),
        };
        match conv {
            Action::Conversion(c) => {
                assert_eq!(c.querier, sybil);
                assert_eq!(c.user_action_id, Some(4 + SISTER_SITE_ACTION_OFFSET));
                let sources = c.source_uris.clone().unwrap();
                // min(per conversion = 2, 5 sybils - 3 redirected) = 2 distinct sources.
                assert_eq!(sources.len(), 2);
                assert_ne!(sources[0], sources[1]);
                for s in &sources {
                    assert!(attack.sybils.contains(s));
                }
            }
            _ => panic!("expected a conversion"),
        }
        for a in [imp, conv] {
            assert_eq!((a.device_id(), a.timestamp(), a.epoch_id()), (1, 10, 3));
        }
        chosen.push(sybil);
    }
    // the redirected sybils are distinct, and no conversion attributes to one.
    for i in 0..3 {
        for j in 0..3 {
            if i != j {
                assert_ne!(chosen[i], chosen[j]);
            }
        }
    }
    for k in 0..3 {
        if let Action::Conversion(c) = &out[2 + 2 * k] {
            for s in c.source_uris.as_ref().unwrap() {
                assert!(!chosen.contains(s));
            }
        }
    }
}

#[test]
fn attack_b_genuine_last_and_few_sybils() {
    // more redirections than sybils: every sybil is redirected once, and no
    // sybil is left to attribute to.
    let attack = cfg_b(10, 2, 3, 0).create_attack();
    let mut out = Vec::new();
    attack.process_action(conversion(1, 10, 3, Uri::benign(9), None), &ranks(), &mut out);
    assert_eq!(out.len(), 5);
    assert!(is_genuine(&out[4]));
    for k in 0..2 {
        if let Action::Conversion(c) = &out[1 + 2 * k] {
            assert!(c.source_uris.as_ref().unwrap().is_empty());
            assert_eq!(c.user_action_id, None);
        } else {
            panic!("expected a conversion");
        }
    }
}

#[test]
fn attack_b_is_reproducible() {
    let attack = cfg_b(3, 10, 4, 50).create_attack();
    let action = impression(12, 1000, 7, Uri::benign(5), Some(99));
    let mut out1 = Vec::new();
    attack.process_action(action.clone(), &ranks(), &mut out1);
    let mut out2 = Vec::new();
    attack.process_action(action, &ranks(), &mut out2);
    assert_eq!(format!("{:?}", out1), format!("{:?}", out2));
}

#[test]
fn attack_c_untargeted_action_passes_through() {
    let attack = cfg_c(3, 4, 50).create_attack();
    let obs = SybilObservation { registered: vec![] };
    let mut out = Vec::new();
    assert!(!attack.targets(&impression(1, 10, 3, Uri::benign(6), Some(4)), &ranks()));
    attack.process_action(impression(1, 10, 3, Uri::benign(6), Some(4)), &ranks(), &obs, &mut out);
    assert_eq!(out.len(), 1);
}

#[test]
fn attack_c_prefers_sybils_without_impressions() {
    let attack: AttackC = cfg_c(3, 4, 100).create_attack();
    assert!(attack.targets(&impression(1, 10, 3, Uri::benign(5), Some(4)), &ranks()));
    // sybil 1 has an impression with budget left, sybil 3 one without.
    let obs = SybilObservation { registered: vec![(Uri::malicious(1), true), (Uri::malicious(3), false)] };
    let mut out = Vec::new();
    attack.process_action(impression(1, 10, 3, Uri::benign(5), Some(4)), &ranks(), &obs, &mut out);
    // redirected: sybils 0 and 2 (no impression), then 1; one registered
    // sybil with budget (1), so only the first redirection converts.
    // genuine, imp(0), conv(0 -> [1]), imp(2), imp(1)
    assert_eq!(out.len(), 5);
    assert!(is_genuine(&out[0]));
    let source = |a: &Action| match a {
        Action::Impression(i) => i.event.uris.source_uri,
        _ => panic!("expected an impression"),
    };
    assert_eq!(source(&out[1]), Uri::malicious(0));
    match &out[2] {
        Action::Conversion(c) => {
            assert_eq!(c.querier, Uri::malicious(0));
            assert_eq!(c.source_uris, Some(vec![Uri::malicious(1)]));
        }
        _ => panic!("expected a conversion"),
    }
    assert_eq!(source(&out[3]), Uri::malicious(2));
    assert_eq!(source(&out[4]), Uri::malicious(1));
}

#[test]
fn attack_c_genuine_last() {
    let attack = cfg_c(1, 2, 0).create_attack();
    let obs = SybilObservation { registered: vec![(Uri::malicious(0), true)] };
    let mut out = Vec::new();
    attack.process_action(conversion(2, 20, 4, Uri::benign(9), Some(1)), &ranks(), &obs, &mut out);
    // redirected: sybil 1 (no impression); converts to sybil 0.
    assert_eq!(out.len(), 3);
    assert!(is_genuine(&out[2]));
    match &out[1] {
        Action::Conversion(c) => {
            assert_eq!(c.querier, Uri::malicious(1));
            assert_eq!(c.source_uris, Some(vec![Uri::malicious(0)]));
            assert_eq!(c.user_action_id, Some(1 + SISTER_SITE_ACTION_OFFSET));
        }
        _ => panic!("expected a conversion"),
    }
}

#[test]
fn checks_attack_parameters() {
    let r = ranks();
    let t = cfg_b(2, 3, 1, 50).targeting();
    let targeted = impression(1, 10, 3, Uri::benign(5), Some(4));
    assert!(begin_attack_ok_for(&targeted, &r, &t));
    assert!(!begin_attack_ok_for(&targeted, &r, &Targeting { genuine_first_chance: 101, ..t }));
    assert!(!begin_attack_ok_for(&impression(1, 10, 3, Uri::benign(5), Some(u64::MAX)), &r, &t));
    assert!(begin_attack_ok_for(&impression(1, 10, 3, Uri::benign(5), Some(u64::MAX)), &r, &Targeting { sister_sites: false, ..t }));
    assert!(!begin_attack_ok_for(&targeted, &r, &Targeting { rank_start: u64::MAX, ..t }));
    // unranked and untargeted sites are never a problem
    assert!(begin_attack_ok_for(&impression(1, 10, 3, Uri::benign(42), Some(u64::MAX)), &r, &Targeting { genuine_first_chance: 101, ..t }));
    assert!(begin_attack_ok_for(&impression(1, 10, 3, Uri::benign(6), Some(u64::MAX)), &r, &Targeting { genuine_first_chance: 101, ..t }));
}

#[test]
fn attack_b_spreads_conversions_over_fresh_sybils() {
    // 10 sybils, 2 redirections, 3 sources each: 2 * 3 <= 10 - 2, so the two
    // conversions never share a source.
    let attack = cfg_b(2, 10, 3, 100).create_attack();
    for ts in 0..20u64 {
        let mut out = Vec::new();
        attack.process_action(impression(3, 100 + ts, 1, Uri::benign(5), Some(ts)), &ranks(), &mut out);
        assert_eq!(out.len(), 5);
        let sources = |a: &Action| match a {
            Action::Conversion(c) => c.source_uris.clone().unwrap(),
            _ => panic!("expected a conversion"),
        };
        let (first, second) = (sources(&out[2]), sources(&out[4]));
        assert_eq!((first.len(), second.len()), (3, 3));
        for x in &first {
            assert!(!second.contains(x));
        }
    }
}

#[test]
fn attack_b_reuses_sybils_only_when_fresh_ones_run_out() {
    // 6 sybils, 2 redirections, 3 sources each: 4 fresh sybils for the first
    // conversion (3 used), 1 fresh for the second, which must include it.
    let attack = cfg_b(2, 6, 3, 100).create_attack();
    let mut out = Vec::new();
    attack.process_action(impression(3, 100, 1, Uri::benign(5), Some(1)), &ranks(), &mut out);
    let redirected: Vec<Uri> = [1, 3]
        .iter()
        .map(|&i| match &out[i] {
            Action::Impression(imp) => imp.event.uris.source_uri,
            _ => panic!("expected an impression"),
        })
        .collect();
    let sources = |a: &Action| match a {
        Action::Conversion(c) => c.source_uris.clone().unwrap(),
        _ => panic!("expected a conversion"),
    };
    let (first, second) = (sources(&out[2]), sources(&out[4]));
    let fresh: Vec<Uri> = attack
        .sybils
        .iter()
        .copied()
        .filter(|s| !redirected.contains(s) && !first.contains(s))
        .collect();
    assert_eq!(fresh.len(), 1);
    assert!(second.contains(&fresh[0]));
    assert_eq!(second.len(), 3);
}

#[test]
fn attack_b_redirects_to_every_sybil_in_order_when_few() {
    // 3 sybils, 5 redirections: every sybil, in the attack's order; each
    // conversion then has no fresh sybil left.
    let attack = cfg_b(5, 3, 2, 100).create_attack();
    let mut out = Vec::new();
    attack.process_action(impression(3, 100, 1, Uri::benign(5), Some(1)), &ranks(), &mut out);
    assert_eq!(out.len(), 7);
    let redirected: Vec<Uri> = [1, 3, 5]
        .iter()
        .map(|&i| match &out[i] {
            Action::Impression(imp) => imp.event.uris.source_uri,
            _ => panic!("expected an impression"),
        })
        .collect();
    assert_eq!(redirected, attack.sybils);
}

#[test]
fn any_attack_dispatches() {
    let r = ranks();
    let none = NoAttackConfig.into_any().create_attack();
    assert_eq!((none.attack_id(), none.file_suffix()), (0, String::from("NoAttack")));
    assert!(none.sybils().is_empty());
    let b = cfg_b(1, 2, 1, 100).into_any().create_attack();
    assert_eq!(b.attack_id(), 2);
    assert_eq!(b.sybils(), vec![Uri::malicious(0), Uri::malicious(1)]);
    let c = cfg_c(1, 2, 100).into_any().create_attack();
    assert_eq!(c.attack_id(), 3);
    assert!(matches!(c, AnyAttack::AttackC(_)));
    let targeted = impression(1, 10, 3, Uri::benign(5), Some(4));
    assert!(c.process_ok(&targeted, &r));
    assert!(c.observes(&targeted, &r));
    assert!(!b.observes(&targeted, &r));
    assert!(!c.observes(&impression(1, 10, 3, Uri::benign(6), Some(4)), &r));
    let obs = SybilObservation { registered: vec![] };
    // no attack: the action alone; random: one pair; omniscient: one
    // impression (no sybil has budget to convert against).
    for (attack, expected) in [(&none, 1), (&b, 3), (&c, 2)] {
        let mut out = Vec::new();
        attack.process_action(targeted.clone(), &r, &obs, &mut out);
        assert!(is_genuine(&out[0]));
        assert_eq!(out.len(), expected);
    }
}
