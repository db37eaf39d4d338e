use rand::Rng;

use bigbirdeval::progress::ProgressManager;
use bigbirdeval::rng::deterministic_rng;

#[test]
fn progress_counts_per_experiment_and_globally() {
    let pm = ProgressManager::new(100, 3, String::from("header"));
    assert_eq!(pm.num_experiments(), 3);
    assert_eq!(pm.global_total(), 100);
    assert_eq!(pm.header_info(), "header");
    pm.init_experiment(1, 40, String::from("Worker"));
    pm.update_add(1, 5, true);
    pm.update_add(1, 7, false);
    pm.update_global(3);
    assert_eq!(pm.get_current(1), 12);
    assert_eq!(pm.get_current(0), 0);
    assert_eq!(pm.global_count(), 8);
    pm.add_total(1, 10);
    assert_eq!(pm.experiment_snapshot(1), Some((12, 50, false, Some(String::from("Worker")))));
    pm.set_total(1, 20);
    pm.finish_experiment(1);
    assert_eq!(pm.experiment_snapshot(1), Some((12, 20, true, Some(String::from("Worker")))));
    pm.init_experiment(1, 5, String::from("Collector"));
    assert_eq!(pm.experiment_snapshot(1), Some((0, 5, false, Some(String::from("Collector")))));
}

#[test]
fn progress_ignores_unknown_experiments() {
    let pm = ProgressManager::new(10, 2, String::new());
    pm.init_experiment(5, 40, String::from("x"));
    pm.update_add(5, 5, true);
    pm.add_total(7, 1);
    pm.set_total(7, 1);
    pm.finish_experiment(9);
    assert_eq!(pm.get_current(5), 0);
    assert_eq!(pm.experiment_snapshot(5), None);
    assert_eq!(pm.global_count(), 5);
    assert_eq!(pm.experiment_snapshot(0), Some((0, 0, false, None)));
}

#[test]
fn progress_stop_abort_and_suffix() {
    let pm = ProgressManager::new(0, 0, String::new());
    let clone = pm.clone();
    assert!(pm.is_running() && !pm.is_aborted());
    assert_eq!(pm.current_suffix(), None);
    clone.set_current_suffix(String::from("run.json.gz"));
    assert_eq!(pm.current_suffix(), Some(String::from("run.json.gz")));
    clone.stop();
    assert!(!pm.is_running() && !pm.is_aborted());
    pm.abort();
    assert!(!clone.is_running() && clone.is_aborted());
}

#[test]
fn deterministic_rng_is_reproducible() {
    let parts = (12u64, 1000u64, 7u64, Some(99u64));
    let mut a = deterministic_rng(parts);
    let mut b = deterministic_rng(parts);
    let xs: Vec<u64> = (0..4).map(|_| a.gen()).collect();
    let ys: Vec<u64> = (0..4).map(|_| b.gen()).collect();
    assert_eq!(xs, ys);
    let mut c = deterministic_rng((12u64, 1000u64, 7u64, None));
    let zs: Vec<u64> = (0..4).map(|_| c.gen()).collect();
    assert_ne!(xs, zs);
}

use bigbirdeval::display::{bar_step, queued_experiments, visible_bars, BarStep};

#[test]
fn bar_steps() {
    assert_eq!(bar_step(true, true, true, 10, 3), BarStep::Hide);
    assert_eq!(bar_step(false, false, false, 10, 3), BarStep::Wait);
    assert_eq!(bar_step(false, false, true, 10, 3), BarStep::Show { total: 10, count: 3 });
    assert_eq!(bar_step(false, true, false, 10, 12), BarStep::Show { total: 12, count: 12 });
    assert_eq!(bar_step(false, true, true, 0, 12), BarStep::Show { total: 0, count: 12 });
}

#[test]
fn queued_count() {
    assert_eq!(queued_experiments(10, 3, 4), 3);
    assert_eq!(queued_experiments(5, 3, 4), 0);
}

#[test]
fn bars_that_fit_on_screen() {
    let present = vec![true, false, true, true, false, true];
    assert_eq!(visible_bars(4, false, &present), None);
    assert_eq!(visible_bars(5, true, &present), None);
    assert_eq!(visible_bars(6, false, &present), Some(vec![0, 2]));
    assert_eq!(visible_bars(6, true, &present), Some(vec![0]));
    assert_eq!(visible_bars(100, false, &present), Some(vec![0, 2, 3, 5]));
    assert_eq!(visible_bars(100, false, &vec![]), Some(vec![]));
}
