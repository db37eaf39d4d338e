//! Progress counters shared between the worker threads and the display.
//! Workers add to the counters concurrently, so nothing is stated of the
//! values a counter holds: only which counter an operation addresses, and
//! that an index with no counter is ignored.

use std::sync::atomic::{AtomicBool, AtomicUsize, Ordering};
use std::sync::{Arc, Mutex};
use vstd::prelude::*;

verus! {

#[verifier::external_type_specification]
#[verifier::external_body]
#[verifier::reject_recursive_types(T)]
pub struct ExMutex<T: ?Sized>(std::sync::Mutex<T>);

/// `Mutex::new(None)`: a lock guarding an absent text.
#[verifier::external_body]
fn empty_text() -> Mutex<Option<String>> {
    Mutex::new(None)
}

/// `Mutex::lock`, then stores `value` under the lock. A lock poisoned by a
/// panicking holder is entered anyway. Nothing is stated of the guarded
/// value, which other threads may change at any time.
#[verifier::external_body]
fn store_text(slot: &Mutex<Option<String>>, value: Option<String>) {
    match slot.lock() {
        Ok(mut guard) => *guard = value,
        Err(poisoned) => *poisoned.into_inner() = value,
    }
}

/// `Mutex::lock`, then a clone of the guarded value (a lock poisoned by a
/// panicking holder is entered anyway). What it returns depends on what
/// other threads stored and is not stated.
#[verifier::external_body]
fn load_text(slot: &Mutex<Option<String>>) -> Option<String> {
    match slot.lock() {
        Ok(guard) => guard.clone(),
        Err(poisoned) => poisoned.into_inner().clone(),
    }
}

/// The progress of one unit of work: its count, its total, its label and
/// whether it is finished.
pub struct ExperimentState {
    count: AtomicUsize,
    total: AtomicUsize,
    desc: Mutex<Option<String>>,
    finished: AtomicBool,
}

/// Everything the workers and the display share.
pub struct SharedState {
    experiments: Vec<ExperimentState>,
    global_count: AtomicUsize,
    global_total: usize,
    running: AtomicBool,
    aborted: AtomicBool,
    header_info: String,
    current_suffix: Mutex<Option<String>>,
}

/// A handle on the shared progress counters; clones share them.
#[derive(Clone)]
pub struct ProgressManager {
    state: Arc<SharedState>,
}

impl ProgressManager {
    /// The number of units of work tracked.
    pub closed spec fn slots(&self) -> nat {
        self.state.experiments@.len()
    }

    /// The total amount of work, fixed at creation.
    pub closed spec fn spec_global_total(&self) -> usize {
        self.state.global_total
    }

    pub closed spec fn spec_header_info(&self) -> Seq<char> {
        self.state.header_info@
    }

    /// Counters for `num_experiments` units of work, all at zero, with
    /// `total_work` as the overall total.
    pub fn new(total_work: usize, num_experiments: usize, header_info: String) -> (pm: Self)
        ensures
            pm.slots() == num_experiments,
            pm.spec_global_total() == total_work,
            pm.spec_header_info() == header_info@,
    {
        let mut experiments: Vec<ExperimentState> = Vec::new();
        let mut i: usize = 0;
        while i < num_experiments
            invariant
                i <= num_experiments,
                experiments@.len() == i,
            decreases num_experiments - i,
        {
            experiments.push(ExperimentState {
                count: AtomicUsize::new(0),
                total: AtomicUsize::new(0),
                desc: empty_text(),
                finished: AtomicBool::new(false),
            });
            i = i + 1;
        }
        let state = SharedState {
            experiments,
            global_count: AtomicUsize::new(0),
            global_total: total_work,
            running: AtomicBool::new(true),
            aborted: AtomicBool::new(false),
            header_info,
            current_suffix: empty_text(),
        };
        ProgressManager { state: Arc::new(state) }
    }

    /// Starts unit `index` afresh with the given total and label; an index
    /// with no unit is ignored.
    pub fn init_experiment(&self, index: usize, total: usize, desc: String) {
        if index < self.state.experiments.len() {
            let exp = &self.state.experiments[index];
            exp.total.store(total, Ordering::Relaxed);
            store_text(&exp.desc, Some(desc));
            exp.count.store(0, Ordering::Relaxed);
            exp.finished.store(false, Ordering::Relaxed);
        }
    }

    /// Adds `n` to unit `index` (if it exists) and, if asked, to the overall
    /// count.
    pub fn update_add(&self, index: usize, n: usize, update_global: bool) {
        if index < self.state.experiments.len() {
            self.state.experiments[index].count.fetch_add(n, Ordering::Relaxed);
        }
        if update_global {
            self.state.global_count.fetch_add(n, Ordering::Relaxed);
        }
    }

    /// Adds `n` to the overall count.
    pub fn update_global(&self, n: usize) {
        self.state.global_count.fetch_add(n, Ordering::Relaxed);
    }

    /// Raises the total of unit `index` by `n`; an index with no unit is
    /// ignored.
    pub fn add_total(&self, index: usize, n: usize) {
        if index < self.state.experiments.len() {
            self.state.experiments[index].total.fetch_add(n, Ordering::Relaxed);
        }
    }

    /// Sets the total of unit `index`; an index with no unit is ignored.
    pub fn set_total(&self, index: usize, total: usize) {
        if index < self.state.experiments.len() {
            self.state.experiments[index].total.store(total, Ordering::Relaxed);
        }
    }

    /// The overall count so far.
    pub fn global_count(&self) -> usize {
        self.state.global_count.load(Ordering::Relaxed)
    }

    /// The overall total given at creation.
    pub fn global_total(&self) -> (total: usize)
        ensures
            total == self.spec_global_total(),
    {
        self.state.global_total
    }

    /// The count of unit `index`; 0 for an index with no unit.
    pub fn get_current(&self, index: usize) -> (count: usize)
        ensures
            index >= self.slots() ==> count == 0,
    {
        if index < self.state.experiments.len() {
            self.state.experiments[index].count.load(Ordering::Relaxed)
        } else {
            0
        }
    }

    /// Marks unit `index` finished; an index with no unit is ignored.
    pub fn finish_experiment(&self, index: usize) {
        if index < self.state.experiments.len() {
            self.state.experiments[index].finished.store(true, Ordering::Relaxed);
        }
    }

    /// Records the name of the output currently being produced.
    pub fn set_current_suffix(&self, suffix: String) {
        store_text(&self.state.current_suffix, Some(suffix));
    }

    /// Asks the display to stop.
    pub fn stop(&self) {
        self.state.running.store(false, Ordering::Relaxed);
    }

    /// Asks the display to stop without its final render.
    pub fn abort(&self) {
        self.state.aborted.store(true, Ordering::Relaxed);
        self.state.running.store(false, Ordering::Relaxed);
    }

    /// The number of units of work tracked.
    pub fn num_experiments(&self) -> (n: usize)
        ensures
            n == self.slots(),
    {
        self.state.experiments.len()
    }

    /// What the display shows of unit `index`: its count, its total, whether
    /// it is finished and its label; `None` for an index with no unit.
    pub fn experiment_snapshot(&self, index: usize) -> (snap: Option<(usize, usize, bool, Option<String>)>)
        ensures
            snap is Some <==> index < self.slots(),
    {
        if index < self.state.experiments.len() {
            let exp = &self.state.experiments[index];
            Some((exp.count.load(Ordering::Relaxed), exp.total.load(Ordering::Relaxed),
                exp.finished.load(Ordering::Relaxed), load_text(&exp.desc)))
        } else {
            None
        }
    }

    /// Whether the display should keep running.
    pub fn is_running(&self) -> bool {
        self.state.running.load(Ordering::Relaxed)
    }

    /// Whether the run was aborted.
    pub fn is_aborted(&self) -> bool {
        self.state.aborted.load(Ordering::Relaxed)
    }

    /// The header line given at creation.
    pub fn header_info(&self) -> (h: &String)
        ensures
            h@ == self.spec_header_info(),
    {
        &self.state.header_info
    }

    /// The name of the output currently being produced, if any was set.
    pub fn current_suffix(&self) -> Option<String> {
        load_text(&self.state.current_suffix)
    }
}

} // verus!
