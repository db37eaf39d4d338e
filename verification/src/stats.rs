//! Per-device attack statistics: which sybils a device spent budget on, and
//! which of them it ran out of budget for.

use vstd::prelude::*;

use crate::attacks::attack_b::lemma_no_dups_subset_len;
use crate::common_types::{contains_uri, EpochId, Uri};
use crate::querier::REPORT_REQUEST_EPOCH_WINDOW;

verus! {

/// What one budget filter of a device shows: whether its capacity is finite,
/// and whether (numerically) nothing is left of it.
#[derive(Debug, Clone, Copy, PartialEq, Eq, Structural)]
pub struct FilterReading {
    pub finite_capacity: bool,
    pub depleted: bool,
}

/// What a device's filters for one sybil show in one epoch: its querier
/// filter, its conversion-quota filter and its impression-quota filter, each
/// `None` where the filter does not exist or cannot report its budget.
#[derive(Debug, Clone, Copy, PartialEq, Eq, Structural)]
pub struct SybilReadings {
    pub per_querier: Option<FilterReading>,
    pub trigger_quota: Option<FilterReading>,
    pub source_quota: Option<FilterReading>,
}

pub open spec fn reading_exhausted(r: Option<FilterReading>) -> bool {
    r matches Some(f) && f.finite_capacity && f.depleted
}

/// The sybil was used on the device: one of its filters exists.
pub open spec fn readings_used(r: SybilReadings) -> bool {
    r.per_querier is Some || r.trigger_quota is Some || r.source_quota is Some
}

/// The sybil is exhausted on the device: one of its filters has a finite
/// capacity and nothing left.
pub open spec fn readings_exhausted(r: SybilReadings) -> bool {
    reading_exhausted(r.per_querier) || reading_exhausted(r.trigger_quota) || reading_exhausted(r.source_quota)
}

/// A sybil is exhausted on a device exactly when one of its three filters,
/// the querier filter, the conversion-quota filter or the impression-quota
/// filter, reports a finite capacity with nothing left; any one of them
/// alone suffices.
pub proof fn law_exhausted_when_any_filter_is_depleted(r: SybilReadings)
    ensures
        readings_exhausted(r) <==> (
            (r.per_querier matches Some(f) && f.finite_capacity && f.depleted)
            || (r.trigger_quota matches Some(f) && f.finite_capacity && f.depleted)
            || (r.source_quota matches Some(f) && f.finite_capacity && f.depleted)),
        (r.per_querier matches Some(f) && f.finite_capacity && f.depleted) ==> readings_exhausted(r),
        (r.trigger_quota matches Some(f) && f.finite_capacity && f.depleted) ==> readings_exhausted(r),
        (r.source_quota matches Some(f) && f.finite_capacity && f.depleted) ==> readings_exhausted(r),
        readings_exhausted(r) ==> readings_used(r),
{
}

impl SybilReadings {
    pub fn used(&self) -> (b: bool)
        ensures
            b == readings_used(*self),
    {
        self.per_querier.is_some() || self.trigger_quota.is_some() || self.source_quota.is_some()
    }

    pub fn exhausted(&self) -> (b: bool)
        ensures
            b == readings_exhausted(*self),
    {
        let a = match self.per_querier { Some(f) => f.finite_capacity && f.depleted, None => false };
        let b = match self.trigger_quota { Some(f) => f.finite_capacity && f.depleted, None => false };
        let c = match self.source_quota { Some(f) => f.finite_capacity && f.depleted, None => false };
        a || b || c
    }
}

/// The sybils found used, and found exhausted, on one device so far; each
/// list holds a sybil at most once.
pub struct SybilUsage {
    used: Vec<Uri>,
    exhausted: Vec<Uri>,
}

/// Whether the readings mark a sybil as exhausted (`exhausted`) or as used
/// (`!exhausted`).
pub open spec fn marks(r: SybilReadings, exhausted: bool) -> bool {
    if exhausted { readings_exhausted(r) } else { readings_used(r) }
}

/// The sybils among `sybils` that their readings mark as exhausted (or as
/// used).
pub open spec fn marked(sybils: Seq<Uri>, readings: Seq<SybilReadings>, exhausted: bool) -> Set<Uri> {
    Set::new(|x: Uri| exists|i: int| 0 <= i < sybils.len() && sybils[i] == x && #[trigger] marks(readings[i], exhausted))
}

pub proof fn lemma_marked_extend(sybils: Seq<Uri>, readings: Seq<SybilReadings>, i: int, exhausted: bool)
    requires
        0 <= i < sybils.len(),
    ensures
        marked(sybils.subrange(0, i + 1), readings, exhausted) == if marks(readings[i], exhausted) {
            marked(sybils.subrange(0, i), readings, exhausted).insert(sybils[i])
        } else {
            marked(sybils.subrange(0, i), readings, exhausted)
        },
{
    let a = sybils.subrange(0, i);
    let b = sybils.subrange(0, i + 1);
    let ma = marked(a, readings, exhausted);
    let mb = marked(b, readings, exhausted);
    let expected = if marks(readings[i], exhausted) { ma.insert(sybils[i]) } else { ma };
    assert forall|x: Uri| mb.contains(x) == expected.contains(x) by {
        if ma.contains(x) {
            let k = choose|k: int| 0 <= k < a.len() && a[k] == x && #[trigger] marks(readings[k], exhausted);
            assert(b[k] == x && marks(readings[k], exhausted));
        }
        if marks(readings[i], exhausted) && x == sybils[i] {
            assert(b[i] == x && marks(readings[i], exhausted));
        }
        if mb.contains(x) {
            let k = choose|k: int| 0 <= k < b.len() && b[k] == x && #[trigger] marks(readings[k], exhausted);
            if k < i {
                assert(a[k] == x && marks(readings[k], exhausted));
            }
        }
    }
    assert(mb =~= expected);
}

impl SybilUsage {
    /// The sybils found used so far.
    pub closed spec fn used_set(&self) -> Set<Uri> {
        self.used@.to_set()
    }

    /// The sybils found exhausted so far.
    pub closed spec fn exhausted_set(&self) -> Set<Uri> {
        self.exhausted@.to_set()
    }

    /// No sybil is listed twice, and every exhausted sybil is a used one.
    pub closed spec fn wf(&self) -> bool {
        &&& self.used@.no_duplicates()
        &&& self.exhausted@.no_duplicates()
        &&& forall|x: Uri| #[trigger] self.exhausted@.contains(x) ==> self.used@.contains(x)
    }

    pub fn new() -> (u: Self)
        ensures
            u.wf(),
            u.used_set() == Set::<Uri>::empty(),
            u.exhausted_set() == Set::<Uri>::empty(),
    {
        let u = SybilUsage { used: Vec::new(), exhausted: Vec::new() };
        assert(u.used@.to_set() =~= Set::<Uri>::empty());
        assert(u.exhausted@.to_set() =~= Set::<Uri>::empty());
        u
    }

    /// The sybils found used so far, each once.
    pub fn used_sybils(&self) -> (v: &Vec<Uri>)
        ensures
            v@.to_set() == self.used_set(),
            self.wf() ==> v@.no_duplicates(),
    {
        &self.used
    }

    /// The sybils found exhausted so far, each once.
    pub fn exhausted_sybils(&self) -> (v: &Vec<Uri>)
        ensures
            v@.to_set() == self.exhausted_set(),
            self.wf() ==> v@.no_duplicates(),
    {
        &self.exhausted
    }

    /// Adds `x` to `list` unless it is there already.
    fn insert(list: &mut Vec<Uri>, x: Uri)
        requires
            old(list)@.no_duplicates(),
        ensures
            final(list)@.no_duplicates(),
            final(list)@.to_set() == old(list)@.to_set().insert(x),
            forall|y: Uri| #[trigger] final(list)@.contains(y) <==> (old(list)@.contains(y) || y == x),
    {
        if !contains_uri(list, x) {
            list.push(x);
        }
        assert forall|y: Uri| #[trigger] list@.contains(y) <==> (old(list)@.contains(y) || y == x) by {
            if old(list)@.contains(y) {
                let k = choose|k: int| 0 <= k < old(list)@.len() && old(list)@[k] == y;
                assert(list@[k] == y);
            }
            if y == x && !old(list)@.contains(x) {
                assert(list@[list@.len() - 1] == x);
            }
        }
        assert(list@.to_set() =~= old(list)@.to_set().insert(x));
    }

    /// Takes what a device's filters show for each sybil in one epoch:
    /// sybils with an existing filter join the used ones, and those with a
    /// depleted finite filter join the exhausted ones.
    pub fn record_epoch(&mut self, sybils: &Vec<Uri>, readings: &Vec<SybilReadings>)
        requires
            old(self).wf(),
            sybils@.len() == readings@.len(),
        ensures
            final(self).wf(),
            final(self).used_set() == old(self).used_set() + marked(sybils@, readings@, false),
            final(self).exhausted_set() == old(self).exhausted_set() + marked(sybils@, readings@, true),
    {
        let ghost start = *self;
        let mut i: usize = 0;
        while i < sybils.len()
            invariant
                i <= sybils@.len(),
                sybils@.len() == readings@.len(),
                self.wf(),
                self.used@.to_set() == start.used@.to_set() + marked(sybils@.subrange(0, i as int), readings@, false),
                self.exhausted@.to_set() == start.exhausted@.to_set() + marked(sybils@.subrange(0, i as int), readings@, true),
            decreases sybils@.len() - i,
        {
            let r = readings[i];
            let s = sybils[i];
            let used = r.used();
            let exhausted = r.exhausted();
            let ghost before = *self;
            if used {
                Self::insert(&mut self.used, s);
            }
            if exhausted {
                assert(used);
                Self::insert(&mut self.exhausted, s);
            }
            proof {
                lemma_marked_extend(sybils@, readings@, i as int, false);
                lemma_marked_extend(sybils@, readings@, i as int, true);
                let b = sybils@.subrange(0, i + 1);
                assert(self.used@.to_set() =~= start.used@.to_set() + marked(b, readings@, false));
                assert(self.exhausted@.to_set() =~= start.exhausted@.to_set() + marked(b, readings@, true));
            }
            i = i + 1;
        }
        assert(sybils@.subrange(0, sybils@.len() as int) =~= sybils@);
    }

    /// The number of exhausted and of used sybils, as logged (truncated to
    /// `u32`). A device never has more exhausted sybils than used ones.
    pub fn counts(&self) -> (c: (u32, u32))
        requires
            self.wf(),
        ensures
            c.0 == self.exhausted_set().len() as u32,
            c.1 == self.used_set().len() as u32,
            self.exhausted_set().subset_of(self.used_set()),
            self.exhausted_set().len() <= self.used_set().len(),
    {
        proof {
            lemma_no_dups_subset_len(self.exhausted@, self.used@);
            self.exhausted@.unique_seq_to_set();
            self.used@.unique_seq_to_set();
        }
        (self.exhausted.len() as u32, self.used.len() as u32)
    }
}

/// The positions, in order, of the devices that used at least one sybil.
pub open spec fn devices_using_sybils(sybils_used: Seq<u32>) -> Seq<usize>
    decreases sybils_used.len(),
{
    if sybils_used.len() == 0 {
        Seq::empty()
    } else {
        let rest = devices_using_sybils(sybils_used.drop_last());
        if sybils_used.last() > 0 { rest.push((sybils_used.len() - 1) as usize) } else { rest }
    }
}

/// The devices the attack statistics are taken over: those that used at
/// least one sybil (given each device's count of used sybils), in order;
/// `None` when there are none, or when the attacker has no sybils.
pub fn attack_stats_devices(sybils_used: &Vec<u32>, total_sybils: usize) -> (devices: Option<Vec<usize>>)
    ensures
        devices is None <==> (devices_using_sybils(sybils_used@).len() == 0 || total_sybils == 0),
        devices matches Some(d) ==> d@ == devices_using_sybils(sybils_used@),
{
    let mut devices: Vec<usize> = Vec::new();
    let mut i: usize = 0;
    while i < sybils_used.len()
        invariant
            i <= sybils_used@.len(),
            devices@ == devices_using_sybils(sybils_used@.subrange(0, i as int)),
        decreases sybils_used@.len() - i,
    {
        assert(sybils_used@.subrange(0, i + 1).drop_last() =~= sybils_used@.subrange(0, i as int));
        if sybils_used[i] > 0 {
            devices.push(i);
        }
        i = i + 1;
    }
    assert(sybils_used@.subrange(0, sybils_used@.len() as int) =~= sybils_used@);
    if devices.len() == 0 || total_sybils == 0 {
        None
    } else {
        Some(devices)
    }
}

/// The epochs whose statistics are still to be read when a worker finishes
/// after `last_epoch_id`: those still inside the report window, from
/// `last_epoch_id - REPORT_REQUEST_EPOCH_WINDOW + 1` (or from epoch 1) to
/// `last_epoch_id`, both included.
pub fn final_epochs(last_epoch_id: EpochId) -> (range: (EpochId, EpochId))
    ensures
        range.0 == if last_epoch_id > REPORT_REQUEST_EPOCH_WINDOW { last_epoch_id - REPORT_REQUEST_EPOCH_WINDOW + 1 } else { 1 },
        range.1 == last_epoch_id,
{
    let start = if last_epoch_id > REPORT_REQUEST_EPOCH_WINDOW {
        last_epoch_id - REPORT_REQUEST_EPOCH_WINDOW + 1
    } else {
        1
    };
    (start, last_epoch_id)
}

} // verus!
