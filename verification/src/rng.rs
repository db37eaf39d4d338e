//! The seeded random number generator the attacks draw from, and the two
//! draws they make with it.

use vstd::prelude::*;

use rand::Rng as _;
use rand::SeedableRng as _;
use rand::seq::IteratorRandom as _;
use std::hash::Hash as _;
use std::hash::Hasher as _;

use crate::common_types::{ActionId, DeviceId, EpochId, Timestamp, Uri};

verus! {

#[verifier::external_type_specification]
#[verifier::external_body]
pub struct ExStdRng(rand::rngs::StdRng);

/// Hashes the four seed parts with `rustc_hash::FxHasher` (default state,
/// `Hash` of the tuple, then `finish`). The digest depends on the machine's
/// word size, so nothing is stated of it.
#[verifier::external_body]
fn fx_hash_seed(parts: (DeviceId, Timestamp, EpochId, Option<ActionId>)) -> u64 {
    let mut hasher = rustc_hash::FxHasher::default();
    parts.hash(&mut hasher);
    hasher.finish()
}

/// `rand::rngs::StdRng::seed_from_u64`. The generator is opaque to the
/// library; nothing is stated of its state.
#[verifier::external_body]
fn std_rng_from_seed(seed: u64) -> rand::rngs::StdRng {
    rand::rngs::StdRng::seed_from_u64(seed)
}

/// A generator seeded from the parts of an action, so that every random
/// choice an attack makes for that action is reproducible run to run and
/// independent of which worker thread handles it.
pub fn deterministic_rng(parts: (DeviceId, Timestamp, EpochId, Option<ActionId>)) -> rand::rngs::StdRng {
    let seed = fx_hash_seed(parts);
    std_rng_from_seed(seed)
}

/// `rand::Rng::gen_ratio(rng, numerator, denominator)`: `true` with
/// probability `numerator / denominator`. rand 0.8 builds a Bernoulli
/// distribution from the ratio, which always answers `false` for a zero
/// numerator and always `true` when the numerator equals the denominator; it
/// panics for a zero denominator or a numerator above the denominator, which
/// `requires` leaves out. Any other answer depends on the generator's state.
#[verifier::external_body]
pub(crate) fn gen_ratio(rng: &mut rand::rngs::StdRng, numerator: u32, denominator: u32) -> (hit: bool)
    requires
        0 < denominator,
        numerator <= denominator,
    ensures
        numerator == 0 ==> !hit,
        numerator == denominator ==> hit,
{
    rng.gen_ratio(numerator, denominator)
}

/// `rand::seq::IteratorRandom::choose_multiple` over the elements of
/// `pool`, in order: reservoir sampling that keeps `amount` of them. rand
/// 0.8 fills the reservoir with the first `amount` elements and then may
/// replace slots by later ones, so the result has exactly
/// `min(amount, pool.len())` elements, each taken from a distinct position of
/// the pool. Which elements are kept, and in which order, depends on the
/// generator's state and is not stated.
///
/// rand reserves room for `amount` elements up front; `requires` keeps
/// `amount` within the pool's length, which leaves the draws unchanged (with
/// `amount` at least the pool's length rand takes the whole pool without
/// drawing).
#[verifier::external_body]
pub(crate) fn choose_multiple(rng: &mut rand::rngs::StdRng, pool: Vec<Uri>, amount: usize) -> (chosen: Vec<Uri>)
    requires
        amount <= pool.len(),
    ensures
        chosen.len() == amount,
        chosen@.to_multiset().subset_of(pool@.to_multiset()),
        amount == pool.len() ==> chosen@ == pool@,
{
    pool.into_iter().choose_multiple(rng, amount)
}

} // verus!
