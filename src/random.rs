//! The pseudo-random source that the line masks and the stipple offsets draw
//! from: rand's `SmallRng`, passed explicitly so that a fixed seed gives a
//! fixed result.
use rand::rngs::SmallRng;
use rand::seq::SliceRandom;
use rand::{Rng, SeedableRng};
use vstd::prelude::*;

verus! {

#[verifier::external_type_specification]
#[verifier::external_body]
pub struct ExSmallRng(SmallRng);

/// Relies on rand's `SeedableRng::seed_from_u64` to build a generator from a seed.
#[verifier::external_body]
pub(crate) fn rng_from_seed(seed: u64) -> SmallRng {
    SmallRng::seed_from_u64(seed)
}

/// Relies on rand's `Rng::gen::<u32>`: any `u32` may come back.
#[verifier::external_body]
pub(crate) fn next_u32(rng: &mut SmallRng) -> u32 {
    rng.gen::<u32>()
}

/// Relies on rand's `Rng::gen::<u64>`: any `u64` may come back.
#[verifier::external_body]
pub(crate) fn next_u64(rng: &mut SmallRng) -> u64 {
    rng.gen::<u64>()
}

/// Relies on rand's `SliceRandom::shuffle`, which reorders the elements in
/// place: the result is a permutation of the input.
#[verifier::external_body]
pub(crate) fn shuffle_flags(v: &mut Vec<bool>, rng: &mut SmallRng)
    ensures
        final(v)@.to_multiset() == old(v)@.to_multiset(),
{
    v.shuffle(rng)
}

} // verus!
