//! Seeded randomness for the animations, behind trusted contracts.

use vstd::prelude::*;

verus! {

/// The small seeded generator of the `rand` crate, declared so that
/// animations can keep one in their state.
#[verifier::external_type_specification]
#[verifier::external_body]
pub struct ExSmallRng(rand::rngs::SmallRng);

/// Relies on rand's `SeedableRng::seed_from_u64`: builds a generator
/// from a seed.  Nothing is promised of the stream it will produce.
#[verifier::external_body]
pub(crate) fn rng_from_seed(seed: u64) -> rand::rngs::SmallRng {
    rand::SeedableRng::seed_from_u64(seed)
}

/// Relies on rand's `Rng::gen_range` over `0..bound`: whatever is drawn
/// lies below `bound`.  The call panics on an empty range, so the bound
/// must be positive.
#[verifier::external_body]
pub(crate) fn rng_below(rng: &mut rand::rngs::SmallRng, bound: u64) -> (r: u64)
    requires
        bound >= 1,
    ensures
        r < bound,
{
    rand::Rng::gen_range(rng, 0..bound)
}

/// Relies on rand's `Rng::gen` for `u8`: one byte of the stream; any
/// value can come back.
#[verifier::external_body]
pub(crate) fn rng_u8(rng: &mut rand::rngs::SmallRng) -> u8 {
    rand::Rng::gen(rng)
}

} // verus!
