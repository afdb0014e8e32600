//! Trusted boundary to the `rand` crate: a seeded small random generator and
//! uniform index draws. Nothing is assumed of the drawn values beyond their
//! range, so every caller is verified for every outcome.

use vstd::prelude::*;

verus! {

#[verifier::external_type_specification]
#[verifier::external_body]
pub struct ExSmallRng(rand::rngs::SmallRng);

/// Relies on `rand::SeedableRng::seed_from_u64` for `rand::rngs::SmallRng`:
/// builds a generator from a 64-bit seed. Nothing is assumed of the
/// generator's state.
#[verifier::external_body]
pub(crate) fn rng_from_seed(seed: u64) -> rand::rngs::SmallRng {
    <rand::rngs::SmallRng as rand::SeedableRng>::seed_from_u64(seed)
}

/// Relies on `rand::Rng::random_range` over `0..n`: returns a value below
/// `n`, and panics only on an empty range, which the precondition rules out.
#[verifier::external_body]
pub(crate) fn rng_below(rng: &mut rand::rngs::SmallRng, n: usize) -> (r: usize)
    requires
        n >= 1,
    ensures
        r < n,
{
    rand::Rng::random_range(rng, 0..n)
}

} // verus!
