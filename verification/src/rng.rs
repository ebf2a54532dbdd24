//! The injected randomness source: bracket-lib's seedable generator,
//! declared opaquely and reached through two small trusted wrappers.

use vstd::prelude::*;

verus! {

#[verifier::external_type_specification]
#[verifier::external_body]
pub struct ExRandomNumberGenerator(bracket_lib::random::RandomNumberGenerator);

/// Relies on `bracket_lib::random::RandomNumberGenerator::seeded`,
/// which builds a generator deterministically from the given seed.
#[verifier::external_body]
pub(crate) fn rng_seeded(seed: u64) -> bracket_lib::random::RandomNumberGenerator {
    bracket_lib::random::RandomNumberGenerator::seeded(seed)
}

/// Relies on `bracket_lib::random::RandomNumberGenerator::range`,
/// which draws a value inclusive of `min` and exclusive of `max`
/// (and panics on an empty range, hence the precondition).
#[verifier::external_body]
pub(crate) fn rng_range(
    rng: &mut bracket_lib::random::RandomNumberGenerator,
    min: usize,
    max: usize,
) -> (r: usize)
    requires
        min < max,
    ensures
        min <= r < max,
{
    rng.range(min, max)
}

} // verus!
