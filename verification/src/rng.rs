//! Trusted boundary around the dice-oriented random number generator of the
//! `rltk` crate.  Every verified caller is proved correct for every value
//! these calls can return, so nothing is claimed about the distribution,
//! only the documented bounds of each result.

use vstd::prelude::*;

verus! {

#[verifier::external_type_specification]
#[verifier::external_body]
pub struct ExRandomNumberGenerator(rltk::RandomNumberGenerator);

/// Relies on rltk::RandomNumberGenerator::new: a generator seeded from
/// system entropy.  Nothing is known of the values it will produce.
#[verifier::external_body]
pub fn rng_new() -> rltk::RandomNumberGenerator {
    rltk::RandomNumberGenerator::new()
}

/// Relies on rltk::RandomNumberGenerator::seeded: a generator seeded from
/// the given value.  Nothing is claimed of the values it will produce, so
/// callers are verified for every outcome.
#[verifier::external_body]
pub fn rng_seeded(seed: u64) -> rltk::RandomNumberGenerator {
    rltk::RandomNumberGenerator::seeded(seed)
}

/// Relies on rltk::RandomNumberGenerator::range, which draws uniformly from
/// `min..max`: inclusive of `min`, exclusive of `max`.  The underlying
/// `rand` sampler panics when the range is empty, hence the precondition.
#[verifier::external_body]
pub fn rng_range(rng: &mut rltk::RandomNumberGenerator, min: i32, max: i32) -> (r: i32)
    requires
        min < max,
    ensures
        min <= r < max,
{
    rng.range(min, max)
}

/// Relies on rltk::RandomNumberGenerator::roll_dice, which sums `n` rolls of
/// a `die_type`-sided die, each roll drawn from `range(1, die_type + 1)`;
/// `die_type` must stay below the integer maximum so that bound cannot
/// overflow.
#[verifier::external_body]
pub fn rng_roll_dice(rng: &mut rltk::RandomNumberGenerator, n: i32, die_type: i32) -> (r: i32)
    requires
        1 <= n,
        1 <= die_type < i32::MAX,
        n * die_type <= i32::MAX,
    ensures
        n <= r <= n * die_type,
{
    rng.roll_dice(n, die_type)
}

} // verus!
