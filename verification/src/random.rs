use bracket_lib::prelude::RandomNumberGenerator;
use vstd::prelude::*;

verus! {

/// The seedable pseudo-random generator that drives dungeon generation.
#[verifier::external_type_specification]
#[verifier::external_body]
pub struct ExRandomNumberGenerator(RandomNumberGenerator);

/// The internal state of a generator, as a number. Generators in the same
/// state produce the same draws.
pub uninterp spec fn generator_state(rng: RandomNumberGenerator) -> int;

/// The state of a generator made by `RandomNumberGenerator::seeded(seed)`.
pub uninterp spec fn seed_state(seed: u64) -> int;

/// What `RandomNumberGenerator::range(min, max)` yields on a generator in
/// state `state`: the value drawn, and the state the generator is left in.
pub uninterp spec fn range_outcome(state: int, min: i32, max: i32) -> (i32, int);

/// Calls `RandomNumberGenerator::seeded`. The contract claims that the
/// state of the new generator depends on nothing but the seed.
#[verifier::external_body]
pub(crate) fn seeded(seed: u64) -> (rng: RandomNumberGenerator)
    ensures
        generator_state(rng) == seed_state(seed),
{
    RandomNumberGenerator::seeded(seed)
}

/// Calls `RandomNumberGenerator::range`. The contract claims that the value
/// lies in `[min, max)`, and that the value and the generator's next state
/// depend on nothing but the generator's state and the two bounds. The
/// outside function panics on an empty range, which `requires` leaves out.
#[verifier::external_body]
pub(crate) fn draw(rng: &mut RandomNumberGenerator, min: i32, max: i32) -> (value: i32)
    requires
        min < max,
    ensures
        min <= value < max,
        value == range_outcome(generator_state(*old(rng)), min, max).0,
        generator_state(*final(rng)) == range_outcome(generator_state(*old(rng)), min, max).1,
{
    rng.range(min, max)
}

} // verus!
