//! The random source. Nothing is known of a roll but its range.

use vstd::prelude::*;

verus! {

/// `rltk::RandomNumberGenerator`, taken as it is: verified code carries it
/// about and never looks inside.
#[verifier::external_type_specification]
#[verifier::external_body]
pub struct ExRandomNumberGenerator(rltk::RandomNumberGenerator);

/// `rltk::RandomNumberGenerator::new`: a generator seeded from the system.
/// Nothing is claimed of it.
pub assume_specification[ rltk::RandomNumberGenerator::new ]() -> rltk::RandomNumberGenerator;

/// `rltk::RandomNumberGenerator::roll_dice`: the sum of `n` dice, each
/// showing 1 to `die_type`. The bounds keep the sum inside `i32`.
pub assume_specification[ rltk::RandomNumberGenerator::roll_dice ](
    rng: &mut rltk::RandomNumberGenerator,
    n: i32,
    die_type: i32,
) -> (roll: i32)
    requires
        0 <= n,
        1 <= die_type < i32::MAX,
        n * die_type <= i32::MAX,
    ensures
        n <= roll <= n * die_type,
;

/// `rltk::RandomNumberGenerator::range` on `i32`: a value from `min` up to,
/// but not including, `max`. An empty range is left out.
#[verifier::external_body]
pub(crate) fn range(rng: &mut rltk::RandomNumberGenerator, min: i32, max: i32) -> (r: i32)
    requires
        min < max,
    ensures
        min <= r < max,
{
    rng.range(min, max)
}

} // verus!
