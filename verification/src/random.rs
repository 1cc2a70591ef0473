//! The random number generator that drives generation and spawning.
//!
//! The generator itself is `bracket_lib`'s. Nothing is known here of the
//! numbers it draws but the ranges they fall in.

use vstd::prelude::*;
use bracket_lib::prelude::RandomNumberGenerator;

verus! {

#[verifier::external_type_specification]
#[verifier::external_body]
pub struct ExRandomNumberGenerator(RandomNumberGenerator);

/// Calls `RandomNumberGenerator::range`, which draws from the half-open
/// range `min..max`. The contract claims only that the number lies in that
/// range; the call panics on an empty range, which `requires` leaves out.
#[verifier::external_body]
pub(crate) fn range(rng: &mut RandomNumberGenerator, min: i32, max: i32) -> (r: i32)
    requires
        min < max,
    ensures
        min <= r < max,
{
    rng.range(min, max)
}

/// Calls `RandomNumberGenerator::roll_dice`, which adds up `n` draws from
/// `1..=die_type`. The contract claims that the sum lies between `n` and
/// `n * die_type`.
#[verifier::external_body]
pub(crate) fn roll_dice(rng: &mut RandomNumberGenerator, n: i32, die_type: i32) -> (r: i32)
    requires
        0 <= n,
        1 <= die_type < i32::MAX,
        n * die_type <= i32::MAX,
    ensures
        n <= r <= n * die_type,
{
    rng.roll_dice(n, die_type)
}

/// Calls `RandomNumberGenerator::random_slice_index`, which picks an index
/// into a slice. The contract claims that there is none for an empty slice
/// and otherwise one below the slice's length.
#[verifier::external_body]
pub(crate) fn random_slice_index<T>(rng: &mut RandomNumberGenerator, slice: &Vec<T>) -> (r: Option<
    usize,
>)
    requires
        slice@.len() < i32::MAX,
    ensures
        slice@.len() == 0 ==> r is None,
        slice@.len() > 0 ==> r is Some && r.unwrap() < slice@.len(),
{
    rng.random_slice_index(slice.as_slice())
}

} // verus!
