//! Random draws, through rltk's random number generator.

use vstd::prelude::*;

verus! {

#[verifier::external_type_specification]
#[verifier::external_body]
pub struct ExRandomNumberGenerator(rltk::RandomNumberGenerator);

/// Relies on rltk's `RandomNumberGenerator::roll_dice(1, die)`: one draw of
/// `range(1, die + 1)`, which lies in `1..=die` and panics on an empty range.
#[verifier::external_body]
pub(crate) fn roll_die(rng: &mut rltk::RandomNumberGenerator, die: i32) -> (r: i32)
    requires
        1 <= die < i32::MAX,
    ensures
        1 <= r <= die,
{
    rng.roll_dice(1, die)
}

/// Relies on rltk's `RandomNumberGenerator::random_slice_index`: `None` for an
/// empty slice, else an index into it (drawn with `roll_dice(1, len)`, whose
/// die size plus one must fit in an `i32`).
#[verifier::external_body]
pub(crate) fn random_slice_index<T>(rng: &mut rltk::RandomNumberGenerator, items: &Vec<T>) -> (r: Option<usize>)
    requires
        items@.len() < i32::MAX,
    ensures
        items@.len() == 0 <==> r.is_none(),
        r.is_some() ==> r.unwrap() < items@.len(),
{
    rng.random_slice_index(items.as_slice())
}

} // verus!
