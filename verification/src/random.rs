//! The random draws the game makes, through the `rand` crate.
//!
//! Nothing is known of a drawn value beyond the range that `rand` documents:
//! every function that consumes one is verified for every possible outcome.

use rand::seq::SliceRandom;
use rand::Rng;
use vstd::prelude::*;

verus! {

/// `rand`'s thread-local generator, carried through verified code unopened.
#[verifier::external_type_specification]
#[verifier::external_body]
pub struct ExThreadRng(rand::rngs::ThreadRng);

/// Calls `rand::thread_rng`, which hands out the lazily seeded generator of
/// the current thread. Nothing is claimed of it.
#[verifier::external_body]
pub(crate) fn new_rng() -> rand::rngs::ThreadRng {
    rand::thread_rng()
}

/// Calls `Rng::gen_ratio`: `true` with probability `numerator / denominator`.
/// `rand` panics when `denominator == 0` or `numerator > denominator`, which
/// `requires` rules out. Its documentation guarantees `true` when the two are
/// equal and `false` when `numerator == 0`; this is all that is claimed.
#[verifier::external_body]
pub(crate) fn chance(rng: &mut rand::rngs::ThreadRng, numerator: u32, denominator: u32) -> (b: bool)
    requires
        0 < denominator,
        numerator <= denominator,
    ensures
        numerator == denominator ==> b,
        numerator == 0 ==> !b,
{
    rng.gen_ratio(numerator, denominator)
}

/// Calls `Rng::gen_range(0..bound)`: a value drawn uniformly below `bound`.
/// `rand` panics on an empty range, which `requires` rules out. Only the
/// range of the result is claimed.
#[verifier::external_body]
pub(crate) fn below(rng: &mut rand::rngs::ThreadRng, bound: u64) -> (r: u64)
    requires
        0 < bound,
    ensures
        r < bound,
{
    rng.gen_range(0..bound)
}

/// Calls `SliceRandom::choose` on the items of `pool`, cloning the chosen one.
/// `rand` documents `None` exactly when the slice is empty, and otherwise one
/// of its items; that, and nothing on which item, is claimed.
#[verifier::external_body]
pub(crate) fn choose_from(rng: &mut rand::rngs::ThreadRng, pool: &Vec<String>) -> (r: Option<String>)
    ensures
        r is None <==> pool@.len() == 0,
        r matches Some(s) ==> exists|i: int| 0 <= i < pool@.len() && pool@[i]@ == s@,
{
    pool.as_slice().choose(rng).cloned()
}

} // verus!
