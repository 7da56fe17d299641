//! The random source. Everything that the library draws at random comes
//! through the four functions of this module, whose contracts are taken
//! from the documentation of the `rand` crate and are not proved here.

use vstd::prelude::*;
use rand::Rng;
use rand::rngs::StdRng;

verus! {

/// The generator of the `rand` crate that the library draws from. Nothing
/// is known of its state.
#[verifier::external_type_specification]
#[verifier::external_body]
pub struct ExStdRng(rand::rngs::StdRng);

/// `Rng::gen` for `bool`: a fair coin. Nothing is claimed of the outcome.
#[verifier::external_body]
pub(crate) fn coin(rng: &mut StdRng) -> (heads: bool) {
    rng.gen()
}

/// `Rng::gen` for `i32`: any 32-bit integer. Nothing is claimed of the
/// outcome.
#[verifier::external_body]
pub(crate) fn any_scalar(rng: &mut StdRng) -> (n: i32) {
    rng.gen()
}

/// `Rng::gen_range` from zero: a number below `bound`. The call panics on
/// an empty range, which the precondition excludes; the claim is the
/// documented range, with the lower end included and the upper excluded.
#[verifier::external_body]
pub(crate) fn below(rng: &mut StdRng, bound: u64) -> (n: u64)
    requires
        bound > 0,
    ensures
        n < bound,
{
    rng.gen_range(0, bound)
}

/// `Rng::gen_ratio`: true with a chance of `numerator` in `denominator`.
/// The call panics on a zero denominator and on a numerator above the
/// denominator, which the precondition excludes; the claim is what the
/// documentation guarantees at the two ends.
#[verifier::external_body]
pub(crate) fn ratio(rng: &mut StdRng, numerator: u32, denominator: u32) -> (hit: bool)
    requires
        denominator != 0,
        numerator <= denominator,
    ensures
        numerator == denominator ==> hit,
        numerator == 0 ==> !hit,
{
    rng.gen_ratio(numerator, denominator)
}

} // verus!
