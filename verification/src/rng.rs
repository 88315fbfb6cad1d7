//! Random draws for measurement sampling, through the `rand` crate.
//!
//! Nothing is assumed about the values drawn beyond their range: every
//! contract downstream holds for every possible outcome.

use vstd::prelude::*;
use rand::RngExt;

verus! {

#[verifier::external_type_specification]
#[verifier::external_body]
/// The standard random number generator of the `rand` crate.
pub struct ExStdRng(rand::rngs::StdRng);

/// Relies on `rand::make_rng`: builds a freshly (OS-)seeded generator. No
/// property of its output is assumed.
#[verifier::external_body]
pub(crate) fn fresh_rng() -> rand::rngs::StdRng {
    rand::make_rng()
}

/// Relies on `RngExt::random_range` over `0..n`: returns a value of that
/// range, which is nonempty because `n >= 1` (an empty range panics).
#[verifier::external_body]
pub(crate) fn rand_below(rng: &mut rand::rngs::StdRng, n: u64) -> (r: u64)
    requires
        n >= 1,
    ensures
        r < n,
{
    rng.random_range(0..n)
}

} // verus!
