//! Random numbers, drawn from the `fastrand` crate.

use vstd::prelude::*;

verus! {

/// `fastrand::Rng`, a random number generator. Nothing is known of its state.
#[verifier::external_type_specification]
#[verifier::external_body]
pub struct ExRng(fastrand::Rng);

/// Calls `fastrand::Rng::new`: a generator seeded from the thread's own.
/// Nothing is claimed of the numbers it will give.
#[verifier::external_body]
pub(crate) fn new_rng() -> (rng: fastrand::Rng) {
    fastrand::Rng::new()
}

/// Calls `fastrand::Rng::usize` on the range `..bound`. That call panics on an
/// empty range, so the bound must not be zero; the number it returns lies in
/// the range, that is below `bound`.
#[verifier::external_body]
pub(crate) fn random_below(rng: &mut fastrand::Rng, bound: usize) -> (n: usize)
    requires
        bound > 0,
    ensures
        n < bound,
{
    rng.usize(..bound)
}

} // verus!
