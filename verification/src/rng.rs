//! The engine's source of randomness: the thread-local generator of the
//! `rand` crate, behind two trusted wrappers. Nothing can be promised of a
//! random value, so the only contract is the range of the draw.

use vstd::prelude::*;

verus! {

#[verifier::external_type_specification]
#[verifier::external_body]
pub struct ExThreadRng(rand::rngs::ThreadRng);

/// Relies on rand::thread_rng: a handle to the lazily initialized
/// thread-local generator, cached in the engine so that a draw does not
/// re-enter the thread-local machinery every time.
#[verifier::external_body]
pub(crate) fn fresh_rng() -> rand::rngs::ThreadRng {
    rand::thread_rng()
}

/// Relies on rand::Rng::gen_range over the range 0..n: the sampled value
/// lies in that half-open range, so it is strictly below n. The call panics
/// only on an empty range, which the precondition rules out.
#[verifier::external_body]
pub(crate) fn draw_below(rng: &mut rand::rngs::ThreadRng, n: usize) -> (r: usize)
    requires
        n >= 1,
    ensures
        r < n,
{
    rand::Rng::gen_range(rng, 0..n)
}

} // verus!
