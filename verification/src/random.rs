//! The source of randomness for the choice of a stamp's texture.

use vstd::prelude::*;
use rand::Rng;

verus! {

/// The thread's random number generator of the `rand` crate. Nothing is known
/// of what it holds.
#[verifier::external_type_specification]
#[verifier::external_body]
pub struct ExThreadRng(rand::rngs::ThreadRng);

/// `rand::thread_rng` hands out the generator of the current thread. Nothing
/// is claimed of it. It takes no input; it panics where the operating system
/// gives it no seed.
pub assume_specification[ rand::thread_rng ]() -> (rng: rand::rngs::ThreadRng);

/// Draws an index below `n` with `Rng::gen_range` on the range `0..n`.
/// The range must not be empty, on which `gen_range` panics; the claim is
/// that the number drawn lies in the range, and nothing about which it is.
#[verifier::external_body]
pub(crate) fn pick_below(rng: &mut rand::rngs::ThreadRng, n: usize) -> (i: usize)
    requires
        n > 0,
    ensures
        i < n,
{
    rng.gen_range(0..n)
}

} // verus!
