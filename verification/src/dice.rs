//! Random draws. The generator belongs to the `rand` crate; what is written
//! here about it is taken on trust from that crate.

use vstd::prelude::*;
use rand::Rng;
use rand::rngs::ThreadRng;

verus! {

/// `rand::rngs::ThreadRng`, the handle to a thread's random number generator.
/// Nothing of its state is known to the verifier.
#[verifier::external_type_specification]
#[verifier::external_body]
pub struct ExThreadRng(rand::rngs::ThreadRng);

/// `rand::thread_rng`: hands out the calling thread's generator, which the
/// crate seeds from the operating system the first time a thread asks for it
/// (and panics if the system has no randomness to give). Nothing is claimed
/// of what it will yield.
pub assume_specification[ rand::thread_rng ]() -> (rng: rand::rngs::ThreadRng);

/// `rand::Rng::gen_range` over `0..bound`. `gen_range` panics on an empty
/// range, so `bound` must be positive; the value it returns lies in the range,
/// and that is all that is claimed: which value comes is up to the generator.
#[verifier::external_body]
pub(crate) fn draw_below(rng: &mut ThreadRng, bound: usize) -> (r: usize)
    requires
        bound > 0,
    ensures
        r < bound,
{
    rng.gen_range(0..bound)
}

} // verus!
