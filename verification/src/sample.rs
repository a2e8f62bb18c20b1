//! The one place where the calculator asks for a random number.

use rand::Rng;
use vstd::prelude::*;

verus! {

/// `rand::rngs::ThreadRng`, the handle to the random number generator that each thread
/// has for itself. Nothing is known of what it holds.
#[verifier::external_type_specification]
#[verifier::external_body]
pub struct ExThreadRng(rand::rngs::ThreadRng);

/// `rand::thread_rng` hands out the handle of the calling thread. Nothing is claimed of
/// it. The first call on a thread seeds the generator from the operating system, and
/// panics where the system gives no seed.
pub assume_specification[ rand::thread_rng ]() -> rand::rngs::ThreadRng;

/// Draws an integer below `max` from `rng`.
///
/// Calls `Rng::gen_range` with the bounds `0` and `max`. The contract claims what the
/// uniform sampler for `i32` shows: it adds to the lower bound a number that is at
/// least zero and less than the width of the range, so the draw is at least `0` and
/// less than `max`. The sampler panics where the lower bound is not less than the upper
/// one, hence the precondition. Which number comes is left open: two calls with one
/// `max` may differ. That the numbers are spread evenly is the sampler's word and no
/// part of the contract.
#[verifier::external_body]
pub(crate) fn draw_below(rng: &mut rand::rngs::ThreadRng, max: i32) -> (draw: i32)
    requires
        0 < max,
    ensures
        0 <= draw < max,
{
    rng.gen_range(0, max)
}

} // verus!
