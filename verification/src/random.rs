//! The source of chance behind mine placement.

use rand::Rng;
use vstd::prelude::*;

verus! {

/// `rand::rngs::ThreadRng`, the generator that each thread owns. Nothing of
/// its state is visible here: a value of it is only carried to the draws.
#[verifier::external_type_specification]
#[verifier::external_body]
pub struct ExThreadRng(rand::rngs::ThreadRng);

/// `rand::thread_rng`: a handle on the calling thread's generator, which the
/// system seeds on first use. Nothing is claimed of the handle. The outside
/// function panics where the operating system gives no seed; no argument
/// decides that.
#[verifier::external_body]
pub(crate) fn thread_generator() -> rand::rngs::ThreadRng {
    rand::thread_rng()
}

/// `rand::Rng::gen_range` on an inclusive range of `i32`: the draw lies in
/// the range, bounds included. Which value comes is left open. The outside
/// function panics on an empty range, which `requires` leaves out, and where
/// the operating system fails the generator when it reseeds itself.
#[verifier::external_body]
pub(crate) fn draw_between(rng: &mut rand::rngs::ThreadRng, low: i32, high: i32) -> (r: i32)
    requires
        low <= high,
    ensures
        low <= r <= high,
{
    rng.gen_range(low..=high)
}

} // verus!
