//! The one place where chance enters the library.

use vstd::prelude::*;
use rand::rngs::ThreadRng;
use rand::Rng;

verus! {

/// The random number generator of the current thread that `rand` provides.
#[verifier::external_type_specification]
#[verifier::external_body]
pub struct ExThreadRng(ThreadRng);

/// The random number generator of the current thread.
///
/// Calls `rand::thread_rng`. Nothing is claimed of the generator.
#[verifier::external_body]
fn local_generator() -> ThreadRng {
    rand::thread_rng()
}

/// A number below `bound`, drawn from `generator`.
///
/// Calls `Rng::gen_range` with the range from zero up to `bound`, which
/// panics on an empty range. The contract claims only that the number lies in
/// the range; which one comes is left open.
#[verifier::external_body]
fn draw_below(generator: &mut ThreadRng, bound: usize) -> (r: usize)
    requires
        bound > 0,
    ensures
        r < bound,
{
    generator.gen_range(0..bound)
}

/// A number below `bound`, drawn at random.
pub(crate) fn random_index(bound: usize) -> (r: usize)
    requires
        bound > 0,
    ensures
        r < bound,
{
    let mut generator = local_generator();
    draw_below(&mut generator, bound)
}

} // verus!
