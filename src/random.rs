//! The source of randomness that placement and movement draw from.
use vstd::prelude::*;
use rand::rngs::ThreadRng;
use rand::Rng;

verus! {

/// A sequentially consumed stream of uniform random integers.
pub trait RandomSource {
    /// An integer drawn uniformly from `[0, bound)`.
    fn next_below(&mut self, bound: usize) -> (r: usize)
        requires
            bound > 0,
        ensures
            r < bound,
    ;
}

#[verifier::external_type_specification]
#[verifier::external_body]
pub struct ExThreadRng(ThreadRng);

/// Relies on `rand::Rng::random_range` over `0..bound`: it panics only on an
/// empty range and otherwise returns a value inside the range.
#[verifier::external_body]
fn draw_below(rng: &mut ThreadRng, bound: usize) -> (r: usize)
    requires
        bound > 0,
    ensures
        r < bound,
{
    rng.random_range(0..bound)
}

impl RandomSource for ThreadRng {
    fn next_below(&mut self, bound: usize) -> (r: usize) {
        draw_below(self, bound)
    }
}

} // verus!
