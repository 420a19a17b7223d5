//! Randomness for mine placement, drawn from `rand`'s thread-local
//! generator.
//!
//! Nothing is assumed about the values drawn beyond their range: the
//! placement logic is verified for every sequence of draws.

use vstd::prelude::*;

verus! {

#[verifier::external_type_specification]
#[verifier::external_body]
pub struct ExThreadRng(rand::rngs::ThreadRng);

/// Relies on `rand::thread_rng`: a handle to the thread-local generator.
#[verifier::external_body]
pub(crate) fn new_rng() -> rand::rngs::ThreadRng {
    rand::thread_rng()
}

/// Relies on `rand::Rng::gen_range`: a value drawn from the half-open
/// range below `bound`. Only membership in the range is assumed.
#[verifier::external_body]
pub(crate) fn rng_below(rng: &mut rand::rngs::ThreadRng, bound: usize) -> (r: usize)
    requires
        bound >= 1,
    ensures
        r < bound,
{
    rand::Rng::gen_range(rng, 0..bound)
}

} // verus!
