//! The library's only source of randomness: thin trusted wrappers around the
//! `rand` crate. Nothing is assumed of a drawn value beyond its bounds, so
//! everything computed from it is verified for every possible outcome.

use vstd::prelude::*;

verus! {

#[verifier::external_type_specification]
#[verifier::external_body]
pub struct ExThreadRng(rand::rngs::ThreadRng);

/// Relies on rand::thread_rng: a handle to the thread-local random generator.
/// Nothing is stated about it; every value drawn from it is treated as
/// arbitrary within its requested range.
#[verifier::external_body]
pub(crate) fn thread_rng_new() -> rand::rngs::ThreadRng {
    rand::thread_rng()
}

/// Relies on rand::Rng::gen_range on an inclusive integer range: the drawn
/// value lies in the range. The range must be non-empty, since gen_range
/// panics on an empty one. Uniformity is not stated: no contract of this
/// library depends on the distribution.
#[verifier::external_body]
pub(crate) fn rng_gen_range(rng: &mut rand::rngs::ThreadRng, lo: usize, hi: usize) -> (r: usize)
    requires
        lo <= hi,
    ensures
        lo <= r <= hi,
{
    rand::Rng::gen_range(rng, lo..=hi)
}

} // verus!
