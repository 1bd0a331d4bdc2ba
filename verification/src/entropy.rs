//! The process-wide random source, as a supply of 32-bit words.

use vstd::prelude::*;

verus! {

/// `rand::rngs::ThreadRng`, the handle that words are drawn through: carried
/// along, never looked into.
#[verifier::external_type_specification]
#[verifier::external_body]
pub struct ExThreadRng(rand::rngs::ThreadRng);

/// `rand::rng`: a handle to the calling thread's generator. Nothing is
/// claimed of it.
#[verifier::external_body]
pub(crate) fn thread_rng() -> rand::rngs::ThreadRng {
    rand::rng()
}

/// `Rng::random` at `u32`: the next 32-bit word of the generator. Every
/// word can come out, so nothing is claimed of the result.
#[verifier::external_body]
pub(crate) fn next_word(rng: &mut rand::rngs::ThreadRng) -> u32 {
    rand::Rng::random::<u32>(rng)
}

} // verus!
