//! The random source, taken on trust from the `rand` crate.

use rand::Rng;
use vstd::prelude::*;

verus! {

/// `rand::rngs::ThreadRng`, a handle to the generator of the current
/// thread.  Nothing inside it is visible here.
#[verifier::external_type_specification]
#[verifier::external_body]
pub struct ExThreadRng(rand::rngs::ThreadRng);

/// `rand::thread_rng` hands out the handle to the generator of the current
/// thread, which the system seeds on first use; where the system cannot,
/// the call does not return.  Nothing is claimed of the handle.
pub assume_specification[ rand::thread_rng ]() -> (rng: rand::rngs::ThreadRng)
;

/// `rand::Rng::gen` at `u64`: the next 64-bit word of the generator.  The
/// word is random, so nothing is claimed of it.
#[verifier::external_body]
pub(crate) fn next_word(rng: &mut rand::rngs::ThreadRng) -> (word: u64) {
    rng.gen()
}

} // verus!
