//! Randomness from the operating system.

use vstd::prelude::*;

verus! {

/// The error type of `getrandom`.
#[verifier::external_type_specification]
#[verifier::external_body]
pub struct ExGetrandomError(getrandom::Error);

/// Calls `getrandom::getrandom`, which fills `dest` from the operating
/// system's random source. Claimed: the length of `dest` is unchanged.
/// Nothing is claimed of the bytes, which are random, nor of when the call
/// fails.
#[verifier::external_body]
fn os_random(dest: &mut [u8]) -> (r: Result<(), getrandom::Error>)
    ensures
        final(dest)@.len() == old(dest)@.len(),
{
    getrandom::getrandom(dest)
}

/// Fills a 32-byte buffer with random bytes; false when the operating
/// system's random source failed.
pub fn fill_random(dest: &mut [u8; 32]) -> (ok: bool) {
    match os_random(dest) {
        Ok(()) => true,
        Err(_) => false,
    }
}

} // verus!
