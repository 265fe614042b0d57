//! Randomness and the wall clock: the only inputs of the library that no
//! contract can pin down.  Each function states what holds of every outcome.
use vstd::prelude::*;

verus! {

/// Fills `n` bytes from the operating system's random source
/// (`rand::rngs::OsRng::fill_bytes`).  Only the length is known.
#[verifier::external_body]
pub(crate) fn os_random_bytes(n: usize) -> (r: Vec<u8>)
    ensures
        r@.len() == n,
{
    let mut bytes = vec![0u8; n];
    rand::RngCore::fill_bytes(&mut rand::rngs::OsRng, &mut bytes);
    bytes
}

/// Draws an 8-byte challenge nonce with `rand::random`.  Nothing is known of
/// the value.
#[verifier::external_body]
pub(crate) fn random_nonce() -> (r: [u8; 8]) {
    rand::random::<[u8; 8]>()
}

/// Nanoseconds since the Unix epoch from `SystemTime::now`, zero when the
/// clock reads before the epoch, truncated to 64 bits.  Nothing is known of
/// the value.
#[verifier::external_body]
pub(crate) fn unix_time_nanos() -> (r: u64) {
    std::time::SystemTime::now().duration_since(std::time::UNIX_EPOCH).unwrap_or_default().as_nanos()
        as u64
}

} // verus!
