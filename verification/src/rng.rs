//! The library's single source of randomness: fresh bytes from the
//! operating system's cryptographically secure generator.

use vstd::prelude::*;

verus! {

/// Fresh cryptographically secure random bytes.
///
/// Relies on `rand::rngs::OsRng` through `rand::RngCore::fill_bytes`,
/// which draws from the operating system's generator and aborts only if
/// that generator is unavailable. Nothing can be promised of the values;
/// only the length is stated.
#[verifier::external_body]
pub fn random_bytes(n: usize) -> (r: Vec<u8>)
    ensures
        r@.len() == n,
{
    let mut buf = vec![0u8; n];
    rand::RngCore::fill_bytes(&mut rand::rngs::OsRng, &mut buf);
    buf
}

} // verus!
