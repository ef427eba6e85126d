//! Wallet key material: generation, password-based encryption, and
//! threshold secret sharing.

use vstd::prelude::*;

pub mod cmd;
pub mod gf256;
pub mod keypair;
pub mod mnemonic;
pub mod pwhash;
pub mod rng;
pub mod wallet;
pub mod shamir;

verus! {

/// Every failure the library reports. All are terminal for the current
/// operation.
#[derive(Clone, Copy, Debug, PartialEq, Eq, Structural)]
pub enum Error {
    /// A mnemonic phrase had a bad word count, an unknown word, or a
    /// checksum that does not match its grammar.
    InvalidMnemonic,
    /// The requested key type has no derivation path implemented.
    UnsupportedKeyType,
    /// The password key-derivation function could not run (resource
    /// exhaustion or rejected cost parameters), never a wrong password.
    KdfFailure,
    /// A split was requested with `k < 1` or `k > n`.
    InvalidThreshold,
    /// Shares with duplicate indices, disagreeing thresholds, or
    /// mismatched sibling data were offered for recombination.
    InconsistentShares,
    /// Fewer shares than the recovery threshold were offered.
    InsufficientShares,
    /// Authenticated decryption rejected the ciphertext.
    WrongPassword,
    /// A persisted artifact violates the on-disk format.
    CorruptWallet,
    /// An input/output failure outside the library's own logic.
    Io,
}

} // verus!
