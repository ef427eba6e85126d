//! Password key derivation: a memory-hard KDF stretches a password and a
//! fresh random salt into a 32-byte symmetric key. The cost parameters
//! used to write a wallet are a fixed preset; the parameters read back
//! from an artifact are used as stored, so older wallets stay readable
//! when the preset changes.

use vstd::prelude::*;

use crate::rng;
use crate::Error;

verus! {

/// The key that Argon2id (version 0x13) derives from a password, a salt,
/// and the given memory, time and lane counts; 32 bytes long. The result
/// depends on these arguments alone.
pub uninterp spec fn kdf_of(pw: Seq<u8>, salt: Seq<u8>, m_cost: u32, t_cost: u32, lanes: u32) -> Seq<u8>;

/// The KDF parameters stored beside every ciphertext.
#[derive(Debug)]
pub struct PwHash {
    /// Fresh random salt, regenerated for every encryption.
    pub salt: Vec<u8>,
    /// Memory cost in KiB.
    pub m_cost: u32,
    /// Number of passes.
    pub t_cost: u32,
    /// Lane count.
    pub parallelism: u32,
}

pub open spec fn wf_pwhash(p: PwHash) -> bool {
    &&& p.salt.len() == 16
    &&& 1 <= p.t_cost
    &&& 1 <= p.parallelism <= 255
    &&& 8 * p.parallelism <= p.m_cost < 0x100000
}

/// Relies on `argon2::Argon2::hash_password_into` with algorithm Argon2id,
/// version 0x13: the derived key is a pure function of the password, the
/// salt and the cost parameters; the call fails only when the parameters
/// are rejected or the working memory cannot be had.
#[verifier::external_body]
fn argon2id_derive(pw: &Vec<u8>, salt: &Vec<u8>, m_cost: u32, t_cost: u32, lanes: u32) -> (r: Option<
    Vec<u8>,
>)
    requires
        salt@.len() == 16,
        pw@.len() < 0x10000000,
        1 <= t_cost,
        1 <= lanes <= 255,
        8 * lanes <= m_cost < 0x100000,
    ensures
        r matches Some(key) ==> key@ == kdf_of(pw@, salt@, m_cost, t_cost, lanes) && key@.len() == 32,
{
    let params = match argon2::Params::new(m_cost, t_cost, lanes, Some(32)) {
        Ok(p) => p,
        Err(_) => return None,
    };
    let kdf = argon2::Argon2::new(argon2::Algorithm::Argon2id, argon2::Version::V0x13, params);
    let mut out = vec![0u8; 32];
    match kdf.hash_password_into(pw.as_slice(), salt.as_slice(), &mut out) {
        Ok(()) => Some(out),
        Err(_) => None,
    }
}

impl PwHash {
    /// Fresh parameters for a new wallet: a random 16-byte salt and the
    /// library's fixed Argon2id cost preset.
    pub fn argon2id13_default() -> (r: PwHash)
        ensures
            wf_pwhash(r),
            r.m_cost == 19456 && r.t_cost == 2 && r.parallelism == 1,
    {
        PwHash { salt: rng::random_bytes(16), m_cost: 19456, t_cost: 2, parallelism: 1 }
    }

    /// Stretch `password` into the 32-byte symmetric key these parameters
    /// name. Fails only with `KdfFailure`, when the KDF cannot run; a
    /// wrong password derives a key like any other and is caught later by
    /// authenticated decryption.
    pub fn derive(&self, password: &Vec<u8>) -> (r: Result<Vec<u8>, Error>)
        requires
            wf_pwhash(*self),
            password@.len() < 0x10000000,
        ensures
            r matches Ok(key) ==> key@ == kdf_of(
                password@,
                self.salt@,
                self.m_cost,
                self.t_cost,
                self.parallelism,
            ) && key@.len() == 32,
            r matches Err(e) ==> e == Error::KdfFailure,
    {
        match argon2id_derive(password, &self.salt, self.m_cost, self.t_cost, self.parallelism) {
            Some(key) => Ok(key),
            None => Err(Error::KdfFailure),
        }
    }
}

/// Determinism of key derivation: two keys derived from the same
/// password, salt and cost parameters are identical.
pub proof fn lemma_kdf_deterministic(k1: Seq<u8>, k2: Seq<u8>, pw: Seq<u8>, salt: Seq<u8>, m: u32, t: u32, l: u32)
    requires
        k1 == kdf_of(pw, salt, m, t, l),
        k2 == kdf_of(pw, salt, m, t, l),
    ensures
        k1 == k2,
{
}

} // verus!
