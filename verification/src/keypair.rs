//! Keypair generation: a keypair of either supported algorithm drawn
//! from fresh randomness, or an Ed25519 keypair derived
//! deterministically from entropy, tagged with the network and key type
//! it was created for.

use vstd::prelude::*;

use crate::rng;
use crate::Error;

verus! {

pub const NETTYPE_MAIN_STR: &'static str = "main";

pub const KEYTYPE_ED25519_STR: &'static str = "ed25519";

/// The network a key belongs to.
#[derive(Clone, Copy, Debug, PartialEq, Eq, Structural)]
pub enum Network {
    Main,
    Test,
}

/// The signature algorithm of a key.
#[derive(Clone, Copy, Debug, PartialEq, Eq, Structural)]
pub enum KeyType {
    Ed25519,
    EccCompact,
}

/// Network and key type together, chosen at creation time and embedded
/// in every persisted artifact.
#[derive(Clone, Copy, Debug, PartialEq, Eq, Structural)]
pub struct KeyTag {
    pub network: Network,
    pub key_type: KeyType,
}

/// A public/private keypair. Created once per wallet creation and held
/// only until encryption completes.
#[derive(Debug)]
pub struct Keypair {
    pub tag: KeyTag,
    pub public_key: Vec<u8>,
    pub private_key: Vec<u8>,
}

/// The Ed25519 public key that belongs to a 32-byte secret seed; 32
/// bytes long. The result depends on the seed alone.
pub uninterp spec fn ed25519_public_of(seed: Seq<u8>) -> Seq<u8>;

/// Relies on `ed25519_dalek::SigningKey::from_bytes` and
/// `VerifyingKey::to_bytes`: the public key is derived deterministically
/// from the 32-byte seed.
#[verifier::external_body]
pub(crate) fn ed25519_public(seed: &Vec<u8>) -> (r: Vec<u8>)
    requires
        seed@.len() == 32,
    ensures
        r@ == ed25519_public_of(seed@),
        r@.len() == 32,
{
    let mut raw = [0u8; 32];
    raw.copy_from_slice(seed.as_slice());
    let signing = ed25519_dalek::SigningKey::from_bytes(&raw);
    signing.verifying_key().to_bytes().to_vec()
}

/// The compressed 33-byte P-256 public key that belongs to a valid
/// 32-byte secret scalar. The result depends on the scalar alone.
pub uninterp spec fn ecc_compact_public_of(secret: Seq<u8>) -> Seq<u8>;

/// Whether 32 bytes are a valid nonzero P-256 secret scalar, a function
/// of the bytes alone.
pub uninterp spec fn ecc_compact_valid(secret: Seq<u8>) -> bool;

/// Relies on `p256::SecretKey::from_slice` and the compressed SEC1
/// encoding of `PublicKey`: 32 bytes either are a valid nonzero scalar
/// with a deterministic 33-byte public key, or are rejected.
#[verifier::external_body]
pub(crate) fn ecc_compact_public(secret: &Vec<u8>) -> (r: Option<Vec<u8>>)
    requires
        secret@.len() == 32,
    ensures
        r is Some <==> ecc_compact_valid(secret@),
        r matches Some(p) ==> p@ == ecc_compact_public_of(secret@) && p@.len() == 33,
{
    match p256::SecretKey::from_slice(secret.as_slice()) {
        Ok(sk) => Some(
            p256::elliptic_curve::sec1::ToEncodedPoint::to_encoded_point(&sk.public_key(), true)
                .as_bytes()
                .to_vec(),
        ),
        Err(_) => None,
    }
}

/// Relies on `p256::SecretKey::random` over the operating system's
/// generator: a fresh valid scalar, returned with the compressed
/// public key it determines.
#[verifier::external_body]
fn ecc_compact_generate() -> (r: (Vec<u8>, Vec<u8>))
    ensures
        r.0@.len() == 33,
        r.1@.len() == 32,
        ecc_compact_valid(r.1@),
        r.0@ == ecc_compact_public_of(r.1@),
{
    let sk = p256::SecretKey::random(&mut rand::rngs::OsRng);
    let public =
        p256::elliptic_curve::sec1::ToEncodedPoint::to_encoded_point(&sk.public_key(), true)
            .as_bytes()
            .to_vec();
    let secret = sk.to_bytes().to_vec();
    (public, secret)
}

/// The 32-byte Ed25519 seed a given entropy buffer stands for: 32 bytes
/// are used as they are, 16 bytes are repeated once.
pub open spec fn seed_of_entropy(e: Seq<u8>) -> Seq<u8> {
    if e.len() == 32 {
        e
    } else {
        e + e
    }
}

/// A keypair is well formed when its public key is the one its private
/// key determines under the algorithm its tag names.
pub open spec fn wf_keypair(kp: Keypair) -> bool {
    &&& kp.private_key.len() == 32
    &&& match kp.tag.key_type {
        KeyType::Ed25519 => kp.public_key.len() == 32 && kp.public_key@ == ed25519_public_of(
            kp.private_key@,
        ),
        KeyType::EccCompact => kp.public_key.len() == 33 && ecc_compact_valid(kp.private_key@)
            && kp.public_key@ == ecc_compact_public_of(kp.private_key@),
    }
}

impl Keypair {
    /// Derive the keypair that `entropy` determines: identical `(tag,
    /// entropy)` always yield an identical keypair. Fails with
    /// `UnsupportedKeyType` exactly when the tag names an algorithm
    /// without a deterministic derivation path.
    pub fn generate_from_entropy(tag: KeyTag, entropy: &Vec<u8>) -> (r: Result<Keypair, Error>)
        requires
            entropy@.len() == 16 || entropy@.len() == 32,
        ensures
            tag.key_type == KeyType::Ed25519 ==> (r matches Ok(kp) && kp.tag == tag
                && kp.private_key@ == seed_of_entropy(entropy@) && wf_keypair(kp)),
            tag.key_type == KeyType::EccCompact ==> r == Err::<Keypair, Error>(
                Error::UnsupportedKeyType,
            ),
    {
        match tag.key_type {
            KeyType::EccCompact => Err(Error::UnsupportedKeyType),
            KeyType::Ed25519 => {
                let mut seed: Vec<u8> = Vec::new();
                let mut i: usize = 0;
                while i < entropy.len()
                    invariant
                        i <= entropy@.len(),
                        seed@ == entropy@.subrange(0, i as int),
                    decreases entropy@.len() - i,
                {
                    seed.push(entropy[i]);
                    i = i + 1;
                }
                proof {
                    assert(entropy@.subrange(0, entropy@.len() as int) =~= entropy@);
                }
                if seed.len() == 16 {
                    let mut j: usize = 0;
                    while j < 16
                        invariant
                            j <= 16,
                            entropy@.len() == 16,
                            seed@ == entropy@ + entropy@.subrange(0, j as int),
                        decreases 16 - j,
                    {
                        proof {
                            assert(entropy@ + entropy@.subrange(0, j + 1) =~= (entropy@
                                + entropy@.subrange(0, j as int)).push(entropy@[j as int]));
                        }
                        seed.push(entropy[j]);
                        j = j + 1;
                    }
                    proof {
                        assert(entropy@.subrange(0, 16) =~= entropy@);
                    }
                }
                let public_key = ed25519_public(&seed);
                Ok(Keypair { tag, public_key, private_key: seed })
            },
        }
    }

    /// Generate a keypair of the algorithm the tag names from fresh
    /// randomness; both supported algorithms have a generation path.
    pub fn generate(tag: KeyTag) -> (r: Result<Keypair, Error>)
        ensures
            r matches Ok(kp) && kp.tag == tag && wf_keypair(kp),
    {
        match tag.key_type {
            KeyType::Ed25519 => {
                let entropy = rng::random_bytes(32);
                Self::generate_from_entropy(tag, &entropy)
            },
            KeyType::EccCompact => {
                let (public_key, private_key) = ecc_compact_generate();
                Ok(Keypair { tag, public_key, private_key })
            },
        }
    }
}

/// Determinism of key derivation from entropy: two well-formed keypairs
/// whose private keys came from the same entropy are equal in tag,
/// private key and public key.
pub proof fn lemma_generate_deterministic(kp1: Keypair, kp2: Keypair, tag: KeyTag, entropy: Seq<u8>)
    requires
        wf_keypair(kp1),
        wf_keypair(kp2),
        kp1.tag == tag,
        kp2.tag == tag,
        kp1.private_key@ == seed_of_entropy(entropy),
        kp2.private_key@ == seed_of_entropy(entropy),
    ensures
        kp1.tag == kp2.tag,
        kp1.private_key@ == kp2.private_key@,
        kp1.public_key@ == kp2.public_key@,
{
}

} // verus!
