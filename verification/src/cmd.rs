//! Wallet-creation commands: the validated argument sets for creating a
//! basic or a sharded wallet, and the keypair step they share. Prompting,
//! argument parsing and file output stay with the caller.

use vstd::prelude::*;

use crate::keypair::KeyTag;
use crate::keypair::KeyType;
use crate::keypair::Keypair;
use crate::keypair::Network;
use crate::keypair::seed_of_entropy;
use crate::keypair::wf_keypair;
use crate::mnemonic;
use crate::mnemonic::SeedType;
use crate::Error;

verus! {

/// Create a new wallet.
pub enum Cmd {
    Basic(Basic),
    Sharded(Sharded),
}

/// Create a new basic wallet.
pub struct Basic {
    /// Output file to store the key in.
    pub output: String,
    /// Overwrite an existing file.
    pub force: bool,
    /// Seed phrase grammar to regenerate the wallet keys from, if any.
    pub seed: Option<SeedType>,
    /// The network to generate the wallet for.
    pub network: Network,
    /// The type of key to generate.
    pub key_type: KeyType,
}

/// Create a new sharded wallet.
pub struct Sharded {
    /// Output file to store the key in; share files take a numeric
    /// suffix after its extension.
    pub output: String,
    /// Overwrite an existing file.
    pub force: bool,
    /// Number of shards to break the key into.
    pub key_share_count: u8,
    /// Number of shards required to recover the key.
    pub recovery_threshold: u8,
    /// Seed phrase grammar to regenerate the wallet keys from, if any.
    pub seed: Option<SeedType>,
    /// The network to generate the wallet for.
    pub network: Network,
    /// The type of key to generate.
    pub key_type: KeyType,
}

impl Basic {
    /// The tag this command creates keys under.
    pub fn key_tag(&self) -> (r: KeyTag)
        ensures
            r == (KeyTag { network: self.network, key_type: self.key_type }),
    {
        KeyTag { network: self.network, key_type: self.key_type }
    }
}

impl Sharded {
    /// The tag this command creates keys under.
    pub fn key_tag(&self) -> (r: KeyTag)
        ensures
            r == (KeyTag { network: self.network, key_type: self.key_type }),
    {
        KeyTag { network: self.network, key_type: self.key_type }
    }
}

/// The keypair step shared by both commands: with seed words and a seed
/// type, decode the phrase and derive the keypair it determines; with
/// neither, generate from fresh randomness. Offering one without the
/// other is a caller error and reported as `InvalidMnemonic`.
pub fn gen_keypair(tag: KeyTag, seed_words: Option<Vec<String>>, seed_type: Option<&SeedType>) -> (r:
    Result<Keypair, Error>)
    ensures
        (seed_words is None && seed_type is None) ==> (r matches Ok(kp) && kp.tag == tag
            && wf_keypair(kp)),
        seed_words matches Some(words) ==> seed_type matches Some(st) ==> {
            &&& !mnemonic::decode_ok(words@, *st) ==> r == Err::<Keypair, Error>(
                Error::InvalidMnemonic,
            )
            &&& (mnemonic::decode_ok(words@, *st) && tag.key_type == KeyType::Ed25519) ==> (
            r matches Ok(kp) && kp.tag == tag && wf_keypair(kp) && kp.private_key@
                == seed_of_entropy(mnemonic::entropy_of(mnemonic::idxs_of(words@))))
            &&& (mnemonic::decode_ok(words@, *st) && tag.key_type == KeyType::EccCompact) ==> r
                == Err::<Keypair, Error>(Error::UnsupportedKeyType)
        },
        (seed_words is Some) != (seed_type is Some) ==> r == Err::<Keypair, Error>(
            Error::InvalidMnemonic,
        ),
{
    match (seed_words, seed_type) {
        (Some(words), Some(st)) => {
            let entropy = match mnemonic::mnemonic_to_entropy(&words, *st) {
                Ok(e) => e,
                Err(e) => {
                    return Err(e);
                },
            };
            Keypair::generate_from_entropy(tag, &entropy)
        },
        (None, None) => Keypair::generate(tag),
        _ => Err(Error::InvalidMnemonic),
    }
}

} // verus!
