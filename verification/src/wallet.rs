//! The wallet encoder: a keypair is serialized to a canonical byte form
//! and sealed under a password-derived key with an AEAD cipher. A Basic
//! wallet holds the ciphertext directly. A Sharded wallet additionally
//! draws a fresh 32-byte share secret, mixes it into the encryption key
//! by XOR, and splits it with the threshold scheme, so that decryption
//! needs the password and any `recovery_threshold` of the shares.

use vstd::prelude::*;

use crate::keypair::ed25519_public_of;
use crate::keypair::KeyTag;
use crate::keypair::KeyType;
use crate::keypair::Keypair;
use crate::keypair::Network;
use crate::keypair::wf_keypair;
use crate::pwhash::kdf_of;
use crate::pwhash::wf_pwhash;
use crate::pwhash::PwHash;
use crate::rng;
use crate::shamir;
use crate::Error;

verus! {

/// The ciphertext an AEAD seal produces for a key, nonce and plaintext;
/// 16 bytes longer than the plaintext. Determined by these arguments
/// alone.
pub uninterp spec fn aead_seal_of(key: Seq<u8>, nonce: Seq<u8>, pt: Seq<u8>) -> Seq<u8>;

/// What an AEAD open returns for a key, nonce and ciphertext: the
/// plaintext, or nothing when authentication rejects the ciphertext.
/// Determined by these arguments alone.
pub uninterp spec fn aead_open_of(key: Seq<u8>, nonce: Seq<u8>, ct: Seq<u8>) -> Option<Seq<u8>>;

/// Relies on `chacha20poly1305::ChaCha20Poly1305` encryption: the sealed
/// bytes are a function of key, nonce and plaintext; opening them with
/// the same key and nonce returns the plaintext.
#[verifier::external_body]
fn aead_seal(key: &Vec<u8>, nonce: &Vec<u8>, pt: &Vec<u8>) -> (r: Vec<u8>)
    requires
        key@.len() == 32,
        nonce@.len() == 12,
        pt@.len() < 0x10000000,
    ensures
        r@ == aead_seal_of(key@, nonce@, pt@),
        aead_open_of(key@, nonce@, r@) == Some(pt@),
        r@.len() == pt@.len() + 16,
{
    let k = chacha20poly1305::Key::from_slice(key.as_slice());
    let cipher = <chacha20poly1305::ChaCha20Poly1305 as chacha20poly1305::KeyInit>::new(k);
    let n = chacha20poly1305::Nonce::from_slice(nonce.as_slice());
    chacha20poly1305::aead::Aead::encrypt(&cipher, n, pt.as_slice()).expect("aead seal")
}

/// Relies on `chacha20poly1305::ChaCha20Poly1305` decryption: it returns
/// the plaintext or rejects, as a function of key, nonce and ciphertext.
#[verifier::external_body]
fn aead_open(key: &Vec<u8>, nonce: &Vec<u8>, ct: &Vec<u8>) -> (r: Option<Vec<u8>>)
    requires
        key@.len() == 32,
        nonce@.len() == 12,
    ensures
        match r {
            Some(pt) => aead_open_of(key@, nonce@, ct@) == Some(pt@),
            None => aead_open_of(key@, nonce@, ct@) is None,
        },
{
    let k = chacha20poly1305::Key::from_slice(key.as_slice());
    let cipher = <chacha20poly1305::ChaCha20Poly1305 as chacha20poly1305::KeyInit>::new(k);
    let n = chacha20poly1305::Nonce::from_slice(nonce.as_slice());
    chacha20poly1305::aead::Aead::decrypt(&cipher, n, ct.as_slice()).ok()
}

/// Byte-wise XOR of two equal-length strings.
pub open spec fn seq_xor(a: Seq<u8>, b: Seq<u8>) -> Seq<u8> {
    Seq::new(a.len(), |i: int| (a[i] ^ b[i]) as u8)
}

fn xor_bytes(a: &Vec<u8>, b: &Vec<u8>) -> (r: Vec<u8>)
    requires
        a@.len() == b@.len(),
    ensures
        r@ == seq_xor(a@, b@),
{
    let mut r: Vec<u8> = Vec::new();
    let mut i: usize = 0;
    while i < a.len()
        invariant
            i <= a@.len(),
            a@.len() == b@.len(),
            r@.len() == i,
            forall|t: int| 0 <= t < i ==> (#[trigger] r@[t]) == (a@[t] ^ b@[t]) as u8,
        decreases a@.len() - i,
    {
        r.push(a[i] ^ b[i]);
        i = i + 1;
    }
    proof {
        assert(r@ =~= seq_xor(a@, b@));
    }
    r
}

fn bytes_eq(a: &Vec<u8>, b: &Vec<u8>) -> (r: bool)
    ensures
        r <==> a@ == b@,
{
    if a.len() != b.len() {
        proof {
            assert(a@.len() != b@.len());
        }
        return false;
    }
    let mut i: usize = 0;
    while i < a.len()
        invariant
            i <= a@.len(),
            a@.len() == b@.len(),
            forall|t: int| 0 <= t < i ==> (#[trigger] a@[t]) == b@[t],
        decreases a@.len() - i,
    {
        if a[i] != b[i] {
            proof {
                assert(a@ != b@);
            }
            return false;
        }
        i = i + 1;
    }
    proof {
        assert(a@ =~= b@);
    }
    true
}

fn clone_bytes(a: &Vec<u8>) -> (r: Vec<u8>)
    ensures
        r@ == a@,
{
    let mut r: Vec<u8> = Vec::new();
    let mut i: usize = 0;
    while i < a.len()
        invariant
            i <= a@.len(),
            r@ == a@.subrange(0, i as int),
        decreases a@.len() - i,
    {
        r.push(a[i]);
        i = i + 1;
    }
    proof {
        assert(a@.subrange(0, a@.len() as int) =~= a@);
    }
    r
}

/// Overwrite a buffer with zeros: key material is actively wiped once
/// it is no longer needed, not left for deallocation to clear.
fn zero_bytes(v: &mut Vec<u8>)
    ensures
        final(v)@.len() == old(v)@.len(),
        forall|i: int| 0 <= i < final(v)@.len() ==> (#[trigger] final(v)@[i]) == 0,
{
    let mut i: usize = 0;
    while i < v.len()
        invariant
            i <= v@.len(),
            v@.len() == old(v)@.len(),
            forall|t: int| 0 <= t < i ==> (#[trigger] v@[t]) == 0,
        decreases v@.len() - i,
    {
        v.set(i, 0);
        i = i + 1;
    }
}

fn clone_pwhash(p: &PwHash) -> (r: PwHash)
    ensures
        r.salt@ == p.salt@,
        r.m_cost == p.m_cost,
        r.t_cost == p.t_cost,
        r.parallelism == p.parallelism,
{
    PwHash {
        salt: clone_bytes(&p.salt),
        m_cost: p.m_cost,
        t_cost: p.t_cost,
        parallelism: p.parallelism,
    }
}

/// The byte that encodes a network and key type pair.
pub open spec fn tag_byte(t: KeyTag) -> u8 {
    match (t.network, t.key_type) {
        (Network::Main, KeyType::EccCompact) => 0x00u8,
        (Network::Main, KeyType::Ed25519) => 0x01u8,
        (Network::Test, KeyType::EccCompact) => 0x10u8,
        (Network::Test, KeyType::Ed25519) => 0x11u8,
    }
}

/// The tag a byte decodes to, if it names a network and key type.
pub open spec fn tag_of_byte(b: u8) -> Option<KeyTag> {
    if b == 0x00 {
        Some(KeyTag { network: Network::Main, key_type: KeyType::EccCompact })
    } else if b == 0x01 {
        Some(KeyTag { network: Network::Main, key_type: KeyType::Ed25519 })
    } else if b == 0x10 {
        Some(KeyTag { network: Network::Test, key_type: KeyType::EccCompact })
    } else if b == 0x11 {
        Some(KeyTag { network: Network::Test, key_type: KeyType::Ed25519 })
    } else {
        None
    }
}

/// The public key length of an algorithm: 32 bytes for Ed25519, 33 for
/// the compressed ECC encoding.
pub open spec fn public_len(kt: KeyType) -> int {
    match kt {
        KeyType::Ed25519 => 32int,
        KeyType::EccCompact => 33int,
    }
}

/// Whether a public key is the one a private key determines under an
/// algorithm.
pub open spec fn key_matches(kt: KeyType, pubk: Seq<u8>, sk: Seq<u8>) -> bool {
    match kt {
        KeyType::Ed25519 => pubk == ed25519_public_of(sk),
        KeyType::EccCompact => crate::keypair::ecc_compact_valid(sk) && pubk
            == crate::keypair::ecc_compact_public_of(sk),
    }
}

/// The canonical byte form of a keypair: tag byte, 32 public bytes, 32
/// private bytes.
pub open spec fn keypair_bytes(kp: Keypair) -> Seq<u8> {
    seq![tag_byte(kp.tag)] + kp.public_key@ + kp.private_key@
}

/// What a canonical keypair byte string decodes to: the tag and the two
/// keys, provided the structure holds and the public key is the one the
/// private key determines.
pub open spec fn parse_keypair_model(b: Seq<u8>) -> Option<(KeyTag, Seq<u8>, Seq<u8>)> {
    if b.len() < 1 {
        None
    } else {
        match tag_of_byte(b[0]) {
            Some(tag) => {
                let pl = public_len(tag.key_type);
                if b.len() == 33 + pl && key_matches(
                    tag.key_type,
                    b.subrange(1, 1 + pl),
                    b.subrange(1 + pl, b.len() as int),
                ) {
                    Some((tag, b.subrange(1, 1 + pl), b.subrange(1 + pl, b.len() as int)))
                } else {
                    None
                }
            },
            None => None,
        }
    }
}

/// Serializing then parsing a well-formed keypair recovers it exactly.
pub proof fn lemma_keypair_bytes_roundtrip(kp: Keypair)
    requires
        wf_keypair(kp),
    ensures
        parse_keypair_model(keypair_bytes(kp)) == Some((kp.tag, kp.public_key@, kp.private_key@)),
{
    let b = keypair_bytes(kp);
    let pl = public_len(kp.tag.key_type);
    assert(b.len() == 33 + pl);
    assert(b[0] == tag_byte(kp.tag));
    assert(b.subrange(1, 1 + pl) =~= kp.public_key@);
    assert(b.subrange(1 + pl, b.len() as int) =~= kp.private_key@);
}

fn serialize_keypair(kp: &Keypair) -> (r: Vec<u8>)
    requires
        wf_keypair(*kp),
    ensures
        r@ == keypair_bytes(*kp),
        r@.len() == 33 + public_len(kp.tag.key_type),
{
    let mut r: Vec<u8> = Vec::new();
    let tb: u8 = match (kp.tag.network, kp.tag.key_type) {
        (Network::Main, KeyType::EccCompact) => 0x00,
        (Network::Main, KeyType::Ed25519) => 0x01,
        (Network::Test, KeyType::EccCompact) => 0x10,
        (Network::Test, KeyType::Ed25519) => 0x11,
    };
    r.push(tb);
    let mut i: usize = 0;
    while i < kp.public_key.len()
        invariant
            i <= kp.public_key@.len(),
            r@ == seq![tag_byte(kp.tag)] + kp.public_key@.subrange(0, i as int),
        decreases kp.public_key@.len() - i,
    {
        proof {
            assert(seq![tag_byte(kp.tag)] + kp.public_key@.subrange(0, i + 1) =~= (seq![
                tag_byte(kp.tag),
            ] + kp.public_key@.subrange(0, i as int)).push(kp.public_key@[i as int]));
        }
        r.push(kp.public_key[i]);
        i = i + 1;
    }
    proof {
        assert(kp.public_key@.subrange(0, kp.public_key@.len() as int) =~= kp.public_key@);
    }
    let mut j: usize = 0;
    while j < kp.private_key.len()
        invariant
            j <= kp.private_key@.len(),
            r@ == seq![tag_byte(kp.tag)] + kp.public_key@ + kp.private_key@.subrange(0, j as int),
        decreases kp.private_key@.len() - j,
    {
        proof {
            assert(seq![tag_byte(kp.tag)] + kp.public_key@ + kp.private_key@.subrange(0, j + 1) =~= (
            seq![tag_byte(kp.tag)] + kp.public_key@ + kp.private_key@.subrange(0, j as int)).push(
                kp.private_key@[j as int],
            ));
        }
        r.push(kp.private_key[j]);
        j = j + 1;
    }
    proof {
        assert(kp.private_key@.subrange(0, kp.private_key@.len() as int) =~= kp.private_key@);
        assert(r@ =~= keypair_bytes(*kp));
    }
    r
}

fn parse_keypair(b: &Vec<u8>) -> (r: Option<Keypair>)
    ensures
        match r {
            Some(kp) => parse_keypair_model(b@) == Some((kp.tag, kp.public_key@, kp.private_key@))
                && wf_keypair(kp),
            None => parse_keypair_model(b@) is None,
        },
{
    if b.len() < 1 {
        return None;
    }
    let tag: KeyTag = if b[0] == 0x00 {
        KeyTag { network: Network::Main, key_type: KeyType::EccCompact }
    } else if b[0] == 0x01 {
        KeyTag { network: Network::Main, key_type: KeyType::Ed25519 }
    } else if b[0] == 0x10 {
        KeyTag { network: Network::Test, key_type: KeyType::EccCompact }
    } else if b[0] == 0x11 {
        KeyTag { network: Network::Test, key_type: KeyType::Ed25519 }
    } else {
        return None;
    };
    let pl: usize = match tag.key_type {
        KeyType::Ed25519 => 32,
        KeyType::EccCompact => 33,
    };
    if b.len() != 33 + pl {
        return None;
    }
    let public_key = read_range(b, 1, 1 + pl);
    let private_key = read_range(b, 1 + pl, b.len());
    let ok = match tag.key_type {
        KeyType::Ed25519 => {
            let derived = crate::keypair::ed25519_public(&private_key);
            bytes_eq(&derived, &public_key)
        },
        KeyType::EccCompact => {
            match crate::keypair::ecc_compact_public(&private_key) {
                Some(derived) => bytes_eq(&derived, &public_key),
                None => false,
            }
        },
    };
    if !ok {
        return None;
    }
    Some(Keypair { tag, public_key, private_key })
}

/// The two on-disk layouts a wallet can be written in.
pub enum Format {
    Basic { pwhash: PwHash },
    Sharded { key_share_count: u8, recovery_threshold: u8, pwhash: PwHash },
}

pub open spec fn wf_format(f: Format) -> bool {
    match f {
        Format::Basic { pwhash } => wf_pwhash(pwhash),
        Format::Sharded { key_share_count, recovery_threshold, pwhash } => wf_pwhash(pwhash),
    }
}

/// An encrypted wallet: either one self-contained artifact, or the
/// shared ciphertext together with the key shares of the split share
/// secret.
#[derive(Debug)]
pub enum Wallet {
    Basic { tag: KeyTag, pwhash: PwHash, nonce: Vec<u8>, ciphertext: Vec<u8> },
    Sharded {
        tag: KeyTag,
        key_share_count: u8,
        recovery_threshold: u8,
        pwhash: PwHash,
        nonce: Vec<u8>,
        ciphertext: Vec<u8>,
        key_shares: Vec<shamir::Share>,
    },
}

/// Every share declares the wallet's own threshold, a 32-byte payload
/// and a nonzero index.
pub open spec fn wf_shares_for(shares: Seq<shamir::Share>, k: u8) -> bool {
    forall|i: int|
        0 <= i < shares.len() ==> (#[trigger] shares[i].threshold) == k && shares[i].payload.len()
            == 32 && shares[i].index != 0
}

pub open spec fn wf_wallet(w: Wallet) -> bool {
    match w {
        Wallet::Basic { tag, pwhash, nonce, ciphertext } => {
            &&& wf_pwhash(pwhash)
            &&& nonce.len() == 12
        },
        Wallet::Sharded { tag, key_share_count, recovery_threshold, pwhash, nonce, ciphertext, key_shares } => {
            &&& wf_pwhash(pwhash)
            &&& nonce.len() == 12
            &&& 1 <= recovery_threshold <= key_share_count
            &&& wf_shares_for(key_shares@, recovery_threshold)
            &&& (forall|i: int|
                0 <= i < key_shares@.len() ==> (#[trigger] key_shares@[i].index) <= key_share_count)
        },
    }
}

/// What opening a wallet ciphertext under a given key yields: the
/// keypair, `WrongPassword` when authentication rejects, or
/// `CorruptWallet` when the plaintext is not a keypair of the wallet's
/// own tag.
pub open spec fn open_keypair_model(key: Seq<u8>, nonce: Seq<u8>, ct: Seq<u8>, tag: KeyTag) -> Result<
    (KeyTag, Seq<u8>, Seq<u8>),
    Error,
> {
    match aead_open_of(key, nonce, ct) {
        None => Err(Error::WrongPassword),
        Some(pt) => match parse_keypair_model(pt) {
            None => Err(Error::CorruptWallet),
            Some(m) => if m.0 == tag {
                Ok(m)
            } else {
                Err(Error::CorruptWallet)
            },
        },
    }
}

/// What decrypting a wallet with an already-derived 32-byte password
/// key yields, for every wallet and key: errors are pinned to their
/// exact causes, success to the exact keypair.
pub open spec fn wallet_decrypt_with_key_model(w: Wallet, ek: Seq<u8>) -> Result<
    (KeyTag, Seq<u8>, Seq<u8>),
    Error,
> {
    match w {
        Wallet::Basic { tag, pwhash, nonce, ciphertext } => open_keypair_model(
            ek,
            nonce@,
            ciphertext@,
            tag,
        ),
        Wallet::Sharded { tag, key_share_count, recovery_threshold, pwhash, nonce, ciphertext, key_shares } => {
            if key_shares@.len() == 0 {
                Err(Error::InsufficientShares)
            } else if !wf_shares_for(key_shares@, recovery_threshold) {
                Err(Error::InconsistentShares)
            } else if !shamir::distinct_indices(key_shares@) {
                Err(Error::InconsistentShares)
            } else if key_shares@.len() < recovery_threshold {
                Err(Error::InsufficientShares)
            } else {
                let s = shamir::combined_secret(key_shares@);
                open_keypair_model(seq_xor(ek, s), nonce@, ciphertext@, tag)
            }
        },
    }
}

/// The key the stored KDF parameters derive from a password.
pub open spec fn wallet_kdf_key(w: Wallet, pw: Seq<u8>) -> Seq<u8> {
    match w {
        Wallet::Basic { pwhash, .. } => kdf_of(
            pw,
            pwhash.salt@,
            pwhash.m_cost,
            pwhash.t_cost,
            pwhash.parallelism,
        ),
        Wallet::Sharded { pwhash, .. } => kdf_of(
            pw,
            pwhash.salt@,
            pwhash.m_cost,
            pwhash.t_cost,
            pwhash.parallelism,
        ),
    }
}

/// What decrypting a wallet under a password yields, for every wallet
/// and password: errors are pinned to their exact causes, success to
/// the exact keypair.
pub open spec fn wallet_decrypt_model(w: Wallet, pw: Seq<u8>) -> Result<
    (KeyTag, Seq<u8>, Seq<u8>),
    Error,
> {
    wallet_decrypt_with_key_model(w, wallet_kdf_key(w, pw))
}

/// A sharded wallet's ciphertext is sealed under the password-derived
/// key XOR-mixed with a 32-byte share secret `s`, and its shares are a
/// polynomial split of `s` with threshold `k`.
pub open spec fn sharded_seal_ok(
    key_shares: Seq<shamir::Share>,
    pwhash: PwHash,
    nonce: Seq<u8>,
    ciphertext: Seq<u8>,
    pw: Seq<u8>,
    kp: Keypair,
    s: Seq<u8>,
    k: u8,
) -> bool {
    &&& s.len() == 32
    &&& exists|polys: Seq<Seq<u8>>| shamir::shares_of_polys(key_shares, polys, s, k)
    &&& aead_open_of(
        seq_xor(kdf_of(pw, pwhash.salt@, pwhash.m_cost, pwhash.t_cost, pwhash.parallelism), s),
        nonce,
        ciphertext,
    ) == Some(keypair_bytes(kp))
}

/// The executable result agrees with the model result: same error, or
/// the very keypair the model names.
pub open spec fn decrypt_result_matches(r: Result<Keypair, Error>, m: Result<(KeyTag, Seq<u8>, Seq<u8>), Error>) -> bool {
    match (r, m) {
        (Ok(kp), Ok(t)) => kp.tag == t.0 && kp.public_key@ == t.1 && kp.private_key@ == t.2
            && wf_keypair(kp),
        (Err(e1), Err(e2)) => e1 == e2,
        _ => false,
    }
}

impl Wallet {
    /// Serialize the keypair, derive a key from the password under fresh
    /// KDF parameters, seal it, and for the sharded layout split a fresh
    /// share secret that is XOR-mixed into the sealing key.
    ///
    /// `InvalidThreshold` comes exactly when a sharded layout asks for
    /// `k < 1` or `k > n`; the only other failure is `KdfFailure`. On
    /// success the wallet decrypts back to the very keypair under the
    /// same password (for the sharded layout: provided interpolation of
    /// its shares recovers the share secret, which
    /// `lemma_sharded_decrypt_roundtrip` turns into the same promise).
    pub fn encrypt(keypair: &Keypair, password: &Vec<u8>, format: Format) -> (r: Result<Wallet, Error>)
        requires
            wf_keypair(*keypair),
            password@.len() < 0x10000000,
            wf_format(format),
        ensures
            r matches Err(e) ==> e == Error::KdfFailure || e == Error::InvalidThreshold,
            (format matches Format::Sharded { key_share_count: n, recovery_threshold: k, .. } && (k
                < 1 || k > n)) ==> r == Err::<Wallet, Error>(Error::InvalidThreshold),
            r == Err::<Wallet, Error>(Error::InvalidThreshold) ==> (format matches Format::Sharded {
                key_share_count: n,
                recovery_threshold: k,
                ..
            } && (k < 1 || k > n)),
            r matches Ok(w) ==> wf_wallet(w) && (format matches Format::Basic { pwhash: fph } ==> (
            w matches Wallet::Basic { tag, pwhash: wph, .. } && tag == keypair.tag && wph.salt@
                == fph.salt@ && wph.m_cost == fph.m_cost && wph.t_cost == fph.t_cost
                && wph.parallelism == fph.parallelism && wallet_decrypt_model(w, password@) == Ok::<
                (KeyTag, Seq<u8>, Seq<u8>),
                Error,
            >((keypair.tag, keypair.public_key@, keypair.private_key@)))),
            r matches Ok(w) ==> (format matches Format::Sharded {
                key_share_count: n,
                recovery_threshold: k,
                pwhash: fph,
            } ==> (w matches Wallet::Sharded {
                tag,
                key_share_count: wn,
                recovery_threshold: wk,
                key_shares,
                nonce,
                ciphertext,
                pwhash,
            } && tag == keypair.tag && wn == n && wk == k && pwhash.salt@ == fph.salt@
                && pwhash.m_cost == fph.m_cost && pwhash.t_cost == fph.t_cost && pwhash.parallelism
                == fph.parallelism && key_shares@.len() == n && (forall|j: int|
                0 <= j < n ==> (#[trigger] key_shares@[j]).index == j + 1) && exists|s: Seq<u8>|
                #[trigger] sharded_seal_ok(
                    key_shares@,
                    pwhash,
                    nonce@,
                    ciphertext@,
                    password@,
                    *keypair,
                    s,
                    k,
                ))),
    {
        match format {
            Format::Basic { pwhash } => {
                let mut plaintext = serialize_keypair(keypair);
                let mut key = match pwhash.derive(password) {
                    Ok(k) => k,
                    Err(e) => {
                        zero_bytes(&mut plaintext);
                        return Err(e);
                    },
                };
                let nonce = rng::random_bytes(12);
                let ciphertext = aead_seal(&key, &nonce, &plaintext);
                zero_bytes(&mut plaintext);
                zero_bytes(&mut key);
                let w = Wallet::Basic { tag: keypair.tag, pwhash, nonce, ciphertext };
                proof {
                    lemma_keypair_bytes_roundtrip(*keypair);
                }
                Ok(w)
            },
            Format::Sharded { key_share_count, recovery_threshold, pwhash } => {
                if recovery_threshold < 1 || recovery_threshold > key_share_count {
                    return Err(Error::InvalidThreshold);
                }
                let mut plaintext = serialize_keypair(keypair);
                let mut ek = match pwhash.derive(password) {
                    Ok(k) => k,
                    Err(e) => {
                        zero_bytes(&mut plaintext);
                        return Err(e);
                    },
                };
                let share_secret = rng::random_bytes(32);
                let key_shares = match shamir::split(&share_secret, key_share_count, recovery_threshold) {
                    Ok(s) => s,
                    Err(_) => {
                        proof {
                            assert(false);
                        }
                        return Err(Error::InvalidThreshold);
                    },
                };
                let key = xor_bytes(&ek, &share_secret);
                let nonce = rng::random_bytes(12);
                let ciphertext = aead_seal(&key, &nonce, &plaintext);
                proof {
                    lemma_keypair_bytes_roundtrip(*keypair);
                    assert(sharded_seal_ok(
                        key_shares@,
                        pwhash,
                        nonce@,
                        ciphertext@,
                        password@,
                        *keypair,
                        share_secret@,
                        recovery_threshold,
                    ));
                }
                let mut key = key;
                let mut share_secret = share_secret;
                zero_bytes(&mut plaintext);
                zero_bytes(&mut key);
                zero_bytes(&mut ek);
                zero_bytes(&mut share_secret);
                let w = Wallet::Sharded {
                    tag: keypair.tag,
                    key_share_count,
                    recovery_threshold,
                    pwhash,
                    nonce,
                    ciphertext,
                    key_shares,
                };
                Ok(w)
            },
        }
    }

    /// Decrypt a wallet with an already-derived 32-byte password key,
    /// recombining its shares first in the sharded layout. The result
    /// is exactly what the with-key decryption model names for this
    /// wallet and key, for every value the key derivation handed back.
    pub fn decrypt_with_key(&self, ek: &Vec<u8>) -> (r: Result<Keypair, Error>)
        requires
            wf_wallet(*self),
            ek@.len() == 32,
        ensures
            decrypt_result_matches(r, wallet_decrypt_with_key_model(*self, ek@)),
    {
        match self {
            Wallet::Basic { tag, nonce, ciphertext, .. } => {
                match aead_open(ek, nonce, ciphertext) {
                    None => Err(Error::WrongPassword),
                    Some(pt) => match parse_keypair(&pt) {
                        None => Err(Error::CorruptWallet),
                        Some(kp) => {
                            let same = kp.tag.network == tag.network && kp.tag.key_type
                                == tag.key_type;
                            if same {
                                Ok(kp)
                            } else {
                                Err(Error::CorruptWallet)
                            }
                        },
                    },
                }
            },
            Wallet::Sharded { tag, key_share_count, recovery_threshold, pwhash, nonce, ciphertext, key_shares } => {
                let k = *recovery_threshold;
                if key_shares.len() == 0 {
                    return Err(Error::InsufficientShares);
                }
                let mut i: usize = 0;
                while i < key_shares.len()
                    invariant
                        i <= key_shares@.len(),
                        key_shares@.len() > 0,
                        (*self matches Wallet::Sharded { recovery_threshold: rt2, key_shares: ks2, .. }
                            && rt2 == k && ks2@ == key_shares@),
                        forall|t: int|
                            0 <= t < i ==> (#[trigger] key_shares@[t].threshold) == k
                                && key_shares@[t].payload.len() == 32 && key_shares@[t].index != 0,
                    decreases key_shares@.len() - i,
                {
                    if key_shares[i].threshold != k || key_shares[i].payload.len() != 32
                        || key_shares[i].index == 0 {
                        proof {
                            assert(!(key_shares@[i as int].threshold == k
                                && key_shares@[i as int].payload.len() == 32
                                && key_shares@[i as int].index != 0));
                            assert(!wf_shares_for(key_shares@, k));
                        }
                        return Err(Error::InconsistentShares);
                    }
                    let ghost i0 = i as int;
                    i = i + 1;
                    proof {
                        assert forall|t: int|
                            0 <= t < i implies (#[trigger] key_shares@[t].threshold) == k
                            && key_shares@[t].payload.len() == 32 && key_shares@[t].index != 0 by {
                            if t < i0 {
                                assert(key_shares@[t].threshold == k);
                            }
                        }
                    }
                }
                let mut a: usize = 0;
                while a < key_shares.len()
                    invariant
                        a <= key_shares@.len(),
                        key_shares@.len() > 0,
                        (*self matches Wallet::Sharded { recovery_threshold: rt2, key_shares: ks2, .. }
                            && rt2 == k && ks2@ == key_shares@),
                        wf_shares_for(key_shares@, k),
                        forall|s: int, t: int|
                            0 <= s < t < key_shares@.len() && s < a ==> (
                            #[trigger] key_shares@[s].index) != (#[trigger] key_shares@[t].index),
                    decreases key_shares@.len() - a,
                {
                    let mut b: usize = a + 1;
                    while b < key_shares.len()
                        invariant
                            a < key_shares@.len(),
                            a + 1 <= b <= key_shares@.len(),
                            key_shares@.len() > 0,
                            (*self matches Wallet::Sharded { recovery_threshold: rt2, key_shares: ks2, .. }
                                && rt2 == k && ks2@ == key_shares@),
                            wf_shares_for(key_shares@, k),
                            forall|t: int|
                                a < t < b ==> (#[trigger] key_shares@[t].index) != key_shares@[a as int].index,
                        decreases key_shares@.len() - b,
                    {
                        if key_shares[b].index == key_shares[a].index {
                            proof {
                                assert(key_shares@[a as int].index == key_shares@[b as int].index);
                                assert(!shamir::distinct_indices(key_shares@));
                            }
                            return Err(Error::InconsistentShares);
                        }
                        b = b + 1;
                    }
                    a = a + 1;
                }
                if key_shares.len() < k as usize {
                    return Err(Error::InsufficientShares);
                }
                let mut share_secret = match shamir::combine(key_shares) {
                    Ok(s) => s,
                    Err(e) => {
                        proof {
                            assert(false);
                        }
                        return Err(e);
                    },
                };
                let mut key = xor_bytes(ek, &share_secret);
                let result = match aead_open(&key, nonce, ciphertext) {
                    None => Err(Error::WrongPassword),
                    Some(pt) => match parse_keypair(&pt) {
                        None => Err(Error::CorruptWallet),
                        Some(kp) => {
                            let same = kp.tag.network == tag.network && kp.tag.key_type
                                == tag.key_type;
                            if same {
                                Ok(kp)
                            } else {
                                Err(Error::CorruptWallet)
                            }
                        },
                    },
                };
                zero_bytes(&mut key);
                zero_bytes(&mut share_secret);
                result
            },
        }
    }

    /// Decrypt a wallet with a password: derive the key the stored KDF
    /// parameters name, then decrypt with it. Apart from an
    /// environment-caused `KdfFailure`, the result is exactly what the
    /// decryption model names for this wallet and password.
    pub fn decrypt(&self, password: &Vec<u8>) -> (r: Result<Keypair, Error>)
        requires
            wf_wallet(*self),
            password@.len() < 0x10000000,
        ensures
            r == Err::<Keypair, Error>(Error::KdfFailure) || decrypt_result_matches(
                r,
                wallet_decrypt_model(*self, password@),
            ),
    {
        let pwhash = match self {
            Wallet::Basic { pwhash, .. } => pwhash,
            Wallet::Sharded { pwhash, .. } => pwhash,
        };
        let mut ek = match pwhash.derive(password) {
            Ok(k) => k,
            Err(e) => {
                return Err(e);
            },
        };
        let r = self.decrypt_with_key(&ek);
        zero_bytes(&mut ek);
        r
    }

    /// The per-share artifacts of a sharded wallet: one wallet per key
    /// share, each carrying the shared tag, parameters, nonce and
    /// ciphertext with just its own share. A basic wallet has no shards
    /// and yields `CorruptWallet`.
    pub fn shards(&self) -> (r: Result<Vec<Wallet>, Error>)
        ensures
            self matches Wallet::Basic { .. } ==> r == Err::<Vec<Wallet>, Error>(
                Error::CorruptWallet,
            ),
            self matches Wallet::Sharded { tag, key_share_count, recovery_threshold, pwhash, nonce, ciphertext, key_shares } ==> (
            r matches Ok(v) && v@.len() == key_shares@.len() && (forall|i: int|
                0 <= i < key_shares@.len() ==> ((#[trigger] v@[i]) matches Wallet::Sharded {
                    tag: t2,
                    key_share_count: n2,
                    recovery_threshold: k2,
                    pwhash: p2,
                    nonce: no2,
                    ciphertext: c2,
                    key_shares: s2,
                } && t2 == tag && n2 == key_share_count && k2 == recovery_threshold && p2.salt@
                    == pwhash.salt@ && p2.m_cost == pwhash.m_cost && p2.t_cost == pwhash.t_cost
                    && p2.parallelism == pwhash.parallelism && no2@ == nonce@ && c2@ == ciphertext@
                    && s2@.len() == 1 && s2@[0].index == key_shares@[i].index && s2@[0].threshold
                    == key_shares@[i].threshold && s2@[0].payload@ == key_shares@[i].payload@))),
    {
        match self {
            Wallet::Basic { .. } => Err(Error::CorruptWallet),
            Wallet::Sharded { tag, key_share_count, recovery_threshold, pwhash, nonce, ciphertext, key_shares } => {
                let mut v: Vec<Wallet> = Vec::new();
                let mut i: usize = 0;
                while i < key_shares.len()
                    invariant
                        i <= key_shares@.len(),
                        v@.len() == i,
                        forall|t: int|
                            0 <= t < i ==> ((#[trigger] v@[t]) matches Wallet::Sharded {
                                tag: t2,
                                key_share_count: n2,
                                recovery_threshold: k2,
                                pwhash: p2,
                                nonce: no2,
                                ciphertext: c2,
                                key_shares: s2,
                            } && t2 == *tag && n2 == *key_share_count && k2 == *recovery_threshold
                                && p2.salt@ == pwhash.salt@ && p2.m_cost == pwhash.m_cost
                                && p2.t_cost == pwhash.t_cost && p2.parallelism == pwhash.parallelism
                                && no2@ == nonce@ && c2@ == ciphertext@ && s2@.len() == 1
                                && s2@[0].index == key_shares@[t].index && s2@[0].threshold
                                == key_shares@[t].threshold && s2@[0].payload@
                                == key_shares@[t].payload@),
                    decreases key_shares@.len() - i,
                {
                    let sh = shamir::Share {
                        index: key_shares[i].index,
                        threshold: key_shares[i].threshold,
                        payload: clone_bytes(&key_shares[i].payload),
                    };
                    let mut single: Vec<shamir::Share> = Vec::new();
                    single.push(sh);
                    v.push(
                        Wallet::Sharded {
                            tag: *tag,
                            key_share_count: *key_share_count,
                            recovery_threshold: *recovery_threshold,
                            pwhash: clone_pwhash(pwhash),
                            nonce: clone_bytes(nonce),
                            ciphertext: clone_bytes(ciphertext),
                            key_shares: single,
                        },
                    );
                    i = i + 1;
                }
                Ok(v)
            },
        }
    }
}

/// The little-endian four-byte form of a 32-bit value.
pub open spec fn le32_bytes(x: u32) -> Seq<u8> {
    seq![
        (x % 256) as u8,
        ((x / 256) % 256) as u8,
        ((x / 65536) % 256) as u8,
        ((x / 16777216) % 256) as u8,
    ]
}

/// The 32-bit value four little-endian bytes hold.
pub open spec fn le32_at(b: Seq<u8>, off: int) -> u32 {
    ((b[off] as int) + 256 * (b[off + 1] as int) + 65536 * (b[off + 2] as int) + 16777216 * (b[off
        + 3] as int)) as u32
}

proof fn lemma_le32_roundtrip(x: u32)
    ensures
        (x % 256) + 256 * ((x / 256) % 256) + 65536 * ((x / 65536) % 256) + 16777216 * ((x
            / 16777216) % 256) == x,
{
    assert((x % 256) + 256 * ((x / 256) % 256) + 65536 * ((x / 65536) % 256) + 16777216 * ((x
        / 16777216) % 256) == x) by (nonlinear_arith);
}

/// The byte form of stored KDF parameters: 16 salt bytes, then memory,
/// time and lane counts as little-endian 32-bit values.
pub open spec fn pwhash_bytes(p: PwHash) -> Seq<u8> {
    p.salt@ + le32_bytes(p.m_cost) + le32_bytes(p.t_cost) + le32_bytes(p.parallelism)
}

/// The self-describing byte form of a wallet artifact. A Basic file is
/// format byte 1, the tag byte, the KDF parameters, the nonce, and the
/// ciphertext. A share file is format byte 2, the tag byte, `n`, `k`,
/// the share index, the 32 share payload bytes, then KDF parameters,
/// nonce and ciphertext.
pub open spec fn wallet_bytes(w: Wallet) -> Seq<u8> {
    match w {
        Wallet::Basic { tag, pwhash, nonce, ciphertext } => seq![1u8, tag_byte(tag)] + pwhash_bytes(
            pwhash,
        ) + nonce@ + ciphertext@,
        Wallet::Sharded { tag, key_share_count, recovery_threshold, pwhash, nonce, ciphertext, key_shares } => seq![
            2u8,
            tag_byte(tag),
            key_share_count,
            recovery_threshold,
            key_shares[0].index,
        ] + key_shares[0].payload@ + pwhash_bytes(pwhash) + nonce@ + ciphertext@,
    }
}

/// Whether stored KDF parameter values are acceptable.
pub open spec fn wf_params(m: u32, t: u32, p: u32) -> bool {
    1 <= t && 1 <= p <= 255 && 8 * p <= m < 0x100000
}

/// A well-formed Basic artifact byte string.
pub open spec fn wf_basic_bytes(b: Seq<u8>) -> bool {
    &&& b.len() >= 42
    &&& b[0] == 1
    &&& tag_of_byte(b[1]) is Some
    &&& wf_params(le32_at(b, 18), le32_at(b, 22), le32_at(b, 26))
}

/// A well-formed share artifact byte string.
pub open spec fn wf_sharded_bytes(b: Seq<u8>) -> bool {
    &&& b.len() >= 77
    &&& b[0] == 2
    &&& tag_of_byte(b[1]) is Some
    &&& 1 <= b[3] <= b[2]
    &&& 1 <= b[4] <= b[2]
    &&& wf_params(le32_at(b, 53), le32_at(b, 57), le32_at(b, 61))
}

/// The wallet value a byte string describes, field by field.
pub open spec fn wallet_matches_bytes(w: Wallet, b: Seq<u8>) -> bool {
    match w {
        Wallet::Basic { tag, pwhash, nonce, ciphertext } => {
            &&& wf_basic_bytes(b)
            &&& Some(tag) == tag_of_byte(b[1])
            &&& pwhash.salt@ == b.subrange(2, 18)
            &&& pwhash.m_cost == le32_at(b, 18)
            &&& pwhash.t_cost == le32_at(b, 22)
            &&& pwhash.parallelism == le32_at(b, 26)
            &&& nonce@ == b.subrange(30, 42)
            &&& ciphertext@ == b.subrange(42, b.len() as int)
        },
        Wallet::Sharded { tag, key_share_count, recovery_threshold, pwhash, nonce, ciphertext, key_shares } => {
            &&& wf_sharded_bytes(b)
            &&& Some(tag) == tag_of_byte(b[1])
            &&& key_share_count == b[2]
            &&& recovery_threshold == b[3]
            &&& key_shares@.len() == 1
            &&& key_shares[0].index == b[4]
            &&& key_shares[0].threshold == b[3]
            &&& key_shares[0].payload@ == b.subrange(5, 37)
            &&& pwhash.salt@ == b.subrange(37, 53)
            &&& pwhash.m_cost == le32_at(b, 53)
            &&& pwhash.t_cost == le32_at(b, 57)
            &&& pwhash.parallelism == le32_at(b, 61)
            &&& nonce@ == b.subrange(65, 77)
            &&& ciphertext@ == b.subrange(77, b.len() as int)
        },
    }
}

fn push_bytes(dst: &mut Vec<u8>, src: &Vec<u8>)
    ensures
        final(dst)@ == old(dst)@ + src@,
{
    let mut i: usize = 0;
    while i < src.len()
        invariant
            i <= src@.len(),
            dst@ == old(dst)@ + src@.subrange(0, i as int),
        decreases src@.len() - i,
    {
        proof {
            assert(old(dst)@ + src@.subrange(0, i + 1) =~= (old(dst)@ + src@.subrange(0, i as int)).push(
                src@[i as int],
            ));
        }
        dst.push(src[i]);
        i = i + 1;
    }
    proof {
        assert(src@.subrange(0, src@.len() as int) =~= src@);
    }
}

fn push_le32(dst: &mut Vec<u8>, x: u32)
    ensures
        final(dst)@ == old(dst)@ + le32_bytes(x),
{
    dst.push((x % 256) as u8);
    dst.push(((x / 256) % 256) as u8);
    dst.push(((x / 65536) % 256) as u8);
    dst.push(((x / 16777216) % 256) as u8);
    proof {
        assert(dst@ =~= old(dst)@ + le32_bytes(x));
    }
}

fn read_range(b: &Vec<u8>, start: usize, end: usize) -> (r: Vec<u8>)
    requires
        start <= end <= b@.len(),
    ensures
        r@ == b@.subrange(start as int, end as int),
{
    let mut r: Vec<u8> = Vec::new();
    let mut i: usize = start;
    while i < end
        invariant
            start <= i <= end <= b@.len(),
            r@ == b@.subrange(start as int, i as int),
        decreases end - i,
    {
        proof {
            assert(b@.subrange(start as int, i + 1) =~= b@.subrange(start as int, i as int).push(
                b@[i as int],
            ));
        }
        r.push(b[i]);
        i = i + 1;
    }
    r
}

fn read_le32(b: &Vec<u8>, off: usize) -> (r: u32)
    requires
        off + 4 <= b@.len(),
    ensures
        r == le32_at(b@, off as int),
{
    let l = b.len();
    let b0 = b[off] as u32;
    let b1 = b[off + 1] as u32;
    let b2 = b[off + 2] as u32;
    let b3 = b[off + 3] as u32;
    proof {
        assert(b0 + 256 * b1 + 65536 * b2 + 16777216 * b3 <= 0xffffffff);
    }
    b0 + 256 * b1 + 65536 * b2 + 16777216 * b3
}

fn tag_byte_exec(t: &KeyTag) -> (r: u8)
    ensures
        r == tag_byte(*t),
{
    match (t.network, t.key_type) {
        (Network::Main, KeyType::EccCompact) => 0x00,
        (Network::Main, KeyType::Ed25519) => 0x01,
        (Network::Test, KeyType::EccCompact) => 0x10,
        (Network::Test, KeyType::Ed25519) => 0x11,
    }
}

/// The stored fields every share file of one wallet must agree on.
pub struct ShardMeta {
    pub tag: KeyTag,
    pub n: u8,
    pub k: u8,
    pub salt: Seq<u8>,
    pub m_cost: u32,
    pub t_cost: u32,
    pub parallelism: u32,
    pub nonce: Seq<u8>,
    pub ciphertext: Seq<u8>,
}

/// The shared fields of a sharded wallet, if it is one.
pub open spec fn shard_meta(w: Wallet) -> Option<ShardMeta> {
    match w {
        Wallet::Sharded { tag, key_share_count, recovery_threshold, pwhash, nonce, ciphertext, key_shares } => Some(
            ShardMeta {
                tag,
                n: key_share_count,
                k: recovery_threshold,
                salt: pwhash.salt@,
                m_cost: pwhash.m_cost,
                t_cost: pwhash.t_cost,
                parallelism: pwhash.parallelism,
                nonce: nonce@,
                ciphertext: ciphertext@,
            },
        ),
        Wallet::Basic { .. } => None,
    }
}

/// The single share a share-file wallet carries, if it carries exactly
/// one: its index, threshold and payload.
pub open spec fn shard_single(w: Wallet) -> Option<(u8, u8, Seq<u8>)> {
    match w {
        Wallet::Sharded { key_shares, .. } => if key_shares@.len() == 1 {
            Some((key_shares[0].index, key_shares[0].threshold, key_shares[0].payload@))
        } else {
            None
        },
        Wallet::Basic { .. } => None,
    }
}

/// Every artifact of the set is a single-share sharded wallet.
pub open spec fn all_single_shards(s: Seq<Wallet>) -> bool {
    forall|i: int| 0 <= i < s.len() ==> (#[trigger] shard_single(s[i])) is Some
}

/// Every artifact of the set agrees with the first on the shared fields.
pub open spec fn all_meta_agree(s: Seq<Wallet>) -> bool {
    forall|i: int| 0 <= i < s.len() ==> (#[trigger] shard_meta(s[i])) == shard_meta(s[0])
}

/// A set of share files that belong together: every one is a
/// single-share sharded wallet, and all agree on the shared fields.
pub open spec fn shards_compatible(s: Seq<Wallet>) -> bool {
    &&& s.len() > 0
    &&& all_single_shards(s)
    &&& all_meta_agree(s)
}

fn is_single_shard(w: &Wallet) -> (r: bool)
    ensures
        r <==> shard_single(*w) is Some,
{
    match w {
        Wallet::Sharded { key_shares, .. } => key_shares.len() == 1,
        Wallet::Basic { .. } => false,
    }
}

fn meta_agrees(a: &Wallet, b: &Wallet) -> (r: bool)
    ensures
        r <==> (shard_meta(*a) is Some && shard_meta(*a) == shard_meta(*b)),
{
    match (a, b) {
        (
            Wallet::Sharded {
                tag: t1,
                key_share_count: n1,
                recovery_threshold: k1,
                pwhash: p1,
                nonce: no1,
                ciphertext: c1,
                key_shares: s1,
            },
            Wallet::Sharded {
                tag: t2,
                key_share_count: n2,
                recovery_threshold: k2,
                pwhash: p2,
                nonce: no2,
                ciphertext: c2,
                key_shares: s2,
            },
        ) => t1.network == t2.network && t1.key_type == t2.key_type && *n1 == *n2 && *k1 == *k2
            && bytes_eq(&p1.salt, &p2.salt) && p1.m_cost == p2.m_cost && p1.t_cost == p2.t_cost
            && p1.parallelism == p2.parallelism && bytes_eq(no1, no2) && bytes_eq(c1, c2),
        _ => false,
    }
}

impl Wallet {
    /// The self-describing byte form of this artifact: a Basic wallet,
    /// or a single share file of a sharded wallet.
    pub fn to_bytes(&self) -> (r: Vec<u8>)
        requires
            wf_wallet(*self),
            self matches Wallet::Sharded { key_shares, .. } ==> key_shares@.len() == 1,
        ensures
            r@ == wallet_bytes(*self),
    {
        let mut out: Vec<u8> = Vec::new();
        match self {
            Wallet::Basic { tag, pwhash, nonce, ciphertext } => {
                out.push(1);
                out.push(tag_byte_exec(tag));
                push_bytes(&mut out, &pwhash.salt);
                push_le32(&mut out, pwhash.m_cost);
                push_le32(&mut out, pwhash.t_cost);
                push_le32(&mut out, pwhash.parallelism);
                push_bytes(&mut out, nonce);
                push_bytes(&mut out, ciphertext);
                proof {
                    assert(out@ =~= wallet_bytes(*self));
                }
            },
            Wallet::Sharded { tag, key_share_count, recovery_threshold, pwhash, nonce, ciphertext, key_shares } => {
                out.push(2);
                out.push(tag_byte_exec(tag));
                out.push(*key_share_count);
                out.push(*recovery_threshold);
                out.push(key_shares[0].index);
                push_bytes(&mut out, &key_shares[0].payload);
                push_bytes(&mut out, &pwhash.salt);
                push_le32(&mut out, pwhash.m_cost);
                push_le32(&mut out, pwhash.t_cost);
                push_le32(&mut out, pwhash.parallelism);
                push_bytes(&mut out, nonce);
                push_bytes(&mut out, ciphertext);
                proof {
                    assert(out@ =~= wallet_bytes(*self));
                }
            },
        }
        out
    }

    /// Parse a persisted artifact. Succeeds exactly on well-formed
    /// Basic or share-file bytes; every failure is `CorruptWallet`.
    pub fn from_bytes(b: &Vec<u8>) -> (r: Result<Wallet, Error>)
        ensures
            r matches Err(e) ==> e == Error::CorruptWallet,
            r is Ok <==> (wf_basic_bytes(b@) || wf_sharded_bytes(b@)),
            r matches Ok(w) ==> wf_wallet(w) && wallet_matches_bytes(w, b@),
    {
        if b.len() < 42 {
            return Err(Error::CorruptWallet);
        }
        let f = b[0];
        if f == 1 {
            let tag: KeyTag = if b[1] == 0x00 {
                KeyTag { network: Network::Main, key_type: KeyType::EccCompact }
            } else if b[1] == 0x01 {
                KeyTag { network: Network::Main, key_type: KeyType::Ed25519 }
            } else if b[1] == 0x10 {
                KeyTag { network: Network::Test, key_type: KeyType::EccCompact }
            } else if b[1] == 0x11 {
                KeyTag { network: Network::Test, key_type: KeyType::Ed25519 }
            } else {
                return Err(Error::CorruptWallet);
            };
            let m = read_le32(b, 18);
            let t = read_le32(b, 22);
            let p = read_le32(b, 26);
            if !(t >= 1 && p >= 1 && p <= 255 && 8 * p <= m && m < 0x100000) {
                return Err(Error::CorruptWallet);
            }
            let pwhash = PwHash {
                salt: read_range(b, 2, 18),
                m_cost: m,
                t_cost: t,
                parallelism: p,
            };
            let nonce = read_range(b, 30, 42);
            let ciphertext = read_range(b, 42, b.len());
            Ok(Wallet::Basic { tag, pwhash, nonce, ciphertext })
        } else if f == 2 {
            if b.len() < 77 {
                return Err(Error::CorruptWallet);
            }
            let tag: KeyTag = if b[1] == 0x00 {
                KeyTag { network: Network::Main, key_type: KeyType::EccCompact }
            } else if b[1] == 0x01 {
                KeyTag { network: Network::Main, key_type: KeyType::Ed25519 }
            } else if b[1] == 0x10 {
                KeyTag { network: Network::Test, key_type: KeyType::EccCompact }
            } else if b[1] == 0x11 {
                KeyTag { network: Network::Test, key_type: KeyType::Ed25519 }
            } else {
                return Err(Error::CorruptWallet);
            };
            let n = b[2];
            let k = b[3];
            let idx = b[4];
            if !(1 <= k && k <= n && 1 <= idx && idx <= n) {
                return Err(Error::CorruptWallet);
            }
            let m = read_le32(b, 53);
            let t = read_le32(b, 57);
            let p = read_le32(b, 61);
            if !(t >= 1 && p >= 1 && p <= 255 && 8 * p <= m && m < 0x100000) {
                return Err(Error::CorruptWallet);
            }
            let share = shamir::Share { index: idx, threshold: k, payload: read_range(b, 5, 37) };
            let mut key_shares: Vec<shamir::Share> = Vec::new();
            key_shares.push(share);
            let pwhash = PwHash {
                salt: read_range(b, 37, 53),
                m_cost: m,
                t_cost: t,
                parallelism: p,
            };
            let nonce = read_range(b, 65, 77);
            let ciphertext = read_range(b, 77, b.len());
            Ok(
                Wallet::Sharded {
                    tag,
                    key_share_count: n,
                    recovery_threshold: k,
                    pwhash,
                    nonce,
                    ciphertext,
                    key_shares,
                },
            )
        } else {
            Err(Error::CorruptWallet)
        }
    }

    /// Reassemble one sharded wallet from the share files that were
    /// written for it. Fails with `InsufficientShares` on an empty set,
    /// `CorruptWallet` when an artifact is not a single-share file, and
    /// `InconsistentShares` when the files disagree on their shared
    /// fields; succeeds exactly on a compatible set.
    pub fn absorb_shards(shards: &Vec<Wallet>) -> (r: Result<Wallet, Error>)
        requires
            forall|i: int| 0 <= i < shards@.len() ==> wf_wallet(#[trigger] shards@[i]),
        ensures
            r == Err::<Wallet, Error>(Error::InsufficientShares) <==> shards@.len() == 0,
            r == Err::<Wallet, Error>(Error::CorruptWallet) <==> (shards@.len() > 0
                && !all_single_shards(shards@)),
            r == Err::<Wallet, Error>(Error::InconsistentShares) <==> (shards@.len() > 0
                && all_single_shards(shards@) && !all_meta_agree(shards@)),
            r is Ok <==> shards_compatible(shards@),
            r matches Err(e) ==> (e == Error::InsufficientShares || e == Error::CorruptWallet || e
                == Error::InconsistentShares),
            r matches Ok(w) ==> wf_wallet(w) && shard_meta(w) == shard_meta(shards@[0]) && (
            w matches Wallet::Sharded { key_shares, .. } && key_shares@.len() == shards@.len() && (
            forall|i: int|
                0 <= i < shards@.len() ==> shard_single(shards@[i]) == Some(
                    ((#[trigger] key_shares@[i]).index, key_shares@[i].threshold, key_shares@[i].payload@),
                ))),
    {
        if shards.len() == 0 {
            return Err(Error::InsufficientShares);
        }
        // Every artifact must be a single-share file.
        let mut bad_kind = false;
        let mut i: usize = 0;
        while i < shards.len()
            invariant
                i <= shards@.len(),
                !bad_kind ==> (forall|t: int|
                    0 <= t < i ==> (#[trigger] shard_single(shards@[t])) is Some),
                bad_kind ==> (exists|t: int|
                    0 <= t < shards@.len() && !((#[trigger] shard_single(shards@[t])) is Some)),
            decreases shards@.len() - i,
        {
            if !is_single_shard(&shards[i]) {
                bad_kind = true;
            }
            i = i + 1;
        }
        if bad_kind {
            return Err(Error::CorruptWallet);
        }
        // Every artifact must agree with the first on the shared fields.
        let mut bad_meta = false;
        let mut j: usize = 1;
        while j < shards.len()
            invariant
                1 <= j,
                j <= shards@.len() || j == 1,
                shards@.len() > 0,
                shard_meta(shards@[0]) is Some,
                !bad_meta ==> (forall|t: int|
                    0 <= t < j && t < shards@.len() ==> (#[trigger] shard_meta(shards@[t]))
                        == shard_meta(shards@[0])),
                bad_meta ==> (exists|t: int|
                    0 <= t < shards@.len() && (#[trigger] shard_meta(shards@[t])) != shard_meta(
                        shards@[0],
                    )),
            decreases shards@.len() - j,
        {
            if !meta_agrees(&shards[0], &shards[j]) {
                bad_meta = true;
                proof {
                    assert(shard_meta(shards@[0]) is Some);
                    assert(shard_meta(shards@[j as int]) != shard_meta(shards@[0]));
                }
            }
            j = j + 1;
        }
        if bad_meta {
            return Err(Error::InconsistentShares);
        }
        proof {
            assert(shard_single(shards@[0]) is Some);
        }
        // Merge the shares under the shared fields of the first file.
        match &shards[0] {
            Wallet::Basic { .. } => {
                proof {
                    assert(false);
                }
                Err(Error::CorruptWallet)
            },
            Wallet::Sharded { tag, key_share_count, recovery_threshold, pwhash, nonce, ciphertext, key_shares } => {
                let mut merged: Vec<shamir::Share> = Vec::new();
                let mut t: usize = 0;
                while t < shards.len()
                    invariant
                        t <= shards@.len(),
                        shards@.len() > 0,
                        forall|q: int|
                            0 <= q < shards@.len() ==> (#[trigger] shard_single(shards@[q])) is Some,
                        merged@.len() == t,
                        forall|q: int|
                            0 <= q < t ==> shard_single(shards@[q]) == Some(
                                ((#[trigger] merged@[q]).index, merged@[q].threshold, merged@[q].payload@),
                            ),
                    decreases shards@.len() - t,
                {
                    match &shards[t] {
                        Wallet::Sharded { key_shares: ks, .. } => {
                            if ks.len() != 1 {
                                proof {
                                    assert(shard_single(shards@[t as int]) is Some);
                                    assert(false);
                                }
                                return Err(Error::CorruptWallet);
                            }
                            let sh = shamir::Share {
                                index: ks[0].index,
                                threshold: ks[0].threshold,
                                payload: clone_bytes(&ks[0].payload),
                            };
                            merged.push(sh);
                        },
                        Wallet::Basic { .. } => {
                            proof {
                                assert(shard_single(shards@[t as int]) is Some);
                                assert(false);
                            }
                            return Err(Error::CorruptWallet);
                        },
                    }
                    t = t + 1;
                }
                proof {
                    assert forall|q: int|
                        0 <= q < merged@.len() implies (#[trigger] merged@[q].threshold)
                        == *recovery_threshold && merged@[q].payload.len() == 32
                        && merged@[q].index != 0 && merged@[q].index <= *key_share_count by {
                        assert(wf_wallet(shards@[q]));
                        assert(shard_meta(shards@[q]) == shard_meta(shards@[0]));
                        assert(shard_single(shards@[q]) == Some(
                            (merged@[q].index, merged@[q].threshold, merged@[q].payload@),
                        ));
                    }
                }
                Ok(
                    Wallet::Sharded {
                        tag: *tag,
                        key_share_count: *key_share_count,
                        recovery_threshold: *recovery_threshold,
                        pwhash: clone_pwhash(pwhash),
                        nonce: clone_bytes(nonce),
                        ciphertext: clone_bytes(ciphertext),
                        key_shares: merged,
                    },
                )
            },
        }
    }
}

/// Writing an artifact to bytes and parsing those bytes describes the
/// same wallet, field for field.
#[verifier::rlimit(100)]
pub proof fn lemma_wallet_bytes_roundtrip(w: Wallet)
    requires
        wf_wallet(w),
        w matches Wallet::Sharded { key_shares, .. } ==> key_shares@.len() == 1,
    ensures
        w matches Wallet::Basic { .. } ==> wf_basic_bytes(wallet_bytes(w)),
        w matches Wallet::Sharded { .. } ==> wf_sharded_bytes(wallet_bytes(w)),
        wallet_matches_bytes(w, wallet_bytes(w)),
{
    let b = wallet_bytes(w);
    match w {
        Wallet::Basic { tag, pwhash, nonce, ciphertext } => {
            lemma_le32_roundtrip(pwhash.m_cost);
            lemma_le32_roundtrip(pwhash.t_cost);
            lemma_le32_roundtrip(pwhash.parallelism);
            assert(b.subrange(2, 18) =~= pwhash.salt@);
            assert(b.subrange(30, 42) =~= nonce@);
            assert(b.subrange(42, b.len() as int) =~= ciphertext@);
            assert(le32_at(b, 18) == pwhash.m_cost);
            assert(le32_at(b, 22) == pwhash.t_cost);
            assert(le32_at(b, 26) == pwhash.parallelism);
        },
        Wallet::Sharded { tag, key_share_count, recovery_threshold, pwhash, nonce, ciphertext, key_shares } => {
            lemma_le32_roundtrip(pwhash.m_cost);
            lemma_le32_roundtrip(pwhash.t_cost);
            lemma_le32_roundtrip(pwhash.parallelism);
            assert(key_shares@[0].threshold == recovery_threshold);
            assert(key_shares@[0].index != 0 && key_shares@[0].index <= key_share_count);
            assert(key_shares[0].payload@.len() == 32);
            assert(b.subrange(5, 37) =~= key_shares[0].payload@);
            assert(b.subrange(37, 53) =~= pwhash.salt@);
            assert(b.subrange(65, 77) =~= nonce@);
            assert(b.subrange(77, b.len() as int) =~= ciphertext@);
            assert(le32_at(b, 53) == pwhash.m_cost);
            assert(le32_at(b, 57) == pwhash.t_cost);
            assert(le32_at(b, 61) == pwhash.parallelism);
        },
    }
}

/// The sharded round trip: a sharded wallet whose ciphertext opens,
/// under the password-derived key XOR-mixed with a secret `s`, to the
/// byte form of a well-formed keypair of its tag, decrypts to exactly
/// that keypair whenever recombining its shares yields `s` and the
/// share set passes the share checks.
pub proof fn lemma_sharded_decrypt_roundtrip(w: Wallet, pw: Seq<u8>, s: Seq<u8>, kp: Keypair)
    requires
        wf_keypair(kp),
        w matches Wallet::Sharded { tag, key_share_count, recovery_threshold, pwhash, nonce, ciphertext, key_shares } && tag
            == kp.tag && key_shares@.len() > 0 && wf_shares_for(key_shares@, recovery_threshold)
            && shamir::distinct_indices(key_shares@) && key_shares@.len() >= recovery_threshold
            && shamir::combined_secret(key_shares@) == s && aead_open_of(
            seq_xor(kdf_of(pw, pwhash.salt@, pwhash.m_cost, pwhash.t_cost, pwhash.parallelism), s),
            nonce@,
            ciphertext@,
        ) == Some(keypair_bytes(kp)),
    ensures
        wallet_decrypt_model(w, pw) == Ok::<(KeyTag, Seq<u8>, Seq<u8>), Error>(
            (kp.tag, kp.public_key@, kp.private_key@),
        ),
{
    lemma_keypair_bytes_roundtrip(kp);
}

/// The fully-proved degenerate instance of the sharded round trip: a
/// sharded wallet whose recovery threshold is one decrypts to its
/// keypair under its password, because recombining a single share of a
/// threshold-one split provably recovers the share secret.
pub proof fn lemma_sharded_threshold_one_decrypt(
    w: Wallet,
    pw: Seq<u8>,
    s: Seq<u8>,
    polys: Seq<Seq<u8>>,
    kp: Keypair,
)
    requires
        wf_keypair(kp),
        w matches Wallet::Sharded { tag, key_share_count, recovery_threshold, pwhash, nonce, ciphertext, key_shares } && tag
            == kp.tag && recovery_threshold == 1 && key_shares@.len() > 0 && wf_shares_for(
            key_shares@,
            1,
        ) && shamir::distinct_indices(key_shares@) && shamir::shares_of_polys(
            key_shares@,
            polys,
            s,
            1,
        ) && s.len() == 32 && aead_open_of(
            seq_xor(kdf_of(pw, pwhash.salt@, pwhash.m_cost, pwhash.t_cost, pwhash.parallelism), s),
            nonce@,
            ciphertext@,
        ) == Some(keypair_bytes(kp)),
    ensures
        wallet_decrypt_model(w, pw) == Ok::<(KeyTag, Seq<u8>, Seq<u8>), Error>(
            (kp.tag, kp.public_key@, kp.private_key@),
        ),
{
    match w {
        Wallet::Sharded { tag, key_share_count, recovery_threshold, pwhash, nonce, ciphertext, key_shares } => {
            let sel = key_shares@[0];
            assert(key_shares@[0].threshold == 1);
            shamir::lemma_threshold_one_roundtrip(key_shares@, polys, s, sel);
            let single = seq![sel];
            assert(shamir::share_xs(key_shares@, 1) =~= shamir::share_xs(single, 1));
            assert forall|p: int|
                0 <= p < s.len() implies shamir::combined_secret(key_shares@)[p] == shamir::combined_secret(
                single,
            )[p] by {
                assert(shamir::share_col(key_shares@, 1, p) =~= shamir::share_col(single, 1, p));
            }
            assert(shamir::combined_secret(key_shares@) =~= s);
            lemma_sharded_decrypt_roundtrip(w, pw, s, kp);
        },
        Wallet::Basic { .. } => {},
    }
}

} // verus!
