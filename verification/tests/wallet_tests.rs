use wallet_core::keypair::{KeyTag, KeyType, Keypair, Network};
use wallet_core::pwhash::PwHash;
use wallet_core::wallet::{Format, Wallet};
use wallet_core::Error;

fn tag() -> KeyTag {
    KeyTag { network: Network::Main, key_type: KeyType::Ed25519 }
}

fn small_pwhash() -> PwHash {
    // The fixed default is used when writing real wallets; tests use
    // small costs so many derivations stay fast.
    let mut ph = PwHash::argon2id13_default();
    ph.m_cost = 8;
    ph.t_cost = 1;
    ph
}

fn keypair() -> Keypair {
    let entropy: Vec<u8> = (0u8..32).collect();
    Keypair::generate_from_entropy(tag(), &entropy).expect("derive")
}

#[test]
fn basic_roundtrip_recovers_the_keypair() {
    let kp = keypair();
    let pw = b"correct".to_vec();
    let w = Wallet::encrypt(&kp, &pw, Format::Basic { pwhash: small_pwhash() }).expect("encrypt");
    let got = w.decrypt(&pw).expect("decrypt");
    assert_eq!(got.tag, kp.tag);
    assert_eq!(got.public_key, kp.public_key);
    assert_eq!(got.private_key, kp.private_key);
}

#[test]
fn basic_roundtrip_testnet() {
    let entropy: Vec<u8> = (50u8..82).collect();
    let t = KeyTag { network: Network::Test, key_type: KeyType::Ed25519 };
    let kp = Keypair::generate_from_entropy(t, &entropy).expect("derive");
    let pw = b"pw".to_vec();
    let w = Wallet::encrypt(&kp, &pw, Format::Basic { pwhash: small_pwhash() }).expect("encrypt");
    let got = w.decrypt(&pw).expect("decrypt");
    assert_eq!(got.tag, t);
    assert_eq!(got.private_key, kp.private_key);
}

#[test]
fn wrong_password_is_rejected_not_garbage() {
    let kp = keypair();
    let w = Wallet::encrypt(&kp, &b"correct".to_vec(), Format::Basic { pwhash: small_pwhash() })
        .expect("encrypt");
    assert_eq!(w.decrypt(&b"wrong".to_vec()).unwrap_err(), Error::WrongPassword);
}

#[test]
fn tampered_ciphertext_is_rejected() {
    let kp = keypair();
    let pw = b"correct".to_vec();
    let w = Wallet::encrypt(&kp, &pw, Format::Basic { pwhash: small_pwhash() }).expect("encrypt");
    let mut bytes = w.to_bytes();
    let last = bytes.len() - 1;
    bytes[last] ^= 0x01;
    let reread = Wallet::from_bytes(&bytes).expect("parse");
    assert_eq!(reread.decrypt(&pw).unwrap_err(), Error::WrongPassword);
}

#[test]
fn basic_file_bytes_roundtrip() {
    let kp = keypair();
    let pw = b"file".to_vec();
    let w = Wallet::encrypt(&kp, &pw, Format::Basic { pwhash: small_pwhash() }).expect("encrypt");
    let bytes = w.to_bytes();
    let reread = Wallet::from_bytes(&bytes).expect("parse");
    let got = reread.decrypt(&pw).expect("decrypt");
    assert_eq!(got.private_key, kp.private_key);
}

#[test]
fn truncated_file_is_corrupt() {
    assert_eq!(Wallet::from_bytes(&vec![1u8, 2, 3]).unwrap_err(), Error::CorruptWallet);
    assert_eq!(Wallet::from_bytes(&vec![9u8; 100]).unwrap_err(), Error::CorruptWallet);
}

#[test]
fn invalid_threshold_is_rejected_before_any_work() {
    let kp = keypair();
    let pw = b"pw".to_vec();
    for (n, k) in [(3u8, 4u8), (3, 0), (0, 1)] {
        let r = Wallet::encrypt(
            &kp,
            &pw,
            Format::Sharded { key_share_count: n, recovery_threshold: k, pwhash: small_pwhash() },
        );
        assert_eq!(r.unwrap_err(), Error::InvalidThreshold, "n={} k={}", n, k);
    }
}

#[test]
fn ecc_compact_wallet_roundtrip() {
    // The round trip holds for both supported key types.
    let t = KeyTag { network: Network::Main, key_type: KeyType::EccCompact };
    let kp = Keypair::generate(t).expect("generate");
    let pw = b"ecc pass".to_vec();
    let w = Wallet::encrypt(&kp, &pw, Format::Basic { pwhash: small_pwhash() }).expect("encrypt");
    let bytes = w.to_bytes();
    let reread = Wallet::from_bytes(&bytes).expect("parse");
    let got = reread.decrypt(&pw).expect("decrypt");
    assert_eq!(got.tag, t);
    assert_eq!(got.public_key, kp.public_key);
    assert_eq!(got.private_key, kp.private_key);
}

fn sharded_wallet_files(kp: &Keypair, pw: &Vec<u8>, n: u8, k: u8) -> Vec<Vec<u8>> {
    let w = Wallet::encrypt(
        kp,
        pw,
        Format::Sharded { key_share_count: n, recovery_threshold: k, pwhash: small_pwhash() },
    )
    .expect("encrypt");
    let shards = w.shards().expect("shards");
    assert_eq!(shards.len(), n as usize);
    shards.iter().map(|s| s.to_bytes()).collect()
}

#[test]
fn sharded_end_to_end_five_three() {
    // Create a 3-of-5 sharded wallet, write five share files, recover
    // from files one, three and five alone.
    let kp = keypair();
    let pw = b"shard pass".to_vec();
    let files = sharded_wallet_files(&kp, &pw, 5, 3);
    assert_eq!(files.len(), 5);

    let picked: Vec<Wallet> = [0usize, 2, 4]
        .iter()
        .map(|&i| Wallet::from_bytes(&files[i]).expect("parse"))
        .collect();
    let merged = Wallet::absorb_shards(&picked).expect("absorb");
    let got = merged.decrypt(&pw).expect("decrypt");
    assert_eq!(got.tag, kp.tag);
    assert_eq!(got.public_key, kp.public_key);
    assert_eq!(got.private_key, kp.private_key);
}

#[test]
fn sharded_two_of_five_shares_are_insufficient() {
    let kp = keypair();
    let pw = b"shard pass".to_vec();
    let files = sharded_wallet_files(&kp, &pw, 5, 3);
    let picked: Vec<Wallet> = [0usize, 2]
        .iter()
        .map(|&i| Wallet::from_bytes(&files[i]).expect("parse"))
        .collect();
    let merged = Wallet::absorb_shards(&picked).expect("absorb");
    assert_eq!(merged.decrypt(&pw).unwrap_err(), Error::InsufficientShares);
}

#[test]
fn shares_from_two_wallets_do_not_combine() {
    // Two separate sharded creations never share salt, nonce or
    // ciphertext, so mixing their share files is inconsistent.
    let kp = keypair();
    let pw = b"shard pass".to_vec();
    let first = sharded_wallet_files(&kp, &pw, 3, 2);
    let second = sharded_wallet_files(&kp, &pw, 3, 2);
    let mixed = vec![
        Wallet::from_bytes(&first[0]).expect("parse"),
        Wallet::from_bytes(&second[1]).expect("parse"),
    ];
    assert_eq!(Wallet::absorb_shards(&mixed).unwrap_err(), Error::InconsistentShares);
}

#[test]
fn duplicate_share_files_do_not_combine() {
    let kp = keypair();
    let pw = b"shard pass".to_vec();
    let files = sharded_wallet_files(&kp, &pw, 3, 2);
    let dup = vec![
        Wallet::from_bytes(&files[1]).expect("parse"),
        Wallet::from_bytes(&files[1]).expect("parse"),
    ];
    let merged = Wallet::absorb_shards(&dup).expect("absorb");
    assert_eq!(merged.decrypt(&pw).unwrap_err(), Error::InconsistentShares);
}

#[test]
fn absorb_rejects_empty_and_basic_artifacts() {
    assert_eq!(Wallet::absorb_shards(&Vec::new()).unwrap_err(), Error::InsufficientShares);
    let kp = keypair();
    let pw = b"pw".to_vec();
    let basic =
        Wallet::encrypt(&kp, &pw, Format::Basic { pwhash: small_pwhash() }).expect("encrypt");
    assert_eq!(Wallet::absorb_shards(&vec![basic]).unwrap_err(), Error::CorruptWallet);
}

#[test]
fn decrypt_with_key_matches_decrypt() {
    let kp = keypair();
    let pw = b"split kdf from open".to_vec();
    let w = Wallet::encrypt(&kp, &pw, Format::Basic { pwhash: small_pwhash() }).expect("encrypt");
    let ph = match &w {
        Wallet::Basic { pwhash, .. } => pwhash,
        Wallet::Sharded { pwhash, .. } => pwhash,
    };
    let ek = ph.derive(&pw).expect("derive");
    let got = w.decrypt_with_key(&ek).expect("decrypt with key");
    assert_eq!(got.private_key, kp.private_key);
    // A key derived from another password is rejected the same way.
    let wrong = ph.derive(&b"another".to_vec()).expect("derive");
    assert_eq!(w.decrypt_with_key(&wrong).unwrap_err(), Error::WrongPassword);
}

#[test]
fn share_file_bytes_are_self_describing() {
    let kp = keypair();
    let pw = b"pw".to_vec();
    let files = sharded_wallet_files(&kp, &pw, 4, 2);
    for (i, f) in files.iter().enumerate() {
        assert_eq!(f[0], 2, "format byte");
        assert_eq!(f[2], 4, "share count");
        assert_eq!(f[3], 2, "threshold");
        assert_eq!(f[4], (i + 1) as u8, "index");
    }
}
