use wallet_core::cmd::gen_keypair;
use wallet_core::keypair::{KeyTag, KeyType, Keypair, Network};
use wallet_core::mnemonic::SeedType;
use wallet_core::pwhash::PwHash;
use wallet_core::Error;

fn tag() -> KeyTag {
    KeyTag { network: Network::Main, key_type: KeyType::Ed25519 }
}

#[test]
fn generate_from_entropy_is_deterministic() {
    let entropy: Vec<u8> = (0u8..16).collect();
    let a = Keypair::generate_from_entropy(tag(), &entropy).expect("derive");
    let b = Keypair::generate_from_entropy(tag(), &entropy).expect("derive");
    assert_eq!(a.tag, b.tag);
    assert_eq!(a.public_key, b.public_key);
    assert_eq!(a.private_key, b.private_key);
}

#[test]
fn sixteen_byte_entropy_repeats_into_the_seed() {
    let entropy: Vec<u8> = (100u8..116).collect();
    let kp = Keypair::generate_from_entropy(tag(), &entropy).expect("derive");
    let mut seed = entropy.clone();
    seed.extend_from_slice(&entropy);
    assert_eq!(kp.private_key, seed);
}

#[test]
fn public_key_matches_the_primitive_library() {
    let entropy: Vec<u8> = (0u8..32).collect();
    let kp = Keypair::generate_from_entropy(tag(), &entropy).expect("derive");
    let mut raw = [0u8; 32];
    raw.copy_from_slice(&entropy);
    let expect = ed25519_dalek::SigningKey::from_bytes(&raw)
        .verifying_key()
        .to_bytes()
        .to_vec();
    assert_eq!(kp.public_key, expect);
}

#[test]
fn ecc_compact_has_no_deterministic_path() {
    // Entropy-based derivation is implemented for Ed25519 only; random
    // generation supports both algorithms.
    let t = KeyTag { network: Network::Main, key_type: KeyType::EccCompact };
    let entropy: Vec<u8> = (0u8..16).collect();
    assert_eq!(
        Keypair::generate_from_entropy(t, &entropy).unwrap_err(),
        Error::UnsupportedKeyType
    );
}

#[test]
fn ecc_compact_generation_matches_the_primitive_library() {
    let t = KeyTag { network: Network::Test, key_type: KeyType::EccCompact };
    let kp = Keypair::generate(t).expect("generate");
    assert_eq!(kp.tag, t);
    assert_eq!(kp.private_key.len(), 32);
    assert_eq!(kp.public_key.len(), 33);
    let sk = p256::SecretKey::from_slice(&kp.private_key).expect("valid scalar");
    let expect = p256::elliptic_curve::sec1::ToEncodedPoint::to_encoded_point(
        &sk.public_key(),
        true,
    )
    .as_bytes()
    .to_vec();
    assert_eq!(kp.public_key, expect);
}

#[test]
fn random_generation_yields_wellformed_keys() {
    let a = Keypair::generate(tag()).expect("generate");
    let b = Keypair::generate(tag()).expect("generate");
    assert_eq!(a.public_key.len(), 32);
    assert_eq!(a.private_key.len(), 32);
    // Two random draws almost surely differ.
    assert_ne!(a.private_key, b.private_key);
}

#[test]
fn gen_keypair_with_seed_phrase_is_deterministic() {
    let phrase = "legal winner thank year wave sausage worth useful legal winner thank yellow";
    let w: Vec<String> = phrase.split_whitespace().map(|s| s.to_string()).collect();
    let a = gen_keypair(tag(), Some(w.clone()), Some(&SeedType::Bip39)).expect("derive");
    let b = gen_keypair(tag(), Some(w), Some(&SeedType::Bip39)).expect("derive");
    assert_eq!(a.public_key, b.public_key);
    assert_eq!(a.private_key, vec![0x7fu8; 32]);
    assert_eq!(b.private_key, vec![0x7fu8; 32]);
}

#[test]
fn gen_keypair_rejects_mismatched_seed_arguments() {
    let w: Vec<String> = vec!["legal".to_string()];
    assert_eq!(
        gen_keypair(tag(), Some(w), None).unwrap_err(),
        Error::InvalidMnemonic
    );
    assert_eq!(
        gen_keypair(tag(), None, Some(&SeedType::Bip39)).unwrap_err(),
        Error::InvalidMnemonic
    );
}

#[test]
fn kdf_is_deterministic_for_fixed_salt_and_costs() {
    let ph = PwHash { salt: vec![7u8; 16], m_cost: 8, t_cost: 1, parallelism: 1 };
    let pw = b"correct horse battery staple".to_vec();
    let k1 = ph.derive(&pw).expect("derive");
    let k2 = ph.derive(&pw).expect("derive");
    assert_eq!(k1, k2);
    assert_eq!(k1.len(), 32);
    // A different salt yields a different key.
    let ph2 = PwHash { salt: vec![8u8; 16], m_cost: 8, t_cost: 1, parallelism: 1 };
    assert_ne!(ph2.derive(&pw).expect("derive"), k1);
}

#[test]
fn default_pwhash_parameters() {
    let a = PwHash::argon2id13_default();
    let b = PwHash::argon2id13_default();
    assert_eq!(a.salt.len(), 16);
    assert_eq!(a.m_cost, 19456);
    assert_eq!(a.t_cost, 2);
    assert_eq!(a.parallelism, 1);
    // Salts are regenerated per wallet.
    assert_ne!(a.salt, b.salt);
}
