use wallet_core::mnemonic::{mnemonic_to_entropy, SeedType};
use wallet_core::Error;

fn words(s: &str) -> Vec<String> {
    s.split_whitespace().map(|w| w.to_string()).collect()
}

#[test]
fn bip39_known_vector_sevens() {
    // Published test vector: this phrase encodes sixteen 0x7f bytes.
    let w = words("legal winner thank year wave sausage worth useful legal winner thank yellow");
    let e = mnemonic_to_entropy(&w, SeedType::Bip39).expect("decode");
    assert_eq!(e, vec![0x7f; 16]);
}

#[test]
fn bip39_known_vector_zeros() {
    // Published test vector: eleven "abandon" and "about" encode zeros.
    let w = words(
        "abandon abandon abandon abandon abandon abandon abandon abandon abandon abandon abandon about",
    );
    let e = mnemonic_to_entropy(&w, SeedType::Bip39).expect("decode");
    assert_eq!(e, vec![0u8; 16]);
}

#[test]
fn mobile_never_silently_matches_bip39() {
    // Decoding a bip39-valid phrase under the mobile grammar must fail
    // or differ; here its byte-sum checksum (0) disagrees with the
    // SHA-256 checksum the phrase carries (8), so it fails.
    let w = words("legal winner thank year wave sausage worth useful legal winner thank yellow");
    let bip = mnemonic_to_entropy(&w, SeedType::Bip39).expect("bip39 decode");
    match mnemonic_to_entropy(&w, SeedType::Mobile) {
        Err(e) => assert_eq!(e, Error::InvalidMnemonic),
        Ok(m) => assert_ne!(m, bip),
    }
}

#[test]
fn mobile_accepts_its_own_checksum() {
    // Twelve times index zero carries checksum bits 0, which is the
    // byte sum of the all-zero entropy; the mobile grammar accepts it,
    // the standard grammar (checksum 3) does not.
    let w = words(
        "abandon abandon abandon abandon abandon abandon abandon abandon abandon abandon abandon abandon",
    );
    let e = mnemonic_to_entropy(&w, SeedType::Mobile).expect("mobile decode");
    assert_eq!(e, vec![0u8; 16]);
    assert_eq!(
        mnemonic_to_entropy(&w, SeedType::Bip39).unwrap_err(),
        Error::InvalidMnemonic
    );
}

#[test]
fn unknown_word_is_rejected() {
    let w = words("legal winner thank year wave sausage worth useful legal winner thank zzzzzz");
    assert_eq!(
        mnemonic_to_entropy(&w, SeedType::Bip39).unwrap_err(),
        Error::InvalidMnemonic
    );
}

#[test]
fn bad_word_count_is_rejected() {
    let w = words("legal winner thank");
    assert_eq!(
        mnemonic_to_entropy(&w, SeedType::Bip39).unwrap_err(),
        Error::InvalidMnemonic
    );
    assert_eq!(
        mnemonic_to_entropy(&Vec::new(), SeedType::Mobile).unwrap_err(),
        Error::InvalidMnemonic
    );
}

#[test]
fn bad_checksum_is_rejected() {
    // Swapping two words breaks the checksum.
    let w = words("winner legal thank year wave sausage worth useful legal winner thank yellow");
    assert_eq!(
        mnemonic_to_entropy(&w, SeedType::Bip39).unwrap_err(),
        Error::InvalidMnemonic
    );
}

#[test]
fn bip39_twenty_four_words() {
    // Published test vector: twenty-three "abandon" and "art" encode
    // thirty-two zero bytes.
    let w = words(
        "abandon abandon abandon abandon abandon abandon abandon abandon abandon abandon abandon abandon abandon abandon abandon abandon abandon abandon abandon abandon abandon abandon abandon art",
    );
    let e = mnemonic_to_entropy(&w, SeedType::Bip39).expect("decode");
    assert_eq!(e, vec![0u8; 32]);
}
