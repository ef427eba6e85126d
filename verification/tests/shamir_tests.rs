use wallet_core::shamir::{combine, split, Share};
use wallet_core::Error;

fn roundtrip(secret: &[u8], n: u8, k: u8, pick: &[usize]) -> Vec<u8> {
    let shares = split(&secret.to_vec(), n, k).expect("split");
    assert_eq!(shares.len(), n as usize);
    for (j, s) in shares.iter().enumerate() {
        assert_eq!(s.index, (j + 1) as u8);
        assert_eq!(s.threshold, k);
        assert_eq!(s.payload.len(), secret.len());
    }
    let subset: Vec<Share> = pick
        .iter()
        .map(|&i| Share {
            index: shares[i].index,
            threshold: shares[i].threshold,
            payload: shares[i].payload.clone(),
        })
        .collect();
    combine(&subset).expect("combine")
}

#[test]
fn split_combine_all_shares() {
    let secret = b"the quick brown fox jumps over the lazy dog".to_vec();
    let got = roundtrip(&secret, 5, 3, &[0, 1, 2, 3, 4]);
    assert_eq!(got, secret);
}

#[test]
fn split_combine_minimal_subsets() {
    let secret = vec![0u8, 1, 2, 3, 254, 255, 128, 77];
    for pick in [
        vec![0usize, 1, 2],
        vec![2, 3, 4],
        vec![0, 2, 4],
        vec![4, 1, 3],
    ] {
        let got = roundtrip(&secret, 5, 3, &pick);
        assert_eq!(got, secret, "subset {:?}", pick);
    }
}

#[test]
fn split_combine_threshold_one() {
    let secret = vec![9u8, 8, 7];
    for i in 0..4usize {
        let got = roundtrip(&secret, 4, 1, &[i]);
        assert_eq!(got, secret);
    }
}

#[test]
fn split_combine_threshold_equals_n() {
    let secret = vec![42u8; 32];
    let got = roundtrip(&secret, 10, 10, &(0..10usize).collect::<Vec<_>>());
    assert_eq!(got, secret);
    // The largest share count the index byte allows still splits.
    let shares = split(&secret, 255, 254).unwrap();
    assert_eq!(shares.len(), 255);
}

#[test]
fn split_rejects_bad_thresholds() {
    let secret = vec![1u8, 2, 3];
    assert_eq!(split(&secret, 3, 0).unwrap_err(), Error::InvalidThreshold);
    assert_eq!(split(&secret, 3, 4).unwrap_err(), Error::InvalidThreshold);
    assert_eq!(split(&secret, 0, 1).unwrap_err(), Error::InvalidThreshold);
}

#[test]
fn combine_rejects_duplicate_indices() {
    let shares = split(&vec![5u8; 4], 4, 2).unwrap();
    let dup = vec![
        Share { index: shares[0].index, threshold: 2, payload: shares[0].payload.clone() },
        Share { index: shares[0].index, threshold: 2, payload: shares[0].payload.clone() },
    ];
    assert_eq!(combine(&dup).unwrap_err(), Error::InconsistentShares);
}

#[test]
fn combine_rejects_too_few_shares() {
    let shares = split(&vec![5u8; 4], 5, 3).unwrap();
    let two = vec![
        Share { index: shares[0].index, threshold: 3, payload: shares[0].payload.clone() },
        Share { index: shares[1].index, threshold: 3, payload: shares[1].payload.clone() },
    ];
    assert_eq!(combine(&two).unwrap_err(), Error::InsufficientShares);
    assert_eq!(combine(&Vec::new()).unwrap_err(), Error::InsufficientShares);
}

#[test]
fn combine_rejects_mismatched_thresholds() {
    let shares = split(&vec![5u8; 4], 4, 2).unwrap();
    let mixed = vec![
        Share { index: shares[0].index, threshold: 2, payload: shares[0].payload.clone() },
        Share { index: shares[1].index, threshold: 3, payload: shares[1].payload.clone() },
    ];
    assert_eq!(combine(&mixed).unwrap_err(), Error::InconsistentShares);
}

#[test]
fn combine_rejects_index_zero() {
    let shares = split(&vec![5u8; 4], 4, 2).unwrap();
    let bad = vec![
        Share { index: 0, threshold: 2, payload: shares[0].payload.clone() },
        Share { index: shares[1].index, threshold: 2, payload: shares[1].payload.clone() },
    ];
    assert_eq!(combine(&bad).unwrap_err(), Error::InconsistentShares);
}

#[test]
fn below_threshold_shares_are_not_the_secret() {
    // Any single share of a 2-of-3 split must not expose the secret's
    // bytes: the payload is a point of a random degree-1 polynomial.
    let secret = vec![0u8; 64];
    let shares = split(&secret, 3, 2).unwrap();
    for s in &shares {
        assert_ne!(s.payload, secret);
    }
}

#[test]
fn gf256_field_facts() {
    assert_eq!(wallet_core::gf256::mult(2, 3), 6);
    assert_eq!(wallet_core::gf256::mult(0x57, 0x83), 0xc1);
    assert_eq!(wallet_core::gf256::mult(0, 0xff), 0);
    for a in 1u8..=255 {
        let inv = wallet_core::gf256::inv(a);
        assert_eq!(wallet_core::gf256::mult(a, inv), 1, "inverse of {}", a);
    }
}
