use ioi_kernel::hash_commitment::{CryptoError, HashCommitment, HashCommitmentScheme, HashFunction, HashProof, Selector};

fn hex(b: &[u8]) -> String {
    b.iter().map(|x| format!("{:02x}", x)).collect()
}

#[test]
fn scheme_defaults_to_sha256() {
    let s = HashCommitmentScheme::new();
    assert_eq!(s.hash_function(), HashFunction::Sha256);
    assert_eq!(s.digest_size(), 32);
    assert_eq!(hex(&s.hash_data(b"abc").unwrap()), "ba7816bf8f01cfea414140de5dae2223b00361a396177a9cb410ff61f20015ad");
    let s512 = HashCommitmentScheme::with_hash_function(HashFunction::Sha512);
    assert_eq!(s512.digest_size(), 64);
    assert_eq!(
        hex(&s512.hash_data(b"abc").unwrap()),
        "ddaf35a193617abacc417349ae20413112e6fa4e89a97ea20a9eeee64b55d39a2192992a274fc1a836ba3c23a3feebbd454d4423643ce80e2a9ac94fa54ca49f"
    );
}

#[test]
fn leaf_and_branch_commitments() {
    assert_eq!(
        hex(&HashCommitmentScheme::commit_leaf(b"key", b"value").unwrap()),
        "e6518f0eb994649aefe2468f547e6ff4badf24cd9a3bc51db9c200cbf3938dec"
    );
    assert_eq!(
        hex(&HashCommitmentScheme::commit_branch(&[0u8; 32], &[1u8; 32]).unwrap()),
        "2ad82c3a51e8ed6418cb5bf267c5f9e521b99f7ab4fce657f460a8f1a3e87b2e"
    );
}

#[test]
fn commit_with_witness_prefixes_lengths() {
    let s = HashCommitmentScheme::new();
    let (c, ()) = s.commit_with_witness(&[Some(b"hello".to_vec()), None]).unwrap();
    assert_eq!(hex(c.as_bytes()), "5e07ae4d7b3ad58754cab83212757ba8ff92dce9d3e982b36a83c2511de11c72");
    assert_eq!(c.to_vec(), c.as_bytes().to_vec());
}

#[test]
fn proofs_verify_for_their_selector_only() {
    let s = HashCommitmentScheme::new();
    let value = b"hello".to_vec();
    let commitment = HashCommitment::new(s.hash_data(&value).unwrap());
    let p = s.create_proof(&(), &Selector::Unselected, &value).unwrap();
    assert!(s.verify(&commitment, &p, &Selector::Unselected, &value));
    assert!(!s.verify(&commitment, &p, &Selector::Unselected, &b"world".to_vec()));

    let key = b"k".to_vec();
    let keyed = HashCommitment::new(s.hash_data(b"khello").unwrap());
    let kp = s.create_proof(&(), &Selector::Key(key.clone()), &value).unwrap();
    assert_eq!(hex(kp.additional_data()), hex(&s.hash_data(b"k").unwrap()));
    assert!(s.verify(&keyed, &kp, &Selector::Key(key), &value));

    let pp = s.create_proof(&(), &Selector::Position(7), &value).unwrap();
    assert_eq!(pp.additional_data(), &7u64.to_le_bytes()[..]);
    assert!(!s.verify(&commitment, &pp, &Selector::Position(7), &value));
}

#[test]
fn hash_proof_bytes_roundtrip() {
    let p = HashProof::new(b"val".to_vec(), Selector::Key(b"key".to_vec()), vec![9, 9]);
    let bytes = p.to_bytes();
    let mut expected = vec![2u8, 3, 0, 0, 0];
    expected.extend_from_slice(b"key");
    expected.extend_from_slice(&[3, 0, 0, 0]);
    expected.extend_from_slice(b"val");
    expected.extend_from_slice(&[2, 0, 0, 0, 9, 9]);
    assert_eq!(bytes, expected);
    let q = HashProof::from_bytes(&bytes).unwrap();
    assert_eq!(q.value(), b"val");
    assert_eq!(q.additional_data(), &[9u8, 9][..]);
    match q.selector() {
        Selector::Key(k) => assert_eq!(k, b"key"),
        _ => panic!("wrong selector"),
    }
}

#[test]
fn hash_proof_decoding_errors() {
    assert_eq!(HashProof::from_bytes(&[]).err(), Some(CryptoError::InvalidProofBytes));
    assert_eq!(HashProof::from_bytes(&[7]).err(), Some(CryptoError::UnknownSelectorType(7)));
    assert_eq!(HashProof::from_bytes(&[1, 0, 0]).err(), Some(CryptoError::InvalidProofBytes));
    assert_eq!(HashProof::from_bytes(&[0, 5, 0, 0, 0, 1]).err(), Some(CryptoError::InvalidProofBytes));
    let ok = HashProof::from_bytes(&[0, 0, 0, 0, 0, 0, 0, 0, 0]).unwrap();
    assert!(matches!(ok.selector(), Selector::Unselected));
    assert!(ok.value().is_empty());
}

#[test]
fn default_scheme_uses_sha256() {
    let s = HashCommitmentScheme::default();
    assert_eq!(s.hash_function(), HashFunction::Sha256);
    assert_eq!(s.digest_size(), 32);
}
