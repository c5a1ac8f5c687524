use dcrypt::api::Signature;
use dcrypt::sign::eddsa::{Ed25519, Ed25519SecretKey};
use ioi_kernel::identity::{
    apply_validator_key_update, promote, rotate, rotation_challenge, Credential, MigrationConfig, RotationChecks,
    RotationError, RotationProof,
};
use ioi_kernel::validators::{ActiveKeyRecord, ValidatorSetV1, ValidatorSetsV1, ValidatorV1};

fn config() -> MigrationConfig {
    MigrationConfig { chain_id: 7, grace_period_blocks: 10, allowed_target_suites: vec![0, 1, 3], allow_downgrade: false, accept_staged_during_grace: false }
}

fn active(suite: u8) -> Credential {
    Credential { suite, public_key_hash: [1u8; 32], activation_height: 0, l2_location: None, weight: 1 }
}

fn rotation_request(target: u8) -> RotationProof {
    RotationProof {
        old_public_key: vec![1],
        old_signature: vec![2],
        new_public_key: vec![3],
        new_signature: vec![4],
        target_suite: target,
        l2_location: Some("l2://x".to_string()),
    }
}

fn checks() -> RotationChecks {
    RotationChecks {
        old_key_hash: Some([1u8; 32]),
        new_key_hash: Some([2u8; 32]),
        old_signature_valid: true,
        new_signature_valid: true,
        target_is_post_quantum: true,
        active_is_post_quantum: false,
    }
}

#[test]
fn challenge_vector() {
    let c = rotation_challenge(&config(), &[5u8; 32], 3);
    let hex: String = c.iter().map(|x| format!("{:02x}", x)).collect();
    assert_eq!(hex, "95db9d0e77d5f7dd52dfcbcc9d59a44721065bc9f515237bc8906f82840dd96a");
    assert_ne!(c, rotation_challenge(&config(), &[5u8; 32], 4));
}

#[test]
fn rotation_stages_new_credential() {
    let o = rotate(&config(), &[5u8; 32], (Some(active(2)), None), &rotation_request(3), checks(), 3, None, 100).unwrap();
    assert_eq!(o.activation_height, 110);
    assert_eq!(o.next_nonce, 4);
    let staged = o.creds.1.as_ref().unwrap();
    assert_eq!(staged.suite, 3);
    assert_eq!(staged.public_key_hash, [2u8; 32]);
    assert_eq!(staged.activation_height, 110);
    assert_eq!(staged.l2_location.as_deref(), Some("l2://x"));
    assert_eq!(o.promotion_index, Some(vec![[5u8; 32]]));
    let again = rotate(&config(), &[5u8; 32], (Some(active(2)), None), &rotation_request(3), checks(), 3, Some(vec![[5u8; 32]]), 100).unwrap();
    assert_eq!(again.promotion_index, None);
    let other = rotate(&config(), &[5u8; 32], (Some(active(2)), None), &rotation_request(3), checks(), 3, Some(vec![[6u8; 32]]), 100).unwrap();
    assert_eq!(other.promotion_index, Some(vec![[6u8; 32], [5u8; 32]]));
}

#[test]
fn rotation_refusals() {
    let c = config();
    let a = [5u8; 32];
    let r = |creds, p: RotationProof, ch| rotate(&c, &a, creds, &p, ch, 0, None, 1).err();
    assert_eq!(r((Some(active(2)), None), rotation_request(2), checks()), Some(RotationError::SuiteNotAllowed));
    assert_eq!(r((None, None), rotation_request(3), checks()), Some(RotationError::NoActiveCredential));
    assert_eq!(r((Some(active(2)), Some(active(3))), rotation_request(3), checks()), Some(RotationError::RotationInProgress));
    let classical = RotationChecks { target_is_post_quantum: false, ..checks() };
    assert_eq!(r((Some(active(3)), None), rotation_request(1), classical), Some(RotationError::DowngradeForbidden));
    assert_eq!(r((Some(active(3)), None), rotation_request(1), checks()).is_none(), true);
    assert_eq!(r((Some(active(2)), None), rotation_request(3), RotationChecks { old_key_hash: None, ..checks() }), Some(RotationError::InvalidKeyMaterial));
    assert_eq!(r((Some(active(2)), None), rotation_request(3), RotationChecks { old_key_hash: Some([9u8; 32]), ..checks() }), Some(RotationError::OldKeyMismatch));
    assert_eq!(r((Some(active(2)), None), rotation_request(3), RotationChecks { old_signature_valid: false, ..checks() }), Some(RotationError::OldSignatureInvalid));
    assert_eq!(r((Some(active(2)), None), rotation_request(3), RotationChecks { new_signature_valid: false, ..checks() }), Some(RotationError::NewSignatureInvalid));
}

#[test]
fn ed25519_rotation_signatures_are_verified() {
    let c = config();
    let a = [5u8; 32];
    let nonce = 3u64;
    let sk = Ed25519SecretKey::from_seed(&[42u8; 32]).unwrap();
    let pk = sk.public_key().unwrap().to_bytes().to_vec();
    let challenge = rotation_challenge(&c, &a, nonce);
    let sig = Ed25519::sign(&challenge, &sk).unwrap().to_bytes().to_vec();
    let good = RotationProof { old_public_key: pk.clone(), old_signature: sig.clone(), ..rotation_request(3) };
    assert!(rotate(&c, &a, (Some(active(0)), None), &good, checks(), nonce, None, 1).is_ok());
    // a signature over another nonce's challenge is refused, whatever is reported
    let stale = rotate(&c, &a, (Some(active(0)), None), &good, checks(), nonce + 1, None, 1);
    assert_eq!(stale.err(), Some(RotationError::OldSignatureInvalid));
    let mut bad_sig = sig.clone();
    bad_sig[0] ^= 1;
    let bad = RotationProof { old_public_key: pk, old_signature: bad_sig, ..rotation_request(3) };
    assert_eq!(rotate(&c, &a, (Some(active(0)), None), &bad, checks(), nonce, None, 1).err(), Some(RotationError::OldSignatureInvalid));
    let junk = RotationProof { old_public_key: vec![1, 2], old_signature: sig, ..rotation_request(3) };
    assert_eq!(rotate(&c, &a, (Some(active(0)), None), &junk, checks(), nonce, None, 1).err(), Some(RotationError::OldSignatureInvalid));
}

#[test]
fn promotion_at_activation() {
    let staged = Credential { suite: 1, public_key_hash: [2u8; 32], activation_height: 110, l2_location: None, weight: 1 };
    assert!(promote((Some(active(0)), Some(staged.clone())), 109).is_none());
    let (a, s) = promote((Some(active(0)), Some(staged)), 110).unwrap();
    assert_eq!(a.unwrap().public_key_hash, [2u8; 32]);
    assert!(s.is_none());
    assert!(promote((Some(active(0)), None), 500).is_none());
}

#[test]
fn validator_key_follows_promotion() {
    let key = ActiveKeyRecord { suite: 0, public_key_hash: [1u8; 32], since_height: 0 };
    let sets = ValidatorSetsV1 {
        current: ValidatorSetV1 {
            effective_from_height: 0,
            total_weight: 30,
            validators: vec![
                ValidatorV1 { account_id: [5u8; 32], weight: 10, consensus_key: key },
                ValidatorV1 { account_id: [6u8; 32], weight: 20, consensus_key: key },
            ],
        },
        next: None,
    };
    let s = apply_validator_key_update(sets.clone(), &[6u8; 32], 1, [2u8; 32], 110).unwrap();
    let n = s.next.unwrap();
    assert_eq!(n.effective_from_height, 111);
    assert_eq!(n.total_weight, 30);
    assert_eq!(n.validators[1].consensus_key.suite, 1);
    assert_eq!(n.validators[1].consensus_key.public_key_hash, [2u8; 32]);
    assert_eq!(n.validators[1].consensus_key.since_height, 111);
    assert_eq!(n.validators[0].consensus_key.public_key_hash, [1u8; 32]);
    assert!(apply_validator_key_update(sets, &[7u8; 32], 1, [2u8; 32], 110).is_none());
}
