use dcrypt::api::Signature;
use dcrypt::sign::eddsa::{Ed25519, Ed25519SecretKey};
use ioi_kernel::service::{RejectReason, TransactionError};
use ioi_kernel::session::{check_solvency, PaymentTicket};
use ioi_kernel::state::StateMap;

fn ticket(seq: u64, amount: u128) -> PaymentTicket {
    PaymentTicket {
        session_id: [1u8; 32],
        provider_id: [2u8; 32],
        terms_hash: [3u8; 32],
        seq,
        cumulative_amount: amount,
        receipt_root: [4u8; 32],
        payer_sig: vec![],
    }
}

fn signed(seq: u64, amount: u128) -> (PaymentTicket, Vec<u8>) {
    let sk = Ed25519SecretKey::from_seed(&[42u8; 32]).unwrap();
    let pk = sk.public_key().unwrap().to_bytes().to_vec();
    let mut t = ticket(seq, amount);
    let msg = t.to_sign_bytes().unwrap();
    t.payer_sig = Ed25519::sign(&msg, &sk).unwrap().to_bytes().to_vec();
    (t, pk)
}

#[test]
fn sign_bytes_layout() {
    let b = ticket(5, 7).to_sign_bytes().unwrap();
    let mut expected = vec![1u8; 32];
    expected.extend_from_slice(&[2u8; 32]);
    expected.extend_from_slice(&[3u8; 32]);
    expected.extend_from_slice(&5u64.to_le_bytes());
    expected.extend_from_slice(&7u128.to_le_bytes());
    expected.extend_from_slice(&[4u8; 32]);
    expected.push(0);
    assert_eq!(b, expected);
}

#[test]
fn valid_ticket_and_replay() {
    let (t, pk) = signed(5, 100);
    assert_eq!(t.verify(&pk, &[2u8; 32], 4, 100), Ok(()));
    // Presented again once its sequence number is recorded.
    assert_eq!(t.verify(&pk, &[2u8; 32], 5, 100), Err(TransactionError::Invalid(RejectReason::NonMonotonicSequence)));
}

#[test]
fn ticket_checks_in_order() {
    let (t, pk) = signed(5, 100);
    assert_eq!(t.verify(&pk, &[9u8; 32], 4, 100), Err(TransactionError::Invalid(RejectReason::ProviderMismatch)));
    assert_eq!(t.verify(&pk, &[2u8; 32], 4, 101), Err(TransactionError::Invalid(RejectReason::NonMonotonicAmount)));
    assert_eq!(t.verify(&pk[..31], &[2u8; 32], 4, 0), Err(TransactionError::Invalid(RejectReason::InvalidPublicKey)));
    let mut short = t.clone();
    short.payer_sig.pop();
    assert_eq!(short.verify(&pk, &[2u8; 32], 4, 0), Err(TransactionError::Invalid(RejectReason::InvalidSignatureFormat)));
    let mut tampered = t.clone();
    tampered.cumulative_amount = 200;
    assert_eq!(tampered.verify(&pk, &[2u8; 32], 4, 0), Err(TransactionError::InvalidSignature));
}

#[test]
fn solvency() {
    let mut st = StateMap::new();
    let payer = [6u8; 32];
    assert_eq!(check_solvency(&st, &payer, 1), Err(TransactionError::InsufficientFunds));
    let mut key = b"balance::".to_vec();
    key.extend_from_slice(&payer);
    st.insert(&key, &500u128.to_le_bytes());
    assert_eq!(check_solvency(&st, &payer, 500), Ok(()));
    assert_eq!(check_solvency(&st, &payer, 501), Err(TransactionError::InsufficientFunds));
    st.insert(&key, &[1, 2, 3]);
    assert_eq!(check_solvency(&st, &payer, 1), Err(TransactionError::Deserialization));
}
