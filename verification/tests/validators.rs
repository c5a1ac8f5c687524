use ioi_kernel::service::{RejectReason, TransactionError};
use ioi_kernel::validators::{stake, total_weight, unstake, ActiveKeyRecord, ValidatorSetV1, ValidatorSetsV1, ValidatorV1};

fn key(s: u8) -> ActiveKeyRecord {
    ActiveKeyRecord { suite: s, public_key_hash: [s; 32], since_height: 1 }
}

fn v(id: u8, w: u128) -> ValidatorV1 {
    ValidatorV1 { account_id: [id; 32], weight: w, consensus_key: key(0) }
}

fn sets() -> ValidatorSetsV1 {
    ValidatorSetsV1 { current: ValidatorSetV1 { effective_from_height: 1, total_weight: 30, validators: vec![v(1, 10), v(2, 20)] }, next: None }
}

#[test]
fn stake_existing_and_new() {
    let (s, joined) = stake(sets(), &[2u8; 32], 5, None, 100).unwrap();
    assert!(!joined);
    let n = s.next.unwrap();
    assert_eq!(n.effective_from_height, 102);
    assert_eq!(n.total_weight, 35);
    assert_eq!(n.validators[1].weight, 25);
    assert_eq!(s.current.total_weight, 30);

    let (s, joined) = stake(sets(), &[3u8; 32], 7, Some(key(9)), 100).unwrap();
    assert!(joined);
    let n = s.next.unwrap();
    assert_eq!(n.validators.len(), 3);
    assert_eq!(n.validators[2].account_id, [3u8; 32]);
    assert_eq!(n.validators[2].consensus_key.suite, 9);
    assert_eq!(n.total_weight, 37);

    assert_eq!(stake(sets(), &[3u8; 32], 7, None, 100).err(), Some(TransactionError::Invalid(RejectReason::NoActiveKey)));
}

#[test]
fn stake_saturates_and_keeps_pending_height() {
    let mut s = sets();
    s.next = Some(ValidatorSetV1 { effective_from_height: 55, total_weight: u128::MAX, validators: vec![v(1, u128::MAX)] });
    let (s, _) = stake(s, &[1u8; 32], 9, None, 100).unwrap();
    let n = s.next.unwrap();
    assert_eq!(n.effective_from_height, 55);
    assert_eq!(n.validators[0].weight, u128::MAX);
}

#[test]
fn unstake_removes_emptied_validators() {
    let n = unstake(Some(sets()), &[1u8; 32], 4, 7).unwrap().next.unwrap();
    assert_eq!(n.validators[0].weight, 6);
    assert_eq!(n.total_weight, 26);
    assert_eq!(n.effective_from_height, 9);
    let n = unstake(Some(sets()), &[1u8; 32], 10, 7).unwrap().next.unwrap();
    assert_eq!(n.validators.len(), 1);
    assert_eq!(n.validators[0].account_id, [2u8; 32]);
    assert_eq!(n.total_weight, 20);
    assert_eq!(unstake(None, &[1u8; 32], 1, 7).err(), Some(TransactionError::Invalid(RejectReason::NoValidatorSet)));
    assert_eq!(unstake(Some(sets()), &[5u8; 32], 1, 7).err(), Some(TransactionError::Invalid(RejectReason::NotValidator)));
}

#[test]
fn unstake_undoes_stake() {
    let (s, _) = stake(sets(), &[3u8; 32], 7, Some(key(9)), 100).unwrap();
    let n = unstake(Some(s), &[3u8; 32], 7, 100).unwrap().next.unwrap();
    assert_eq!(n.validators.len(), 2);
    assert_eq!(n.total_weight, 30);
    assert_eq!(total_weight(&n.validators), 30);
}
