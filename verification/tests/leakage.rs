use ioi_kernel::leakage::{LeakageController, LeakagePolicy, UsageRecord};
use ioi_kernel::service::{RejectReason, TransactionError, TxContext};
use ioi_kernel::state::StateMap;

fn ctx(height: u64) -> TxContext {
    TxContext { signer_account_id: [1u8; 32], block_height: height, block_timestamp_ns: 0 }
}

fn register_params(session: [u8; 32], max: u64, mult: u16) -> Vec<u8> {
    let mut p = session.to_vec();
    p.extend_from_slice(&max.to_le_bytes());
    p.extend_from_slice(&mult.to_le_bytes());
    p
}

fn debit_params(session: [u8; 32], tokens: u64, high: bool) -> Vec<u8> {
    let mut p = session.to_vec();
    p.extend_from_slice(&tokens.to_le_bytes());
    p.push(if high { 1 } else { 0 });
    p
}

fn usage(state: &StateMap, session: [u8; 32]) -> Option<(u64, u64)> {
    state.get(&LeakageController::get_usage_key(&session)).map(|b| {
        (u64::from_le_bytes(b[0..8].try_into().unwrap()), u64::from_le_bytes(b[8..16].try_into().unwrap()))
    })
}

#[test]
fn defaults() {
    let p = LeakagePolicy::default();
    assert_eq!(p.max_tokens_per_epoch, 1_000_000);
    assert_eq!(p.entropy_multiplier_percent, 100);
    let u = UsageRecord::default();
    assert_eq!((u.tokens_consumed, u.last_update_height), (0, 0));
}

#[test]
fn keys_carry_the_session() {
    let s = [7u8; 32];
    let mut expected = b"leakage::usage::".to_vec();
    expected.extend_from_slice(&s);
    assert_eq!(LeakageController::get_usage_key(&s), expected);
    let mut expected = b"leakage::policy::".to_vec();
    expected.extend_from_slice(&s);
    assert_eq!(LeakageController::get_policy_key(&s), expected);
}

#[test]
fn debit_under_registered_policy() {
    let c = LeakageController;
    let mut st = StateMap::new();
    let s = [2u8; 32];
    assert_eq!(c.handle_service_call(&mut st, "register_policy@v1", &register_params(s, 1000, 250), &ctx(5)), Ok(()));
    // 100 high-entropy tokens at 2.5x cost 250.
    assert_eq!(c.handle_service_call(&mut st, "check_and_debit@v1", &debit_params(s, 100, true), &ctx(6)), Ok(()));
    assert_eq!(usage(&st, s), Some((250, 6)));
    // Plain tokens cost 1x.
    assert_eq!(c.handle_service_call(&mut st, "check_and_debit@v1", &debit_params(s, 750, false), &ctx(7)), Ok(()));
    assert_eq!(usage(&st, s), Some((1000, 7)));
    // The budget is spent.
    assert_eq!(
        c.handle_service_call(&mut st, "check_and_debit@v1", &debit_params(s, 1, false), &ctx(8)),
        Err(TransactionError::Invalid(RejectReason::LeakageBudgetExceeded))
    );
    assert_eq!(usage(&st, s), Some((1000, 7)));
}

#[test]
fn default_policy_applies_without_registration() {
    let mut st = StateMap::new();
    let s = [3u8; 32];
    assert_eq!(LeakageController::debit_budget(&mut st, &s, 1_000_000, false, 1), Ok(()));
    assert_eq!(
        LeakageController::debit_budget(&mut st, &s, 1, false, 2),
        Err(TransactionError::Invalid(RejectReason::LeakageBudgetExceeded))
    );
}

#[test]
fn malformed_calls() {
    let c = LeakageController;
    let mut st = StateMap::new();
    let s = [4u8; 32];
    assert_eq!(c.handle_service_call(&mut st, "register_policy@v1", &[0u8; 41], &ctx(1)), Err(TransactionError::Deserialization));
    let mut bad = debit_params(s, 1, false);
    bad[40] = 2;
    assert_eq!(c.handle_service_call(&mut st, "check_and_debit@v1", &bad, &ctx(1)), Err(TransactionError::Deserialization));
    assert_eq!(c.handle_service_call(&mut st, "unknown@v1", &[], &ctx(1)), Err(TransactionError::Unsupported));
    // A stored usage record that does not decode stops the debit.
    st.insert(&LeakageController::get_usage_key(&s), &[1, 2, 3]);
    assert_eq!(LeakageController::debit_budget(&mut st, &s, 1, false, 1), Err(TransactionError::Deserialization));
}
