use dcrypt::algorithms::hash::{HashFunction, Sha256};
use ioi_kernel::gov_params::{
    decode_stake_params, decode_store_module_params, decode_swap_module_params, decode_unstake_params,
    decode_vote_params, StoreModuleParams, SwapModuleParams, VoteParams,
};
use ioi_kernel::governance::{GovernanceModule, GovernanceParams, VoteOption};
use ioi_kernel::service::{RejectReason, TransactionError, TxContext};
use ioi_kernel::state::StateMap;
use ioi_kernel::upgrade::{decode_pending, encode_pending, UpgradeKeys};

fn module() -> GovernanceModule {
    GovernanceModule::new(GovernanceParams { min_deposit: 10, max_deposit_period_blocks: 100, quorum: 33, threshold: 50, veto_threshold: 33 })
}

fn keys() -> UpgradeKeys {
    UpgradeKeys {
        manifest_prefix: b"upgrade::manifest::".to_vec(),
        artifact_prefix: b"upgrade::artifact::".to_vec(),
        pending_prefix: b"upgrade::pending::".to_vec(),
    }
}

fn ctx(height: u64) -> TxContext {
    TxContext { signer_account_id: [4u8; 32], block_height: height, block_timestamp_ns: 0 }
}

fn sha(b: &[u8]) -> Vec<u8> {
    <Sha256 as HashFunction>::digest(b).unwrap().as_ref().to_vec()
}

fn key(prefix: &[u8], tail: &[u8]) -> Vec<u8> {
    let mut k = prefix.to_vec();
    k.extend_from_slice(tail);
    k
}

#[test]
fn vote_params_decode() {
    let mut b = 5u64.to_le_bytes().to_vec();
    b.push(2);
    assert_eq!(decode_vote_params(&b), Some(VoteParams { proposal_id: 5, option: VoteOption::NoWithVeto }));
    b[8] = 4;
    assert_eq!(decode_vote_params(&b), None);
    assert_eq!(decode_vote_params(&b[..8]), None);
}

#[test]
fn stake_and_unstake_params_decode() {
    let mut b = vec![8u8, 1, 2];
    b.extend_from_slice(&7u64.to_le_bytes());
    let p = decode_stake_params(&b).unwrap();
    assert_eq!(p.public_key, vec![1, 2]);
    assert_eq!(p.amount, 7);
    b.push(0);
    assert!(decode_stake_params(&b).is_none());
    assert_eq!(decode_unstake_params(&9u64.to_le_bytes()).map(|p| p.amount), Some(9));
    assert!(decode_unstake_params(&[1, 2, 3]).is_none());
}

#[test]
fn module_params_decode() {
    let b = vec![12u8, b'a', b'b', b'c', 8, 9, 9];
    let p = decode_store_module_params(&b).unwrap();
    assert_eq!(p.manifest, "abc");
    assert_eq!(p.artifact, vec![9, 9]);
    assert!(decode_store_module_params(&b[..6]).is_none());

    let mut s = vec![8u8, b'o', b'k'];
    s.extend_from_slice(&[1u8; 32]);
    s.extend_from_slice(&[2u8; 32]);
    s.extend_from_slice(&40u64.to_le_bytes());
    let p = decode_swap_module_params(&s).unwrap();
    assert_eq!(p.service_id, "ok");
    assert_eq!(p.manifest_hash, [1u8; 32]);
    assert_eq!(p.artifact_hash, [2u8; 32]);
    assert_eq!(p.activation_height, 40);
    s.pop();
    assert!(decode_swap_module_params(&s).is_none());
}

#[test]
fn store_module_keeps_both_parts_under_their_hashes() {
    let mut st = StateMap::new();
    let p = StoreModuleParams { manifest: "abc".to_string(), artifact: vec![9, 9] };
    assert_eq!(module().store_module(&mut st, p, &keys(), &ctx(1)), Ok(()));
    let mh = sha(b"abc");
    assert_eq!(
        hex_of(&mh),
        "ba7816bf8f01cfea414140de5dae2223b00361a396177a9cb410ff61f20015ad"
    );
    assert_eq!(st.get(&key(b"upgrade::manifest::", &mh)), Some(b"abc".to_vec()));
    assert_eq!(st.get(&key(b"upgrade::artifact::", &sha(&[9, 9]))), Some(vec![9, 9]));
}

fn hex_of(b: &[u8]) -> String {
    b.iter().map(|x| format!("{:02x}", x)).collect()
}

fn stored_module() -> (StateMap, [u8; 32], [u8; 32]) {
    let mut st = StateMap::new();
    let p = StoreModuleParams { manifest: "m".to_string(), artifact: vec![1] };
    module().store_module(&mut st, p, &keys(), &ctx(1)).unwrap();
    let mut mh = [0u8; 32];
    mh.copy_from_slice(&sha(b"m"));
    let mut ah = [0u8; 32];
    ah.copy_from_slice(&sha(&[1]));
    (st, mh, ah)
}

fn swap(id: &str, mh: [u8; 32], ah: [u8; 32], at: u64) -> SwapModuleParams {
    SwapModuleParams { service_id: id.to_string(), manifest_hash: mh, artifact_hash: ah, activation_height: at }
}

#[test]
fn swap_needs_a_future_height_and_stored_parts() {
    let (mut st, mh, ah) = stored_module();
    let m = module();
    assert_eq!(
        m.swap_module(&mut st, swap("svc", mh, ah, 4), &keys(), &ctx(5)),
        Err(TransactionError::Invalid(RejectReason::ActivationHeightPassed))
    );
    assert_eq!(
        m.swap_module(&mut st, swap("svc", [7u8; 32], ah, 9), &keys(), &ctx(5)),
        Err(TransactionError::Invalid(RejectReason::ManifestNotFound))
    );
    assert_eq!(
        m.swap_module(&mut st, swap("svc", mh, [7u8; 32], 9), &keys(), &ctx(5)),
        Err(TransactionError::Invalid(RejectReason::ArtifactNotFound))
    );
}

#[test]
fn swaps_accumulate_at_their_height() {
    let (mut st, mh, ah) = stored_module();
    let m = module();
    // The activation height may be the current one.
    assert_eq!(m.swap_module(&mut st, swap("a", mh, ah, 9), &keys(), &ctx(9)), Ok(()));
    assert_eq!(m.swap_module(&mut st, swap("b", mh, ah, 9), &keys(), &ctx(9)), Ok(()));
    let pk = key(b"upgrade::pending::", &9u64.to_le_bytes());
    let stored = st.get(&pk).unwrap();
    let list = decode_pending(&stored).unwrap();
    assert_eq!(list, vec![("a".to_string(), mh, ah), ("b".to_string(), mh, ah)]);
    let mut expected = vec![8u8, 4, b'a'];
    expected.extend_from_slice(&mh);
    expected.extend_from_slice(&ah);
    expected.extend_from_slice(&[4, b'b']);
    expected.extend_from_slice(&mh);
    expected.extend_from_slice(&ah);
    assert_eq!(stored, expected);
    assert_eq!(encode_pending(&list), expected);
}

#[test]
fn an_unreadable_pending_list_is_replaced() {
    let (mut st, mh, ah) = stored_module();
    let pk = key(b"upgrade::pending::", &9u64.to_le_bytes());
    st.insert(&pk, &[4, 0xff]);
    assert_eq!(module().swap_module(&mut st, swap("c", mh, ah, 9), &keys(), &ctx(2)), Ok(()));
    assert_eq!(decode_pending(&st.get(&pk).unwrap()).unwrap(), vec![("c".to_string(), mh, ah)]);
}
