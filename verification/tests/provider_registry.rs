use ioi_kernel::provider_registry::{
    decode_heartbeat_params, decode_register_params, record_to_bytes, HeartbeatParams, ProviderRecord,
    ProviderRegistryService, ProviderStatus, RegisterProviderParams, SupplyTier,
};
use ioi_kernel::service::{RejectReason, TransactionError, TxContext};
use ioi_kernel::state::StateMap;

fn ctx(secs: u64) -> TxContext {
    TxContext { signer_account_id: [9u8; 32], block_height: 10, block_timestamp_ns: secs * 1_000_000_000 }
}

fn scale_str(out: &mut Vec<u8>, s: &str) {
    assert!(s.len() < 64);
    out.push((s.len() as u8) * 4);
    out.extend_from_slice(s.as_bytes());
}

fn register_bytes(tier: u8, endpoint: &str, caps: &[&str]) -> Vec<u8> {
    let mut b = vec![tier];
    scale_str(&mut b, endpoint);
    b.push((caps.len() as u8) * 4);
    for c in caps {
        scale_str(&mut b, c);
    }
    b
}

fn provider_key(id: [u8; 32]) -> Vec<u8> {
    let mut k = b"providers::".to_vec();
    k.extend_from_slice(&id);
    k
}

#[test]
fn register_params_decode() {
    let b = register_bytes(1, "https://gpu.example", &["gpu-h100", "verkle-proofs"]);
    let p = decode_register_params(&b).unwrap();
    assert_eq!(p.tier, SupplyTier::Verified);
    assert_eq!(p.endpoint, "https://gpu.example");
    assert_eq!(p.capabilities, vec!["gpu-h100".to_string(), "verkle-proofs".to_string()]);
    assert!(decode_register_params(&register_bytes(3, "x", &[])).is_none());
    let mut trailing = b.clone();
    trailing.push(0);
    assert!(decode_register_params(&trailing).is_none());
    assert!(decode_register_params(&b[..b.len() - 1]).is_none());
    // Invalid UTF-8 in the endpoint.
    assert!(decode_register_params(&[0, 4, 0xff, 0]).is_none());
}

#[test]
fn record_encoding() {
    let r = ProviderRecord {
        tier: SupplyTier::Community,
        endpoint: "e".to_string(),
        capabilities: vec!["c".to_string()],
        stake: 5,
        status: ProviderStatus::Jailed,
    };
    let mut expected = vec![2u8, 4, b'e', 4, 4, b'c'];
    expected.extend_from_slice(&5u128.to_le_bytes());
    expected.push(1);
    assert_eq!(record_to_bytes(&r), expected);
}

#[test]
fn register_once() {
    let svc = ProviderRegistryService;
    let mut st = StateMap::new();
    let params = register_bytes(0, "ep", &["a"]);
    assert_eq!(svc.handle_service_call(&mut st, "register@v1", &params, &ctx(100)), Ok(()));
    let mut expected = vec![0u8, 8, b'e', b'p', 4, 4, b'a'];
    expected.extend_from_slice(&0u128.to_le_bytes());
    expected.push(0);
    assert_eq!(st.get(&provider_key([9u8; 32])), Some(expected));
    assert_eq!(
        svc.handle_service_call(&mut st, "register@v1", &params, &ctx(100)),
        Err(TransactionError::Invalid(RejectReason::ProviderAlreadyRegistered))
    );
    assert_eq!(svc.handle_service_call(&mut st, "register@v1", &[9], &ctx(100)), Err(TransactionError::Deserialization));
    assert_eq!(svc.handle_service_call(&mut st, "deregister@v1", &[], &ctx(100)), Err(TransactionError::Unsupported));
}

#[test]
fn typed_register() {
    let svc = ProviderRegistryService;
    let mut st = StateMap::new();
    let p = RegisterProviderParams { tier: SupplyTier::Foundation, endpoint: "x".to_string(), capabilities: vec![] };
    assert_eq!(svc.register(&mut st, &ctx(100), p), Ok(()));
    assert!(st.get(&provider_key([9u8; 32])).is_some());
}

#[test]
fn heartbeat_window() {
    let svc = ProviderRegistryService;
    let mut st = StateMap::new();
    let model = [5u8; 32];
    let params = |ts: u64| {
        let mut b = model.to_vec();
        b.extend_from_slice(&ts.to_le_bytes());
        b
    };
    let decoded = decode_heartbeat_params(&params(77)).unwrap();
    assert_eq!(decoded.timestamp, 77);
    assert_eq!(decoded.model_hash, model);
    assert!(decode_heartbeat_params(&[0u8; 39]).is_none());

    assert_eq!(svc.handle_service_call(&mut st, "heartbeat@v1", &params(1000), &ctx(1000)), Ok(()));
    assert_eq!(svc.handle_service_call(&mut st, "heartbeat@v1", &params(1010), &ctx(1000)), Ok(()));
    assert_eq!(svc.handle_service_call(&mut st, "heartbeat@v1", &params(940), &ctx(1000)), Ok(()));
    let mut key = b"heartbeats::".to_vec();
    key.extend_from_slice(&[9u8; 32]);
    key.extend_from_slice(b"::");
    key.extend_from_slice(&model);
    assert_eq!(st.get(&key), Some(940u64.to_le_bytes().to_vec()));
    assert_eq!(
        svc.handle_service_call(&mut st, "heartbeat@v1", &params(1011), &ctx(1000)),
        Err(TransactionError::Invalid(RejectReason::HeartbeatOutOfBounds))
    );
    assert_eq!(
        svc.heartbeat(&mut st, &ctx(1000), HeartbeatParams { model_hash: model, timestamp: 939 }),
        Err(TransactionError::Invalid(RejectReason::HeartbeatOutOfBounds))
    );
}
