use ioi_kernel::compute_market::{push_decimal, ticket_key, ticket_to_bytes, ComputeMarketService, ComputeSpecs, JobTicket, ProvisioningReceipt};
use ioi_kernel::service::TxContext;
use ioi_kernel::state::StateMap;

fn specs() -> ComputeSpecs {
    ComputeSpecs { provider_type: "bare-metal".to_string(), capability_id: "gpu-h100".to_string(), region: "eu".to_string() }
}

#[test]
fn decimal_keys() {
    assert_eq!(ticket_key(0), b"tickets::0".to_vec());
    assert_eq!(ticket_key(42), b"tickets::42".to_vec());
    assert_eq!(ticket_key(u64::MAX), format!("tickets::{}", u64::MAX).into_bytes());
    let mut v = b"x".to_vec();
    push_decimal(&mut v, 1907);
    assert_eq!(v, b"x1907".to_vec());
}

#[test]
fn ticket_encoding() {
    let t = JobTicket { request_id: 1, owner: [3u8; 32], specs: specs(), max_bid: 1000, expiry_height: 610, security_tier: 1, nonce: 0 };
    let mut expected = 1u64.to_le_bytes().to_vec();
    expected.extend_from_slice(&[3u8; 32]);
    for s in ["bare-metal", "gpu-h100", "eu"] {
        expected.push((s.len() as u8) * 4);
        expected.extend_from_slice(s.as_bytes());
    }
    expected.extend_from_slice(&1000u64.to_le_bytes());
    expected.extend_from_slice(&610u64.to_le_bytes());
    expected.push(1);
    expected.extend_from_slice(&0u64.to_le_bytes());
    assert_eq!(ticket_to_bytes(&t), expected);
}

#[test]
fn requests_take_fresh_ids() {
    let svc = ComputeMarketService;
    let mut st = StateMap::new();
    let ctx = TxContext { signer_account_id: [3u8; 32], block_height: 10, block_timestamp_ns: 0 };
    assert_eq!(svc.request_task(&mut st, specs(), &ctx), Ok(()));
    assert_eq!(st.get(b"compute::next_id"), Some(2u64.to_le_bytes().to_vec()));
    let t1 = JobTicket { request_id: 1, owner: [3u8; 32], specs: specs(), max_bid: 1000, expiry_height: 610, security_tier: 1, nonce: 0 };
    assert_eq!(st.get(b"tickets::1"), Some(ticket_to_bytes(&t1)));
    assert_eq!(svc.request_task(&mut st, specs(), &ctx), Ok(()));
    assert_eq!(st.get(b"compute::next_id"), Some(3u64.to_le_bytes().to_vec()));
    assert!(st.get(b"tickets::2").is_some());

    let receipt = ProvisioningReceipt {
        request_id: 1,
        ticket_root: [0u8; 32],
        provider_id: vec![1],
        endpoint_uri: "u".to_string(),
        instance_id: "i".to_string(),
        provider_signature: vec![],
    };
    assert_eq!(svc.finalize_provisioning(&mut st, receipt, &ctx), Ok(()));
    assert_eq!(st.get(b"tickets::1"), None);
    assert!(st.get(b"tickets::2").is_some());
}
