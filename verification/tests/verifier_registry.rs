use dcrypt::algorithms::hash::{HashFunction, Sha256};
use ioi_kernel::keys::verifier_map_key;
use ioi_kernel::state::StateMap;
use ioi_kernel::verifier_registry::{
    decode_register_verifier_params, register_verifier, state_root_key, verified_kv_key, RegistryError,
};

fn sha(b: &[u8]) -> Vec<u8> {
    let d = <Sha256 as HashFunction>::digest(b).unwrap();
    d.as_ref().to_vec()
}

fn params(client_type: &str, artifact: &[u8]) -> Vec<u8> {
    let mut out = vec![(client_type.len() as u8) << 2];
    out.extend_from_slice(client_type.as_bytes());
    out.push((artifact.len() as u8) << 2);
    out.extend_from_slice(artifact);
    out
}

fn artifact_key(prefix: &[u8], artifact: &[u8]) -> Vec<u8> {
    let mut k = prefix.to_vec();
    k.extend_from_slice(&sha(artifact));
    k
}

#[test]
fn registration_stores_the_artifact_and_maps_the_client_type() {
    let prefix = b"upgrade::artifact::";
    let mut state = StateMap::new();
    let artifact = [0x00u8, 0x61, 0x73, 0x6d];
    assert_eq!(register_verifier(&mut state, prefix, &params("tendermint", &artifact)), Ok(()));
    assert_eq!(state.get(&verifier_map_key("tendermint")), Some(sha(&artifact)));
    assert_eq!(state.get(&artifact_key(prefix, &artifact)), Some(artifact.to_vec()));
    assert_eq!(verifier_map_key("tendermint"), b"ibc::verifier::tendermint".to_vec());
}

#[test]
fn an_artifact_already_stored_is_kept() {
    let prefix = b"upgrade::artifact::";
    let mut state = StateMap::new();
    let artifact = [7u8, 7, 7];
    state.insert(&artifact_key(prefix, &artifact), b"earlier");
    assert_eq!(register_verifier(&mut state, prefix, &params("eth", &artifact)), Ok(()));
    assert_eq!(state.get(&artifact_key(prefix, &artifact)), Some(b"earlier".to_vec()));
    assert_eq!(state.get(&verifier_map_key("eth")), Some(sha(&artifact)));
}

#[test]
fn undecodable_registration_is_refused_and_changes_nothing() {
    let prefix = b"upgrade::artifact::";
    let mut state = StateMap::new();
    let mut bytes = params("eth", &[1, 2]);
    bytes.push(0);
    assert_eq!(register_verifier(&mut state, prefix, &bytes), Err(RegistryError::Deserialization));
    assert_eq!(state.get(&verifier_map_key("eth")), None);
    assert!(decode_register_verifier_params(&[0x10, b'a']).is_none());
    let p = decode_register_verifier_params(&params("eth", &[1, 2])).unwrap();
    assert_eq!(p.client_type, "eth");
    assert_eq!(p.artifact, vec![1, 2]);
}

#[test]
fn header_and_value_keys_carry_the_chain_and_lowercase_hex() {
    let mut root = [0u8; 32];
    root[0] = 0xab;
    root[31] = 0x0f;
    let key = state_root_key("eth-mainnet", &root);
    let expected = format!("ibc::light_clients::eth-mainnet::state_root::{}", hex::encode(root));
    assert_eq!(key, expected.clone().into_bytes());
    let text = String::from_utf8(key).unwrap();
    assert!(text.ends_with(&format!("::state_root::ab{}0f", "0".repeat(60))));
    assert_eq!(verified_kv_key("eth-mainnet", &[0xde, 0xad, 0x01]), b"ibc::verified::kv::eth-mainnet::dead01".to_vec());
    assert_eq!(verified_kv_key("c", &[]), b"ibc::verified::kv::c::".to_vec());
}
