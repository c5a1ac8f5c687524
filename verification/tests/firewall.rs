use ioi_kernel::firewall::{FirewallError, OutputNormaliser, SemanticFirewall};

fn hex(b: &[u8]) -> String {
    b.iter().map(|x| format!("{:02x}", x)).collect()
}

#[test]
fn test_canonicalization_determinism() {
    let json1 = r#"{"b": 1, "a": [2, 1]}"#;
    let json2 = r#"{  "a": [2, 1], "b": 1}"#; // Different whitespace and order

    let c1 = SemanticFirewall::canonicalize(json1).unwrap();
    let c2 = SemanticFirewall::canonicalize(json2).unwrap();

    assert_eq!(c1, c2, "Canonical output must be identical regardless of input formatting");

    // JCS implies keys are sorted: {"a":[2,1],"b":1}
    let s1 = String::from_utf8(c1).unwrap();
    assert!(s1.starts_with(r#"{"a""#));
}

#[test]
fn canonical_bytes_are_jcs() {
    let c = SemanticFirewall::canonicalize(r#"{ "z": true, "a": {"y": null, "b": "x"} }"#).unwrap();
    assert_eq!(String::from_utf8(c).unwrap(), r#"{"a":{"b":"x","y":null},"z":true}"#);
}

#[test]
fn canonicalize_rejects_non_json() {
    assert_eq!(SemanticFirewall::canonicalize("not json {"), Err(FirewallError::InvalidJson));
    assert_eq!(OutputNormaliser::normalise_and_hash("{]"), Err(FirewallError::InvalidJson));
}

#[test]
fn intent_hash_is_sha256() {
    let h = SemanticFirewall::compute_intent_hash(b"abc").unwrap();
    assert_eq!(hex(&h), "ba7816bf8f01cfea414140de5dae2223b00361a396177a9cb410ff61f20015ad");
    assert_eq!(SemanticFirewall::preflight_check(b"anything"), Ok(()));
}

#[test]
fn normalise_hashes_canonical_form() {
    let a = OutputNormaliser::normalise_and_hash(r#"{"b":1,"a":2}"#).unwrap();
    let b = OutputNormaliser::normalise_and_hash(r#"{ "a" : 2 , "b" : 1 }"#).unwrap();
    assert_eq!(a, b);
    assert_eq!(a.len(), 32);
    let direct = SemanticFirewall::compute_intent_hash(br#"{"a":2,"b":1}"#).unwrap();
    assert_eq!(a, direct.to_vec());
}
