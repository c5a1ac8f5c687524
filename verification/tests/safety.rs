use ioi_kernel::safety::detect_pii;

#[test]
fn detect_pii_finds_a_long_key() {
    // "key: " is 5 bytes; the key runs 32 bytes from its prefix.
    let text = format!("key: sk_live_{} end", "x".repeat(24));
    assert_eq!(text.len(), 5 + 8 + 24 + 4);
    let found = detect_pii(&text);
    assert_eq!(found, vec![(5usize, 37usize, "API_KEY".to_string())]);
}

#[test]
fn detect_pii_cuts_a_key_at_the_end_of_the_text() {
    let text = "x sk_live_abc";
    let found = detect_pii(text);
    assert_eq!(found, vec![(2usize, 13usize, "API_KEY".to_string())]);
}

#[test]
fn detect_pii_reports_each_key_in_order() {
    let text = "sk_live_a and sk_live_b";
    let found = detect_pii(text);
    assert_eq!(
        found,
        vec![
            (0usize, 23usize, "API_KEY".to_string()),
            (14usize, 23usize, "API_KEY".to_string()),
        ]
    );
}

#[test]
fn detect_pii_does_not_overlap_matches() {
    // "sk_live_sk_live_": the second marker starts right after the first.
    let text = "sk_live_sk_live_";
    let found = detect_pii(text);
    assert_eq!(
        found,
        vec![
            (0usize, 16usize, "API_KEY".to_string()),
            (8usize, 16usize, "API_KEY".to_string()),
        ]
    );
}

#[test]
fn detect_pii_finds_nothing_in_plain_text() {
    assert!(detect_pii("no secrets here, sk_test_123").is_empty());
    assert!(detect_pii("").is_empty());
    assert!(detect_pii("sk_live").is_empty());
}

#[test]
fn detect_pii_counts_bytes_of_multibyte_text() {
    // "é" is two bytes, so the key starts at byte 3.
    let text = "é sk_live_";
    let found = detect_pii(text);
    assert_eq!(found, vec![(3usize, 11usize, "API_KEY".to_string())]);
}
