use ioi_kernel::scrubber::{scrub, RedactionType};

fn hex(b: &[u8]) -> String {
    b.iter().map(|x| format!("{:02x}", x)).collect()
}

#[test]
fn redacts_in_order_of_start() {
    let input = "key sk_live_abc and mail bob@x.io end";
    // Out of order on purpose; the scrub sorts by start.
    let detections = vec![(25, 33, "EMAIL".to_string()), (4, 15, "API_KEY".to_string())];
    let (out, map) = scrub(input, detections);
    assert_eq!(out, "key <REDACTED:API_KEY> and mail <REDACTED:EMAIL> end");
    assert_eq!(map.entries.len(), 2);
    let e0 = &map.entries[0];
    assert_eq!((e0.start_index, e0.end_index, e0.redaction_type), (4, 15, RedactionType::Secret));
    assert_eq!(hex(&e0.original_hash), "b2817799acd7f3337c32f967a7c4ca32a767c94190298bace3e0447120385c09");
    let e1 = &map.entries[1];
    assert_eq!((e1.start_index, e1.end_index, e1.redaction_type), (25, 33, RedactionType::Pii));
    assert_eq!(hex(&e1.original_hash), "cb6a7c1e41aa9eceedd3be53483640d69c40dd2d3ca3f754d50375356f87e94d");
}

#[test]
fn overlapping_detections_are_skipped() {
    let input = "0123456789";
    let detections = vec![(2, 6, "A".to_string()), (4, 8, "B".to_string()), (6, 7, "C".to_string())];
    let (out, map) = scrub(input, detections);
    assert_eq!(out, "01<REDACTED:A><REDACTED:C>789");
    assert_eq!(map.entries.len(), 2);
}

#[test]
fn stable_for_equal_starts() {
    let (out, map) = scrub("abcdef", vec![(1, 2, "X".to_string()), (1, 3, "Y".to_string())]);
    assert_eq!(out, "a<REDACTED:X>cdef");
    assert_eq!(map.entries.len(), 1);
    assert_eq!(map.entries[0].end_index, 2);
}

#[test]
fn nothing_detected() {
    let (out, map) = scrub("héllo", vec![]);
    assert_eq!(out, "héllo");
    assert!(map.entries.is_empty());
    let (out, _) = scrub("héllo", vec![(1, 3, "N".to_string())]);
    assert_eq!(out, "h<REDACTED:N>llo");
}
