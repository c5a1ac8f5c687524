use ioi_kernel::codec::{push_scale_bytes, push_scale_str, read_scale_bytes, read_scale_string};

#[test]
fn compact_length_modes() {
    let mut out = Vec::new();
    push_scale_bytes(&mut out, &[7u8; 3]);
    assert_eq!(out, vec![12, 7, 7, 7]);
    let mut out = Vec::new();
    push_scale_bytes(&mut out, &vec![0u8; 64]);
    assert_eq!(&out[..2], &[0x01, 0x01]);
    assert_eq!(out.len(), 66);
    let mut out = Vec::new();
    push_scale_bytes(&mut out, &vec![0u8; 0x4000]);
    assert_eq!(&out[..4], &[0x02, 0x00, 0x01, 0x00]);
    let mut out = Vec::new();
    push_scale_str(&mut out, "hé");
    assert_eq!(out, vec![12, b'h', 0xc3, 0xa9]);
}

#[test]
fn reading_back() {
    let mut out = Vec::new();
    push_scale_bytes(&mut out, b"abc");
    out.extend_from_slice(b"rest");
    let (v, rest) = read_scale_bytes(&out).unwrap();
    assert_eq!(v, b"abc".to_vec());
    assert_eq!(rest, b"rest");
    assert!(read_scale_bytes(&[12, 1, 2]).is_none());
    // A two-byte form for a value that fits one byte is not canonical.
    assert!(read_scale_bytes(&[0x05, 0x00, 9]).is_none());
    let (s, rest) = read_scale_string(&[8, b'o', b'k']).unwrap();
    assert_eq!(s, "ok");
    assert!(rest.is_empty());
    assert!(read_scale_string(&[4, 0xff]).is_none());
}
