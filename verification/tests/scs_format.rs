use ioi_kernel::scs_format::{ScsHeader, ScsFormatError, HEADER_SIZE, SCS_VERSION, scs_magic};

#[test]
fn header_default_values() {
    let h = ScsHeader::default();
    assert_eq!(&h.magic, b"IOI-SCS!");
    assert_eq!(h.version, SCS_VERSION);
    assert_eq!(h.toc_offset, HEADER_SIZE);
    assert_eq!(h.toc_length, 0);
}

#[test]
fn header_roundtrip() {
    let mut h = ScsHeader::default();
    h.flags = 0x0102;
    h.chain_id = 0xdeadbeef;
    h.owner_id = [7u8; 32];
    h.toc_offset = 1234;
    h.toc_length = 99;
    let b = h.to_bytes();
    assert_eq!(&b[0..8], b"IOI-SCS!");
    assert_eq!(&b[8..10], &[1, 0]);
    assert_eq!(&b[10..12], &[2, 1]);
    assert_eq!(&b[12..16], &[0xef, 0xbe, 0xad, 0xde]);
    let back = ScsHeader::from_bytes(&b).unwrap();
    assert_eq!(back.chain_id, h.chain_id);
    assert_eq!(back.owner_id, h.owner_id);
    assert_eq!(back.toc_offset, 1234);
    assert_eq!(back.toc_length, 99);
    assert_eq!(back.flags, 0x0102);
    assert_eq!(back.to_bytes(), b);
}

#[test]
fn header_bad_magic_and_version() {
    let mut b = ScsHeader::default().to_bytes();
    b[0] = b'X';
    assert_eq!(ScsHeader::from_bytes(&b).unwrap_err(), ScsFormatError::InvalidMagic);
    let mut b = ScsHeader::default().to_bytes();
    b[8] = 2;
    assert_eq!(ScsHeader::from_bytes(&b).unwrap_err(), ScsFormatError::UnsupportedVersion(2));
    assert_eq!(&scs_magic(), b"IOI-SCS!");
}
