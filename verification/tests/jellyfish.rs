use ioi_kernel::jellyfish::NibblePath;

#[test]
fn nibbles_of_a_key() {
    let p = NibblePath::new(&[0xab, 0xcd]);
    assert_eq!(p.get_nibble(0), 0xa);
    assert_eq!(p.get_nibble(1), 0xb);
    assert_eq!(p.get_nibble(2), 0xc);
    assert_eq!(p.get_nibble(3), 0xd);
    assert_eq!(p.get_nibble(4), 0);
    assert_eq!(p.get_nibble(100), 0);
}

#[test]
fn common_prefix_counts_shared_nibbles() {
    let a = NibblePath::new(&[0xab, 0xcd]);
    let b = NibblePath::new(&[0xab, 0xc0, 0x11]);
    assert_eq!(a.common_prefix(&b), 3);
    assert_eq!(a.common_prefix(&a), 4);
    let c = NibblePath::new(&[0x1b]);
    assert_eq!(a.common_prefix(&c), 0);
    let empty = NibblePath::new(&[]);
    assert_eq!(a.common_prefix(&empty), 0);
}

#[test]
fn long_keys_keep_thirty_two_bytes() {
    let key: Vec<u8> = (0u8..40).collect();
    let p = NibblePath::new(&key);
    assert_eq!(p.get_nibble(63), 31 & 0x0f);
    assert_eq!(p.get_nibble(64), 0);
}
