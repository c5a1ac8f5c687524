use ioi_kernel::bytes::{bytes_eq, bytes_lt};
use ioi_kernel::state::{to_vec, StateMap};

#[test]
fn read_after_write() {
    let mut st = StateMap::new();
    assert_eq!(st.get(b"a"), None);
    st.insert(b"a", b"1");
    st.insert(b"b", b"2");
    st.insert(b"a", b"3");
    assert_eq!(st.get(b"a"), Some(b"3".to_vec()));
    assert_eq!(st.get(b"b"), Some(b"2".to_vec()));
    st.delete(b"a");
    assert_eq!(st.get(b"a"), None);
    assert_eq!(st.get(b"b"), Some(b"2".to_vec()));
    st.delete(b"zz");
    assert_eq!(st.get(b"b"), Some(b"2".to_vec()));
}

#[test]
fn byte_helpers() {
    assert_eq!(to_vec(b"xy"), b"xy".to_vec());
    assert!(bytes_eq(b"ab", b"ab"));
    assert!(!bytes_eq(b"ab", b"abc"));
    assert!(bytes_lt(b"ab", b"abc"));
    assert!(bytes_lt(b"ab", b"b"));
    assert!(!bytes_lt(b"b", b"ab"));
    assert!(!bytes_lt(b"ab", b"ab"));
}
