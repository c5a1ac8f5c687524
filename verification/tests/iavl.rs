use ioi_kernel::iavl::{
    canonical_leaf_op, compute_root_from_existence, hash_inner, hash_leaf, lexicographical_successor,
    verify_iavl_proof, ExistenceProof, IAVLNode, IavlProof, InnerOp, NonExistenceProof, ProofError, Side,
};

fn hex(b: &[u8]) -> String {
    b.iter().map(|x| format!("{:02x}", x)).collect()
}

#[test]
fn successor_increments_last_non_ff_byte() {
    assert_eq!(lexicographical_successor(b"abc"), Some(b"abd".to_vec()));
    assert_eq!(lexicographical_successor(&[0x01, 0xff, 0xff]), Some(vec![0x02]));
    assert_eq!(lexicographical_successor(&[0xff, 0xff]), None);
    assert_eq!(lexicographical_successor(&[]), None);
}

#[test]
fn canonical_leaf_hash_vector() {
    let op = canonical_leaf_op();
    let h = hash_leaf(&op, b"key1", b"value1").unwrap();
    assert_eq!(hex(&h), "a44d3cc7daba1a4600b00a2434b30f8b970652169810d6dfa9fb1793a2189324");
    let node = IAVLNode::new_leaf(b"key1".to_vec(), b"value1".to_vec(), 7).unwrap();
    assert_eq!(node.hash, h);
    assert!(node.is_leaf());
    assert_eq!(node.version, 7);
    assert_eq!(node.size, 1);
    assert_eq!(node.height, 0);
}

fn leaf_proof(key: &[u8], value: &[u8], path: Vec<InnerOp>) -> ExistenceProof {
    ExistenceProof { key: key.to_vec(), value: value.to_vec(), leaf: canonical_leaf_op(), path }
}

#[test]
fn single_leaf_existence_proof_verifies() {
    let root = hash_leaf(&canonical_leaf_op(), b"key1", b"value1").unwrap();
    let p = IavlProof::Existence(leaf_proof(b"key1", b"value1", vec![]));
    assert_eq!(verify_iavl_proof(&root, b"key1", Some(b"value1"), &p), Ok(true));
    // A different claimed value is refused before any hashing.
    assert_eq!(verify_iavl_proof(&root, b"key1", Some(b"other"), &p), Err(ProofError::InvalidExistence));
    // A wrong root is a mismatch.
    assert_eq!(verify_iavl_proof(&[0u8; 32], b"key1", Some(b"value1"), &p), Err(ProofError::RootMismatch));
    // An existence proof does not prove absence.
    assert_eq!(verify_iavl_proof(&root, b"key1", None, &p), Ok(false));
}

#[test]
fn two_leaf_tree_proofs() {
    let op = canonical_leaf_op();
    let l1 = hash_leaf(&op, b"key1", b"value1").unwrap();
    let l3 = hash_leaf(&op, b"key3", b"value3").unwrap();
    let inner = InnerOp { version: 1, height: 1, size: 2, split_key: b"key1".to_vec(), side: Side::Right, sibling_hash: l3 };
    let root = hash_inner(&inner, &l1, &l3).unwrap();
    let p1 = leaf_proof(b"key1", b"value1", vec![inner.clone()]);
    assert_eq!(compute_root_from_existence(&p1), Ok(root));
    assert_eq!(verify_iavl_proof(&root, b"key1", Some(b"value1"), &IavlProof::Existence(p1.clone())), Ok(true));

    let right = InnerOp { side: Side::Left, sibling_hash: l1, ..inner.clone() };
    let p3 = leaf_proof(b"key3", b"value3", vec![right]);
    assert_eq!(verify_iavl_proof(&root, b"key3", Some(b"value3"), &IavlProof::Existence(p3.clone())), Ok(true));

    // key2 lies between key1 and key3.
    let absent = NonExistenceProof { missing_key: b"key2".to_vec(), left: Some(p1.clone()), right: Some(p3.clone()) };
    assert_eq!(verify_iavl_proof(&root, b"key2", None, &IavlProof::NonExistence(absent)), Ok(true));
    // Neighbours out of order do not prove absence.
    let bad = NonExistenceProof { missing_key: b"key2".to_vec(), left: Some(p3), right: Some(p1) };
    assert_eq!(verify_iavl_proof(&root, b"key2", None, &IavlProof::NonExistence(bad)), Ok(false));
}

#[test]
fn existence_root_starts_from_the_leaf_node_hash() {
    let leaf = IAVLNode::new_leaf(b"k".to_vec(), b"v".to_vec(), 0).unwrap().hash;
    let mut p = ExistenceProof { key: b"k".to_vec(), value: b"v".to_vec(), leaf: canonical_leaf_op(), path: vec![] };
    assert_eq!(compute_root_from_existence(&p), Ok(leaf));
    let op = InnerOp { version: 1, height: 1, size: 2, split_key: b"k".to_vec(), side: Side::Right, sibling_hash: [7u8; 32] };
    p.path = vec![op.clone()];
    assert_eq!(compute_root_from_existence(&p), hash_inner(&op, &leaf, &[7u8; 32]));
    let op_left = InnerOp { side: Side::Left, ..op };
    p.path = vec![op_left.clone()];
    assert_eq!(compute_root_from_existence(&p), hash_inner(&op_left, &[7u8; 32], &leaf));
}
