use dcrypt::algorithms::hash::{HashFunction, Sha256};
use ioi_kernel::hash_commitment::{HashCommitmentScheme, Selector};
use ioi_kernel::jellyfish_tree::JellyfishMerkleTree;

fn tree() -> JellyfishMerkleTree {
    JellyfishMerkleTree::new(HashCommitmentScheme::new())
}

#[test]
fn new_tree_has_the_zero_root() {
    let t = tree();
    assert_eq!(t.root_commitment().0, vec![0u8; 32]);
    assert_eq!(t.get(b"k"), None);
}

#[test]
fn reads_and_writes_go_to_the_entries() {
    let mut t = tree();
    t.insert(b"a", b"1");
    t.insert(b"b", b"2");
    assert_eq!(t.get(b"a"), Some(b"1".to_vec()));
    t.delete(b"a");
    assert_eq!(t.get(b"a"), None);
    assert_eq!(t.get(b"b"), Some(b"2".to_vec()));
    // entries do not move the root
    assert_eq!(t.root_commitment().0, vec![0u8; 32]);
}

#[test]
fn batch_operations_on_entries() {
    let mut t = tree();
    t.batch_set(&[(b"x".to_vec(), b"1".to_vec()), (b"x".to_vec(), b"2".to_vec()), (b"y".to_vec(), b"3".to_vec())]);
    assert_eq!(
        t.batch_get(&[b"x".to_vec(), b"y".to_vec(), b"z".to_vec()]),
        vec![Some(b"2".to_vec()), Some(b"3".to_vec()), None]
    );
    t.batch_apply(&[(b"z".to_vec(), b"9".to_vec())], &[b"x".to_vec()]);
    assert_eq!(t.get(b"x"), None);
    assert_eq!(t.get(b"z"), Some(b"9".to_vec()));
    let mut found = t.prefix_scan(b"");
    found.sort();
    assert_eq!(found, vec![(b"y".to_vec(), b"3".to_vec()), (b"z".to_vec(), b"9".to_vec())]);
}

#[test]
fn commit_version_hashes_the_height() {
    let mut t = tree();
    let root = t.commit_version(7);
    let expected = Sha256::digest(&7u64.to_le_bytes()).unwrap();
    assert_eq!(root.to_vec(), expected.as_ref().to_vec());
    assert_eq!(t.root_commitment().0, root.to_vec());
}

#[test]
fn adopt_known_root_takes_only_32_bytes() {
    let mut t = tree();
    t.adopt_known_root(&[5u8; 31], 3);
    assert_eq!(t.root_commitment().0, vec![0u8; 32]);
    t.adopt_known_root(&[5u8; 32], 3);
    assert_eq!(t.root_commitment().0, vec![5u8; 32]);
}

#[test]
fn apply_batch_keeps_the_root_for_an_empty_batch() {
    let mut t = tree();
    t.adopt_known_root(&[5u8; 32], 3);
    let r = t.apply_batch_parallel(&[]);
    assert_eq!(r, [5u8; 32]);
    assert_eq!(t.root_commitment().0, vec![5u8; 32]);
}

#[test]
fn apply_batch_on_unknown_nodes_gives_the_empty_root() {
    let mut t = tree();
    t.adopt_known_root(&[5u8; 32], 3);
    let r = t.apply_batch_parallel(&[([1u8; 32], Some(b"v".to_vec())), ([2u8; 32], None)]);
    assert_eq!(r, [0u8; 32]);
    assert_eq!(t.root_commitment().0, vec![0u8; 32]);
}

#[test]
fn create_proof_carries_the_value_and_key() {
    let mut t = tree();
    t.insert(b"k", b"v");
    let p = t.create_proof(b"k");
    assert_eq!(p.value, b"v".to_vec());
    assert!(matches!(p.selector, Selector::Key(ref k) if k == b"k"));
    assert!(p.additional_data.is_empty());
    let q = t.create_proof(b"missing");
    assert!(q.value.is_empty());
}
