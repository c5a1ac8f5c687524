use ioi_kernel::iavl_tree::IAVLTree;

fn kv(k: &[u8], v: &[u8]) -> (Vec<u8>, Vec<u8>) {
    (k.to_vec(), v.to_vec())
}

#[test]
fn empty_tree_reads_nothing() {
    let tree = IAVLTree::new();
    assert_eq!(tree.get(b"key1"), None);
    assert_eq!(tree.node_count(), 0);
    assert!(tree.prefix_scan(b"").is_empty());
}

#[test]
fn insert_then_get_and_overwrite() {
    let mut tree = IAVLTree::new();
    tree.insert(b"key1", b"value1");
    tree.insert(b"key3", b"value3");
    assert_eq!(tree.get(b"key1"), Some(b"value1".to_vec()));
    assert_eq!(tree.get(b"key3"), Some(b"value3".to_vec()));
    assert_eq!(tree.get(b"key2"), None);
    // two leaves under one inner node
    assert_eq!(tree.node_count(), 3);
    tree.insert(b"key1", b"other");
    assert_eq!(tree.get(b"key1"), Some(b"other".to_vec()));
    assert_eq!(tree.node_count(), 3);
}

#[test]
fn sequential_inserts_stay_readable_and_balanced_in_size() {
    let mut tree = IAVLTree::new();
    for i in 0u8..7 {
        tree.insert(&[b'k', b'0' + i], &[i]);
    }
    // seven leaves and six inner nodes
    assert_eq!(tree.node_count(), 13);
    for i in 0u8..7 {
        assert_eq!(tree.get(&[b'k', b'0' + i]), Some(vec![i]));
    }
    let all = tree.prefix_scan(b"k");
    let keys: Vec<Vec<u8>> = all.iter().map(|(k, _)| k.clone()).collect();
    let expected: Vec<Vec<u8>> = (0u8..7).map(|i| vec![b'k', b'0' + i]).collect();
    assert_eq!(keys, expected);
}

#[test]
fn prefix_scan_is_sorted_and_limited_to_the_prefix() {
    let mut tree = IAVLTree::new();
    tree.insert(b"app/2", b"two");
    tree.insert(b"other", b"x");
    tree.insert(b"app/1", b"one");
    tree.insert(b"apq", b"y");
    let found = tree.prefix_scan(b"app/");
    assert_eq!(found, vec![kv(b"app/1", b"one"), kv(b"app/2", b"two")]);
    let everything = tree.prefix_scan(b"");
    assert_eq!(
        everything,
        vec![kv(b"app/1", b"one"), kv(b"app/2", b"two"), kv(b"apq", b"y"), kv(b"other", b"x")]
    );
}

#[test]
fn prefix_scan_of_all_ff_prefix_has_no_upper_bound() {
    let mut tree = IAVLTree::new();
    tree.insert(&[0xff, 0xff, 1], b"a");
    tree.insert(&[0xff, 0xfe], b"b");
    tree.insert(&[0xff, 0xff], b"c");
    let found = tree.prefix_scan(&[0xff, 0xff]);
    assert_eq!(found, vec![kv(&[0xff, 0xff], b"c"), kv(&[0xff, 0xff, 1], b"a")]);
}

#[test]
fn delete_of_a_leaf_key_removes_it() {
    let mut tree = IAVLTree::new();
    tree.insert(b"a", b"1");
    tree.insert(b"b", b"2");
    tree.insert(b"c", b"3");
    assert_eq!(tree.node_count(), 5);
    tree.delete(b"c");
    assert_eq!(tree.get(b"c"), None);
    assert_eq!(tree.get(b"a"), Some(b"1".to_vec()));
    assert_eq!(tree.get(b"b"), Some(b"2".to_vec()));
    // the inner node over b and c keeps b as its only child
    assert_eq!(tree.node_count(), 4);
    assert_eq!(tree.prefix_scan(b""), vec![kv(b"a", b"1"), kv(b"b", b"2")]);
}

#[test]
fn delete_of_an_absent_key_changes_nothing() {
    let mut tree = IAVLTree::new();
    tree.insert(b"a", b"1");
    tree.insert(b"c", b"3");
    tree.delete(b"b");
    assert_eq!(tree.node_count(), 3);
    assert_eq!(tree.prefix_scan(b""), vec![kv(b"a", b"1"), kv(b"c", b"3")]);
}

#[test]
fn delete_of_a_split_key_replaces_the_node_by_its_successor() {
    // "a" is both a leaf and the split key of the root: the root is rebuilt
    // from the smallest node of its right subtree ("b"), which leaves the
    // tree, while the leaf "a" stays reachable.
    let mut tree = IAVLTree::new();
    tree.insert(b"a", b"1");
    tree.insert(b"b", b"2");
    tree.delete(b"a");
    assert_eq!(tree.get(b"a"), Some(b"1".to_vec()));
    assert_eq!(tree.node_count(), 2);
}

#[test]
fn batch_operations() {
    let mut tree = IAVLTree::new();
    tree.batch_set(&[kv(b"x", b"1"), kv(b"y", b"2"), kv(b"x", b"3")]);
    let got = tree.batch_get(&[b"x".to_vec(), b"y".to_vec(), b"z".to_vec()]);
    assert_eq!(got, vec![Some(b"3".to_vec()), Some(b"2".to_vec()), None]);
    tree.batch_apply(&[kv(b"z", b"9")], &[b"y".to_vec()]);
    assert_eq!(tree.get(b"y"), None);
    assert_eq!(tree.get(b"z"), Some(b"9".to_vec()));
    assert_eq!(tree.get(b"x"), Some(b"3".to_vec()));
}

#[test]
fn begin_block_writes_keeps_the_entries() {
    let mut tree = IAVLTree::new();
    tree.insert(b"k", b"v");
    tree.begin_block_writes(7);
    tree.insert(b"m", b"w");
    assert_eq!(tree.get(b"k"), Some(b"v".to_vec()));
    assert_eq!(tree.get(b"m"), Some(b"w".to_vec()));
}
