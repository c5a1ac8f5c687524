use ioi_kernel::kzg::{KZGCommitment, KZGWitness};
use ioi_kernel::verkle::{get_from_node, update_node, VerkleError, VerkleNode};

fn counting_commit(cs: &Vec<(u8, VerkleNode)>) -> Result<(KZGCommitment, KZGWitness), String> {
    let mut tag: Vec<u8> = vec![cs.len() as u8];
    tag.extend(cs.iter().map(|c| c.0));
    Ok((KZGCommitment(tag), KZGWitness { coeffs: vec![], srs_id: [7u8; 32] }))
}

fn refusing_commit(_cs: &Vec<(u8, VerkleNode)>) -> Result<(KZGCommitment, KZGWitness), String> {
    Err("no srs".to_string())
}

#[test]
fn set_values_are_read_back_and_removed_ones_are_gone() {
    let c = counting_commit;
    let t = update_node(VerkleNode::Empty, &[1, 2], Some(&[9]), 0, 5, &c).unwrap();
    match &t {
        VerkleNode::Internal { children, kzg_commitment, created_at, .. } => {
            assert_eq!(children.len(), 1);
            assert_eq!(children[0].0, 1);
            assert_eq!(kzg_commitment.0, vec![1, 1]);
            assert_eq!(*created_at, 5);
        }
        other => panic!("expected an internal root, got {:?}", other),
    }
    assert_eq!(get_from_node(&t, &[1, 2], 0), Some(vec![9]));
    let t = update_node(t, &[1, 3], Some(&[8]), 0, 6, &c).unwrap();
    assert_eq!(get_from_node(&t, &[1, 2], 0), Some(vec![9]));
    assert_eq!(get_from_node(&t, &[1, 3], 0), Some(vec![8]));
    assert_eq!(get_from_node(&t, &[1, 4], 0), None);
    let t = update_node(t, &[1, 2], Some(&[10]), 0, 7, &c).unwrap();
    assert_eq!(get_from_node(&t, &[1, 2], 0), Some(vec![10]));
    let t = update_node(t, &[1, 2], None, 0, 8, &c).unwrap();
    assert_eq!(get_from_node(&t, &[1, 2], 0), None);
    assert_eq!(get_from_node(&t, &[1, 3], 0), Some(vec![8]));
    let t = update_node(t, &[1, 3], None, 0, 9, &c).unwrap();
    assert!(matches!(t, VerkleNode::Empty));
}

#[test]
fn a_leaf_in_the_way_is_split_under_its_byte() {
    let c = counting_commit;
    let leaf = VerkleNode::Leaf { key: vec![5, 1], value: vec![1], created_at: 0 };
    let t = update_node(leaf, &[6, 2], Some(&[2]), 0, 3, &c).unwrap();
    assert_eq!(get_from_node(&t, &[5, 1], 0), Some(vec![1]));
    assert_eq!(get_from_node(&t, &[6, 2], 0), Some(vec![2]));
    match &t {
        VerkleNode::Internal { children, kzg_commitment, .. } => {
            assert_eq!(children.len(), 2);
            assert_eq!(kzg_commitment.0, vec![2, 5, 6]);
        }
        other => panic!("expected an internal node, got {:?}", other),
    }
    // Where both keys share the byte, the new leaf takes the place.
    let leaf = VerkleNode::Leaf { key: vec![5, 1], value: vec![1], created_at: 0 };
    let t = update_node(leaf, &[5, 2], Some(&[2]), 0, 3, &c).unwrap();
    assert_eq!(get_from_node(&t, &[5, 2], 0), Some(vec![2]));
    assert_eq!(get_from_node(&t, &[5, 1], 0), None);
}

#[test]
fn updates_fail_on_short_leaf_keys_and_refused_commitments() {
    let c = counting_commit;
    let leaf = VerkleNode::Leaf { key: vec![], value: vec![1], created_at: 0 };
    match update_node(leaf, &[1], Some(&[2]), 0, 1, &c) {
        Err(VerkleError::LeafKeyTooShort(d)) => assert_eq!(d, 0),
        other => panic!("unexpected {:?}", other),
    }
    let r = update_node(VerkleNode::Empty, &[1], Some(&[2]), 0, 1, &refusing_commit);
    match r {
        Err(VerkleError::Commitment(m)) => assert_eq!(m, "no srs"),
        other => panic!("unexpected {:?}", other),
    }
    // A key already exhausted at this depth replaces the node with a leaf.
    let t = update_node(VerkleNode::Empty, &[4], Some(&[3]), 1, 2, &refusing_commit).unwrap();
    assert_eq!(get_from_node(&t, &[4], 1), Some(vec![3]));
}
