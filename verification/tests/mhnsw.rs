use ioi_kernel::mhnsw::GraphNode;

#[test]
fn new_node_layout() {
    let n = GraphNode::new(7, vec![1.0f32.to_bits(), 0x0102_0304], b"chunk".to_vec(), 3);
    assert_eq!(n.id, 7);
    let mut v = 1.0f32.to_bits().to_le_bytes().to_vec();
    v.extend_from_slice(&[4, 3, 2, 1]);
    assert_eq!(n.vector, v);
    assert_eq!(n.neighbors, vec![Vec::<u64>::new(); 3]);
    assert_eq!(n.hash, [0u8; 32]);
}

#[test]
fn hash_ignores_neighbor_order() {
    let mut a = GraphNode::new(1, vec![3, 4], b"p".to_vec(), 2);
    a.neighbors[0] = vec![5, 2, 9];
    a.neighbors[1] = vec![8];
    let mut b = a.clone();
    b.neighbors[0] = vec![9, 5, 2];
    a.compute_hash();
    b.compute_hash();
    assert_eq!(a.hash, b.hash);
    let hex: String = a.hash.iter().map(|x| format!("{:02x}", x)).collect();
    assert_eq!(hex, "c11cde3df2257f3588d5cf9839c5412379b22d654de0b9e8def09bcb9644b039");
    let mut c = a.clone();
    c.neighbors[1] = vec![7];
    c.compute_hash();
    assert_ne!(a.hash, c.hash);
}
