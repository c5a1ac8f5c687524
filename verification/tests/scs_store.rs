use dcrypt::algorithms::hash::{HashFunction, Sha256};
use ioi_kernel::scs_format::{FrameType, Toc, HEADER_SIZE};
use ioi_kernel::scs_store::{
    append_frame, commit_index, create_header, header_after_write, index_manifest, index_range, read_frame_payload,
    rebuild_visual_index, StoreConfig, StoreError, VectorIndexArtifact, VisualIndex,
};

fn sha(b: &[u8]) -> [u8; 32] {
    let d = <Sha256 as HashFunction>::digest(b).unwrap();
    let mut a = [0u8; 32];
    a.copy_from_slice(d.as_ref());
    a
}

fn empty_toc() -> Toc {
    Toc { frames: Vec::new(), vector_index: None, checksum: [0u8; 32] }
}

#[test]
fn a_new_store_has_its_toc_after_the_header() {
    let h = create_header(StoreConfig { chain_id: 7, owner_id: [3u8; 32] }, 11);
    assert_eq!(&h.magic, b"IOI-SCS!");
    assert_eq!(h.chain_id, 7);
    assert_eq!(h.owner_id, [3u8; 32]);
    assert_eq!(h.toc_offset, HEADER_SIZE);
    assert_eq!(h.toc_length, 11);
}

#[test]
fn frames_are_appended_where_the_toc_was() {
    let cfg = StoreConfig { chain_id: 1, owner_id: [0u8; 32] };
    let mut h = create_header(cfg, 10);
    let mut toc = empty_toc();
    let mut vis = VisualIndex::new();
    let id0 = append_frame(&mut toc, &mut vis, &h, FrameType::Observation, 5, 100, &[7u8; 20], [1u8; 32]).unwrap();
    assert_eq!(id0, 0);
    assert_eq!(toc.frames[0].checksum, sha(&[7u8; 20]));
    assert_eq!(vis.get(&sha(&[7u8; 20])), Some(0));
    assert_eq!(toc.frames[0].payload_offset, 64);
    assert_eq!(toc.frames[0].payload_length, 20);
    assert!(!toc.frames[0].is_encrypted);
    h = header_after_write(h, 20, 30);
    assert_eq!(h.toc_offset, 84);
    assert_eq!(h.toc_length, 30);
    let id1 = append_frame(&mut toc, &mut vis, &h, FrameType::Thought, 6, 101, b"hello", [1u8; 32]).unwrap();
    assert_eq!(toc.frames[1].payload_length, 5);
    assert_eq!(vis.get(&sha(b"hello")), Some(1));
    assert_eq!(id1, 1);
    assert_eq!(toc.frames[1].payload_offset, 84);
    assert_eq!(toc.frames[1].frame_type, FrameType::Thought);
}

#[test]
fn payload_ranges_are_checked() {
    let h = create_header(StoreConfig { chain_id: 1, owner_id: [0u8; 32] }, 10);
    let mut toc = empty_toc();
    let mut vis = VisualIndex::new();
    append_frame(&mut toc, &mut vis, &h, FrameType::Action, 0, 0, &[0u8; 20], [0u8; 32]).unwrap();
    assert_eq!(read_frame_payload(&toc, 0, 100), Ok((64, 84)));
    assert_eq!(read_frame_payload(&toc, 0, 84), Ok((64, 84)));
    assert_eq!(read_frame_payload(&toc, 0, 83), Err(StoreError::PayloadOutOfBounds));
    assert_eq!(read_frame_payload(&toc, 1, 100), Err(StoreError::FrameNotFound(1)));
}

#[test]
fn index_artifacts_are_recorded_and_located() {
    let mut toc = empty_toc();
    assert_eq!(index_range(&toc, 10), Ok(None));
    let art = VectorIndexArtifact { bytes: vec![1, 2, 3], count: 4, dimension: 384, root_hash: [5u8; 32] };
    let m = index_manifest(100, 50, &art);
    assert_eq!((m.offset, m.length, m.count, m.dimension, m.root_hash), (100, 50, 4, 384, [5u8; 32]));
    commit_index(&mut toc, m);
    assert_eq!(index_range(&toc, 150), Ok(Some((100, 150))));
    assert_eq!(index_range(&toc, 149), Err(StoreError::IndexOutOfBounds));
}

#[test]
fn the_visual_index_keeps_the_last_frame_per_checksum() {
    let h = create_header(StoreConfig { chain_id: 1, owner_id: [0u8; 32] }, 10);
    let mut toc = empty_toc();
    let mut vis = VisualIndex::new();
    append_frame(&mut toc, &mut vis, &h, FrameType::Observation, 0, 0, b"a", [0u8; 32]).unwrap();
    append_frame(&mut toc, &mut vis, &h, FrameType::Observation, 0, 0, b"b", [0u8; 32]).unwrap();
    append_frame(&mut toc, &mut vis, &h, FrameType::Observation, 0, 0, b"a", [0u8; 32]).unwrap();
    let v = rebuild_visual_index(&toc);
    assert_eq!(v.get(&sha(b"a")), Some(2));
    assert_eq!(v.get(&sha(b"b")), Some(1));
    assert_eq!(v.get(&[3u8; 32]), None);
    assert_eq!(vis.get(&sha(b"a")), Some(2));
    assert_eq!(vis.get(&sha(b"b")), Some(1));

    let mut w = VisualIndex::new();
    w.insert([4u8; 32], 7);
    w.insert([4u8; 32], 9);
    assert_eq!(w.get(&[4u8; 32]), Some(9));
}
