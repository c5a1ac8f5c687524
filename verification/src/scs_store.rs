//! The bookkeeping of a Sovereign Context Store file: where a new frame's
//! payload goes, how the table of contents and the header follow each write,
//! which byte range a frame occupies, and the index of frames by checksum.
//! Reading, writing and serializing the file happen outside the library.

use vstd::prelude::*;
use crate::bytes::{bytes_eq, read_array};
use crate::crypto::{sha256, sha256_accepts, sha256_spec};
use crate::scs_format::{Frame, FrameId, FrameType, ScsHeader, Toc, VectorIndexManifest, HEADER_SIZE};

verus! {

/// Configuration for creating a store.
#[derive(Debug, Clone, Copy)]
pub struct StoreConfig {
    /// The Chain ID associated with this store.
    pub chain_id: u32,
    /// The Account ID of the owner agent.
    pub owner_id: [u8; 32],
}

/// A serialized vector index, ready to be written to the file.
#[derive(Debug, Clone)]
pub struct VectorIndexArtifact {
    /// The serialized index graph.
    pub bytes: Vec<u8>,
    /// The number of vectors in the index.
    pub count: u64,
    /// The dimension of the vectors.
    pub dimension: u32,
    /// The Merkle root of the index.
    pub root_hash: [u8; 32],
}

/// Why a store operation is refused.
#[derive(Debug, Clone, Copy, PartialEq, Eq, Structural)]
pub enum StoreError {
    /// No frame has the id.
    FrameNotFound(FrameId),
    /// The frame's payload lies beyond the end of the file.
    PayloadOutOfBounds,
    /// The index artifact lies beyond the end of the file.
    IndexOutOfBounds,
    /// The payload is too long to hash.
    Hashing,
}

/// The header of a new store: the default header with the configured chain
/// and owner, the empty table of contents right after the header.
pub fn create_header(config: StoreConfig, toc_length: u64) -> (h: ScsHeader)
    ensures
        h.chain_id == config.chain_id,
        h.owner_id == config.owner_id,
        h.toc_offset == HEADER_SIZE,
        h.toc_length == toc_length,
        h.magic@ == crate::scs_format::spec_scs_magic(),
        h.version == crate::scs_format::SCS_VERSION,
        h.flags == 0,
        h.reserved@ == Seq::new(8, |i: int| 0u8),
{
    let mut h = ScsHeader::default();
    h.chain_id = config.chain_id;
    h.owner_id = config.owner_id;
    h.toc_offset = HEADER_SIZE;
    h.toc_length = toc_length;
    h
}

/// The metadata of the next frame: the next id, its payload written where the
/// table of contents began, its checksum, unencrypted.
pub open spec fn spec_next_frame(toc: Toc, header: ScsHeader, frame_type: FrameType, timestamp: u64, block_height: u64,
    payload_length: u64, mhnsw_root: [u8; 32], checksum: [u8; 32]) -> Frame
{
    Frame {
        id: toc.frames@.len() as u64,
        frame_type,
        timestamp,
        block_height,
        payload_offset: header.toc_offset,
        payload_length,
        mhnsw_root,
        checksum,
        is_encrypted: false,
    }
}

/// Appends a frame: its payload goes where the old table of contents began
/// (the new table follows the payload), its checksum is the SHA-256 of the
/// payload, its metadata joins the table of contents, and the visual index
/// maps the checksum to the new frame. The new frame's id is returned. A
/// payload too long to hash changes nothing.
pub fn append_frame(
    toc: &mut Toc,
    visual: &mut VisualIndex,
    header: &ScsHeader,
    frame_type: FrameType,
    timestamp: u64,
    block_height: u64,
    payload: &[u8],
    mhnsw_root: [u8; 32],
) -> (r: Result<FrameId, StoreError>)
    requires
        old(toc).frames@.len() < u64::MAX,
    ensures
        !sha256_accepts(payload@) ==> r == Err::<FrameId, StoreError>(StoreError::Hashing)
            && *final(toc) == *old(toc) && final(visual).view() == old(visual).view(),
        sha256_accepts(payload@) ==> {
            &&& r == Ok::<FrameId, StoreError>(old(toc).frames@.len() as u64)
            &&& final(toc).frames@.len() == old(toc).frames@.len() + 1
            &&& final(toc).frames@.last().checksum@ == sha256_spec(payload@)
            &&& final(toc).frames@ == old(toc).frames@.push(spec_next_frame(*old(toc), *header, frame_type, timestamp,
                block_height, payload@.len() as u64, mhnsw_root, final(toc).frames@.last().checksum))
            &&& final(visual).view() == old(visual).view().insert(final(toc).frames@.last().checksum,
                old(toc).frames@.len() as u64)
            &&& final(toc).vector_index == old(toc).vector_index
            &&& final(toc).checksum == old(toc).checksum
        },
{
    let digest = match sha256(payload) {
        Some(d) => d,
        None => return Err(StoreError::Hashing),
    };
    let checksum: [u8; 32] = read_array(digest.as_slice(), 0);
    assert(checksum@ =~= digest@);
    let id = toc.frames.len() as u64;
    let frame = Frame {
        id,
        frame_type,
        timestamp,
        block_height,
        payload_offset: header.toc_offset,
        payload_length: payload.len() as u64,
        mhnsw_root,
        checksum,
        is_encrypted: false,
    };
    toc.frames.push(frame);
    visual.insert(checksum, id);
    Ok(id)
}

/// The header after a write of `written` bytes where the table of contents
/// began, followed by a new table of `toc_length` bytes.
pub fn header_after_write(header: ScsHeader, written: u64, toc_length: u64) -> (h: ScsHeader)
    requires
        header.toc_offset + written <= u64::MAX,
    ensures
        h == (ScsHeader { toc_offset: (header.toc_offset + written) as u64, toc_length, ..header }),
{
    ScsHeader { toc_offset: header.toc_offset + written, toc_length, ..header }
}

/// The manifest of an index artifact written at `offset` in `length` bytes.
pub fn index_manifest(offset: u64, length: u64, artifact: &VectorIndexArtifact) -> (m: VectorIndexManifest)
    ensures
        m == (VectorIndexManifest { offset, length, count: artifact.count, dimension: artifact.dimension, root_hash: artifact.root_hash }),
{
    VectorIndexManifest { offset, length, count: artifact.count, dimension: artifact.dimension, root_hash: artifact.root_hash }
}

/// Records the index artifact in the table of contents.
pub fn commit_index(toc: &mut Toc, manifest: VectorIndexManifest)
    ensures
        final(toc).frames@ == old(toc).frames@,
        final(toc).vector_index == Some(manifest),
        final(toc).checksum == old(toc).checksum,
{
    toc.vector_index = Some(manifest);
}

/// The byte range of a frame's payload within a file of `file_len` bytes:
/// the frame must exist and its payload end within the file.
pub open spec fn spec_payload_range(toc: Toc, frame_id: FrameId, file_len: nat) -> Result<(nat, nat), StoreError> {
    if frame_id >= toc.frames@.len() {
        Err(StoreError::FrameNotFound(frame_id))
    } else {
        let f = toc.frames@[frame_id as int];
        let end = f.payload_offset + f.payload_length;
        if end > file_len {
            Err(StoreError::PayloadOutOfBounds)
        } else {
            Ok((f.payload_offset as nat, end as nat))
        }
    }
}

/// Finds the byte range of a frame's payload.
pub fn read_frame_payload(toc: &Toc, frame_id: FrameId, file_len: usize) -> (r: Result<(usize, usize), StoreError>)
    requires
        frame_id < toc.frames@.len() ==>
            toc.frames@[frame_id as int].payload_offset + toc.frames@[frame_id as int].payload_length <= usize::MAX,
    ensures
        match (r, spec_payload_range(*toc, frame_id, file_len as nat)) {
            (Ok((s, e)), Ok((s2, e2))) => s == s2 && e == e2,
            (Err(x), Err(y)) => x == y,
            _ => false,
        },
{
    if frame_id >= toc.frames.len() as u64 {
        return Err(StoreError::FrameNotFound(frame_id));
    }
    let f = toc.frames[frame_id as usize];
    let start = f.payload_offset as usize;
    let end = start + f.payload_length as usize;
    if end > file_len {
        return Err(StoreError::PayloadOutOfBounds);
    }
    Ok((start, end))
}

/// Where the index artifact lies in a file of `file_len` bytes: `None` where
/// the store has none yet (a new index is made), else its byte range, which
/// must end within the file.
pub open spec fn spec_index_range(toc: Toc, file_len: nat) -> Result<Option<(nat, nat)>, StoreError> {
    match toc.vector_index {
        None => Ok(None),
        Some(m) => if m.offset + m.length > file_len {
            Err(StoreError::IndexOutOfBounds)
        } else {
            Ok(Some((m.offset as nat, (m.offset + m.length) as nat)))
        },
    }
}

/// Finds the byte range of the stored index artifact, if any.
pub fn index_range(toc: &Toc, file_len: usize) -> (r: Result<Option<(usize, usize)>, StoreError>)
    requires
        toc.vector_index matches Some(m) ==> m.offset + m.length <= usize::MAX,
    ensures
        match (r, spec_index_range(*toc, file_len as nat)) {
            (Ok(Some((s, e))), Ok(Some((s2, e2)))) => s == s2 && e == e2,
            (Ok(None), Ok(None)) => true,
            (Err(x), Err(y)) => x == y,
            _ => false,
        },
{
    match &toc.vector_index {
        None => Ok(None),
        Some(m) => {
            let start = m.offset as usize;
            let end = start + m.length as usize;
            if end > file_len {
                Err(StoreError::IndexOutOfBounds)
            } else {
                Ok(Some((start, end)))
            }
        }
    }
}

/// The frames by checksum: each checksum maps to the last frame that has it.
pub open spec fn spec_visual(frames: Seq<Frame>) -> Map<[u8; 32], FrameId>
    decreases frames.len(),
{
    if frames.len() == 0 {
        Map::empty()
    } else {
        spec_visual(frames.drop_last()).insert(frames.last().checksum, frames.last().id)
    }
}

/// The index of frames by the checksum of their payload; each checksum occurs once.
pub struct VisualIndex {
    entries: Vec<([u8; 32], FrameId)>,
}

impl VisualIndex {
    #[verifier::type_invariant]
    spec fn wf(self) -> bool {
        forall|i: int, j: int| 0 <= i < j < self.entries@.len() ==> #[trigger] self.entries@[i].0 != #[trigger] self.entries@[j].0
    }

    /// The index as a map.
    pub closed spec fn view(&self) -> Map<[u8; 32], FrameId> {
        Map::new(
            |c: [u8; 32]| exists|i: int| 0 <= i < self.entries@.len() && self.entries@[i].0 == c,
            |c: [u8; 32]| {
                let i = choose|i: int| 0 <= i < self.entries@.len() && self.entries@[i].0 == c;
                self.entries@[i].1
            },
        )
    }

    /// An empty index.
    pub fn new() -> (v: Self)
        ensures
            v.view() == Map::<[u8; 32], FrameId>::empty(),
    {
        let v = VisualIndex { entries: Vec::new() };
        assert(v.view() =~= Map::<[u8; 32], FrameId>::empty());
        v
    }

    fn find(&self, checksum: &[u8; 32]) -> (r: Option<usize>)
        ensures
            match r {
                Some(i) => i < self.entries@.len() && self.entries@[i as int].0 == *checksum,
                None => forall|i: int| 0 <= i < self.entries@.len() ==> self.entries@[i].0 != *checksum,
            },
    {
        let n = self.entries.len();
        let mut i: usize = 0;
        while i < n
            invariant
                n == self.entries@.len(),
                i <= n,
                forall|j: int| 0 <= j < i ==> self.entries@[j].0 != *checksum,
            decreases n - i,
        {
            if bytes_eq(self.entries[i].0.as_slice(), checksum.as_slice()) {
                assert(self.entries@[i as int].0 =~= *checksum);
                return Some(i);
            }
            proof {
                if self.entries@[i as int].0 == *checksum {
                    assert(self.entries@[i as int].0@ == checksum@);
                }
            }
            i = i + 1;
        }
        None
    }

    /// The frame recorded for a checksum.
    pub fn get(&self, checksum: &[u8; 32]) -> (r: Option<FrameId>)
        ensures
            match r {
                Some(id) => self.view().contains_key(*checksum) && self.view()[*checksum] == id,
                None => !self.view().contains_key(*checksum),
            },
    {
        proof {
            use_type_invariant(self);
        }
        match self.find(checksum) {
            Some(i) => {
                let ghost c = *checksum;
                assert(self.view().contains_key(c));
                let ghost k = choose|j: int| 0 <= j < self.entries@.len() && self.entries@[j].0 == c;
                assert(k == i);
                Some(self.entries[i].1)
            }
            None => None,
        }
    }

    /// Records `id` for `checksum`, replacing an earlier frame.
    pub fn insert(&mut self, checksum: [u8; 32], id: FrameId)
        ensures
            final(self).view() == old(self).view().insert(checksum, id),
    {
        proof {
            use_type_invariant(&*self);
        }
        let ghost old_view = self.view();
        match self.find(&checksum) {
            Some(i) => {
                let mut entries: Vec<([u8; 32], FrameId)> = Vec::new();
                std::mem::swap(&mut entries, &mut self.entries);
                let ghost before = entries@;
                entries.set(i, (checksum, id));
                assert(forall|a: int, b: int|
                    0 <= a < b < entries@.len() ==> #[trigger] entries@[a].0 != #[trigger] entries@[b].0);
                self.entries = entries;
                proof {
                    let nv = self.view();
                    assert forall|c: [u8; 32]| #[trigger] nv.contains_key(c) == old_view.insert(checksum, id).contains_key(c) by {
                        if c != checksum && old_view.contains_key(c) {
                            let j = choose|j: int| 0 <= j < before.len() && before[j].0 == c;
                            assert(self.entries@[j].0 == c);
                        }
                        if nv.contains_key(c) && c != checksum {
                            let j = choose|j: int| 0 <= j < self.entries@.len() && self.entries@[j].0 == c;
                            assert(before[j].0 == c);
                        }
                        if c == checksum {
                            assert(self.entries@[i as int].0 == c);
                        }
                    }
                    assert forall|c: [u8; 32]| #[trigger] nv.contains_key(c) implies nv[c] == old_view.insert(checksum, id)[c] by {
                        let j = choose|j: int| 0 <= j < self.entries@.len() && self.entries@[j].0 == c;
                        if c == checksum {
                            assert(j == i);
                        } else {
                            let k = choose|k: int| 0 <= k < before.len() && before[k].0 == c;
                            assert(self.entries@[k].0 == c);
                            assert(k == j);
                        }
                    }
                    assert(nv =~= old_view.insert(checksum, id));
                }
            }
            None => {
                let mut entries: Vec<([u8; 32], FrameId)> = Vec::new();
                std::mem::swap(&mut entries, &mut self.entries);
                let ghost before = entries@;
                entries.push((checksum, id));
                assert(forall|a: int, b: int|
                    0 <= a < b < entries@.len() ==> #[trigger] entries@[a].0 != #[trigger] entries@[b].0);
                self.entries = entries;
                proof {
                    let nv = self.view();
                    assert forall|c: [u8; 32]| #[trigger] nv.contains_key(c) == old_view.insert(checksum, id).contains_key(c) by {
                        if c != checksum && old_view.contains_key(c) {
                            let j = choose|j: int| 0 <= j < before.len() && before[j].0 == c;
                            assert(self.entries@[j].0 == c);
                        }
                        if c == checksum {
                            assert(self.entries@[before.len() as int].0 == c);
                        }
                    }
                    assert forall|c: [u8; 32]| #[trigger] nv.contains_key(c) implies nv[c] == old_view.insert(checksum, id)[c] by {
                        let j = choose|j: int| 0 <= j < self.entries@.len() && self.entries@[j].0 == c;
                        if c == checksum {
                            assert(j == before.len());
                        } else {
                            let k = choose|k: int| 0 <= k < before.len() && before[k].0 == c;
                            assert(self.entries@[k].0 == c);
                            assert(k == j);
                        }
                    }
                    assert(nv =~= old_view.insert(checksum, id));
                }
            }
        }
    }
}

/// Rebuilds the index of frames by checksum from the table of contents, as
/// opening a store does.
pub fn rebuild_visual_index(toc: &Toc) -> (v: VisualIndex)
    ensures
        v.view() == spec_visual(toc.frames@),
{
    let mut v = VisualIndex::new();
    let n = toc.frames.len();
    let mut i: usize = 0;
    while i < n
        invariant
            n == toc.frames@.len(),
            i <= n,
            v.view() == spec_visual(toc.frames@.subrange(0, i as int)),
        decreases n - i,
    {
        let f = toc.frames[i];
        v.insert(f.checksum, f.id);
        assert(toc.frames@.subrange(0, i + 1).drop_last() =~= toc.frames@.subrange(0, i as int));
        i = i + 1;
    }
    assert(toc.frames@.subrange(0, n as int) =~= toc.frames@);
    v
}

/// The index stays the index of the table of contents as frames are appended:
/// recording a new frame's checksum gives the index of the longer table.
pub proof fn lemma_visual_append(frames: Seq<Frame>, f: Frame)
    ensures
        spec_visual(frames.push(f)) == spec_visual(frames).insert(f.checksum, f.id),
{
    assert(frames.push(f).drop_last() =~= frames);
}

} // verus!
