//! Binary layout of the Sovereign Context Substrate (`.scs`) container: an
//! append-only log of frames with a table of contents at the end of the file,
//! found through a fixed 64-byte header.

use vstd::prelude::*;
use vstd::bytes::*;
use crate::bytes::{append_bytes, read_array};

verus! {

/// The version of the SCS file format.
pub const SCS_VERSION: u16 = 1;

/// The fixed size of the file header in bytes.
pub const HEADER_SIZE: u64 = 64;

/// The magic bytes `IOI-SCS!` that open every SCS file.
pub open spec fn spec_scs_magic() -> Seq<u8> {
    seq![73u8, 79u8, 73u8, 45u8, 83u8, 67u8, 83u8, 33u8]
}

/// The magic bytes `IOI-SCS!` that open every SCS file.
pub fn scs_magic() -> (m: [u8; 8])
    ensures
        m@ == spec_scs_magic(),
{
    let m: [u8; 8] = [73u8, 79u8, 73u8, 45u8, 83u8, 67u8, 83u8, 33u8];
    assert(m@ =~= spec_scs_magic());
    m
}

/// The header located at the very beginning of the .scs file.
#[derive(Debug, Clone, Copy)]
pub struct ScsHeader {
    /// Magic bytes "IOI-SCS!".
    pub magic: [u8; 8],
    /// Format version number.
    pub version: u16,
    /// Reserved for future flags.
    pub flags: u16,
    /// The unique Chain ID this store is associated with.
    pub chain_id: u32,
    /// The Account ID of the agent owning this store (32 bytes).
    pub owner_id: [u8; 32],
    /// The absolute file offset where the Table of Contents (TOC) begins.
    pub toc_offset: u64,
    /// The length of the TOC in bytes.
    pub toc_length: u64,
    /// Padding to reach 64 bytes.
    pub reserved: [u8; 8],
}

/// A unique identifier for a frame within the store.
pub type FrameId = u64;

/// Classifies the content of a frame.
#[derive(Debug, Clone, Copy, PartialEq, Eq, Structural)]
pub enum FrameType {
    /// A raw observation from the environment (e.g., Screenshot, DOM tree).
    Observation,
    /// An internal reasoning step or thought process.
    Thought,
    /// An action taken by the agent (e.g., Mouse Click, API call).
    Action,
    /// System metadata or checkpoints (e.g., Vector Index snapshot).
    System,
}

/// Metadata for a single unit of memory (a frame).
#[derive(Debug, Clone, Copy)]
pub struct Frame {
    /// Monotonically increasing ID.
    pub id: FrameId,
    /// The type of content in this frame.
    pub frame_type: FrameType,
    /// UNIX timestamp (ms) when this frame was captured.
    pub timestamp: u64,
    /// The block height of the blockchain at the time of capture.
    pub block_height: u64,
    /// The file offset where the raw payload begins.
    pub payload_offset: u64,
    /// The length of the payload in bytes.
    pub payload_length: u64,
    /// The Merkle root of the mHNSW vector index when this frame was committed.
    pub mhnsw_root: [u8; 32],
    /// SHA-256 checksum of the payload for integrity verification.
    pub checksum: [u8; 32],
    /// Whether the payload is encrypted at rest.
    pub is_encrypted: bool,
}

/// Metadata describing the embedded vector index.
#[derive(Debug, Clone, Copy)]
pub struct VectorIndexManifest {
    /// File offset where the serialized mHNSW graph begins.
    pub offset: u64,
    /// Length of the index data.
    pub length: u64,
    /// Number of vectors in the index.
    pub count: u64,
    /// The dimension of the vectors (e.g., 384, 768).
    pub dimension: u32,
    /// The Merkle root of the index.
    pub root_hash: [u8; 32],
}

/// The table of contents, stored at the end of the file.
#[derive(Debug, Clone)]
pub struct Toc {
    /// List of all frames in the store, sorted by ID.
    pub frames: Vec<Frame>,
    /// Metadata about the active mHNSW vector index segment.
    pub vector_index: Option<VectorIndexManifest>,
    /// Checksum of the TOC itself (to detect partial writes).
    pub checksum: [u8; 32],
}

/// Why a header could not be read.
#[derive(Debug, Clone, PartialEq, Eq)]
pub enum ScsFormatError {
    /// The first eight bytes are not `IOI-SCS!`.
    InvalidMagic,
    /// The header names a format version this library does not read.
    UnsupportedVersion(u16),
}

/// The 64-byte encoding of a header: magic, little-endian version, flags and
/// chain id, the owner id, then little-endian TOC offset and length. The
/// reserved field is not part of the 64 bytes.
pub open spec fn spec_header_bytes(h: ScsHeader) -> Seq<u8> {
    h.magic@ + spec_u16_to_le_bytes(h.version) + spec_u16_to_le_bytes(h.flags)
        + spec_u32_to_le_bytes(h.chain_id) + h.owner_id@ + spec_u64_to_le_bytes(h.toc_offset)
        + spec_u64_to_le_bytes(h.toc_length)
}

/// Why a 64-byte block is not a header, or `None` where it is one.
pub open spec fn spec_header_error(b: Seq<u8>) -> Option<ScsFormatError> {
    if b.subrange(0, 8) != spec_scs_magic() {
        Some(ScsFormatError::InvalidMagic)
    } else if spec_u16_from_le_bytes(b.subrange(8, 10)) != SCS_VERSION {
        Some(ScsFormatError::UnsupportedVersion(spec_u16_from_le_bytes(b.subrange(8, 10))))
    } else {
        None
    }
}

/// Whether `h` holds the fields that the block `b` encodes, with the standard
/// magic and zeroed reserved bytes.
pub open spec fn header_fields_from(h: ScsHeader, b: Seq<u8>) -> bool {
    &&& h.magic@ == spec_scs_magic()
    &&& h.version == spec_u16_from_le_bytes(b.subrange(8, 10))
    &&& h.flags == spec_u16_from_le_bytes(b.subrange(10, 12))
    &&& h.chain_id == spec_u32_from_le_bytes(b.subrange(12, 16))
    &&& h.owner_id@ == b.subrange(16, 48)
    &&& h.toc_offset == spec_u64_from_le_bytes(b.subrange(48, 56))
    &&& h.toc_length == spec_u64_from_le_bytes(b.subrange(56, 64))
    &&& h.reserved@ == Seq::new(8, |i: int| 0u8)
}

/// Writes `src` into `arr` starting at `pos`.
fn write_at<const N: usize>(arr: &mut [u8; N], pos: usize, src: &[u8])
    requires
        pos + src@.len() <= N,
    ensures
        final(arr)@ == old(arr)@.subrange(0, pos as int) + src@
            + old(arr)@.subrange(pos + src@.len(), N as int),
{
    let n = src.len();
    let ghost a0 = arr@;
    let mut i: usize = 0;
    while i < n
        invariant
            n == src@.len(),
            pos + n <= N,
            i <= n,
            arr@.len() == N,
            a0.len() == N,
            forall|j: int| 0 <= j < pos ==> arr@[j] == a0[j],
            forall|j: int| pos + n <= j < N ==> arr@[j] == a0[j],
            forall|j: int| 0 <= j < i ==> arr@[pos + j] == src@[j],
            forall|j: int| pos + i <= j < pos + n ==> arr@[j] == a0[j],
        decreases n - i,
    {
        arr[pos + i] = src[i];
        i = i + 1;
    }
    assert(arr@ =~= a0.subrange(0, pos as int) + src@ + a0.subrange(pos + n, N as int));
}

impl Default for ScsHeader {
    /// The header of a fresh store: standard magic and version, TOC right after the header.
    fn default() -> (h: Self)
        ensures
            h.magic@ == spec_scs_magic(),
            h.version == SCS_VERSION,
            h.flags == 0,
            h.chain_id == 0,
            h.owner_id@ == Seq::new(32, |i: int| 0u8),
            h.toc_offset == HEADER_SIZE,
            h.toc_length == 0,
            h.reserved@ == Seq::new(8, |i: int| 0u8),
    {
        let owner_id = [0u8; 32];
        let reserved = [0u8; 8];
        assert(owner_id@ =~= Seq::new(32, |i: int| 0u8));
        assert(reserved@ =~= Seq::new(8, |i: int| 0u8));
        Self {
            magic: scs_magic(),
            version: SCS_VERSION,
            flags: 0,
            chain_id: 0,
            owner_id,
            toc_offset: HEADER_SIZE,
            toc_length: 0,
            reserved,
        }
    }
}

impl ScsHeader {
    /// Serializes the header to its fixed 64-byte layout. The reserved field is
    /// not written.
    pub fn to_bytes(&self) -> (r: [u8; 64])
        ensures
            r@ == spec_header_bytes(*self),
    {
        let v = u16_to_le_bytes(self.version);
        let f = u16_to_le_bytes(self.flags);
        let c = u32_to_le_bytes(self.chain_id);
        let o = u64_to_le_bytes(self.toc_offset);
        let l = u64_to_le_bytes(self.toc_length);
        let mut packed: Vec<u8> = Vec::new();
        append_bytes(&mut packed, self.magic.as_slice());
        append_bytes(&mut packed, v.as_slice());
        append_bytes(&mut packed, f.as_slice());
        append_bytes(&mut packed, c.as_slice());
        append_bytes(&mut packed, self.owner_id.as_slice());
        append_bytes(&mut packed, o.as_slice());
        append_bytes(&mut packed, l.as_slice());
        assert(self.magic@.len() == 8 && self.owner_id@.len() == 32);
        assert(v@.len() == 2 && f@.len() == 2 && c@.len() == 4 && o@.len() == 8 && l@.len() == 8);
        assert(packed@ == self.magic@ + v@ + f@ + c@ + self.owner_id@ + o@ + l@);
        assert(packed@.len() == 64);
        let mut bytes = [0u8; 64];
        write_at(&mut bytes, 0, packed.as_slice());
        assert(bytes@ =~= spec_header_bytes(*self));
        bytes
    }

    /// Deserializes a header from its 64-byte layout: the magic and the version
    /// must match; the reserved bytes are not read.
    pub fn from_bytes(bytes: &[u8; 64]) -> (r: Result<Self, ScsFormatError>)
        ensures
            match r {
                Ok(h) => spec_header_error(bytes@) is None && header_fields_from(h, bytes@),
                Err(e) => spec_header_error(bytes@) == Some(e),
            },
    {
        let b = bytes.as_slice();
        let magic = scs_magic();
        let mut i: usize = 0;
        while i < 8
            invariant
                b@ == bytes@,
                b@.len() == 64,
                magic@ == spec_scs_magic(),
                i <= 8,
                forall|j: int| 0 <= j < i ==> b@[j] == magic@[j],
            decreases 8 - i,
        {
            if b[i] != magic[i] {
                assert(b@.subrange(0, 8)[i as int] != spec_scs_magic()[i as int]);
                return Err(ScsFormatError::InvalidMagic);
            }
            i = i + 1;
        }
        assert(b@.subrange(0, 8) =~= spec_scs_magic());
        let version = u16_from_le_bytes(vstd::slice::slice_subrange(b, 8, 10));
        if version != SCS_VERSION {
            return Err(ScsFormatError::UnsupportedVersion(version));
        }
        let flags = u16_from_le_bytes(vstd::slice::slice_subrange(b, 10, 12));
        let chain_id = u32_from_le_bytes(vstd::slice::slice_subrange(b, 12, 16));
        let owner_id: [u8; 32] = read_array(b, 16);
        let toc_offset = u64_from_le_bytes(vstd::slice::slice_subrange(b, 48, 56));
        let toc_length = u64_from_le_bytes(vstd::slice::slice_subrange(b, 56, 64));
        let reserved = [0u8; 8];
        assert(reserved@ =~= Seq::new(8, |i: int| 0u8));
        let h = Self { magic, version, flags, chain_id, owner_id, toc_offset, toc_length, reserved };
        assert(header_fields_from(h, bytes@));
        Ok(h)
    }
}

/// Law: reading back the bytes of a header with the standard magic and version
/// succeeds and gives every written field back; the reserved field comes back zeroed.
pub proof fn lemma_header_roundtrip(h: ScsHeader, back: ScsHeader)
    requires
        h.magic@ == spec_scs_magic(),
        h.version == SCS_VERSION,
        header_fields_from(back, spec_header_bytes(h)),
    ensures
        spec_header_error(spec_header_bytes(h)) is None,
        back.magic == h.magic,
        back.version == h.version,
        back.flags == h.flags,
        back.chain_id == h.chain_id,
        back.owner_id == h.owner_id,
        back.toc_offset == h.toc_offset,
        back.toc_length == h.toc_length,
        back.reserved@ == Seq::new(8, |i: int| 0u8),
{
    lemma_auto_spec_u16_to_from_le_bytes();
    lemma_auto_spec_u32_to_from_le_bytes();
    lemma_auto_spec_u64_to_from_le_bytes();
    let b = spec_header_bytes(h);
    assert(h.magic@.len() == 8 && h.owner_id@.len() == 32);
    assert(spec_u16_to_le_bytes(h.version).len() == 2);
    assert(spec_u16_to_le_bytes(h.flags).len() == 2);
    assert(spec_u32_to_le_bytes(h.chain_id).len() == 4);
    assert(spec_u64_to_le_bytes(h.toc_offset).len() == 8);
    assert(spec_u64_to_le_bytes(h.toc_length).len() == 8);
    assert(b.subrange(0, 8) =~= h.magic@);
    assert(b.subrange(8, 10) =~= spec_u16_to_le_bytes(h.version));
    assert(b.subrange(10, 12) =~= spec_u16_to_le_bytes(h.flags));
    assert(b.subrange(12, 16) =~= spec_u32_to_le_bytes(h.chain_id));
    assert(b.subrange(16, 48) =~= h.owner_id@);
    assert(b.subrange(48, 56) =~= spec_u64_to_le_bytes(h.toc_offset));
    assert(b.subrange(56, 64) =~= spec_u64_to_le_bytes(h.toc_length));
    assert(back.magic@ =~= h.magic@);
    assert(back.owner_id@ =~= h.owner_id@);
}

/// Law: a 64-byte block that reads as a header is exactly the encoding of the
/// header it reads as.
pub proof fn lemma_header_bytes_roundtrip(b: Seq<u8>, h: ScsHeader)
    requires
        b.len() == 64,
        spec_header_error(b) is None,
        header_fields_from(h, b),
    ensures
        spec_header_bytes(h) == b,
{
    lemma_auto_spec_u16_to_from_le_bytes();
    lemma_auto_spec_u32_to_from_le_bytes();
    lemma_auto_spec_u64_to_from_le_bytes();
    assert(spec_u16_to_le_bytes(spec_u16_from_le_bytes(b.subrange(8, 10))) == b.subrange(8, 10));
    assert(spec_u16_to_le_bytes(spec_u16_from_le_bytes(b.subrange(10, 12))) == b.subrange(10, 12));
    assert(spec_u32_to_le_bytes(spec_u32_from_le_bytes(b.subrange(12, 16))) == b.subrange(12, 16));
    assert(spec_u64_to_le_bytes(spec_u64_from_le_bytes(b.subrange(48, 56))) == b.subrange(48, 56));
    assert(spec_u64_to_le_bytes(spec_u64_from_le_bytes(b.subrange(56, 64))) == b.subrange(56, 64));
    assert(spec_header_bytes(h) =~= b);
}

} // verus!
