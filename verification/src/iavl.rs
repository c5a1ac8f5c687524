//! ICS-23 style proofs for the IAVL tree: the hashing rules for leaves and inner
//! nodes, root recomputation, the stateless verifier, and the leaf nodes of the tree.

use vstd::prelude::*;
use vstd::bytes::*;
use crate::bytes::{append_bytes, read_array, bytes_eq, bytes_lt, spec_lex_lt, lemma_lex_lt_first_difference};
use crate::crypto::{sha256, sha256_accepts, sha256_spec, encode_length_delimiter, varint_spec};

verus! {

/// Errors of proof verification.
#[derive(Debug, Clone, PartialEq, Eq)]
pub enum ProofError {
    /// A preimage could not be hashed.
    Crypto,
    /// An existence proof is for a different key/value pair.
    InvalidExistence,
    /// The recomputed root differs from the expected one, or the two neighbors
    /// of a non-existence proof imply different roots.
    RootMismatch,
}

/// The hash operation to apply to a key or value before concatenation.
#[derive(Debug, Clone, Copy, PartialEq, Eq, Structural)]
pub enum HashOp {
    /// Do not hash the data; use it directly.
    NoHash,
    /// Apply SHA-256 to the data.
    Sha256,
}

/// How the length of a key or value is encoded in the preimage.
#[derive(Debug, Clone, Copy, PartialEq, Eq, Structural)]
pub enum LengthOp {
    /// No length prefix is used.
    NoPrefix,
    /// A protobuf-style varint length prefix is used.
    VarProto,
}

/// Which side the sibling sits on in an inner step.
#[derive(Debug, Clone, Copy, PartialEq, Eq, Structural)]
pub enum Side {
    Left,
    Right,
}

/// How a leaf is hashed.
#[derive(Debug, Clone)]
pub struct LeafOp {
    pub hash: HashOp,
    pub prehash_key: HashOp,
    pub prehash_value: HashOp,
    pub length: LengthOp,
    pub prefix: Vec<u8>,
}

/// One step from a node to its parent.
#[derive(Debug, Clone)]
pub struct InnerOp {
    pub version: u64,
    pub height: i32,
    pub size: u64,
    pub split_key: Vec<u8>,
    pub side: Side,
    pub sibling_hash: [u8; 32],
}

/// A proof that `key` maps to `value`.
#[derive(Debug, Clone)]
pub struct ExistenceProof {
    pub key: Vec<u8>,
    pub value: Vec<u8>,
    pub leaf: LeafOp,
    pub path: Vec<InnerOp>,
}

/// A proof that `missing_key` is absent, through its neighbors.
#[derive(Debug, Clone)]
pub struct NonExistenceProof {
    pub missing_key: Vec<u8>,
    pub left: Option<ExistenceProof>,
    pub right: Option<ExistenceProof>,
}

/// An IAVL membership or non-membership proof.
#[derive(Debug, Clone)]
pub enum IavlProof {
    Existence(ExistenceProof),
    NonExistence(NonExistenceProof),
}

// ---------------------------------------------------------------------------
// Specification
// ---------------------------------------------------------------------------

/// SHA-256 of `data`, or `None` where it cannot be hashed.
pub open spec fn spec_sha(data: Seq<u8>) -> Option<Seq<u8>> {
    if sha256_accepts(data) { Some(sha256_spec(data)) } else { None }
}

/// `op` applied to `data`.
pub open spec fn spec_apply_hash(op: HashOp, data: Seq<u8>) -> Option<Seq<u8>> {
    match op {
        HashOp::NoHash => Some(data),
        HashOp::Sha256 => spec_sha(data),
    }
}

/// `data` with the length prefix that `op` asks for.
pub open spec fn spec_apply_length(op: LengthOp, data: Seq<u8>) -> Seq<u8> {
    match op {
        LengthOp::NoPrefix => data,
        LengthOp::VarProto => varint_spec(data.len()) + data,
    }
}

/// The preimage of a leaf hash: prefix, then the prehashed and length-prefixed
/// key and value.
pub open spec fn spec_leaf_preimage(leaf: LeafOp, key: Seq<u8>, value: Seq<u8>) -> Option<Seq<u8>> {
    match (spec_apply_hash(leaf.prehash_key, key), spec_apply_hash(leaf.prehash_value, value)) {
        (Some(hk), Some(hv)) => Some(leaf.prefix@ + spec_apply_length(leaf.length, hk)
            + spec_apply_length(leaf.length, hv)),
        _ => None,
    }
}

/// The hash of a leaf: SHA-256 of its preimage, whatever `leaf.hash` names.
pub open spec fn spec_hash_leaf(leaf: LeafOp, key: Seq<u8>, value: Seq<u8>) -> Option<Seq<u8>> {
    match spec_leaf_preimage(leaf, key, value) {
        Some(d) => spec_sha(d),
        None => None,
    }
}

/// The preimage of an inner hash:
/// `0x01 || version || height || size || len(key) || key || left || right`,
/// integers little-endian, the key length truncated to `u32`.
pub open spec fn spec_inner_preimage(op: InnerOp, left: Seq<u8>, right: Seq<u8>) -> Seq<u8> {
    seq![1u8] + spec_u64_to_le_bytes(op.version) + spec_u32_to_le_bytes(op.height as u32)
        + spec_u64_to_le_bytes(op.size) + spec_u32_to_le_bytes(op.split_key@.len() as u32)
        + op.split_key@ + left + right
}

/// The hash of an inner node.
pub open spec fn spec_hash_inner(op: InnerOp, left: Seq<u8>, right: Seq<u8>) -> Option<Seq<u8>> {
    spec_sha(spec_inner_preimage(op, left, right))
}

/// One step up the path from a node with hash `current`.
pub open spec fn spec_step(op: InnerOp, current: Seq<u8>) -> Option<Seq<u8>> {
    match op.side {
        Side::Left => spec_hash_inner(op, op.sibling_hash@, current),
        Side::Right => spec_hash_inner(op, current, op.sibling_hash@),
    }
}

/// The hash reached after the first `n` steps of the proof's path.
pub open spec fn spec_root_along(p: ExistenceProof, n: nat) -> Option<Seq<u8>>
    decreases n,
{
    if n == 0 {
        spec_hash_leaf(p.leaf, p.key@, p.value@)
    } else {
        match spec_root_along(p, (n - 1) as nat) {
            Some(h) => spec_step(p.path@[n - 1], h),
            None => None,
        }
    }
}

/// The root an existence proof implies.
pub open spec fn spec_root_from_existence(p: ExistenceProof) -> Result<Seq<u8>, ProofError> {
    match spec_root_along(p, p.path@.len()) {
        Some(h) => Ok(h),
        None => Err(ProofError::Crypto),
    }
}

/// The root a non-existence proof implies: the hash of the empty string for an
/// empty tree, else the root its neighbor(s) imply, which must agree.
pub open spec fn spec_root_from_non_existence(p: NonExistenceProof) -> Result<Seq<u8>, ProofError> {
    match (p.left, p.right) {
        (None, None) => match spec_sha(Seq::empty()) {
            Some(h) => Ok(h),
            None => Err(ProofError::Crypto),
        },
        (Some(l), None) => spec_root_from_existence(l),
        (None, Some(r)) => spec_root_from_existence(r),
        (Some(l), Some(r)) => match spec_root_from_existence(l) {
            Err(e) => Err(e),
            Ok(lr) => match spec_root_from_existence(r) {
                Err(e) => Err(e),
                Ok(rr) => {
                    if lr != rr { Err(ProofError::RootMismatch) } else { Ok(lr) }
                },
            },
        },
    }
}

/// The root a proof implies.
pub open spec fn spec_root_from_proof(prf: IavlProof) -> Result<Seq<u8>, ProofError> {
    match prf {
        IavlProof::Existence(p) => spec_root_from_existence(p),
        IavlProof::NonExistence(p) => spec_root_from_non_existence(p),
    }
}

/// Whether a non-existence proof's neighbors bracket its missing key in order.
pub open spec fn spec_neighbors_ordered(p: NonExistenceProof) -> bool {
    &&& (p.left matches Some(l) ==> spec_lex_lt(l.key@, p.missing_key@))
    &&& (p.right matches Some(r) ==> spec_lex_lt(p.missing_key@, r.key@))
    &&& (p.left matches Some(l) ==> p.right matches Some(r) ==> spec_lex_lt(l.key@, r.key@))
}

/// The outcome of verifying `proof` for `key` and `expected` against `root`.
pub open spec fn spec_verify_iavl_proof(
    root: Seq<u8>,
    key: Seq<u8>,
    expected: Option<Seq<u8>>,
    prf: IavlProof,
) -> Result<bool, ProofError> {
    let shape_ok: Result<bool, ProofError> = match (expected, prf) {
        (Some(val), IavlProof::Existence(p)) => {
            if p.key@ != key || p.value@ != val { Err(ProofError::InvalidExistence) } else { Ok(true) }
        },
        (None, IavlProof::NonExistence(p)) =>
            Ok(p.missing_key@ == key && spec_neighbors_ordered(p)),
        _ => Ok(false),
    };
    match shape_ok {
        Err(e) => Err(e),
        Ok(false) => Ok(false),
        Ok(true) => match spec_root_from_proof(prf) {
            Err(e) => Err(e),
            Ok(calculated) => {
                if calculated != root { Err(ProofError::RootMismatch) } else { Ok(true) }
            },
        },
    }
}

// ---------------------------------------------------------------------------
// Hashing rules
// ---------------------------------------------------------------------------

/// SHA-256 into a fixed array.
fn hash(data: &[u8]) -> (r: Result<[u8; 32], ProofError>)
    ensures
        match r {
            Ok(h) => spec_sha(data@) == Some(h@),
            Err(e) => e == ProofError::Crypto && spec_sha(data@) is None,
        },
{
    match sha256(data) {
        Some(d) => Ok(read_array(d.as_slice(), 0)),
        None => Err(ProofError::Crypto),
    }
}

fn apply_hash(op: HashOp, data: &[u8]) -> (r: Result<Vec<u8>, ProofError>)
    ensures
        match r {
            Ok(h) => spec_apply_hash(op, data@) == Some(h@),
            Err(e) => e == ProofError::Crypto && spec_apply_hash(op, data@) is None,
        },
{
    match op {
        HashOp::NoHash => {
            let mut v: Vec<u8> = Vec::new();
            append_bytes(&mut v, data);
            Ok(v)
        }
        HashOp::Sha256 => {
            let h = hash(data)?;
            let mut v: Vec<u8> = Vec::new();
            append_bytes(&mut v, h.as_slice());
            Ok(v)
        }
    }
}

fn apply_length(op: LengthOp, data: &[u8]) -> (r: Vec<u8>)
    ensures
        r@ == spec_apply_length(op, data@),
{
    match op {
        LengthOp::NoPrefix => {
            let mut v: Vec<u8> = Vec::new();
            append_bytes(&mut v, data);
            v
        }
        LengthOp::VarProto => {
            let mut v: Vec<u8> = match encode_length_delimiter(data.len()) {
                Some(p) => p,
                None => Vec::new(),
            };
            append_bytes(&mut v, data);
            v
        }
    }
}

/// Computes the hash of a leaf by interpreting its `LeafOp`.
pub fn hash_leaf(leaf_op: &LeafOp, key: &[u8], value: &[u8]) -> (r: Result<[u8; 32], ProofError>)
    ensures
        match r {
            Ok(h) => spec_hash_leaf(*leaf_op, key@, value@) == Some(h@),
            Err(e) => e == ProofError::Crypto && spec_hash_leaf(*leaf_op, key@, value@) is None,
        },
{
    let hashed_key = apply_hash(leaf_op.prehash_key, key)?;
    let hashed_value = apply_hash(leaf_op.prehash_value, value)?;
    let mut data: Vec<u8> = Vec::new();
    append_bytes(&mut data, leaf_op.prefix.as_slice());
    let lk = apply_length(leaf_op.length, hashed_key.as_slice());
    append_bytes(&mut data, lk.as_slice());
    let lv = apply_length(leaf_op.length, hashed_value.as_slice());
    append_bytes(&mut data, lv.as_slice());
    hash(data.as_slice())
}

/// Computes the hash of an inner node:
/// `H(0x01 || version || height || size || len(key) || key || left || right)`.
pub fn hash_inner(op: &InnerOp, left_hash: &[u8; 32], right_hash: &[u8; 32]) -> (r: Result<[u8; 32], ProofError>)
    ensures
        match r {
            Ok(h) => spec_hash_inner(*op, left_hash@, right_hash@) == Some(h@),
            Err(e) => e == ProofError::Crypto && spec_hash_inner(*op, left_hash@, right_hash@) is None,
        },
{
    let mut data: Vec<u8> = Vec::new();
    data.push(0x01);
    let v = u64_to_le_bytes(op.version);
    append_bytes(&mut data, v.as_slice());
    #[verifier::truncate]
    let h32 = op.height as u32;
    let h = u32_to_le_bytes(h32);
    append_bytes(&mut data, h.as_slice());
    let s = u64_to_le_bytes(op.size);
    append_bytes(&mut data, s.as_slice());
    #[verifier::truncate]
    let k32 = op.split_key.len() as u32;
    let kl = u32_to_le_bytes(k32);
    append_bytes(&mut data, kl.as_slice());
    append_bytes(&mut data, op.split_key.as_slice());
    append_bytes(&mut data, left_hash.as_slice());
    append_bytes(&mut data, right_hash.as_slice());
    assert(data@ =~= spec_inner_preimage(*op, left_hash@, right_hash@));
    hash(data.as_slice())
}

// ---------------------------------------------------------------------------
// Root computation and verification
// ---------------------------------------------------------------------------

/// Computes the root hash an existence proof implies, from its key and value up its path.
pub fn compute_root_from_existence(p: &ExistenceProof) -> (r: Result<[u8; 32], ProofError>)
    ensures
        match (r, spec_root_from_existence(*p)) {
            (Ok(h), Ok(sh)) => h@ == sh,
            (Err(e), Err(se)) => e == se,
            _ => false,
        },
{
    let n = p.path.len();
    let mut current_hash = match hash_leaf(&p.leaf, p.key.as_slice(), p.value.as_slice()) {
        Ok(h) => h,
        Err(e) => {
            proof {
                lemma_root_along_stays_none(*p, 0, n as nat);
            }
            return Err(e);
        }
    };
    let mut i: usize = 0;
    while i < n
        invariant
            n == p.path@.len(),
            i <= n,
            spec_root_along(*p, i as nat) == Some(current_hash@),
        decreases n - i,
    {
        let step = &p.path[i];
        let (left, right) = match step.side {
            Side::Left => (step.sibling_hash, current_hash),
            Side::Right => (current_hash, step.sibling_hash),
        };
        let next = hash_inner(step, &left, &right);
        match next {
            Ok(h) => {
                current_hash = h;
            }
            Err(e) => {
                assert(spec_root_along(*p, (i + 1) as nat) is None);
                assert forall|k: nat| (i + 1) as nat <= k <= n implies spec_root_along(*p, k) is None by {
                    lemma_root_along_stays_none(*p, (i + 1) as nat, k);
                }
                return Err(e);
            }
        }
        i = i + 1;
    }
    Ok(current_hash)
}

/// Once the path computation fails, it stays failed.
proof fn lemma_root_along_stays_none(p: ExistenceProof, i: nat, k: nat)
    requires
        i <= k,
        spec_root_along(p, i) is None,
    ensures
        spec_root_along(p, k) is None,
    decreases k - i,
{
    if i < k {
        lemma_root_along_stays_none(p, i, (k - 1) as nat);
    }
}

/// Computes the root hash a non-existence proof implies.
pub fn compute_root_from_non_existence(p: &NonExistenceProof) -> (r: Result<[u8; 32], ProofError>)
    ensures
        match (r, spec_root_from_non_existence(*p)) {
            (Ok(h), Ok(sh)) => h@ == sh,
            (Err(e), Err(se)) => e == se,
            _ => false,
        },
{
    match (&p.left, &p.right) {
        (None, None) => {
            let empty: Vec<u8> = Vec::new();
            hash(empty.as_slice())
        }
        (Some(l), None) => compute_root_from_existence(l),
        (None, Some(r)) => compute_root_from_existence(r),
        (Some(l), Some(r)) => {
            let lr = compute_root_from_existence(l)?;
            let rr = compute_root_from_existence(r)?;
            if !bytes_eq(lr.as_slice(), rr.as_slice()) {
                return Err(ProofError::RootMismatch);
            }
            Ok(lr)
        }
    }
}

/// Computes the Merkle root hash implied by a proof, without checking it against
/// any known root or key.
pub fn compute_root_from_proof(prf: &IavlProof) -> (r: Result<[u8; 32], ProofError>)
    ensures
        match (r, spec_root_from_proof(*prf)) {
            (Ok(h), Ok(sh)) => h@ == sh,
            (Err(e), Err(se)) => e == se,
            _ => false,
        },
{
    match prf {
        IavlProof::Existence(p) => compute_root_from_existence(p),
        IavlProof::NonExistence(p) => compute_root_from_non_existence(p),
    }
}

/// The canonical entry point for IAVL proof verification: checks that the proof
/// is of the expected kind for `key` (and `expected_value`), then that the root
/// it implies is `root`.
pub fn verify_iavl_proof(
    root: &[u8; 32],
    key: &[u8],
    expected_value: Option<&[u8]>,
    prf: &IavlProof,
) -> (r: Result<bool, ProofError>)
    ensures
        r == spec_verify_iavl_proof(root@, key@, match expected_value {
            Some(v) => Some(v@),
            None => None,
        }, *prf),
{
    match (expected_value, prf) {
        (Some(val), IavlProof::Existence(p)) => {
            if !bytes_eq(p.key.as_slice(), key) || !bytes_eq(p.value.as_slice(), val) {
                return Err(ProofError::InvalidExistence);
            }
        }
        (None, IavlProof::NonExistence(p)) => {
            if !bytes_eq(p.missing_key.as_slice(), key) {
                return Ok(false);
            }
            if let Some(l) = &p.left {
                if !bytes_lt(l.key.as_slice(), p.missing_key.as_slice()) {
                    return Ok(false);
                }
            }
            if let Some(r) = &p.right {
                if !bytes_lt(p.missing_key.as_slice(), r.key.as_slice()) {
                    return Ok(false);
                }
            }
            if let (Some(l), Some(r)) = (&p.left, &p.right) {
                if !bytes_lt(l.key.as_slice(), r.key.as_slice()) {
                    return Ok(false);
                }
            }
        }
        _ => {
            return Ok(false);
        }
    }
    let calculated_root = compute_root_from_proof(prf)?;
    if !bytes_eq(calculated_root.as_slice(), root.as_slice()) {
        return Err(ProofError::RootMismatch);
    }
    Ok(true)
}


// ---------------------------------------------------------------------------
// Leaf nodes of the tree
// ---------------------------------------------------------------------------

/// A hash representing a child node.
pub type NodeHash = [u8; 32];

/// IAVL tree node; children are referenced by hash.
#[derive(Debug, Clone)]
pub struct IAVLNode {
    pub key: Vec<u8>,
    pub value: Vec<u8>,
    pub version: u64,
    pub height: i32,
    pub size: u64,
    /// The hash of this node's canonical representation.
    pub hash: NodeHash,
    /// The hash of the left child, if it exists.
    pub left_hash: Option<NodeHash>,
    /// The hash of the right child, if it exists.
    pub right_hash: Option<NodeHash>,
}

/// The hash of a leaf node: SHA-256 of
/// `0x00 || varint(len(key)) || key || varint(32) || SHA-256(value)`.
pub open spec fn spec_leaf_node_hash(key: Seq<u8>, value: Seq<u8>) -> Option<Seq<u8>> {
    match spec_sha(value) {
        Some(vh) => spec_sha(seq![0u8] + varint_spec(key.len()) + key + varint_spec(vh.len()) + vh),
        None => None,
    }
}

/// The leaf operation of the chain's IAVL profile, used in every existence proof
/// the tree builds.
pub open spec fn spec_is_canonical_leaf_op(op: LeafOp) -> bool {
    &&& op.hash == HashOp::Sha256
    &&& op.prehash_key == HashOp::NoHash
    &&& op.prehash_value == HashOp::Sha256
    &&& op.length == LengthOp::VarProto
    &&& op.prefix@ == seq![0u8]
}

/// The leaf operation of the chain's IAVL profile: SHA-256 leaves, raw keys,
/// hashed values, varint length prefixes and a `0x00` prefix.
pub fn canonical_leaf_op() -> (op: LeafOp)
    ensures
        spec_is_canonical_leaf_op(op),
{
    let mut prefix: Vec<u8> = Vec::new();
    prefix.push(0x00);
    assert(prefix@ =~= seq![0u8]);
    LeafOp {
        hash: HashOp::Sha256,
        prehash_key: HashOp::NoHash,
        prehash_value: HashOp::Sha256,
        length: LengthOp::VarProto,
        prefix,
    }
}

/// Errors while building nodes.
#[derive(Debug, Clone, PartialEq, Eq)]
pub enum StateError {
    /// A preimage could not be hashed.
    Backend,
}

impl IAVLNode {
    /// Whether this is a leaf node (no children).
    pub fn is_leaf(&self) -> (r: bool)
        ensures
            r == (self.left_hash is None && self.right_hash is None),
    {
        self.left_hash.is_none() && self.right_hash.is_none()
    }

    /// The hash of a leaf holding `key` and `value`.
    fn compute_leaf_hash(key: &[u8], value: &[u8]) -> (r: Result<NodeHash, StateError>)
        ensures
            match r {
                Ok(h) => spec_leaf_node_hash(key@, value@) == Some(h@),
                Err(e) => e == StateError::Backend && spec_leaf_node_hash(key@, value@) is None,
            },
    {
        let value_hash = match hash(value) {
            Ok(h) => h,
            Err(_) => return Err(StateError::Backend),
        };
        let mut preimage: Vec<u8> = Vec::new();
        preimage.push(0x00);
        let kl = match encode_length_delimiter(key.len()) {
            Some(b) => b,
            None => Vec::new(),
        };
        append_bytes(&mut preimage, kl.as_slice());
        append_bytes(&mut preimage, key);
        let vl = match encode_length_delimiter(32) {
            Some(b) => b,
            None => Vec::new(),
        };
        append_bytes(&mut preimage, vl.as_slice());
        append_bytes(&mut preimage, value_hash.as_slice());
        assert(value_hash@.len() == 32);
        assert(preimage@ =~= seq![0u8] + varint_spec(key@.len()) + key@ + varint_spec(value_hash@.len()) + value_hash@);
        match hash(preimage.as_slice()) {
            Ok(h) => Ok(h),
            Err(_) => Err(StateError::Backend),
        }
    }

    /// Creates a new leaf node (height 0, size 1, no children) and computes its hash.
    pub fn new_leaf(key: Vec<u8>, value: Vec<u8>, version: u64) -> (r: Result<Self, StateError>)
        ensures
            match r {
                Ok(n) => n.key@ == key@ && n.value@ == value@ && n.version == version
                    && n.height == 0 && n.size == 1 && n.left_hash is None && n.right_hash is None
                    && spec_leaf_node_hash(key@, value@) == Some(n.hash@),
                Err(e) => e == StateError::Backend && spec_leaf_node_hash(key@, value@) is None,
            },
    {
        let hash = Self::compute_leaf_hash(key.as_slice(), value.as_slice())?;
        Ok(Self {
            key,
            value,
            version,
            height: 0,
            size: 1,
            hash,
            left_hash: None,
            right_hash: None,
        })
    }
}

/// Law: the hash of a leaf node is the hash that the canonical leaf operation of
/// an existence proof computes for the same key and value, so proofs built from
/// the tree start from the leaf hashes the tree stores.
pub proof fn lemma_leaf_hash_matches_canonical_leaf_op(op: LeafOp, key: Seq<u8>, value: Seq<u8>)
    requires
        spec_is_canonical_leaf_op(op),
    ensures
        spec_hash_leaf(op, key, value) == spec_leaf_node_hash(key, value),
{
    match spec_sha(value) {
        Some(vh) => {
            assert(spec_leaf_preimage(op, key, value) == Some(
                seq![0u8] + varint_spec(key.len()) + key + (varint_spec(vh.len()) + vh),
            ));
            assert(seq![0u8] + varint_spec(key.len()) + key + (varint_spec(vh.len()) + vh)
                =~= seq![0u8] + varint_spec(key.len()) + key + varint_spec(vh.len()) + vh);
        }
        None => {}
    }
}

/// Law: `verify_iavl_proof` accepts only a proof whose implied root is the given
/// root: for an expected value, an existence proof of exactly that key and value;
/// for an expected absence, a non-existence proof of that key whose neighbors
/// bracket it.
pub proof fn lemma_verify_iavl_proof_sound(
    root: Seq<u8>,
    key: Seq<u8>,
    expected: Option<Seq<u8>>,
    prf: IavlProof,
)
    requires
        spec_verify_iavl_proof(root, key, expected, prf) == Ok::<bool, ProofError>(true),
    ensures
        spec_root_from_proof(prf) == Ok::<Seq<u8>, ProofError>(root),
        expected matches Some(v) ==> (prf matches IavlProof::Existence(p) && p.key@ == key && p.value@ == v),
        expected is None ==> (prf matches IavlProof::NonExistence(p) && p.missing_key@ == key
            && spec_neighbors_ordered(p)),
{
}

// ---------------------------------------------------------------------------
// Key-range helper
// ---------------------------------------------------------------------------

/// The index of the last byte before `n` that is not `0xFF`, or -1.
pub open spec fn spec_last_non_ff(b: Seq<u8>, n: int) -> int
    decreases n,
{
    if n <= 0 {
        -1
    } else if b[n - 1] != 0xFF {
        n - 1
    } else {
        spec_last_non_ff(b, n - 1)
    }
}

/// The lexicographic successor of all keys with prefix `b`: the bytes up to
/// the last one that is not `0xFF`, that one incremented. `None` for an empty
/// or all-`0xFF` input.
pub open spec fn spec_lexicographical_successor(b: Seq<u8>) -> Option<Seq<u8>> {
    let i = spec_last_non_ff(b, b.len() as int);
    if i < 0 {
        None
    } else {
        Some(b.subrange(0, i).push((b[i] + 1) as u8))
    }
}

proof fn lemma_last_non_ff_bounds(b: Seq<u8>, n: int)
    requires
        0 <= n <= b.len(),
    ensures
        -1 <= spec_last_non_ff(b, n) < n,
        spec_last_non_ff(b, n) >= 0 ==> b[spec_last_non_ff(b, n)] != 0xFF,
        forall|j: int| spec_last_non_ff(b, n) < j < n ==> b[j] == 0xFF,
    decreases n,
{
    if n > 0 && b[n - 1] == 0xFF {
        lemma_last_non_ff_bounds(b, n - 1);
    }
}

/// Calculates the lexicographical successor of a byte string; `None` if the
/// string is empty or all `0xFF` bytes, as there is no successor.
pub fn lexicographical_successor(bytes: &[u8]) -> (r: Option<Vec<u8>>)
    ensures
        match r {
            Some(v) => spec_lexicographical_successor(bytes@) == Some(v@),
            None => spec_lexicographical_successor(bytes@) is None,
        },
{
    let n = bytes.len();
    let mut i: usize = n;
    while i > 0
        invariant
            n == bytes@.len(),
            i <= n,
            spec_last_non_ff(bytes@, n as int) == spec_last_non_ff(bytes@, i as int),
        decreases i,
    {
        if bytes[i - 1] != 0xFF {
            let mut successor: Vec<u8> = Vec::new();
            append_bytes(&mut successor, vstd::slice::slice_subrange(bytes, 0, i - 1));
            successor.push(bytes[i - 1] + 1);
            return Some(successor);
        }
        i = i - 1;
    }
    None
}

/// Law: the successor of a key sorts after every key that has it as a prefix,
/// which makes it the exclusive upper bound of a prefix scan.
pub proof fn lemma_successor_bounds_prefix(prefix: Seq<u8>, key: Seq<u8>)
    requires
        spec_lexicographical_successor(prefix) is Some,
        prefix.len() <= key.len(),
        key.subrange(0, prefix.len() as int) == prefix,
    ensures
        spec_lex_lt(key, spec_lexicographical_successor(prefix)->Some_0),
{
    let i = spec_last_non_ff(prefix, prefix.len() as int);
    lemma_last_non_ff_bounds(prefix, prefix.len() as int);
    let succ = spec_lexicographical_successor(prefix)->Some_0;
    assert(key[i] == prefix[i]);
    assert(key.subrange(0, i) =~= succ.subrange(0, i));
    lemma_lex_lt_first_difference(key, succ, i);
}


/// A successor exists exactly when the prefix has a byte other than `0xFF`:
/// `None` comes for an empty or all-`0xFF` prefix and for nothing else.
pub proof fn lemma_successor_none_iff_all_ff(prefix: Seq<u8>)
    ensures
        spec_lexicographical_successor(prefix) is None <==> (forall|j: int| 0 <= j < prefix.len() ==> prefix[j] == 0xFF),
{
    lemma_last_non_ff_bounds(prefix, prefix.len() as int);
}

/// The index of the first position before `m` where `x` and `y` differ, or `m`.
spec fn first_diff(x: Seq<u8>, y: Seq<u8>, i: int, m: int) -> int
    decreases m - i,
{
    if i >= m || x[i] != y[i] { i } else { first_diff(x, y, i + 1, m) }
}

proof fn lemma_first_diff(x: Seq<u8>, y: Seq<u8>, i: int, m: int)
    requires
        0 <= i <= m,
        m <= x.len(),
        m <= y.len(),
        forall|t: int| 0 <= t < i ==> x[t] == y[t],
    ensures
        i <= first_diff(x, y, i, m) <= m,
        forall|t: int| 0 <= t < first_diff(x, y, i, m) ==> x[t] == y[t],
        first_diff(x, y, i, m) < m ==> x[first_diff(x, y, i, m)] != y[first_diff(x, y, i, m)],
    decreases m - i,
{
    if i < m && x[i] == y[i] {
        lemma_first_diff(x, y, i + 1, m);
    }
}

/// A string sorts before any longer string it begins.
proof fn lemma_proper_prefix_lt(x: Seq<u8>, y: Seq<u8>)
    requires
        x.len() < y.len(),
        forall|t: int| 0 <= t < x.len() ==> x[t] == y[t],
    ensures
        spec_lex_lt(x, y),
    decreases x.len(),
{
    if x.len() > 0 {
        assert(x[0] == y[0]);
        lemma_proper_prefix_lt(x.drop_first(), y.drop_first());
    }
}

/// The successor is the least bound of the prefix's keys: every key from the
/// prefix on that sorts before the successor (every key from the prefix on,
/// where there is no successor) starts with the prefix.
pub proof fn lemma_successor_is_least_bound(prefix: Seq<u8>, key: Seq<u8>)
    requires
        !spec_lex_lt(key, prefix),
        match spec_lexicographical_successor(prefix) {
            Some(s) => spec_lex_lt(key, s),
            None => true,
        },
    ensures
        prefix.is_prefix_of(key),
{
    let n = prefix.len() as int;
    let li = spec_last_non_ff(prefix, n);
    lemma_last_non_ff_bounds(prefix, n);
    let m = if n <= key.len() { n } else { key.len() as int };
    lemma_first_diff(key, prefix, 0, m);
    let j = first_diff(key, prefix, 0, m);
    if j == m {
        if m < n {
            lemma_proper_prefix_lt(key, prefix);
        }
        assert forall|t: int| 0 <= t < n implies prefix[t] == key[t] by {}
    } else {
        assert(key.subrange(0, j) =~= prefix.subrange(0, j));
        if key[j] < prefix[j] {
            lemma_lex_lt_first_difference(key, prefix, j);
        } else {
            // key[j] > prefix[j]: so prefix[j] is not 0xFF and j <= li
            assert(j <= li);
            let s = spec_lexicographical_successor(prefix)->Some_0;
            assert(s.len() == li + 1);
            assert forall|t: int| 0 <= t < li implies s[t] == prefix[t] by {}
            if j < li {
                assert(s.subrange(0, j) =~= key.subrange(0, j));
                assert(s[j] == prefix[j]);
                lemma_lex_lt_first_difference(s, key, j);
                crate::bytes::lemma_lex_lt_asymmetric(s, key);
            } else {
                assert(s[li] == (prefix[li] + 1) as u8);
                if key[j] > s[j] {
                    assert(s.subrange(0, j) =~= key.subrange(0, j));
                    lemma_lex_lt_first_difference(s, key, j);
                    crate::bytes::lemma_lex_lt_asymmetric(s, key);
                } else {
                    assert(s.is_prefix_of(key));
                    crate::iavl_tree::lemma_prefix_sorts_first(s, key);
                }
            }
        }
    }
}

/// Law: an existence proof under the canonical leaf operation starts from the
/// hash a leaf node of the same key and value has; with no path that hash is
/// the root, and with one step the root is that step's inner hash of the leaf
/// and the sibling (the leaf on the left for a right-side sibling, on the
/// right otherwise).
pub proof fn lemma_existence_root_from_leaf(p: ExistenceProof, leaf_hash: Seq<u8>)
    requires
        spec_is_canonical_leaf_op(p.leaf),
        spec_leaf_node_hash(p.key@, p.value@) == Some(leaf_hash),
    ensures
        p.path@.len() == 0 ==> spec_root_from_existence(p) == Ok::<Seq<u8>, ProofError>(leaf_hash),
        p.path@.len() == 1 ==> spec_root_from_existence(p) == match spec_step(p.path@[0], leaf_hash) {
            Some(h) => Ok::<Seq<u8>, ProofError>(h),
            None => Err(ProofError::Crypto),
        },
{
    lemma_leaf_hash_matches_canonical_leaf_op(p.leaf, p.key@, p.value@);
    assert(spec_root_along(p, 0) == Some(leaf_hash));
    if p.path@.len() == 1 {
        assert(spec_root_along(p, 1) == spec_step(p.path@[0], leaf_hash));
    }
}

proof fn lemma_root_along_prefix(p: ExistenceProof, q: ExistenceProof, k: nat)
    requires
        q.key@ == p.key@,
        q.value@ == p.value@,
        q.leaf == p.leaf,
        k <= p.path@.len(),
        k <= q.path@.len(),
        forall|j: int| 0 <= j < k ==> q.path@[j] == p.path@[j],
    ensures
        spec_root_along(q, k) == spec_root_along(p, k),
    decreases k,
{
    if k > 0 {
        lemma_root_along_prefix(p, q, (k - 1) as nat);
    }
}

/// Law: a proof's path is applied from the leaf upwards, step by step in path
/// order. Without steps the root is the leaf hash; adding a step on top of a
/// path hashes that step over the root the shorter path implies (that root on
/// the left of a right-side sibling, on the right of a left-side one), and
/// fails where that root or that hash fails.
pub proof fn lemma_root_extends_by_top_step(p: ExistenceProof, q: ExistenceProof, op: InnerOp)
    requires
        q.key@ == p.key@,
        q.value@ == p.value@,
        q.leaf == p.leaf,
        q.path@ == p.path@.push(op),
    ensures
        p.path@.len() == 0 ==> spec_root_from_existence(p) == match spec_hash_leaf(p.leaf, p.key@, p.value@) {
            Some(h) => Ok::<Seq<u8>, ProofError>(h),
            None => Err(ProofError::Crypto),
        },
        spec_root_from_existence(q) == match spec_root_from_existence(p) {
            Ok(h) => match (if op.side == Side::Right {
                spec_hash_inner(op, h, op.sibling_hash@)
            } else {
                spec_hash_inner(op, op.sibling_hash@, h)
            }) {
                Some(r) => Ok::<Seq<u8>, ProofError>(r),
                None => Err(ProofError::Crypto),
            },
            Err(e) => Err(e),
        },
{
    let n = p.path@.len();
    lemma_root_along_prefix(p, q, n);
    assert(q.path@[n as int] == op);
    assert(spec_root_along(q, n + 1) == match spec_root_along(q, n) {
        Some(h) => spec_step(op, h),
        None => None,
    });
}

} // verus!
