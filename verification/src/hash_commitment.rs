//! Hash-based commitment scheme and the byte encoding of its proofs.

use vstd::prelude::*;
use vstd::bytes::*;
use crate::bytes::{append_bytes, bytes_eq};
use crate::crypto::{sha256, sha256_accepts, sha256_spec, sha512, sha512_spec};

verus! {

/// Errors of the hash commitment scheme.
#[derive(Debug, Clone, PartialEq, Eq)]
pub enum CryptoError {
    /// The hash function refused its input (a message too long for SHA-256).
    Hashing,
    /// The proof bytes ended before a declared field did.
    InvalidProofBytes,
    /// The first byte of the proof names no selector type.
    UnknownSelectorType(u8),
}

/// Available hash functions.
#[derive(Debug, Clone, Copy, PartialEq, Eq, Structural)]
pub enum HashFunction {
    /// SHA-256
    Sha256,
    /// SHA-512
    Sha512,
}

/// What a proof selects within a committed structure.
#[derive(Debug, Clone)]
pub enum Selector {
    /// A position in an ordered structure.
    Position(u64),
    /// A key in a key-value structure.
    Key(Vec<u8>),
    /// A predicate over the committed values.
    Predicate(Vec<u8>),
    /// No selection: the commitment covers a single value.
    Unselected,
}

/// The mathematical value of a [`Selector`].
pub enum SelectorView {
    Position(u64),
    Key(Seq<u8>),
    Predicate(Seq<u8>),
    Unselected,
}

impl View for Selector {
    type V = SelectorView;

    open spec fn view(&self) -> SelectorView {
        match self {
            Selector::Position(p) => SelectorView::Position(*p),
            Selector::Key(k) => SelectorView::Key(k@),
            Selector::Predicate(p) => SelectorView::Predicate(p@),
            Selector::Unselected => SelectorView::Unselected,
        }
    }
}

/// Hash-based commitment scheme.
#[derive(Debug, Clone)]
pub struct HashCommitmentScheme {
    hash_function: HashFunction,
}

/// Hash-based commitment: the digest bytes.
#[derive(Debug, Clone)]
pub struct HashCommitment(pub Vec<u8>);

/// Hash-based proof.
#[derive(Debug, Clone)]
pub struct HashProof {
    /// The value this proof corresponds to (e.g., serialized Merkle proof data).
    pub value: Vec<u8>,
    /// Selector used for this proof.
    pub selector: Selector,
    /// Additional proof data.
    pub additional_data: Vec<u8>,
}

/// The mathematical value of a [`HashProof`].
pub struct HashProofView {
    pub value: Seq<u8>,
    pub selector: SelectorView,
    pub additional_data: Seq<u8>,
}

impl View for HashProof {
    type V = HashProofView;

    open spec fn view(&self) -> HashProofView {
        HashProofView {
            value: self.value@,
            selector: self.selector@,
            additional_data: self.additional_data@,
        }
    }
}

// ---------------------------------------------------------------------------
// Specification of the hash function and the scheme
// ---------------------------------------------------------------------------

/// The digest of `data` under `f`, or `None` where the function refuses it.
pub open spec fn spec_hash(f: HashFunction, data: Seq<u8>) -> Option<Seq<u8>> {
    match f {
        HashFunction::Sha256 => if sha256_accepts(data) { Some(sha256_spec(data)) } else { None },
        HashFunction::Sha512 => Some(sha512_spec(data)),
    }
}

/// The digest size of a hash function in bytes.
pub open spec fn spec_digest_size(f: HashFunction) -> nat {
    match f {
        HashFunction::Sha256 => 32,
        HashFunction::Sha512 => 64,
    }
}

/// A length written as the four little-endian bytes of its truncation to `u32`.
pub open spec fn u32_len_prefix(n: nat) -> Seq<u8> {
    spec_u32_to_le_bytes(n as u32)
}

/// The preimage that `commit_with_witness` hashes: each value with its `u32`
/// length prefix, a missing value as a zero length.
pub open spec fn spec_combined(values: Seq<Option<Seq<u8>>>) -> Seq<u8>
    decreases values.len(),
{
    if values.len() == 0 {
        Seq::empty()
    } else {
        spec_combined(values.drop_last()) + match values.last() {
            Some(v) => u32_len_prefix(v.len()) + v,
            None => u32_len_prefix(0),
        }
    }
}

/// The preimage of a leaf commitment: `0x00 || key || value`.
pub open spec fn spec_leaf_preimage(key: Seq<u8>, value: Seq<u8>) -> Seq<u8> {
    seq![0u8] + key + value
}

/// The preimage of a branch commitment: `0x01 || left || right`.
pub open spec fn spec_branch_preimage(left: Seq<u8>, right: Seq<u8>) -> Seq<u8> {
    seq![1u8] + left + right
}

/// The additional data that a proof carries for a selector: the key's hash for a
/// key selector, the position's little-endian bytes for a position, else nothing.
/// `None` where the key cannot be hashed.
pub open spec fn spec_additional_data(f: HashFunction, sel: SelectorView) -> Option<Seq<u8>> {
    match sel {
        SelectorView::Key(k) => spec_hash(f, k),
        SelectorView::Position(p) => Some(spec_u64_to_le_bytes(p)),
        _ => Some(Seq::empty()),
    }
}

/// Whether a proof verifies against a commitment for `selector` and `value`.
pub open spec fn spec_verify(
    f: HashFunction,
    commitment: Seq<u8>,
    proof: HashProofView,
    selector: SelectorView,
    value: Seq<u8>,
) -> bool {
    &&& proof.selector == selector
    &&& proof.value == value
    &&& match selector {
        SelectorView::Unselected => spec_hash(f, value) == Some(commitment),
        SelectorView::Key(k) => spec_hash(f, k + value) == Some(commitment),
        _ => false,
    }
}

// ---------------------------------------------------------------------------
// Proof byte encoding
// ---------------------------------------------------------------------------

/// The encoding of a selector: a type byte, then its payload.
pub open spec fn spec_encode_selector(s: SelectorView) -> Seq<u8> {
    match s {
        SelectorView::Position(p) => seq![1u8] + spec_u64_to_le_bytes(p),
        SelectorView::Key(k) => seq![2u8] + u32_len_prefix(k.len()) + k,
        SelectorView::Predicate(p) => seq![3u8] + u32_len_prefix(p.len()) + p,
        SelectorView::Unselected => seq![0u8],
    }
}

/// The encoding of a proof: selector, then value and additional data, each
/// with a `u32` little-endian length prefix.
pub open spec fn spec_encode_hash_proof(p: HashProofView) -> Seq<u8> {
    spec_encode_selector(p.selector) + u32_len_prefix(p.value.len()) + p.value
        + u32_len_prefix(p.additional_data.len()) + p.additional_data
}

/// Reads a `u32` length at `pos` and the field it announces; `None` where the
/// bytes end first. Returns the field and the position after it.
pub open spec fn spec_read_field(b: Seq<u8>, pos: int) -> Option<(Seq<u8>, int)> {
    if pos + 4 > b.len() {
        None
    } else {
        let n = spec_u32_from_le_bytes(b.subrange(pos, pos + 4)) as int;
        if pos + 4 + n > b.len() {
            None
        } else {
            Some((b.subrange(pos + 4, pos + 4 + n), pos + 4 + n))
        }
    }
}

/// Decodes the selector at the start of `b`, with the position after it.
pub open spec fn spec_decode_selector(b: Seq<u8>) -> Result<(SelectorView, int), CryptoError> {
    if b.len() == 0 {
        Err(CryptoError::InvalidProofBytes)
    } else if b[0] == 0 {
        Ok((SelectorView::Unselected, 1))
    } else if b[0] == 1 {
        if b.len() < 9 {
            Err(CryptoError::InvalidProofBytes)
        } else {
            Ok((SelectorView::Position(spec_u64_from_le_bytes(b.subrange(1, 9))), 9))
        }
    } else if b[0] == 2 {
        match spec_read_field(b, 1) {
            Some((k, next)) => Ok((SelectorView::Key(k), next)),
            None => Err(CryptoError::InvalidProofBytes),
        }
    } else if b[0] == 3 {
        match spec_read_field(b, 1) {
            Some((p, next)) => Ok((SelectorView::Predicate(p), next)),
            None => Err(CryptoError::InvalidProofBytes),
        }
    } else {
        Err(CryptoError::UnknownSelectorType(b[0]))
    }
}

/// Decodes a proof; bytes after the additional data are ignored.
pub open spec fn spec_decode_hash_proof(b: Seq<u8>) -> Result<HashProofView, CryptoError> {
    match spec_decode_selector(b) {
        Err(e) => Err(e),
        Ok((selector, p1)) => match spec_read_field(b, p1) {
            None => Err(CryptoError::InvalidProofBytes),
            Some((value, p2)) => match spec_read_field(b, p2) {
                None => Err(CryptoError::InvalidProofBytes),
                Some((additional_data, _)) => Ok(HashProofView { value, selector, additional_data }),
            },
        },
    }
}

/// Whether every length field of a proof fits the `u32` prefix of the encoding.
pub open spec fn proof_lengths_fit(p: HashProofView) -> bool {
    &&& p.value.len() <= u32::MAX
    &&& p.additional_data.len() <= u32::MAX
    &&& match p.selector {
        SelectorView::Key(k) => k.len() <= u32::MAX,
        SelectorView::Predicate(q) => q.len() <= u32::MAX,
        _ => true,
    }
}

// ---------------------------------------------------------------------------
// Executable helpers
// ---------------------------------------------------------------------------

/// Whether two selectors are equal.
pub fn selector_eq(a: &Selector, b: &Selector) -> (r: bool)
    ensures
        r == (a@ == b@),
{
    match (a, b) {
        (Selector::Position(x), Selector::Position(y)) => *x == *y,
        (Selector::Key(x), Selector::Key(y)) => bytes_eq(x.as_slice(), y.as_slice()),
        (Selector::Predicate(x), Selector::Predicate(y)) => bytes_eq(x.as_slice(), y.as_slice()),
        (Selector::Unselected, Selector::Unselected) => true,
        _ => false,
    }
}

/// Appends the `u32` little-endian length prefix of `n` (truncated to `u32`).
fn push_len_prefix(out: &mut Vec<u8>, n: usize)
    ensures
        final(out)@ == old(out)@ + u32_len_prefix(n as nat),
{
    #[verifier::truncate]
    let n32 = n as u32;
    let b = u32_to_le_bytes(n32);
    append_bytes(out, b.as_slice());
}

/// Copies `b[start..end]` into a new vector.
fn copy_range(b: &[u8], start: usize, end: usize) -> (r: Vec<u8>)
    requires
        start <= end <= b@.len(),
    ensures
        r@ == b@.subrange(start as int, end as int),
{
    let s = vstd::slice::slice_subrange(b, start, end);
    vstd::slice::slice_to_vec(s)
}

/// Reads a `u32`-prefixed field at `pos`.
fn read_field(b: &[u8], pos: usize) -> (r: Option<(Vec<u8>, usize)>)
    requires
        pos <= b@.len(),
    ensures
        match (r, spec_read_field(b@, pos as int)) {
            (Some((v, next)), Some((sv, snext))) => v@ == sv && next == snext,
            (None, None) => true,
            _ => false,
        },
{
    if b.len() - pos < 4 {
        return None;
    }
    let len_bytes = vstd::slice::slice_subrange(b, pos, pos + 4);
    let n = u32_from_le_bytes(len_bytes) as usize;
    if b.len() - (pos + 4) < n {
        return None;
    }
    let v = copy_range(b, pos + 4, pos + 4 + n);
    Some((v, pos + 4 + n))
}

// ---------------------------------------------------------------------------
// Public API
// ---------------------------------------------------------------------------

impl Default for HashCommitmentScheme {
    /// The default scheme, with SHA-256.
    fn default() -> (s: Self)
        ensures
            s.spec_hash_function() == HashFunction::Sha256,
    {
        Self::new()
    }
}

impl HashCommitmentScheme {
    /// The hash function of this scheme.
    pub closed spec fn spec_hash_function(&self) -> HashFunction {
        self.hash_function
    }

    /// Creates a new hash commitment scheme with the default hash function (SHA-256).
    pub fn new() -> (s: Self)
        ensures
            s.spec_hash_function() == HashFunction::Sha256,
    {
        Self { hash_function: HashFunction::Sha256 }
    }

    /// Creates a new hash commitment scheme with a specific hash function.
    pub fn with_hash_function(hash_function: HashFunction) -> (s: Self)
        ensures
            s.spec_hash_function() == hash_function,
    {
        Self { hash_function }
    }

    /// Hashes `data` with the selected hash function.
    pub fn hash_data(&self, data: &[u8]) -> (r: Result<Vec<u8>, CryptoError>)
        ensures
            match r {
                Ok(d) => spec_hash(self.spec_hash_function(), data@) == Some(d@)
                    && d@.len() == spec_digest_size(self.spec_hash_function()),
                Err(e) => e == CryptoError::Hashing
                    && spec_hash(self.spec_hash_function(), data@) is None,
            },
    {
        match self.hash_function {
            HashFunction::Sha256 => match sha256(data) {
                Some(d) => Ok(d),
                None => Err(CryptoError::Hashing),
            },
            HashFunction::Sha512 => match sha512(data) {
                Some(d) => Ok(d),
                None => Err(CryptoError::Hashing),
            },
        }
    }

    /// The current hash function.
    pub fn hash_function(&self) -> (f: HashFunction)
        ensures
            f == self.spec_hash_function(),
    {
        self.hash_function
    }

    /// The digest size in bytes.
    pub fn digest_size(&self) -> (n: usize)
        ensures
            n == spec_digest_size(self.spec_hash_function()),
    {
        match self.hash_function {
            HashFunction::Sha256 => 32,
            HashFunction::Sha512 => 64,
        }
    }
}


impl HashCommitmentScheme {
    /// Commits to a leaf: the SHA-256 of `0x00 || key || value`.
    pub fn commit_leaf(key: &[u8], value: &[u8]) -> (r: Result<Vec<u8>, CryptoError>)
        ensures
            match r {
                Ok(d) => spec_hash(HashFunction::Sha256, spec_leaf_preimage(key@, value@)) == Some(d@) && d@.len() == 32,
                Err(e) => e == CryptoError::Hashing
                    && spec_hash(HashFunction::Sha256, spec_leaf_preimage(key@, value@)) is None,
            },
    {
        let mut data: Vec<u8> = Vec::new();
        data.push(0x00);
        append_bytes(&mut data, key);
        append_bytes(&mut data, value);
        assert(data@ =~= spec_leaf_preimage(key@, value@));
        match sha256(data.as_slice()) {
            Some(h) => Ok(h),
            None => Err(CryptoError::Hashing),
        }
    }

    /// Commits to a branch: the SHA-256 of `0x01 || left || right`.
    pub fn commit_branch(left: &[u8], right: &[u8]) -> (r: Result<Vec<u8>, CryptoError>)
        ensures
            match r {
                Ok(d) => spec_hash(HashFunction::Sha256, spec_branch_preimage(left@, right@)) == Some(d@) && d@.len() == 32,
                Err(e) => e == CryptoError::Hashing
                    && spec_hash(HashFunction::Sha256, spec_branch_preimage(left@, right@)) is None,
            },
    {
        let mut data: Vec<u8> = Vec::new();
        data.push(0x01);
        append_bytes(&mut data, left);
        append_bytes(&mut data, right);
        assert(data@ =~= spec_branch_preimage(left@, right@));
        match sha256(data.as_slice()) {
            Some(h) => Ok(h),
            None => Err(CryptoError::Hashing),
        }
    }

    /// Commits to a list of optional values: the hash of their length-prefixed
    /// concatenation. The witness is empty.
    pub fn commit_with_witness(&self, values: &[Option<Vec<u8>>]) -> (r: Result<(HashCommitment, ()), CryptoError>)
        ensures
            match r {
                Ok((c, _)) => spec_hash(self.spec_hash_function(), spec_combined(opt_values_view(values@))) == Some(c.0@),
                Err(e) => e == CryptoError::Hashing
                    && spec_hash(self.spec_hash_function(), spec_combined(opt_values_view(values@))) is None,
            },
    {
        let mut combined: Vec<u8> = Vec::new();
        let n = values.len();
        let mut i: usize = 0;
        while i < n
            invariant
                n == values@.len(),
                i <= n,
                combined@ == spec_combined(opt_values_view(values@.subrange(0, i as int))),
            decreases n - i,
        {
            let ghost before = combined@;
            match &values[i] {
                Some(v) => {
                    push_len_prefix(&mut combined, v.len());
                    append_bytes(&mut combined, v.as_slice());
                }
                None => {
                    push_len_prefix(&mut combined, 0);
                }
            }
            let ghost sub = opt_values_view(values@.subrange(0, i + 1));
            assert(sub.drop_last() =~= opt_values_view(values@.subrange(0, i as int)));
            i = i + 1;
        }
        assert(values@.subrange(0, n as int) =~= values@);
        let h = self.hash_data(combined.as_slice())?;
        Ok((HashCommitment(h), ()))
    }

    /// Creates a proof for `value` under `selector`: it carries the value, the
    /// selector and the selector's additional data.
    pub fn create_proof(&self, _witness: &(), selector: &Selector, value: &Vec<u8>) -> (r: Result<HashProof, CryptoError>)
        ensures
            match r {
                Ok(p) => spec_additional_data(self.spec_hash_function(), selector@) == Some(p.additional_data@)
                    && p.value@ == value@ && p.selector@ == selector@,
                Err(e) => e == CryptoError::Hashing
                    && spec_additional_data(self.spec_hash_function(), selector@) is None,
            },
    {
        let additional_data = match selector {
            Selector::Key(key) => self.hash_data(key.as_slice())?,
            Selector::Position(pos) => u64_to_le_bytes(*pos),
            _ => Vec::new(),
        };
        let sel = clone_selector(selector);
        let v = clone_bytes(value);
        Ok(HashProof { value: v, selector: sel, additional_data })
    }

    /// Verifies a proof against a commitment for `selector` and `value`.
    /// Position and predicate selectors cannot be verified by this scheme alone.
    pub fn verify(
        &self,
        commitment: &HashCommitment,
        proof: &HashProof,
        selector: &Selector,
        value: &Vec<u8>,
    ) -> (r: bool)
        ensures
            r == spec_verify(self.spec_hash_function(), commitment.0@, proof@, selector@, value@),
    {
        if !selector_eq(&proof.selector, selector) || !bytes_eq(proof.value.as_slice(), value.as_slice()) {
            return false;
        }
        match selector {
            Selector::Unselected => match self.hash_data(value.as_slice()) {
                Ok(h) => bytes_eq(h.as_slice(), commitment.0.as_slice()),
                Err(_) => false,
            },
            Selector::Key(key) => {
                let mut combined: Vec<u8> = Vec::new();
                append_bytes(&mut combined, key.as_slice());
                append_bytes(&mut combined, value.as_slice());
                match self.hash_data(combined.as_slice()) {
                    Ok(h) => bytes_eq(h.as_slice(), commitment.0.as_slice()),
                    Err(_) => false,
                }
            }
            _ => false,
        }
    }
}

/// The values of a slice of optional byte vectors.
pub open spec fn opt_values_view(values: Seq<Option<Vec<u8>>>) -> Seq<Option<Seq<u8>>> {
    values.map_values(|o: Option<Vec<u8>>| match o {
        Some(v) => Some(v@),
        None => None,
    })
}

/// Copies a byte vector.
pub fn clone_bytes(v: &Vec<u8>) -> (r: Vec<u8>)
    ensures
        r@ == v@,
{
    let mut r: Vec<u8> = Vec::new();
    append_bytes(&mut r, v.as_slice());
    r
}

/// Copies a selector.
pub fn clone_selector(s: &Selector) -> (r: Selector)
    ensures
        r@ == s@,
{
    match s {
        Selector::Position(p) => Selector::Position(*p),
        Selector::Key(k) => Selector::Key(clone_bytes(k)),
        Selector::Predicate(p) => Selector::Predicate(clone_bytes(p)),
        Selector::Unselected => Selector::Unselected,
    }
}

impl HashCommitment {
    /// Creates a new commitment from raw bytes.
    pub fn new(bytes: Vec<u8>) -> (c: Self)
        ensures
            c.0@ == bytes@,
    {
        Self(bytes)
    }

    /// The raw commitment bytes.
    pub fn as_bytes(&self) -> (b: &[u8])
        ensures
            b@ == self.0@,
    {
        self.0.as_slice()
    }

    /// The commitment bytes as a new vector.
    pub fn to_vec(&self) -> (v: Vec<u8>)
        ensures
            v@ == self.0@,
    {
        clone_bytes(&self.0)
    }
}

impl HashProof {
    /// Creates a new proof.
    pub fn new(value: Vec<u8>, selector: Selector, additional_data: Vec<u8>) -> (p: Self)
        ensures
            p@ == (HashProofView { value: value@, selector: selector@, additional_data: additional_data@ }),
    {
        Self { value, selector, additional_data }
    }

    /// The selector.
    pub fn selector(&self) -> (s: &Selector)
        ensures
            s@ == self.selector@,
    {
        &self.selector
    }

    /// The value.
    pub fn value(&self) -> (v: &[u8])
        ensures
            v@ == self.value@,
    {
        self.value.as_slice()
    }

    /// The additional data.
    pub fn additional_data(&self) -> (v: &[u8])
        ensures
            v@ == self.additional_data@,
    {
        self.additional_data.as_slice()
    }

    /// Encodes the proof: selector type byte and payload, then the value and the
    /// additional data, each with a `u32` little-endian length prefix.
    pub fn to_bytes(&self) -> (r: Vec<u8>)
        ensures
            r@ == spec_encode_hash_proof(self@),
    {
        let mut result: Vec<u8> = Vec::new();
        match &self.selector {
            Selector::Position(pos) => {
                result.push(1);
                let b = u64_to_le_bytes(*pos);
                append_bytes(&mut result, b.as_slice());
            }
            Selector::Key(key) => {
                result.push(2);
                push_len_prefix(&mut result, key.len());
                append_bytes(&mut result, key.as_slice());
            }
            Selector::Predicate(pred) => {
                result.push(3);
                push_len_prefix(&mut result, pred.len());
                append_bytes(&mut result, pred.as_slice());
            }
            Selector::Unselected => {
                result.push(0);
            }
        }
        assert(result@ =~= spec_encode_selector(self.selector@));
        push_len_prefix(&mut result, self.value.len());
        append_bytes(&mut result, self.value.as_slice());
        push_len_prefix(&mut result, self.additional_data.len());
        append_bytes(&mut result, self.additional_data.as_slice());
        result
    }

    /// Decodes a proof from its encoding. Bytes after the additional data are ignored.
    pub fn from_bytes(bytes: &[u8]) -> (r: Result<HashProof, CryptoError>)
        ensures
            match (r, spec_decode_hash_proof(bytes@)) {
                (Ok(p), Ok(sp)) => p@ == sp,
                (Err(e), Err(se)) => e == se,
                _ => false,
            },
    {
        if bytes.len() == 0 {
            return Err(CryptoError::InvalidProofBytes);
        }
        let selector_type = bytes[0];
        let (selector, p1) = if selector_type == 0 {
            (Selector::Unselected, 1usize)
        } else if selector_type == 1 {
            if bytes.len() < 9 {
                return Err(CryptoError::InvalidProofBytes);
            }
            let pos = u64_from_le_bytes(vstd::slice::slice_subrange(bytes, 1, 9));
            (Selector::Position(pos), 9usize)
        } else if selector_type == 2 {
            match read_field(bytes, 1) {
                Some((k, next)) => (Selector::Key(k), next),
                None => return Err(CryptoError::InvalidProofBytes),
            }
        } else if selector_type == 3 {
            match read_field(bytes, 1) {
                Some((q, next)) => (Selector::Predicate(q), next),
                None => return Err(CryptoError::InvalidProofBytes),
            }
        } else {
            return Err(CryptoError::UnknownSelectorType(selector_type));
        };
        assert(spec_decode_selector(bytes@) == Ok::<(SelectorView, int), CryptoError>((selector@, p1 as int)));
        let (value, p2) = match read_field(bytes, p1) {
            Some(x) => x,
            None => return Err(CryptoError::InvalidProofBytes),
        };
        let (additional_data, _) = match read_field(bytes, p2) {
            Some(x) => x,
            None => return Err(CryptoError::InvalidProofBytes),
        };
        Ok(HashProof { value, selector, additional_data })
    }
}


// ---------------------------------------------------------------------------
// Laws of the proof encoding
// ---------------------------------------------------------------------------

/// Reading a field at `pos` from a sequence that holds its prefixed encoding
/// there gives back the field and the position right after it.
proof fn lemma_read_field_of_encoding(b: Seq<u8>, pos: int, field: Seq<u8>)
    requires
        0 <= pos,
        field.len() <= u32::MAX,
        pos + 4 + field.len() <= b.len(),
        b.subrange(pos, pos + 4) == u32_len_prefix(field.len()),
        b.subrange(pos + 4, pos + 4 + field.len()) == field,
    ensures
        spec_read_field(b, pos) == Some((field, pos + 4 + field.len())),
{
    lemma_auto_spec_u32_to_from_le_bytes();
    assert(spec_u32_to_le_bytes(field.len() as u32).len() == 4);
    assert(spec_u32_from_le_bytes(spec_u32_to_le_bytes(field.len() as u32)) == field.len() as u32);
}

/// Law: decoding the encoding of a proof gives the proof back, whenever each of
/// its byte fields is short enough for the `u32` length prefix.
pub proof fn lemma_hash_proof_roundtrip(p: HashProofView)
    requires
        proof_lengths_fit(p),
    ensures
        spec_decode_hash_proof(spec_encode_hash_proof(p)) == Ok::<HashProofView, CryptoError>(p),
{
    lemma_auto_spec_u32_to_from_le_bytes();
    lemma_auto_spec_u64_to_from_le_bytes();
    let sel = spec_encode_selector(p.selector);
    let b = spec_encode_hash_proof(p);
    let p1 = sel.len() as int;
    let p2 = p1 + 4 + p.value.len();
    assert(b.subrange(0, p1) =~= sel);
    match p.selector {
        SelectorView::Position(x) => {
            assert(b.subrange(1, 9) =~= spec_u64_to_le_bytes(x));
        }
        SelectorView::Key(k) => {
            assert(b.subrange(1, 5) =~= u32_len_prefix(k.len()));
            assert(b.subrange(5, 5 + k.len() as int) =~= k);
            lemma_read_field_of_encoding(b, 1, k);
        }
        SelectorView::Predicate(q) => {
            assert(b.subrange(1, 5) =~= u32_len_prefix(q.len()));
            assert(b.subrange(5, 5 + q.len() as int) =~= q);
            lemma_read_field_of_encoding(b, 1, q);
        }
        SelectorView::Unselected => {}
    }
    assert(spec_decode_selector(b) == Ok::<(SelectorView, int), CryptoError>((p.selector, p1)));
    assert(b.subrange(p1, p1 + 4) =~= u32_len_prefix(p.value.len()));
    assert(b.subrange(p1 + 4, p2) =~= p.value);
    lemma_read_field_of_encoding(b, p1, p.value);
    assert(b.subrange(p2, p2 + 4) =~= u32_len_prefix(p.additional_data.len()));
    assert(b.subrange(p2 + 4, p2 + 4 + p.additional_data.len()) =~= p.additional_data);
    lemma_read_field_of_encoding(b, p2, p.additional_data);
}

/// Law: a successfully decoded proof re-encodes to a prefix of the bytes it was
/// decoded from (decoding ignores only what follows the additional data).
pub proof fn lemma_hash_proof_decode_encode(b: Seq<u8>)
    requires
        spec_decode_hash_proof(b) is Ok,
    ensures
        ({
            let e = spec_encode_hash_proof(spec_decode_hash_proof(b)->Ok_0);
            e.len() <= b.len() && b.subrange(0, e.len() as int) == e
        }),
{
    lemma_auto_spec_u32_to_from_le_bytes();
    lemma_auto_spec_u64_to_from_le_bytes();
    let p = spec_decode_hash_proof(b)->Ok_0;
    let (sel, p1) = spec_decode_selector(b)->Ok_0;
    assert(sel == p.selector);
    let sel_bytes = spec_encode_selector(sel);
    if b[0] == 1 {
        assert(b.subrange(1, 9) =~= spec_u64_to_le_bytes(spec_u64_from_le_bytes(b.subrange(1, 9))));
        assert(b.subrange(0, 9) =~= sel_bytes);
    } else if b[0] == 2 || b[0] == 3 {
        let n = spec_u32_from_le_bytes(b.subrange(1, 5));
        assert(spec_u32_to_le_bytes(spec_u32_from_le_bytes(b.subrange(1, 5))) == b.subrange(1, 5));
        assert(b.subrange(0, p1) =~= sel_bytes);
    } else {
        assert(b.subrange(0, 1) =~= sel_bytes);
    }
    assert(b.subrange(0, p1) == sel_bytes);
    let (v, p2) = spec_read_field(b, p1)->Some_0;
    assert(spec_u32_to_le_bytes(spec_u32_from_le_bytes(b.subrange(p1, p1 + 4))) == b.subrange(p1, p1 + 4));
    assert(b.subrange(0, p2) =~= sel_bytes + u32_len_prefix(v.len()) + v);
    let (a, p3) = spec_read_field(b, p2)->Some_0;
    assert(spec_u32_to_le_bytes(spec_u32_from_le_bytes(b.subrange(p2, p2 + 4))) == b.subrange(p2, p2 + 4));
    assert(b.subrange(0, p3) =~= sel_bytes + u32_len_prefix(v.len()) + v + u32_len_prefix(a.len()) + a);
}

} // verus!
