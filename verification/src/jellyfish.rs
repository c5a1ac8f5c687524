//! Jellyfish Merkle tree keys: nibble paths, and the node shapes of the tree.

use vstd::prelude::*;
use crate::bytes::{append_bytes, read_array};
use crate::codec::{scale_compact, spec_scale_compact};
use crate::crypto::{sha256, sha256_accepts, sha256_spec};
use crate::hash_commitment::{HashCommitmentScheme, spec_hash, spec_leaf_preimage, HashFunction};

verus! {

/// A key read as a path of 4-bit nibbles (at most 64 nibbles, from 32 bytes).
#[derive(Clone, Copy, PartialEq, Eq, PartialOrd, Ord, Hash, Debug)]
pub struct NibblePath {
    bytes: [u8; 32],
    num_nibbles: usize,
}

/// The `i`-th nibble of a path over `bytes` with `n` nibbles: the high half of
/// byte `i / 2` for even `i`, the low half for odd `i`, and 0 past the end.
pub open spec fn spec_nibble(bytes: Seq<u8>, n: nat, i: int) -> u8 {
    if i < 0 || i >= n {
        0
    } else if i % 2 == 0 {
        (bytes[i / 2] / 16) as u8
    } else {
        (bytes[i / 2] % 16) as u8
    }
}

impl NibblePath {
    /// A path holds at most 64 nibbles.
    #[verifier::type_invariant]
    spec fn wf(self) -> bool {
        self.num_nibbles <= 64
    }

    /// The 32-byte buffer of the path.
    pub closed spec fn spec_bytes(&self) -> Seq<u8> {
        self.bytes@
    }

    /// The number of nibbles in the path.
    pub closed spec fn spec_num_nibbles(&self) -> nat {
        self.num_nibbles as nat
    }

    /// The path's nibble at `i`.
    pub open spec fn spec_get_nibble(&self, i: int) -> u8 {
        spec_nibble(self.spec_bytes(), self.spec_num_nibbles(), i)
    }

    /// Builds the path of a key: its first 32 bytes, two nibbles each.
    pub fn new(key: &[u8]) -> (p: Self)
        ensures
            p.spec_num_nibbles() == 2 * (if key@.len() < 32 { key@.len() } else { 32 }),
            p.spec_num_nibbles() <= 64,
            p.spec_bytes().len() == 32,
            forall|j: int| 0 <= j < 32 ==> #[trigger] p.spec_bytes()[j] == (if j < key@.len() { key@[j] } else { 0u8 }),
    {
        let mut bytes = [0u8; 32];
        let len = if key.len() < 32 { key.len() } else { 32 };
        let mut i: usize = 0;
        while i < len
            invariant
                len <= key@.len(),
                len <= 32,
                i <= len,
                bytes@.len() == 32,
                forall|j: int| 0 <= j < i ==> bytes@[j] == key@[j],
                forall|j: int| i <= j < 32 ==> bytes@[j] == 0u8,
            decreases len - i,
        {
            bytes[i] = key[i];
            i = i + 1;
        }
        Self { bytes, num_nibbles: len * 2 }
    }

    /// The nibble at `index`, or 0 past the end of the path.
    pub fn get_nibble(&self, index: usize) -> (r: u8)
        ensures
            r == self.spec_get_nibble(index as int),
    {
        proof {
            use_type_invariant(self);
        }
        if index >= self.num_nibbles {
            return 0;
        }
        let byte = self.bytes[index / 2];
        if index % 2 == 0 {
            assert(byte >> 4 == byte / 16) by (bit_vector);
            byte >> 4
        } else {
            assert(byte & 0x0F == byte % 16) by (bit_vector);
            byte & 0x0F
        }
    }

    /// The length of the longest common nibble prefix of two paths.
    pub fn common_prefix(&self, other: &Self) -> (r: usize)
        ensures
            r <= self.spec_num_nibbles(),
            r <= other.spec_num_nibbles(),
            forall|j: int| 0 <= j < r ==> self.spec_get_nibble(j) == other.spec_get_nibble(j),
            r < self.spec_num_nibbles() && r < other.spec_num_nibbles()
                ==> self.spec_get_nibble(r as int) != other.spec_get_nibble(r as int),
    {
        let len = if self.num_nibbles < other.num_nibbles { self.num_nibbles } else { other.num_nibbles };
        let mut i: usize = 0;
        while i < len
            invariant
                len <= self.spec_num_nibbles(),
                len <= other.spec_num_nibbles(),
                i <= len,
                forall|j: int| 0 <= j < i ==> self.spec_get_nibble(j) == other.spec_get_nibble(j),
            decreases len - i,
        {
            if self.get_nibble(i) != other.get_nibble(i) {
                return i;
            }
            i = i + 1;
        }
        len
    }
}

/// A node hash.
pub type NodeHash = [u8; 32];

/// Internal node with up to 16 children.
#[derive(Debug, Clone, PartialEq, Eq)]
pub struct InternalNode {
    /// Sparse children: the nibble (0-15) and the child's hash.
    pub children: Vec<(u8, NodeHash)>,
}

/// Leaf node holding the hash of its value.
#[derive(Debug, Clone, Copy, PartialEq, Eq)]
pub struct LeafNode {
    /// The full key hash corresponding to this leaf.
    pub account_key: [u8; 32],
    /// The hash of the value stored.
    pub value_hash: [u8; 32],
}

/// A node of the Jellyfish Merkle tree.
#[derive(Debug, Clone, PartialEq, Eq)]
pub enum Node {
    /// Internal node with up to 16 children.
    Internal(InternalNode),
    /// Leaf node containing value hash.
    Leaf(LeafNode),
    /// Null node (empty).
    Null,
}

/// The encodings of the children entries: each nibble byte and child hash.
pub open spec fn spec_children_entries(c: Seq<(u8, NodeHash)>) -> Seq<u8>
    decreases c.len(),
{
    if c.len() == 0 { Seq::empty() } else { spec_children_entries(c.drop_last()) + seq![c.last().0] + c.last().1@ }
}

/// The encoding of an internal node: the compact count of its children, then
/// each child's nibble and hash.
pub open spec fn spec_internal_bytes(n: InternalNode) -> Seq<u8> {
    spec_scale_compact(n.children@.len() as u32) + spec_children_entries(n.children@)
}

/// The all-zero hash.
pub open spec fn spec_zero_hash() -> Seq<u8> {
    Seq::new(32, |i: int| 0u8)
}

/// The hash of a node: SHA-256 of an internal node's encoding, the scheme's
/// leaf commitment `H(0x00 || key || value_hash)` for a leaf, zeros for null
/// (and zeros where an internal node's encoding cannot be hashed).
pub open spec fn spec_node_hash(node: Node) -> Seq<u8> {
    match node {
        Node::Internal(n) => if sha256_accepts(spec_internal_bytes(n)) {
            sha256_spec(spec_internal_bytes(n))
        } else {
            spec_zero_hash()
        },
        Node::Leaf(l) => sha256_spec(spec_leaf_preimage(l.account_key@, l.value_hash@)),
        Node::Null => spec_zero_hash(),
    }
}

fn zero_hash() -> (h: NodeHash)
    ensures
        h@ == spec_zero_hash(),
{
    let h = [0u8; 32];
    assert(h@ =~= spec_zero_hash());
    h
}

impl Node {
    /// Computes the hash of the node, committing leaves with the scheme's leaf commitment.
    pub fn hash(&self, _scheme: &HashCommitmentScheme) -> (h: NodeHash)
        requires
            self matches Node::Internal(n) ==> n.children@.len() <= u32::MAX,
        ensures
            h@ == spec_node_hash(*self),
    {
        match self {
            Node::Internal(n) => {
                let mut encoded = scale_compact(n.children.len() as u32);
                let ghost start = encoded@;
                let count = n.children.len();
                let mut i: usize = 0;
                while i < count
                    invariant
                        count == n.children@.len(),
                        i <= count,
                        encoded@ == start + spec_children_entries(n.children@.subrange(0, i as int)),
                    decreases count - i,
                {
                    encoded.push(n.children[i].0);
                    append_bytes(&mut encoded, n.children[i].1.as_slice());
                    assert(n.children@.subrange(0, i + 1).drop_last() =~= n.children@.subrange(0, i as int));
                    i = i + 1;
                }
                assert(n.children@.subrange(0, count as int) =~= n.children@);
                match sha256(encoded.as_slice()) {
                    Some(d) => read_array(d.as_slice(), 0),
                    None => zero_hash(),
                }
            }
            Node::Leaf(n) => {
                match HashCommitmentScheme::commit_leaf(n.account_key.as_slice(), n.value_hash.as_slice()) {
                    Ok(bytes) => {
                        proof {
                            assert(spec_leaf_preimage(n.account_key@, n.value_hash@).len() == 65);
                        }
                        read_array(bytes.as_slice(), 0)
                    }
                    Err(_) => {
                        proof {
                            assert(spec_leaf_preimage(n.account_key@, n.value_hash@).len() == 65);
                        }
                        zero_hash()
                    }
                }
            }
            Node::Null => zero_hash(),
        }
    }
}

} // verus!
