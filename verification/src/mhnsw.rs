//! Nodes of the Merkelized HNSW vector index: their layout and commitment hash,
//! and the traversal proofs built from them.

use vstd::prelude::*;
use vstd::bytes::*;
use vstd::relations::sorted_by;
use crate::bytes::append_bytes;
use crate::codec::{scale_compact, spec_scale_compact};
use crate::crypto::{sha256, sha256_accepts, sha256_spec};

verus! {

/// A node id.
pub type NodeId = u64;

/// A node hash.
pub type NodeHash = [u8; 32];

/// A node of the graph.
#[derive(Debug, Clone)]
pub struct GraphNode {
    pub id: NodeId,
    /// The raw vector embedding: each component's IEEE 754 bits, little-endian.
    pub vector: Vec<u8>,
    /// The content payload (e.g., chunk text or external CID).
    pub payload: Vec<u8>,
    /// Neighbors per layer.
    pub neighbors: Vec<Vec<NodeId>>,
    /// The Merkle hash of this node.
    pub hash: NodeHash,
}

/// A node visited during a traversal, with what is needed to check the step.
#[derive(Debug, Clone)]
pub struct VisitedNode {
    pub id: NodeId,
    pub hash: NodeHash,
    pub vector: Vec<u8>,
    pub neighbors_at_layer: Vec<NodeId>,
}

/// A proof that a search followed valid graph edges to its results.
#[derive(Debug, Clone)]
pub struct TraversalProof {
    pub entry_point_id: NodeId,
    pub entry_point_hash: NodeHash,
    pub trace: Vec<VisitedNode>,
    pub results: Vec<NodeId>,
}

/// The ascending order on node ids.
pub open spec fn id_le(a: u64, b: u64) -> bool {
    a <= b
}

/// Calls std's `slice::sort` on the vector.
/// Claims: the result is the ascending sort of the input (the unique sorted
/// permutation, so the sort's stability does not matter for integers).
#[verifier::external_body]
fn sort_ids(v: &mut Vec<u64>)
    ensures
        final(v)@ == old(v)@.sort_by(|a: u64, b: u64| id_le(a, b)),
{
    v.sort();
}

/// The little-endian bytes of a vector of `u32` components, four per component.
pub open spec fn spec_components_bytes(v: Seq<u32>) -> Seq<u8>
    decreases v.len(),
{
    if v.len() == 0 { Seq::empty() } else { spec_components_bytes(v.drop_last()) + spec_u32_to_le_bytes(v.last()) }
}

/// The concatenated little-endian bytes of a list of ids.
pub open spec fn spec_ids_bytes(v: Seq<u64>) -> Seq<u8>
    decreases v.len(),
{
    if v.len() == 0 { Seq::empty() } else { spec_ids_bytes(v.drop_last()) + spec_u64_to_le_bytes(v.last()) }
}

/// The SCALE encoding of a list of ids: compact length, then each id.
pub open spec fn spec_scale_ids(v: Seq<u64>) -> Seq<u8> {
    spec_scale_compact(v.len() as u32) + spec_ids_bytes(v)
}

/// The encoding of a layer that the node hash commits to: its ids sorted ascending.
pub open spec fn spec_layer_bytes(layer: Seq<u64>) -> Seq<u8> {
    spec_scale_ids(layer.sort_by(|a: u64, b: u64| id_le(a, b)))
}

/// The concatenated digests of the layers.
pub open spec fn spec_layer_digests(layers: Seq<Seq<u64>>) -> Seq<u8>
    decreases layers.len(),
{
    if layers.len() == 0 {
        Seq::empty()
    } else {
        spec_layer_digests(layers.drop_last()) + sha256_spec(spec_layer_bytes(layers.last()))
    }
}

/// The neighbor lists of a node as sequences.
pub open spec fn layers_view(n: Seq<Vec<u64>>) -> Seq<Seq<u64>> {
    n.map_values(|l: Vec<u64>| l@)
}

/// The preimage of a node hash: `id || vector || payload || H(layer 0) || ... || H(layer n)`.
pub open spec fn spec_node_preimage(node: GraphNode) -> Seq<u8> {
    spec_u64_to_le_bytes(node.id) + node.vector@ + node.payload@ + spec_layer_digests(layers_view(node.neighbors@))
}

/// Whether every input of the node hash can be hashed and every layer encoded.
pub open spec fn spec_node_hashable(node: GraphNode) -> bool {
    &&& forall|i: int| 0 <= i < node.neighbors@.len() ==> {
        &&& (#[trigger] node.neighbors@[i])@.len() <= u32::MAX
        &&& sha256_accepts(spec_layer_bytes(node.neighbors@[i]@))
    }
    &&& sha256_accepts(spec_node_preimage(node))
}

pub(crate) fn push_scale_ids(out: &mut Vec<u8>, v: &Vec<u64>)
    requires
        v@.len() <= u32::MAX,
    ensures
        final(out)@ == old(out)@ + spec_scale_ids(v@),
{
    let ghost start = out@;
    let len = scale_compact(v.len() as u32);
    append_bytes(out, len.as_slice());
    let n = v.len();
    let mut i: usize = 0;
    while i < n
        invariant
            n == v@.len(),
            i <= n,
            out@ == start + spec_scale_compact(n as u32) + spec_ids_bytes(v@.subrange(0, i as int)),
        decreases n - i,
    {
        let b = u64_to_le_bytes(v[i]);
        append_bytes(out, b.as_slice());
        assert(v@.subrange(0, i + 1).drop_last() =~= v@.subrange(0, i as int));
        i = i + 1;
    }
    assert(v@.subrange(0, n as int) =~= v@);
}

fn copy_ids(v: &Vec<u64>) -> (r: Vec<u64>)
    ensures
        r@ == v@,
{
    let mut r: Vec<u64> = Vec::new();
    let n = v.len();
    let mut i: usize = 0;
    while i < n
        invariant
            n == v@.len(),
            i <= n,
            r@ == v@.subrange(0, i as int),
        decreases n - i,
    {
        r.push(v[i]);
        i = i + 1;
    }
    assert(v@.subrange(0, n as int) =~= v@);
    r
}

/// A layer's encoding depends only on which ids it holds, each with its
/// multiplicity, not on the order in which they are listed.
pub proof fn lemma_layer_bytes_order_independent(a: Seq<u64>, b: Seq<u64>)
    requires
        a.to_multiset() == b.to_multiset(),
    ensures
        spec_layer_bytes(a) == spec_layer_bytes(b),
{
    let leq = |x: u64, y: u64| id_le(x, y);
    a.lemma_sort_by_ensures(leq);
    b.lemma_sort_by_ensures(leq);
    vstd::seq_lib::lemma_sorted_unique(a.sort_by(leq), b.sort_by(leq), leq);
}

/// Layer lists that hold the same ids per layer, in any order, give the same digests.
pub proof fn lemma_layer_digests_order_independent(a: Seq<Seq<u64>>, b: Seq<Seq<u64>>)
    requires
        a.len() == b.len(),
        forall|i: int| 0 <= i < a.len() ==> (#[trigger] a[i]).to_multiset() == b[i].to_multiset(),
    ensures
        spec_layer_digests(a) == spec_layer_digests(b),
    decreases a.len(),
{
    if a.len() > 0 {
        let n = a.len() - 1;
        assert(a[n].to_multiset() == b[n].to_multiset());
        lemma_layer_bytes_order_independent(a.last(), b.last());
        assert forall|i: int| 0 <= i < a.drop_last().len() implies
            (#[trigger] a.drop_last()[i]).to_multiset() == b.drop_last()[i].to_multiset() by {
            assert(a[i].to_multiset() == b[i].to_multiset());
        }
        lemma_layer_digests_order_independent(a.drop_last(), b.drop_last());
    }
}

/// The commitment of a node does not depend on the order of the neighbors within
/// each layer: two nodes that differ only in that order have the same hash preimage.
pub proof fn lemma_node_hash_neighbor_order_independent(x: GraphNode, y: GraphNode)
    requires
        x.id == y.id,
        x.vector@ == y.vector@,
        x.payload@ == y.payload@,
        x.neighbors@.len() == y.neighbors@.len(),
        forall|i: int| 0 <= i < x.neighbors@.len() ==>
            (#[trigger] x.neighbors@[i])@.to_multiset() == y.neighbors@[i]@.to_multiset(),
    ensures
        spec_node_preimage(x) == spec_node_preimage(y),
{
    let a = layers_view(x.neighbors@);
    let b = layers_view(y.neighbors@);
    assert forall|i: int| 0 <= i < a.len() implies (#[trigger] a[i]).to_multiset() == b[i].to_multiset() by {
        assert(x.neighbors@[i]@.to_multiset() == y.neighbors@[i]@.to_multiset());
    }
    lemma_layer_digests_order_independent(a, b);
}

impl GraphNode {
    /// Creates a node with the given vector (the IEEE 754 bits of each
    /// component), payload and `max_layers` empty neighbor lists; its hash is zero.
    pub fn new(id: NodeId, vector: Vec<u32>, payload: Vec<u8>, max_layers: usize) -> (n: Self)
        ensures
            n.id == id,
            n.vector@ == spec_components_bytes(vector@),
            n.payload@ == payload@,
            n.neighbors@.len() == max_layers,
            forall|i: int| 0 <= i < max_layers ==> (#[trigger] n.neighbors@[i])@.len() == 0,
            n.hash@ == Seq::new(32, |i: int| 0u8),
    {
        let mut vec_bytes: Vec<u8> = Vec::new();
        let nv = vector.len();
        let mut i: usize = 0;
        while i < nv
            invariant
                nv == vector@.len(),
                i <= nv,
                vec_bytes@ == spec_components_bytes(vector@.subrange(0, i as int)),
            decreases nv - i,
        {
            let b = u32_to_le_bytes(vector[i]);
            append_bytes(&mut vec_bytes, b.as_slice());
            assert(vector@.subrange(0, i + 1).drop_last() =~= vector@.subrange(0, i as int));
            i = i + 1;
        }
        assert(vector@.subrange(0, nv as int) =~= vector@);
        let mut neighbors: Vec<Vec<NodeId>> = Vec::new();
        let mut j: usize = 0;
        while j < max_layers
            invariant
                j <= max_layers,
                neighbors@.len() == j,
                forall|k: int| 0 <= k < j ==> (#[trigger] neighbors@[k])@.len() == 0,
            decreases max_layers - j,
        {
            neighbors.push(Vec::new());
            j = j + 1;
        }
        let hash = [0u8; 32];
        assert(hash@ =~= Seq::new(32, |i: int| 0u8));
        Self { id, vector: vec_bytes, payload, neighbors, hash }
    }

    /// Computes the node's commitment hash
    /// `H(id || vector || payload || H(layer 0) || ... || H(layer n))`, each layer
    /// sorted ascending and encoded before hashing.
    pub fn compute_hash(&mut self)
        requires
            spec_node_hashable(*old(self)),
        ensures
            final(self).id == old(self).id,
            final(self).vector@ == old(self).vector@,
            final(self).payload@ == old(self).payload@,
            final(self).neighbors@ == old(self).neighbors@,
            final(self).hash@ == sha256_spec(spec_node_preimage(*old(self))),
    {
        let mut preimage = u64_to_le_bytes(self.id);
        append_bytes(&mut preimage, self.vector.as_slice());
        append_bytes(&mut preimage, self.payload.as_slice());
        let ghost base = preimage@;
        let n = self.neighbors.len();
        let mut i: usize = 0;
        while i < n
            invariant
                n == self.neighbors@.len(),
                i <= n,
                spec_node_hashable(*self),
                preimage@ == base + spec_layer_digests(layers_view(self.neighbors@.subrange(0, i as int))),
            decreases n - i,
        {
            let mut sorted = copy_ids(&self.neighbors[i]);
            sort_ids(&mut sorted);
            let ghost layer = self.neighbors@[i as int]@;
            proof {
                layer.lemma_sort_by_ensures(|a: u64, b: u64| id_le(a, b));
                vstd::seq_lib::to_multiset_len(layer);
                vstd::seq_lib::to_multiset_len(sorted@);
                assert(sorted@.len() == layer.len());
            }
            let mut layer_bytes: Vec<u8> = Vec::new();
            push_scale_ids(&mut layer_bytes, &sorted);
            let digest = match sha256(layer_bytes.as_slice()) {
                Some(d) => d,
                None => Vec::new(),
            };
            append_bytes(&mut preimage, digest.as_slice());
            assert(layers_view(self.neighbors@.subrange(0, i + 1)).drop_last()
                =~= layers_view(self.neighbors@.subrange(0, i as int)));
            i = i + 1;
        }
        assert(self.neighbors@.subrange(0, n as int) =~= self.neighbors@);
        match sha256(preimage.as_slice()) {
            Some(d) => {
                self.hash = crate::bytes::read_array(d.as_slice(), 0);
            }
            None => {}
        }
    }
}

} // verus!
