//! The Verkle tree's update of a node: the key-value logic of the tree, with
//! the commitment of each rebuilt internal node computed from its children by
//! the tree's commitment function, which the caller hands in.

use vstd::prelude::*;
use crate::bytes::bytes_eq;
use crate::kzg::{KZGCommitment, KZGWitness};
use crate::state::to_vec;

verus! {

/// A node of the Verkle tree.
#[derive(Debug)]
pub enum VerkleNode {
    Empty,
    Leaf { key: Vec<u8>, value: Vec<u8>, created_at: u64 },
    Internal { children: Vec<(u8, VerkleNode)>, kzg_commitment: KZGCommitment, witness: KZGWitness, created_at: u64 },
}

/// A node's keys, values, heights and children, without its commitment.
pub enum NodeShape {
    Empty,
    Leaf(Seq<u8>, Seq<u8>, u64),
    Internal(Seq<(u8, NodeShape)>, u64),
}

/// The shape of a node.
pub open spec fn shape(n: VerkleNode) -> NodeShape
    decreases n,
{
    match n {
        VerkleNode::Empty => NodeShape::Empty,
        VerkleNode::Leaf { key, value, created_at } => NodeShape::Leaf(key@, value@, created_at),
        VerkleNode::Internal { children, created_at, .. } => {
            proof {
                assert(decreases_to!(n => children));
                assert(decreases_to!(children => children@));
            }
            NodeShape::Internal(shapes(children@), created_at)
        },
    }
}

/// The shapes of a node's children, with their indices.
pub open spec fn shapes(cs: Seq<(u8, VerkleNode)>) -> Seq<(u8, NodeShape)>
    decreases cs,
{
    if cs.len() == 0 {
        Seq::empty()
    } else {
        proof {
            assert(decreases_to!(cs => cs[cs.len() - 1]));
            assert(decreases_to!(cs[cs.len() - 1] => cs[cs.len() - 1].1));
        }
        shapes(cs.drop_last()).push((cs.last().0, shape(cs.last().1)))
    }
}

/// Every entry of the children's shapes is the index and the shape of the child.
pub proof fn lemma_shapes_index(cs: Seq<(u8, VerkleNode)>)
    ensures
        shapes(cs).len() == cs.len(),
        forall|j: int| 0 <= j < cs.len() ==> #[trigger] shapes(cs)[j] == (cs[j].0, shape(cs[j].1)),
    decreases cs.len(),
{
    if cs.len() > 0 {
        lemma_shapes_index(cs.drop_last());
    }
}

/// The children's shapes as one sequence.
pub proof fn lemma_shapes_new(cs: Seq<(u8, VerkleNode)>)
    ensures
        shapes(cs) =~= Seq::new(cs.len(), |j: int| (cs[j].0, shape(cs[j].1))),
{
    lemma_shapes_index(cs);
}

/// The position of the first child with index `i`, or the number of children.
pub open spec fn spec_find(cs: Seq<(u8, NodeShape)>, i: u8) -> nat
    decreases cs.len(),
{
    if cs.len() == 0 {
        0
    } else if cs[0].0 == i {
        0
    } else {
        1 + spec_find(cs.drop_first(), i)
    }
}

/// The children with the child at index `i` set to `c`: the first child with
/// that index is replaced, else `c` is added last.
pub open spec fn spec_set(cs: Seq<(u8, NodeShape)>, i: u8, c: NodeShape) -> Seq<(u8, NodeShape)> {
    let p = spec_find(cs, i);
    if p < cs.len() { cs.update(p as int, (i, c)) } else { cs.push((i, c)) }
}

/// The children without the first child at index `i`.
pub open spec fn spec_remove(cs: Seq<(u8, NodeShape)>, i: u8) -> Seq<(u8, NodeShape)> {
    let p = spec_find(cs, i);
    if p < cs.len() { cs.remove(p as int) } else { cs }
}

/// The chain of internal nodes from `depth` down to a leaf, one child each,
/// following the key's bytes.
pub open spec fn spec_path(key: Seq<u8>, value: Seq<u8>, depth: nat, h: u64) -> NodeShape
    decreases key.len() - depth,
{
    if depth >= key.len() {
        NodeShape::Leaf(key, value, h)
    } else {
        NodeShape::Internal(seq![(key[depth as int], spec_path(key, value, depth + 1, h))], h)
    }
}

/// A leaf with the value, or nothing for a removal.
pub open spec fn spec_leaf_or_empty(key: Seq<u8>, value: Option<Seq<u8>>, h: u64) -> NodeShape {
    match value {
        Some(v) => NodeShape::Leaf(key, v, h),
        None => NodeShape::Empty,
    }
}

/// The shape after setting (`Some`) or removing (`None`) the value of `key`
/// in a node at `depth`, written at height `h`; `None` where a leaf in the way
/// has a key too short to be split at this depth. A leaf with another key is
/// split into an internal node holding it and the new leaf under their bytes
/// at this depth (the new leaf takes the place when the bytes agree); an
/// internal node that loses its last child becomes empty.
pub open spec fn spec_update(n: NodeShape, key: Seq<u8>, value: Option<Seq<u8>>, depth: nat, h: u64) -> Option<NodeShape>
    decreases key.len() - depth,
{
    if depth >= key.len() {
        Some(spec_leaf_or_empty(key, value, h))
    } else {
        match n {
            NodeShape::Empty => Some(match value {
                Some(v) => spec_path(key, v, depth, h),
                None => NodeShape::Empty,
            }),
            NodeShape::Leaf(lk, lv, _) => if lk == key {
                Some(spec_leaf_or_empty(key, value, h))
            } else if depth >= lk.len() {
                None
            } else {
                let cs = seq![(lk[depth as int], NodeShape::Leaf(lk, lv, h))];
                Some(NodeShape::Internal(match value {
                    Some(v) => spec_set(cs, key[depth as int], NodeShape::Leaf(key, v, h)),
                    None => cs,
                }, h))
            },
            NodeShape::Internal(cs, _) => {
                let i = key[depth as int];
                let p = spec_find(cs, i);
                let child = if p < cs.len() { cs[p as int].1 } else { NodeShape::Empty };
                match spec_update(child, key, value, depth + 1, h) {
                    None => None,
                    Some(nc) => {
                        let cs2 = if nc is Empty { spec_remove(cs, i) } else { spec_set(cs, i, nc) };
                        Some(if cs2.len() == 0 { NodeShape::Empty } else { NodeShape::Internal(cs2, h) })
                    },
                }
            },
        }
    }
}

/// The bytes of an optional value.
pub open spec fn opt_bytes(value: Option<&[u8]>) -> Option<Seq<u8>> {
    match value {
        Some(v) => Some(v@),
        None => None,
    }
}

/// Why an update failed.
#[derive(Debug, Clone)]
pub enum VerkleError {
    /// A leaf in the way has a key too short to be split at its depth.
    LeafKeyTooShort(usize),
    /// The commitment function refused a node's children.
    Commitment(String),
}

/// The position of the first child with index `i`, if any.
fn find_child(children: &Vec<(u8, VerkleNode)>, i: u8) -> (r: usize)
    ensures
        r == spec_find(shapes(children@), i),
        r <= children@.len(),
{
    proof {
        lemma_shapes_index(children@);
    }
    let ghost cs = shapes(children@);
    let mut j: usize = 0;
    while j < children.len()
        invariant
            j <= children@.len(),
            cs == shapes(children@),
            cs.len() == children@.len(),
            forall|k: int| 0 <= k < children@.len() ==> #[trigger] cs[k] == (children@[k].0, shape(children@[k].1)),
            forall|k: int| 0 <= k < j ==> cs[k].0 != i,
        decreases children@.len() - j,
    {
        if children[j].0 == i {
            proof {
                lemma_find_first(cs, i, j as int);
            }
            return j;
        }
        j = j + 1;
    }
    proof {
        lemma_find_none(cs, i);
    }
    j
}

proof fn lemma_find_first(cs: Seq<(u8, NodeShape)>, i: u8, j: int)
    requires
        0 <= j < cs.len(),
        cs[j].0 == i,
        forall|k: int| 0 <= k < j ==> cs[k].0 != i,
    ensures
        spec_find(cs, i) == j,
    decreases j,
{
    if j > 0 {
        lemma_find_first(cs.drop_first(), i, j - 1);
    }
}

proof fn lemma_find_none(cs: Seq<(u8, NodeShape)>, i: u8)
    requires
        forall|k: int| 0 <= k < cs.len() ==> cs[k].0 != i,
    ensures
        spec_find(cs, i) == cs.len(),
    decreases cs.len(),
{
    if cs.len() > 0 {
        lemma_find_none(cs.drop_first(), i);
    }
}

proof fn lemma_find_bound(cs: Seq<(u8, NodeShape)>, i: u8)
    ensures
        spec_find(cs, i) <= cs.len(),
        spec_find(cs, i) < cs.len() ==> cs[spec_find(cs, i) as int].0 == i,
    decreases cs.len(),
{
    if cs.len() > 0 && cs[0].0 != i {
        lemma_find_bound(cs.drop_first(), i);
    }
}

/// Whether the commitment function accepts every list of children.
pub open spec fn commit_total<F: Fn(&Vec<(u8, VerkleNode)>) -> Result<(KZGCommitment, KZGWitness), String>>(commit: &F) -> bool {
    forall|cs: &Vec<(u8, VerkleNode)>, res: Result<(KZGCommitment, KZGWitness), String>|
        #[trigger] commit.ensures((cs,), res) ==> res is Ok
}

/// Whether a node's commitment, where it is internal, is one the commitment
/// function gave for its children.
pub open spec fn committed<F: Fn(&Vec<(u8, VerkleNode)>) -> Result<(KZGCommitment, KZGWitness), String>>(commit: &F, n: VerkleNode) -> bool {
    n matches VerkleNode::Internal { children, kzg_commitment, witness, .. }
        ==> commit.ensures((&children,), Ok::<(KZGCommitment, KZGWitness), String>((kzg_commitment, witness)))
}

/// Builds an internal node over the children, committing to them.
fn internal_node<F>(children: Vec<(u8, VerkleNode)>, h: u64, commit: &F) -> (r: Result<VerkleNode, VerkleError>)
    where
        F: Fn(&Vec<(u8, VerkleNode)>) -> Result<(KZGCommitment, KZGWitness), String>,
    requires
        forall|cs: &Vec<(u8, VerkleNode)>| #[trigger] commit.requires((cs,)),
    ensures
        r matches Ok(n) ==> shape(n) == NodeShape::Internal(shapes(children@), h) && committed(commit, n),
        commit_total(commit) ==> r is Ok,
{
    match commit(&children) {
        Ok((kzg_commitment, witness)) => Ok(VerkleNode::Internal { children, kzg_commitment, witness, created_at: h }),
        Err(e) => Err(VerkleError::Commitment(e)),
    }
}

/// Builds the chain of internal nodes from `depth` down to a new leaf.
fn build_path<F>(key: &[u8], value: &[u8], depth: usize, h: u64, commit: &F) -> (r: Result<VerkleNode, VerkleError>)
    where
        F: Fn(&Vec<(u8, VerkleNode)>) -> Result<(KZGCommitment, KZGWitness), String>,
    requires
        depth <= key@.len(),
        forall|cs: &Vec<(u8, VerkleNode)>| #[trigger] commit.requires((cs,)),
    ensures
        r matches Ok(n) ==> shape(n) == spec_path(key@, value@, depth as nat, h) && committed(commit, n),
        commit_total(commit) ==> r is Ok,
{
    let mut node = VerkleNode::Leaf { key: to_vec(key), value: to_vec(value), created_at: h };
    let mut d: usize = key.len();
    while d > depth
        invariant
            depth <= d <= key@.len(),
            shape(node) == spec_path(key@, value@, d as nat, h),
            committed(commit, node),
            forall|cs: &Vec<(u8, VerkleNode)>| #[trigger] commit.requires((cs,)),
        decreases d - depth,
    {
        d = d - 1;
        let ghost below = shape(node);
        let mut children: Vec<(u8, VerkleNode)> = Vec::new();
        children.push((key[d], node));
        proof {
            lemma_shapes_new(children@);
            assert(shapes(children@) =~= seq![(key@[d as int], below)]);
        }
        node = match internal_node(children, h, commit) {
            Ok(n) => n,
            Err(e) => return Err(e),
        };
    }
    Ok(node)
}

/// A leaf with the value, or an empty node for a removal.
fn leaf_or_empty(key: &[u8], value: Option<&[u8]>, h: u64) -> (r: VerkleNode)
    ensures
        shape(r) == spec_leaf_or_empty(key@, opt_bytes(value), h),
        not_internal(r),
{
    match value {
        Some(v) => VerkleNode::Leaf { key: to_vec(key), value: to_vec(v), created_at: h },
        None => VerkleNode::Empty,
    }
}

/// Whether a node is a leaf or empty.
pub open spec fn not_internal(n: VerkleNode) -> bool {
    !(n is Internal)
}

/// Sets (`Some`) or removes (`None`) the value of `key` in the subtree at
/// `node`, which stands at `depth`, writing at height `h`; see
/// [`spec_update`]. Each rebuilt internal node commits to its children with
/// `commit`; the update fails where `commit` refuses, and never otherwise but
/// where a leaf's key is too short to split.
pub fn update_node<F>(node: VerkleNode, key: &[u8], value: Option<&[u8]>, depth: usize, h: u64, commit: &F)
    -> (r: Result<VerkleNode, VerkleError>)
    where
        F: Fn(&Vec<(u8, VerkleNode)>) -> Result<(KZGCommitment, KZGWitness), String>,
    requires
        forall|cs: &Vec<(u8, VerkleNode)>| #[trigger] commit.requires((cs,)),
    ensures
        r matches Ok(n) ==> spec_update(shape(node), key@, opt_bytes(value), depth as nat, h) == Some(shape(n))
            && committed(commit, n),
        spec_update(shape(node), key@, opt_bytes(value), depth as nat, h) is None ==> r is Err,
        commit_total(commit) && spec_update(shape(node), key@, opt_bytes(value), depth as nat, h) is Some ==> r is Ok,
    decreases key@.len() - depth,
{
    if depth >= key.len() {
        return Ok(leaf_or_empty(key, value, h));
    }
    match node {
        VerkleNode::Empty => match value {
            Some(v) => build_path(key, v, depth, h, commit),
            None => Ok(VerkleNode::Empty),
        },
        VerkleNode::Leaf { key: lk, value: lv, created_at: _ } => {
            if bytes_eq(lk.as_slice(), key) {
                return Ok(leaf_or_empty(key, value, h));
            }
            if depth >= lk.len() {
                return Err(VerkleError::LeafKeyTooShort(depth));
            }
            let lb = lk[depth];
            let ghost old_leaf = NodeShape::Leaf(lk@, lv@, h);
            let mut children: Vec<(u8, VerkleNode)> = Vec::new();
            match value {
                Some(v) => {
                    let kb = key[depth];
                    let new_leaf = VerkleNode::Leaf { key: to_vec(key), value: to_vec(v), created_at: h };
                    if kb == lb {
                        children.push((kb, new_leaf));
                    } else {
                        children.push((lb, VerkleNode::Leaf { key: lk, value: lv, created_at: h }));
                        children.push((kb, new_leaf));
                    }
                    proof {
                        lemma_shapes_new(children@);
                        let cs = seq![(lb, old_leaf)];
                        assert(spec_find(cs, kb) == (if kb == lb { 0nat } else { 1nat })) by {
                            reveal_with_fuel(spec_find, 2);
                            if kb != lb {
                                assert(cs.drop_first().len() == 0);
                            }
                        }
                        assert(shapes(children@) =~= spec_set(cs, kb, NodeShape::Leaf(key@, v@, h)));
                    }
                }
                None => {
                    children.push((lb, VerkleNode::Leaf { key: lk, value: lv, created_at: h }));
                    proof {
                        lemma_shapes_new(children@);
                        assert(shapes(children@) =~= seq![(lb, old_leaf)]);
                    }
                }
            }
            internal_node(children, h, commit)
        }
        VerkleNode::Internal { children, kzg_commitment: _, witness: _, created_at: _ } => {
            let mut children = children;
            let ghost c0 = children@;
            let ghost cs = shapes(c0);
            proof {
                lemma_shapes_new(c0);
                lemma_find_bound(cs, key@[depth as int]);
            }
            let i = key[depth];
            let pos = find_child(&children, i);
            let had = pos < children.len();
            let child = if had {
                let (_, c) = children.remove(pos);
                c
            } else {
                VerkleNode::Empty
            };
            let nc = match update_node(child, key, value, depth + 1, h, commit) {
                Ok(n) => n,
                Err(e) => return Err(e),
            };
            let nc_empty = match nc {
                VerkleNode::Empty => true,
                _ => false,
            };
            if !nc_empty {
                if had {
                    children.insert(pos, (i, nc));
                } else {
                    children.push((i, nc));
                }
            }
            proof {
                lemma_shapes_new(children@);
                if nc_empty {
                    assert(shapes(children@) =~= spec_remove(cs, i));
                } else {
                    assert(shapes(children@) =~= spec_set(cs, i, shape(nc)));
                }
            }
            if children.len() == 0 {
                return Ok(VerkleNode::Empty);
            }
            internal_node(children, h, commit)
        }
    }
}

/// The value stored under `key` in the subtree at `n`, which stands at
/// `depth`: an internal node follows the key's byte at its depth, a leaf
/// answers for its own key only.
pub open spec fn spec_get(n: NodeShape, key: Seq<u8>, depth: nat) -> Option<Seq<u8>>
    decreases key.len() - depth,
{
    match n {
        NodeShape::Empty => None,
        NodeShape::Leaf(k, v, _) => if k == key { Some(v) } else { None },
        NodeShape::Internal(cs, _) => if depth >= key.len() {
            None
        } else {
            let p = spec_find(cs, key[depth as int]);
            if p < cs.len() { spec_get(cs[p as int].1, key, depth + 1) } else { None }
        },
    }
}

/// Reads the value stored under `key` in the subtree at `node`, which stands at `depth`.
pub fn get_from_node(node: &VerkleNode, key: &[u8], depth: usize) -> (r: Option<Vec<u8>>)
    ensures
        opt_vec(r) == spec_get(shape(*node), key@, depth as nat),
    decreases key@.len() - depth,
{
    match node {
        VerkleNode::Empty => None,
        VerkleNode::Leaf { key: k, value: v, .. } => {
            if bytes_eq(k.as_slice(), key) {
                Some(to_vec(v.as_slice()))
            } else {
                None
            }
        },
        VerkleNode::Internal { children, .. } => {
            if depth >= key.len() {
                return None;
            }
            proof {
                lemma_shapes_new(children@);
            }
            let pos = find_child(children, key[depth]);
            if pos < children.len() {
                get_from_node(&children[pos].1, key, depth + 1)
            } else {
                None
            }
        },
    }
}

/// The bytes of an optional vector.
pub open spec fn opt_vec(v: Option<Vec<u8>>) -> Option<Seq<u8>> {
    match v {
        Some(b) => Some(b@),
        None => None,
    }
}

proof fn lemma_find_before(cs: Seq<(u8, NodeShape)>, i: u8)
    ensures
        forall|k: int| 0 <= k < spec_find(cs, i) && k < cs.len() ==> cs[k].0 != i,
    decreases cs.len(),
{
    if cs.len() > 0 && cs[0].0 != i {
        lemma_find_before(cs.drop_first(), i);
        assert forall|k: int| 0 <= k < spec_find(cs, i) && k < cs.len() implies cs[k].0 != i by {
            if k > 0 {
                assert(cs[k] == cs.drop_first()[k - 1]);
            }
        }
    }
}

/// After setting the child at `i`, the first child at `i` is the one set.
proof fn lemma_set_find(cs: Seq<(u8, NodeShape)>, i: u8, c: NodeShape)
    ensures
        spec_find(spec_set(cs, i, c), i) < spec_set(cs, i, c).len(),
        spec_set(cs, i, c)[spec_find(spec_set(cs, i, c), i) as int] == (i, c),
{
    let p = spec_find(cs, i);
    lemma_find_bound(cs, i);
    lemma_find_before(cs, i);
    let cs2 = spec_set(cs, i, c);
    if p < cs.len() {
        lemma_find_first(cs2, i, p as int);
    } else {
        lemma_find_first(cs2, i, cs.len() as int);
    }
}

/// Setting a value never leaves an empty node.
proof fn lemma_update_some_not_empty(n: NodeShape, key: Seq<u8>, v: Seq<u8>, depth: nat, h: u64)
    ensures
        spec_update(n, key, Some(v), depth, h) matches Some(m) ==> !(m is Empty),
    decreases key.len() - depth,
{
    if depth < key.len() {
        match n {
            NodeShape::Empty => {
                reveal_with_fuel(spec_path, 1);
            },
            NodeShape::Leaf(_, _, _) => {},
            NodeShape::Internal(cs, _) => {
                let i = key[depth as int];
                let p = spec_find(cs, i);
                let child = if p < cs.len() { cs[p as int].1 } else { NodeShape::Empty };
                lemma_update_some_not_empty(child, key, v, depth + 1, h);
                if let Some(nc) = spec_update(child, key, Some(v), depth + 1, h) {
                    lemma_set_find(cs, i, nc);
                }
            },
        }
    }
}

proof fn lemma_get_path(key: Seq<u8>, v: Seq<u8>, d: nat, h: u64)
    ensures
        spec_get(spec_path(key, v, d, h), key, d) == Some(v),
    decreases key.len() - d,
{
    if d < key.len() {
        lemma_get_path(key, v, d + 1, h);
        let cs = seq![(key[d as int], spec_path(key, v, d + 1, h))];
        assert(spec_find(cs, key[d as int]) == 0);
    }
}

/// A value that was set is read back: after setting `key` to `v` in a
/// subtree, reading `key` there gives `v`.
pub proof fn lemma_get_after_set(n: NodeShape, key: Seq<u8>, v: Seq<u8>, depth: nat, h: u64)
    requires
        spec_update(n, key, Some(v), depth, h) is Some,
    ensures
        spec_get(spec_update(n, key, Some(v), depth, h)->0, key, depth) == Some(v),
    decreases key.len() - depth,
{
    if depth >= key.len() {
    } else {
        match n {
            NodeShape::Empty => {
                lemma_get_path(key, v, depth, h);
            },
            NodeShape::Leaf(lk, lv, _) => {
                if lk != key {
                    let cs = seq![(lk[depth as int], NodeShape::Leaf(lk, lv, h))];
                    lemma_set_find(cs, key[depth as int], NodeShape::Leaf(key, v, h));
                    let cs2 = spec_set(cs, key[depth as int], NodeShape::Leaf(key, v, h));
                    let p2 = spec_find(cs2, key[depth as int]);
                    assert(cs2[p2 as int].1 == NodeShape::Leaf(key, v, h));
                    assert(spec_get(NodeShape::Leaf(key, v, h), key, depth + 1) == Some(v));
                }
            },
            NodeShape::Internal(cs, _) => {
                let i = key[depth as int];
                let p = spec_find(cs, i);
                let child = if p < cs.len() { cs[p as int].1 } else { NodeShape::Empty };
                lemma_get_after_set(child, key, v, depth + 1, h);
                lemma_update_some_not_empty(child, key, v, depth + 1, h);
                let nc = spec_update(child, key, Some(v), depth + 1, h)->0;
                lemma_set_find(cs, i, nc);
                let cs2 = spec_set(cs, i, nc);
                assert(!(nc is Empty));
                assert(cs2.len() > 0);
                assert(spec_update(n, key, Some(v), depth, h) == Some(NodeShape::Internal(cs2, h)));
                let p2 = spec_find(cs2, i);
                assert(cs2[p2 as int].1 == nc);
                assert(spec_get(NodeShape::Internal(cs2, h), key, depth) == spec_get(nc, key, depth + 1));
            },
        }
    }
}

/// Whether children carry distinct indices.
pub open spec fn distinct_indices(cs: Seq<(u8, NodeShape)>) -> bool {
    forall|a: int, b: int| 0 <= a < b < cs.len() ==> cs[a].0 != cs[b].0
}

/// Whether every internal node on the way to `key` from depth `depth` has
/// children with distinct indices, as the tree's children maps do.
pub open spec fn spec_path_distinct(n: NodeShape, key: Seq<u8>, depth: nat) -> bool
    decreases key.len() - depth,
{
    match n {
        NodeShape::Internal(cs, _) => depth < key.len() ==> {
            &&& distinct_indices(cs)
            &&& {
                let p = spec_find(cs, key[depth as int]);
                p < cs.len() ==> spec_path_distinct(cs[p as int].1, key, depth + 1)
            }
        },
        _ => true,
    }
}

/// A removed value is gone: after removing `key` from a subtree whose nodes
/// on the way to it have distinct child indices, reading `key` there gives
/// nothing.
pub proof fn lemma_get_after_remove(n: NodeShape, key: Seq<u8>, depth: nat, h: u64)
    requires
        spec_path_distinct(n, key, depth),
        spec_update(n, key, None, depth, h) is Some,
    ensures
        spec_get(spec_update(n, key, None, depth, h)->0, key, depth) is None,
    decreases key.len() - depth,
{
    if depth < key.len() {
        match n {
            NodeShape::Empty => {},
            NodeShape::Leaf(lk, lv, _) => {
                if lk != key {
                    reveal_with_fuel(spec_find, 2);
                    let cs = seq![(lk[depth as int], NodeShape::Leaf(lk, lv, h))];
                    assert(cs.drop_first().len() == 0);
                    assert(spec_update(n, key, None, depth, h) == Some(NodeShape::Internal(cs, h)));
                    assert(spec_get(NodeShape::Leaf(lk, lv, h), key, depth + 1) is None);
                }
            },
            NodeShape::Internal(cs, _) => {
                let i = key[depth as int];
                let p = spec_find(cs, i);
                lemma_find_bound(cs, i);
                lemma_find_before(cs, i);
                let child = if p < cs.len() { cs[p as int].1 } else { NodeShape::Empty };
                lemma_get_after_remove(child, key, depth + 1, h);
                let nc = spec_update(child, key, None, depth + 1, h)->0;
                if nc is Empty {
                    let cs2 = spec_remove(cs, i);
                    assert forall|k: int| 0 <= k < cs2.len() implies cs2[k].0 != i by {
                        if p < cs.len() {
                            if k < p {
                                assert(cs2[k] == cs[k]);
                            } else {
                                assert(cs2[k] == cs[k + 1]);
                                assert(distinct_indices(cs));
                                assert(cs[p as int].0 != cs[k + 1].0);
                            }
                        }
                    }
                    lemma_find_none(cs2, i);
                    if cs2.len() > 0 {
                        assert(spec_update(n, key, None, depth, h) == Some(NodeShape::Internal(cs2, h)));
                    }
                } else {
                    lemma_set_find(cs, i, nc);
                    let cs2 = spec_set(cs, i, nc);
                    assert(spec_update(n, key, None, depth, h) == Some(NodeShape::Internal(cs2, h)));
                    assert(cs2[spec_find(cs2, i) as int].1 == nc);
                }
            },
        }
    }
}

} // verus!
