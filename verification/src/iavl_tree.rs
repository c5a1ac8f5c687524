//! The IAVL tree's structure: a leaf-keyed AVL tree whose inner nodes carry a
//! split key (the largest key of their left subtree), with the insertion,
//! deletion, rebalancing and range scans of the state tree.
//!
//! Nodes are held in memory, each owning its children. Node hashing and the
//! lazy loading of nodes from a node store are not part of this module.

use vstd::prelude::*;
use crate::bytes::{bytes_eq, bytes_lt, spec_lex_lt, lemma_lex_lt_irreflexive, lemma_lex_lt_asymmetric,
    lemma_lex_lt_transitive, lemma_lex_lt_total};
use crate::state::{to_vec, StateMap, spec_with_prefix, spec_enumerates};
use crate::iavl::{lexicographical_successor, spec_lexicographical_successor, lemma_successor_bounds_prefix};

verus! {

/// The largest number of nodes a tree may hold: node heights are `i32`.
pub open spec fn max_tree_nodes() -> int {
    0x7fff_ffff
}

/// A node of the tree. A node with no children is a leaf and holds an entry;
/// any other node is an inner node whose key splits its subtrees.
pub struct TreeNode {
    pub key: Vec<u8>,
    pub value: Vec<u8>,
    pub version: u64,
    pub height: i32,
    pub size: u64,
    pub left: Option<Box<TreeNode>>,
    pub right: Option<Box<TreeNode>>,
}

/// The mathematical value of a node.
pub struct NodeV {
    pub key: Seq<u8>,
    pub value: Seq<u8>,
    pub version: u64,
    pub height: int,
    pub size: int,
    pub left: Option<Box<NodeV>>,
    pub right: Option<Box<NodeV>>,
}

/// The value of a subtree.
pub open spec fn view_tree(t: Option<Box<TreeNode>>) -> Option<Box<NodeV>>
    decreases t,
{
    match t {
        None => None,
        Some(n) => Some(Box::new(NodeV {
            key: n.key@,
            value: n.value@,
            version: n.version,
            height: n.height as int,
            size: n.size as int,
            left: view_tree(n.left),
            right: view_tree(n.right),
        })),
    }
}

/// The value of a node.
pub open spec fn view_node(n: TreeNode) -> NodeV {
    NodeV {
        key: n.key@,
        value: n.value@,
        version: n.version,
        height: n.height as int,
        size: n.size as int,
        left: view_tree(n.left),
        right: view_tree(n.right),
    }
}

pub open spec fn imax(a: int, b: int) -> int {
    if a >= b { a } else { b }
}

/// The height of a subtree; an empty one has height -1.
pub open spec fn height_of(t: Option<Box<NodeV>>) -> int {
    match t {
        None => -1,
        Some(n) => n.height,
    }
}

/// The number of nodes of a subtree.
pub open spec fn size_of(t: Option<Box<NodeV>>) -> int {
    match t {
        None => 0,
        Some(n) => n.size,
    }
}

pub open spec fn is_leaf(n: NodeV) -> bool {
    n.left is None && n.right is None
}

/// Every node's height and size are those of its children plus one.
pub open spec fn shape_ok(t: Option<Box<NodeV>>) -> bool
    decreases t,
{
    match t {
        None => true,
        Some(n) => {
            &&& n.height == 1 + imax(height_of(n.left), height_of(n.right))
            &&& n.size == 1 + size_of(n.left) + size_of(n.right)
            &&& shape_ok(n.left)
            &&& shape_ok(n.right)
        },
    }
}

/// The entries of a subtree: the keys and values of its leaves.
pub open spec fn entries(t: Option<Box<NodeV>>) -> Map<Seq<u8>, Seq<u8>>
    decreases t,
{
    match t {
        None => Map::empty(),
        Some(n) => if is_leaf(*n) {
            Map::empty().insert(n.key, n.value)
        } else {
            entries(n.left).union_prefer_right(entries(n.right))
        },
    }
}

/// The key of the node reached by following right children from the root.
pub open spec fn max_key(t: Option<Box<NodeV>>) -> Seq<u8>
    decreases t,
{
    match t {
        None => Seq::empty(),
        Some(n) => match n.right {
            None => n.key,
            Some(_) => max_key(n.right),
        },
    }
}

/// The node reached by following left children from `n`.
pub open spec fn min_node(n: NodeV) -> NodeV
    decreases n,
{
    match n.left {
        None => n,
        Some(l) => min_node(*l),
    }
}

/// A leaf holding one entry.
pub open spec fn leaf(key: Seq<u8>, value: Seq<u8>, version: u64) -> NodeV {
    NodeV { key, value, version, height: 0, size: 1, left: None, right: None }
}

/// The inner node over two subtrees: its key is the largest key of the left
/// subtree (empty without one), its height and size follow from the children.
/// With no children at all it is a leaf with an empty key and value.
pub open spec fn join(l: Option<Box<NodeV>>, r: Option<Box<NodeV>>, version: u64) -> NodeV {
    NodeV {
        key: if l is Some { max_key(l) } else { Seq::empty() },
        value: Seq::empty(),
        version,
        height: 1 + imax(height_of(l), height_of(r)),
        size: 1 + size_of(l) + size_of(r),
        left: l,
        right: r,
    }
}

/// A left rotation: the right child rises.
pub open spec fn rotate_left(n: NodeV, version: u64) -> NodeV {
    match n.right {
        Some(r) => join(Some(Box::new(join(n.left, r.left, version))), r.right, version),
        None => n,
    }
}

/// A right rotation: the left child rises.
pub open spec fn rotate_right(n: NodeV, version: u64) -> NodeV {
    match n.left {
        Some(l) => join(l.left, Some(Box::new(join(l.right, n.right, version))), version),
        None => n,
    }
}

/// AVL rebalancing of a node whose children differ in height by more than one.
pub open spec fn balance(n: NodeV, version: u64) -> NodeV {
    let bf = height_of(n.right) - height_of(n.left);
    if bf > 1 {
        match n.right {
            Some(r) => if height_of(r.right) - height_of(r.left) < 0 {
                rotate_left(join(n.left, Some(Box::new(rotate_right(*r, version))), version), version)
            } else {
                rotate_left(n, version)
            },
            None => n,
        }
    } else if bf < -1 {
        match n.left {
            Some(l) => if height_of(l.right) - height_of(l.left) > 0 {
                rotate_right(join(Some(Box::new(rotate_left(*l, version))), n.right, version), version)
            } else {
                rotate_right(n, version)
            },
            None => n,
        }
    } else {
        n
    }
}

pub proof fn lemma_view_some(b: Box<TreeNode>)
    ensures
        view_tree(Some(b)) == Some(Box::new(view_node(*b))),
{
}

pub proof fn lemma_height_below_size(t: Option<Box<NodeV>>)
    requires
        shape_ok(t),
    ensures
        -1 <= height_of(t) < size_of(t),
        t is Some ==> height_of(t) >= 0,
    decreases t,
{
    if let Some(n) = t {
        lemma_height_below_size(n.left);
        lemma_height_below_size(n.right);
    }
}

/// The height of a subtree, -1 when empty.
fn node_height(t: &Option<Box<TreeNode>>) -> (h: i32)
    ensures
        h == height_of(view_tree(*t)),
{
    match t {
        None => -1,
        Some(n) => n.height,
    }
}

/// The number of nodes of a subtree.
fn node_size(t: &Option<Box<TreeNode>>) -> (s: u64)
    ensures
        s == size_of(view_tree(*t)),
{
    match t {
        None => 0,
        Some(n) => n.size,
    }
}

/// The key of the node reached by following right children.
fn find_max_key(n: &TreeNode) -> (k: Vec<u8>)
    ensures
        k@ == max_key(Some(Box::new(view_node(*n)))),
    decreases n,
{
    match &n.right {
        Some(r) => find_max_key(r),
        None => to_vec(n.key.as_slice()),
    }
}

/// The key and value of the node reached by following left children.
fn find_min(n: &TreeNode) -> (kv: (Vec<u8>, Vec<u8>))
    ensures
        kv.0@ == min_node(view_node(*n)).key,
        kv.1@ == min_node(view_node(*n)).value,
    decreases n,
{
    match &n.left {
        Some(l) => find_min(l),
        None => (to_vec(n.key.as_slice()), to_vec(n.value.as_slice())),
    }
}

/// A new leaf.
fn new_leaf(key: &[u8], value: &[u8], version: u64) -> (n: TreeNode)
    ensures
        view_node(n) == leaf(key@, value@, version),
{
    TreeNode {
        key: to_vec(key),
        value: to_vec(value),
        version,
        height: 0,
        size: 1,
        left: None,
        right: None,
    }
}

/// The inner node over two subtrees (see [`join`]).
fn create_inner_node(l: Option<Box<TreeNode>>, r: Option<Box<TreeNode>>, version: u64) -> (n: TreeNode)
    requires
        shape_ok(view_tree(l)),
        shape_ok(view_tree(r)),
        1 + size_of(view_tree(l)) + size_of(view_tree(r)) <= max_tree_nodes(),
    ensures
        view_node(n) == join(view_tree(l), view_tree(r), version),
        shape_ok(Some(Box::new(view_node(n)))),
{
    proof {
        lemma_height_below_size(view_tree(l));
        lemma_height_below_size(view_tree(r));
    }
    let key = match &l {
        Some(ln) => find_max_key(ln),
        None => Vec::new(),
    };
    let hl = node_height(&l);
    let hr = node_height(&r);
    let height = if hl >= hr { 1 + hl } else { 1 + hr };
    let size = 1 + node_size(&l) + node_size(&r);
    let n = TreeNode { key, value: Vec::new(), version, height, size, left: l, right: r };
    assert(view_node(n).key =~= join(view_tree(l), view_tree(r), version).key);
    assert(view_node(n).value =~= Seq::<u8>::empty());
    n
}


pub proof fn lemma_rotations_shape(n: NodeV, version: u64)
    requires
        shape_ok(Some(Box::new(n))),
    ensures
        n.right is Some ==> shape_ok(Some(Box::new(rotate_left(n, version))))
            && rotate_left(n, version).size == n.size,
        n.left is Some ==> shape_ok(Some(Box::new(rotate_right(n, version))))
            && rotate_right(n, version).size == n.size,
{
    if let Some(r) = n.right {
        assert(shape_ok(n.right));
        let j = join(n.left, r.left, version);
        assert(shape_ok(Some(Box::new(j))));
        let t = join(Some(Box::new(j)), r.right, version);
        assert(shape_ok(Some(Box::new(t))));
    }
    if let Some(l) = n.left {
        assert(shape_ok(n.left));
        let j = join(l.right, n.right, version);
        assert(shape_ok(Some(Box::new(j))));
        let t = join(l.left, Some(Box::new(j)), version);
        assert(shape_ok(Some(Box::new(t))));
    }
}

pub proof fn lemma_balance_shape(n: NodeV, version: u64)
    requires
        shape_ok(Some(Box::new(n))),
    ensures
        shape_ok(Some(Box::new(balance(n, version)))),
        balance(n, version).size == n.size,
{
    lemma_rotations_shape(n, version);
    if let Some(r) = n.right {
        lemma_rotations_shape(*r, version);
        if r.left is Some {
            let nr = rotate_right(*r, version);
            lemma_rotations_shape(join(n.left, Some(Box::new(nr)), version), version);
        }
    }
    if let Some(l) = n.left {
        lemma_rotations_shape(*l, version);
        if l.right is Some {
            let nl = rotate_left(*l, version);
            lemma_rotations_shape(join(Some(Box::new(nl)), n.right, version), version);
        }
    }
}

/// A left rotation (see [`rotate_left`]).
fn rotate_left_node(n: TreeNode, version: u64) -> (r: TreeNode)
    requires
        shape_ok(Some(Box::new(view_node(n)))),
        n.right is Some,
        n.size <= max_tree_nodes(),
    ensures
        view_node(r) == rotate_left(view_node(n), version),
{
    let ghost vn = view_node(n);
    let TreeNode { left, right, .. } = n;
    let rb = right.unwrap();
    proof {
        lemma_view_some(rb);
        assert(shape_ok(Some(Box::new(view_node(*rb)))));
    }
    let TreeNode { left: rl, right: rr, .. } = *rb;
    let new_left = create_inner_node(left, rl, version);
    create_inner_node(Some(Box::new(new_left)), rr, version)
}

/// A right rotation (see [`rotate_right`]).
fn rotate_right_node(n: TreeNode, version: u64) -> (r: TreeNode)
    requires
        shape_ok(Some(Box::new(view_node(n)))),
        n.left is Some,
        n.size <= max_tree_nodes(),
    ensures
        view_node(r) == rotate_right(view_node(n), version),
{
    let ghost vn = view_node(n);
    let TreeNode { left, right, .. } = n;
    let lb = left.unwrap();
    proof {
        lemma_view_some(lb);
        assert(shape_ok(Some(Box::new(view_node(*lb)))));
    }
    let TreeNode { left: ll, right: lr, .. } = *lb;
    let new_right = create_inner_node(lr, right, version);
    create_inner_node(ll, Some(Box::new(new_right)), version)
}

/// AVL rebalancing (see [`balance`]).
fn balance_node(n: TreeNode, version: u64) -> (r: TreeNode)
    requires
        shape_ok(Some(Box::new(view_node(n)))),
        n.size <= max_tree_nodes(),
    ensures
        view_node(r) == balance(view_node(n), version),
{
    proof {
        lemma_height_below_size(view_tree(n.left));
        lemma_height_below_size(view_tree(n.right));
    }
    let bf = node_height(&n.right) - node_height(&n.left);
    if bf > 1 {
        let rbf = match &n.right {
            Some(r) => {
                proof {
                    lemma_view_some(*r);
                    assert(shape_ok(Some(Box::new(view_node(**r)))));
                    lemma_height_below_size(view_tree(r.left));
                    lemma_height_below_size(view_tree(r.right));
                }
                node_height(&r.right) - node_height(&r.left)
            },
            None => 0,
        };
        if rbf < 0 {
            let ghost vn = view_node(n);
            let TreeNode { left, right, .. } = n;
            let rb = right.unwrap();
            proof {
                lemma_rotations_shape(view_node(*rb), version);
            }
            let nr = rotate_right_node(*rb, version);
            let root = create_inner_node(left, Some(Box::new(nr)), version);
            proof {
                lemma_rotations_shape(view_node(root), version);
            }
            rotate_left_node(root, version)
        } else {
            rotate_left_node(n, version)
        }
    } else if bf < -1 {
        let lbf = match &n.left {
            Some(l) => {
                proof {
                    lemma_view_some(*l);
                    assert(shape_ok(Some(Box::new(view_node(**l)))));
                    lemma_height_below_size(view_tree(l.left));
                    lemma_height_below_size(view_tree(l.right));
                }
                node_height(&l.right) - node_height(&l.left)
            },
            None => 0,
        };
        if lbf > 0 {
            let TreeNode { left, right, .. } = n;
            let lb = left.unwrap();
            proof {
                lemma_rotations_shape(view_node(*lb), version);
            }
            let nl = rotate_left_node(*lb, version);
            let root = create_inner_node(Some(Box::new(nl)), right, version);
            proof {
                lemma_rotations_shape(view_node(root), version);
            }
            rotate_right_node(root, version)
        } else {
            rotate_right_node(n, version)
        }
    } else {
        n
    }
}


/// The subtree after inserting an entry: a leaf with the same key is replaced,
/// a leaf with another key is paired with the new leaf under an inner node,
/// and an inner node passes the entry to its left subtree when the key does
/// not exceed its split key, to its right subtree otherwise, and is rebuilt
/// and rebalanced.
pub open spec fn tree_insert(t: Option<Box<NodeV>>, key: Seq<u8>, value: Seq<u8>, version: u64) -> NodeV
    decreases t,
{
    match t {
        None => leaf(key, value, version),
        Some(n) => if is_leaf(*n) {
            if key == n.key {
                leaf(key, value, version)
            } else if spec_lex_lt(key, n.key) {
                join(Some(Box::new(leaf(key, value, version))), t, version)
            } else {
                join(t, Some(Box::new(leaf(key, value, version))), version)
            }
        } else if !spec_lex_lt(n.key, key) {
            balance(join(Some(Box::new(tree_insert(n.left, key, value, version))), n.right, version), version)
        } else {
            balance(join(n.left, Some(Box::new(tree_insert(n.right, key, value, version))), version), version)
        },
    }
}

pub proof fn lemma_insert_shape(t: Option<Box<NodeV>>, key: Seq<u8>, value: Seq<u8>, version: u64)
    requires
        shape_ok(t),
    ensures
        shape_ok(Some(Box::new(tree_insert(t, key, value, version)))),
        tree_insert(t, key, value, version).size <= size_of(t) + 2,
    decreases t,
{
    if let Some(n) = t {
        assert(n.size == 1 + size_of(n.left) + size_of(n.right));
        if !is_leaf(*n) {
            if !spec_lex_lt(n.key, key) {
                lemma_insert_shape(n.left, key, value, version);
                let j = join(Some(Box::new(tree_insert(n.left, key, value, version))), n.right, version);
                assert(shape_ok(Some(Box::new(j))));
                lemma_balance_shape(j, version);
                assert(tree_insert(t, key, value, version) == balance(j, version));
                assert(j.size == 1 + tree_insert(n.left, key, value, version).size + size_of(n.right));
            } else {
                lemma_insert_shape(n.right, key, value, version);
                let j = join(n.left, Some(Box::new(tree_insert(n.right, key, value, version))), version);
                assert(shape_ok(Some(Box::new(j))));
                lemma_balance_shape(j, version);
                assert(tree_insert(t, key, value, version) == balance(j, version));
            }
        } else {
            let lf = leaf(key, value, version);
            assert(shape_ok(Some(Box::new(lf))));
            assert(n.size == 1);
        }
    } else {
        assert(shape_ok(Some(Box::new(leaf(key, value, version)))));
    }
}

/// Inserts an entry into a subtree (see [`tree_insert`]).
fn insert_node(t: Option<Box<TreeNode>>, key: &[u8], value: &[u8], version: u64) -> (r: TreeNode)
    requires
        shape_ok(view_tree(t)),
        size_of(view_tree(t)) + 2 <= max_tree_nodes(),
    ensures
        view_node(r) == tree_insert(view_tree(t), key@, value@, version),
    decreases t,
{
    match t {
        None => new_leaf(key, value, version),
        Some(b) => {
            proof {
                lemma_view_some(b);
            }
            if b.left.is_none() && b.right.is_none() {
                if bytes_eq(key, b.key.as_slice()) {
                    new_leaf(key, value, version)
                } else if bytes_lt(key, b.key.as_slice()) {
                    let lf = new_leaf(key, value, version);
                    create_inner_node(Some(Box::new(lf)), Some(b), version)
                } else {
                    let lf = new_leaf(key, value, version);
                    create_inner_node(Some(b), Some(Box::new(lf)), version)
                }
            } else if !bytes_lt(b.key.as_slice(), key) {
                let TreeNode { left, right, .. } = *b;
                proof {
                    lemma_insert_shape(view_tree(left), key@, value@, version);
                }
                let nl = insert_node(left, key, value, version);
                let j = create_inner_node(Some(Box::new(nl)), right, version);
                balance_node(j, version)
            } else {
                let TreeNode { left, right, .. } = *b;
                proof {
                    lemma_insert_shape(view_tree(right), key@, value@, version);
                }
                let nr = insert_node(right, key, value, version);
                let j = create_inner_node(left, Some(Box::new(nr)), version);
                balance_node(j, version)
            }
        },
    }
}


/// The value found by following split keys from the root to a leaf: left
/// when the key does not exceed an inner node's key, right otherwise.
pub open spec fn tree_get(t: Option<Box<NodeV>>, key: Seq<u8>) -> Option<Seq<u8>>
    decreases t,
{
    match t {
        None => None,
        Some(n) => if is_leaf(*n) {
            if key == n.key { Some(n.value) } else { None }
        } else if !spec_lex_lt(n.key, key) {
            tree_get(n.left, key)
        } else {
            tree_get(n.right, key)
        },
    }
}

/// Looks a key up in a subtree (see [`tree_get`]).
fn get_node(t: &Option<Box<TreeNode>>, key: &[u8]) -> (r: Option<Vec<u8>>)
    ensures
        match r {
            Some(v) => tree_get(view_tree(*t), key@) == Some(v@),
            None => tree_get(view_tree(*t), key@) is None,
        },
    decreases t,
{
    match t {
        None => None,
        Some(b) => {
            proof {
                lemma_view_some(*b);
            }
            if b.left.is_none() && b.right.is_none() {
                if bytes_eq(key, b.key.as_slice()) {
                    Some(to_vec(b.value.as_slice()))
                } else {
                    None
                }
            } else if !bytes_lt(b.key.as_slice(), key) {
                get_node(&b.left, key)
            } else {
                get_node(&b.right, key)
            }
        },
    }
}

/// The subtree after deleting a key, and whether it is unchanged.
/// An inner node passes a key below its split key to its left subtree and one
/// above it to its right subtree, and is rebuilt and rebalanced if that
/// subtree changed. A leaf with the key goes. An inner node whose split key
/// is the key is replaced by its only child, or, with two children, by a node
/// that takes the key and value of the node reached by following left
/// children from its right child, over its left child and its right child
/// with that key deleted, rebalanced. A key that reaches a leaf with another
/// key, or no node, leaves the subtree unchanged.
pub open spec fn tree_remove(t: Option<Box<NodeV>>, key: Seq<u8>, version: u64) -> (Option<Box<NodeV>>, bool)
    decreases t,
{
    match t {
        None => (None, true),
        Some(n) => if spec_lex_lt(key, n.key) && !is_leaf(*n) {
            let sub = tree_remove(n.left, key, version);
            if sub.1 {
                (t, true)
            } else {
                (Some(Box::new(balance(join(sub.0, n.right, version), version))), false)
            }
        } else if spec_lex_lt(n.key, key) && !is_leaf(*n) {
            let sub = tree_remove(n.right, key, version);
            if sub.1 {
                (t, true)
            } else {
                (Some(Box::new(balance(join(n.left, sub.0, version), version))), false)
            }
        } else if key == n.key {
            if is_leaf(*n) {
                (None, false)
            } else {
                match n.left {
                    Some(l) => match n.right {
                        None => (n.left, false),
                        Some(r) => {
                            let s = min_node(*r);
                            let nr = tree_remove(n.right, s.key, version).0;
                            let m = NodeV {
                                key: s.key,
                                value: s.value,
                                version,
                                height: 1 + imax(height_of(n.left), height_of(nr)),
                                size: 1 + size_of(n.left) + size_of(nr),
                                left: n.left,
                                right: nr,
                            };
                            (Some(Box::new(balance(m, version))), false)
                        },
                    },
                    None => (n.right, false),
                }
            }
        } else {
            (t, true)
        },
    }
}

pub proof fn lemma_remove_shape(t: Option<Box<NodeV>>, key: Seq<u8>, version: u64)
    requires
        shape_ok(t),
    ensures
        shape_ok(tree_remove(t, key, version).0),
        size_of(tree_remove(t, key, version).0) <= size_of(t),
        tree_remove(t, key, version).1 ==> tree_remove(t, key, version).0 == t,
    decreases t,
{
    if let Some(n) = t {
        assert(n.size == 1 + size_of(n.left) + size_of(n.right));
        if spec_lex_lt(key, n.key) && !is_leaf(*n) {
            lemma_remove_shape(n.left, key, version);
            let sub = tree_remove(n.left, key, version);
            if !sub.1 {
                let j = join(sub.0, n.right, version);
                assert(shape_ok(Some(Box::new(j))));
                lemma_balance_shape(j, version);
            }
        } else if spec_lex_lt(n.key, key) && !is_leaf(*n) {
            lemma_remove_shape(n.right, key, version);
            let sub = tree_remove(n.right, key, version);
            if !sub.1 {
                let j = join(n.left, sub.0, version);
                assert(shape_ok(Some(Box::new(j))));
                lemma_balance_shape(j, version);
            }
        } else if key == n.key && !is_leaf(*n) && n.left is Some && n.right is Some {
            let r = n.right->0;
            let s = min_node(*r);
            lemma_remove_shape(n.right, s.key, version);
            let nr = tree_remove(n.right, s.key, version).0;
            let m = NodeV {
                key: s.key,
                value: s.value,
                version,
                height: 1 + imax(height_of(n.left), height_of(nr)),
                size: 1 + size_of(n.left) + size_of(nr),
                left: n.left,
                right: nr,
            };
            assert(shape_ok(Some(Box::new(m))));
            lemma_balance_shape(m, version);
        }
    }
}

/// Deletes a key from a subtree (see [`tree_remove`]).
fn remove_node(t: Option<Box<TreeNode>>, key: &[u8], version: u64) -> (r: (Option<Box<TreeNode>>, bool))
    requires
        shape_ok(view_tree(t)),
        size_of(view_tree(t)) <= max_tree_nodes(),
    ensures
        (view_tree(r.0), r.1) == tree_remove(view_tree(t), key@, version),
    decreases t,
{
    match t {
        None => (None, true),
        Some(b) => {
            proof {
                lemma_view_some(b);
                lemma_remove_shape(view_tree(b.left), key@, version);
                lemma_remove_shape(view_tree(b.right), key@, version);
            }
            let leaf_node = b.left.is_none() && b.right.is_none();
            if !leaf_node && bytes_lt(key, b.key.as_slice()) {
                let TreeNode { key: k0, value: v0, version: ver0, height: h0, size: s0, left, right } = *b;
                let (nl, unchanged) = remove_node(left, key, version);
                if unchanged {
                    (Some(Box::new(TreeNode { key: k0, value: v0, version: ver0, height: h0, size: s0, left: nl, right })), true)
                } else {
                    let j = create_inner_node(nl, right, version);
                    (Some(Box::new(balance_node(j, version))), false)
                }
            } else if !leaf_node && bytes_lt(b.key.as_slice(), key) {
                let TreeNode { key: k0, value: v0, version: ver0, height: h0, size: s0, left, right } = *b;
                let (nr, unchanged) = remove_node(right, key, version);
                if unchanged {
                    (Some(Box::new(TreeNode { key: k0, value: v0, version: ver0, height: h0, size: s0, left, right: nr })), true)
                } else {
                    let j = create_inner_node(left, nr, version);
                    (Some(Box::new(balance_node(j, version))), false)
                }
            } else if bytes_eq(key, b.key.as_slice()) {
                if leaf_node {
                    (None, false)
                } else {
                    let TreeNode { left, right, .. } = *b;
                    match left {
                        Some(l) => match right {
                            None => (Some(l), false),
                            Some(r) => {
                                let (skey, sval) = find_min(&r);
                                proof {
                                    lemma_view_some(r);
                                    lemma_remove_shape(Some(Box::new(view_node(*r))), skey@, version);
                                    lemma_height_below_size(Some(Box::new(view_node(*l))));
                                }
                                let (nr, _) = remove_node(Some(r), skey.as_slice(), version);
                                proof {
                                    lemma_height_below_size(view_tree(nr));
                                }
                                let lh = l.height;
                                let ls = l.size;
                                let rh = node_height(&nr);
                                let height = if lh >= rh { 1 + lh } else { 1 + rh };
                                let size = 1 + ls + node_size(&nr);
                                let m = TreeNode { key: skey, value: sval, version, height, size, left: Some(l), right: nr };
                                (Some(Box::new(balance_node(m, version))), false)
                            },
                        },
                        None => (right, false),
                    }
                }
            } else {
                (Some(b), true)
            }
        },
    }
}


// ---------------------------------------------------------------------------
// Ordering and its laws
// ---------------------------------------------------------------------------

/// `a` sorts no later than `b`.
pub open spec fn lex_le(a: Seq<u8>, b: Seq<u8>) -> bool {
    !spec_lex_lt(b, a)
}

/// Every key of `m` sorts no later than `k`.
pub open spec fn all_le(m: Map<Seq<u8>, Seq<u8>>, k: Seq<u8>) -> bool {
    forall|x: Seq<u8>| #[trigger] m.contains_key(x) ==> lex_le(x, k)
}

/// Every key of `m` sorts after `k`.
pub open spec fn all_gt(m: Map<Seq<u8>, Seq<u8>>, k: Seq<u8>) -> bool {
    forall|x: Seq<u8>| #[trigger] m.contains_key(x) ==> spec_lex_lt(k, x)
}

/// Every key of `a` sorts before every key of `b`.
pub open spec fn all_before(a: Map<Seq<u8>, Seq<u8>>, b: Map<Seq<u8>, Seq<u8>>) -> bool {
    forall|x: Seq<u8>, y: Seq<u8>| a.contains_key(x) && b.contains_key(y) ==> #[trigger] spec_lex_lt(x, y)
}

/// The search order of the tree: below every inner node, the keys of the left
/// subtree do not exceed its key, those of the right subtree exceed it, and
/// a node with a left subtree is keyed by that subtree's largest key.
pub open spec fn ordered(t: Option<Box<NodeV>>) -> bool
    decreases t,
{
    match t {
        None => true,
        Some(n) => is_leaf(*n) || {
            &&& ordered(n.left)
            &&& ordered(n.right)
            &&& all_le(entries(n.left), n.key)
            &&& all_gt(entries(n.right), n.key)
            &&& (n.left is Some ==> n.key == max_key(n.left))
        },
    }
}

/// The number of inner nodes with a single child.
pub open spec fn gaps(t: Option<Box<NodeV>>) -> nat
    decreases t,
{
    match t {
        None => 0,
        Some(n) => gaps(n.left) + gaps(n.right) + if (n.left is None) != (n.right is None) { 1nat } else { 0nat },
    }
}

/// Whether some inner node of the subtree is keyed by `k`.
pub open spec fn is_split_key(t: Option<Box<NodeV>>, k: Seq<u8>) -> bool
    decreases t,
{
    match t {
        None => false,
        Some(n) => (!is_leaf(*n) && n.key == k) || is_split_key(n.left, k) || is_split_key(n.right, k),
    }
}

/// `entries(t)` as the lookup result for `k`.
pub open spec fn entry_of(m: Map<Seq<u8>, Seq<u8>>, k: Seq<u8>) -> Option<Seq<u8>> {
    if m.contains_key(k) { Some(m[k]) } else { None }
}

pub proof fn lemma_le_lt(a: Seq<u8>, b: Seq<u8>, c: Seq<u8>)
    requires
        lex_le(a, b),
        spec_lex_lt(b, c),
    ensures
        spec_lex_lt(a, c),
{
    lemma_lex_lt_total(a, b);
    if spec_lex_lt(a, b) {
        lemma_lex_lt_transitive(a, b, c);
    }
}

pub proof fn lemma_lt_le(a: Seq<u8>, b: Seq<u8>, c: Seq<u8>)
    requires
        spec_lex_lt(a, b),
        lex_le(b, c),
    ensures
        spec_lex_lt(a, c),
{
    lemma_lex_lt_total(b, c);
    if spec_lex_lt(b, c) {
        lemma_lex_lt_transitive(a, b, c);
    }
}

/// In an ordered subtree, the key reached by following right children is its
/// largest key.
pub proof fn lemma_max_key(t: Option<Box<NodeV>>)
    requires
        ordered(t),
        t is Some,
    ensures
        entries(t).contains_key(max_key(t)),
        all_le(entries(t), max_key(t)),
    decreases t,
{
    let n = t->0;
    if is_leaf(*n) {
        lemma_lex_lt_irreflexive(n.key);
    } else if n.right is Some {
        lemma_max_key(n.right);
        let m = max_key(n.right);
        assert(spec_lex_lt(n.key, m));
        assert forall|x: Seq<u8>| #[trigger] entries(t).contains_key(x) implies lex_le(x, m) by {
            if entries(n.right).contains_key(x) {
            } else {
                assert(entries(n.left).contains_key(x));
                assert(lex_le(x, n.key));
                lemma_le_lt(x, n.key, m);
                lemma_lex_lt_asymmetric(x, m);
            }
        }
    } else {
        lemma_max_key(n.left);
        assert(entries(t) =~= entries(n.left));
    }
}

/// Law: in an ordered tree, following split keys finds exactly the tree's
/// entry for a key.
pub proof fn lemma_get_finds_entry(t: Option<Box<NodeV>>, k: Seq<u8>)
    requires
        ordered(t),
    ensures
        tree_get(t, k) == entry_of(entries(t), k),
    decreases t,
{
    if let Some(n) = t {
        if !is_leaf(*n) {
            lemma_get_finds_entry(n.left, k);
            lemma_get_finds_entry(n.right, k);
            if lex_le(k, n.key) {
                if entries(n.right).contains_key(k) {
                    lemma_lex_lt_asymmetric(n.key, k);
                }
            } else {
                if entries(n.left).contains_key(k) {
                    assert(lex_le(k, n.key));
                }
            }
        }
    }
}

/// A non-empty key set: every key sorting after some key is non-empty.
pub proof fn lemma_after_is_nonempty(a: Seq<u8>, b: Seq<u8>)
    requires
        spec_lex_lt(a, b),
    ensures
        b.len() > 0,
        spec_lex_lt(Seq::<u8>::empty(), b),
{
}

/// Joining two ordered subtrees whose keys are in order gives an ordered
/// subtree holding the entries of both.
pub proof fn lemma_join_ordered(l: Option<Box<NodeV>>, r: Option<Box<NodeV>>, version: u64)
    requires
        ordered(l),
        ordered(r),
        l is Some || r is Some,
        all_before(entries(l), entries(r)),
        l is None ==> all_gt(entries(r), Seq::<u8>::empty()),
    ensures
        ordered(Some(Box::new(join(l, r, version)))),
        entries(Some(Box::new(join(l, r, version)))) == entries(l).union_prefer_right(entries(r)),
{
    let j = join(l, r, version);
    if l is Some {
        lemma_max_key(l);
        let m = max_key(l);
        assert forall|y: Seq<u8>| #[trigger] entries(r).contains_key(y) implies spec_lex_lt(m, y) by {
            assert(spec_lex_lt(m, y));
        }
    }
}


/// A left rotation of an ordered node keeps its entries and its order, as
/// long as it does not join two empty subtrees.
pub proof fn lemma_rotate_left_ordered(n: NodeV, version: u64)
    requires
        ordered(Some(Box::new(n))),
        n.right is Some,
        !is_leaf(*n.right->0),
        n.left is Some || n.right->0.left is Some,
    ensures
        ordered(Some(Box::new(rotate_left(n, version)))),
        entries(Some(Box::new(rotate_left(n, version)))) == entries(Some(Box::new(n))),
        gaps(Some(Box::new(rotate_left(n, version)))) == gaps(Some(Box::new(n))),
{
    let a = n.left;
    let r = n.right->0;
    let b = r.left;
    let c = r.right;
    assert(ordered(n.right));
    assert(entries(n.right) == entries(b).union_prefer_right(entries(c)));
    assert forall|x: Seq<u8>, y: Seq<u8>| entries(a).contains_key(x) && entries(b).contains_key(y)
        implies #[trigger] spec_lex_lt(x, y) by {
        assert(entries(n.right).contains_key(y));
        lemma_le_lt(x, n.key, y);
    }
    if a is None {
        assert forall|y: Seq<u8>| #[trigger] entries(b).contains_key(y) implies spec_lex_lt(Seq::<u8>::empty(), y) by {
            assert(entries(n.right).contains_key(y));
            lemma_after_is_nonempty(n.key, y);
        }
    }
    lemma_join_ordered(a, b, version);
    let j = join(a, b, version);
    assert forall|x: Seq<u8>, y: Seq<u8>| entries(Some(Box::new(j))).contains_key(x) && entries(c).contains_key(y)
        implies #[trigger] spec_lex_lt(x, y) by {
        assert(entries(n.right).contains_key(y));
        if entries(a).contains_key(x) {
            lemma_le_lt(x, n.key, y);
        } else {
            lemma_le_lt(x, r.key, y);
        }
    }
    lemma_join_ordered(Some(Box::new(j)), c, version);
    assert(entries(Some(Box::new(rotate_left(n, version)))) =~= entries(Some(Box::new(n))));
    assert(gaps(Some(Box::new(j))) == gaps(a) + gaps(b) + if (a is None) != (b is None) { 1nat } else { 0nat });
    assert(gaps(n.right) == gaps(b) + gaps(c) + if (b is None) != (c is None) { 1nat } else { 0nat });
}

/// A right rotation of an ordered node keeps its entries and its order, as
/// long as it does not join two empty subtrees.
pub proof fn lemma_rotate_right_ordered(n: NodeV, version: u64)
    requires
        ordered(Some(Box::new(n))),
        n.left is Some,
        !is_leaf(*n.left->0),
        n.right is Some || n.left->0.right is Some,
    ensures
        ordered(Some(Box::new(rotate_right(n, version)))),
        entries(Some(Box::new(rotate_right(n, version)))) == entries(Some(Box::new(n))),
        gaps(Some(Box::new(rotate_right(n, version)))) == gaps(Some(Box::new(n))),
{
    let l = n.left->0;
    let a = l.left;
    let b = l.right;
    let c = n.right;
    assert(ordered(n.left));
    assert(entries(n.left) == entries(a).union_prefer_right(entries(b)));
    assert forall|x: Seq<u8>, y: Seq<u8>| entries(b).contains_key(x) && entries(c).contains_key(y)
        implies #[trigger] spec_lex_lt(x, y) by {
        assert(entries(n.left).contains_key(x));
        lemma_le_lt(x, n.key, y);
    }
    if b is None {
        assert forall|y: Seq<u8>| #[trigger] entries(c).contains_key(y) implies spec_lex_lt(Seq::<u8>::empty(), y) by {
            lemma_after_is_nonempty(n.key, y);
        }
    }
    lemma_join_ordered(b, c, version);
    let j = join(b, c, version);
    assert forall|x: Seq<u8>, y: Seq<u8>| entries(a).contains_key(x) && entries(Some(Box::new(j))).contains_key(y)
        implies #[trigger] spec_lex_lt(x, y) by {
        assert(entries(n.left).contains_key(x));
        if entries(b).contains_key(y) {
            lemma_le_lt(x, l.key, y);
        } else {
            lemma_le_lt(x, n.key, y);
        }
    }
    if a is None {
        assert forall|y: Seq<u8>| #[trigger] entries(Some(Box::new(j))).contains_key(y)
            implies spec_lex_lt(Seq::<u8>::empty(), y) by {
            if entries(b).contains_key(y) {
                lemma_after_is_nonempty(l.key, y);
            } else {
                lemma_after_is_nonempty(n.key, y);
            }
        }
    }
    lemma_join_ordered(a, Some(Box::new(j)), version);
    assert(entries(Some(Box::new(rotate_right(n, version)))) =~= entries(Some(Box::new(n))));
    assert(gaps(Some(Box::new(j))) == gaps(b) + gaps(c) + if (b is None) != (c is None) { 1nat } else { 0nat });
    assert(gaps(n.left) == gaps(a) + gaps(b) + if (a is None) != (b is None) { 1nat } else { 0nat });
}

/// Rebalancing an ordered inner node with at most one single-child node
/// below it keeps its entries, its order and its count of such nodes.
pub proof fn lemma_balance_ordered(n: NodeV, version: u64)
    requires
        ordered(Some(Box::new(n))),
        shape_ok(Some(Box::new(n))),
        !is_leaf(n),
        gaps(Some(Box::new(n))) <= 1,
    ensures
        ordered(Some(Box::new(balance(n, version)))),
        entries(Some(Box::new(balance(n, version)))) == entries(Some(Box::new(n))),
        gaps(Some(Box::new(balance(n, version)))) == gaps(Some(Box::new(n))),
{
    let bf = height_of(n.right) - height_of(n.left);
    lemma_height_below_size(n.left);
    lemma_height_below_size(n.right);
    if bf > 1 {
        let r = n.right->0;
        assert(shape_ok(n.right));
        assert(ordered(n.right));
        lemma_height_below_size(r.left);
        lemma_height_below_size(r.right);
        if height_of(r.right) - height_of(r.left) < 0 {
            let l = r.left->0;
            assert(shape_ok(r.left));
            assert(gaps(n.right) == gaps(r.left) + gaps(r.right) + if (r.left is None) != (r.right is None) { 1nat } else { 0nat });
            assert(gaps(r.left) == gaps(l.left) + gaps(l.right) + if (l.left is None) != (l.right is None) { 1nat } else { 0nat });
            if is_leaf(*l) {
                assert(l.height == 0);
                assert(height_of(r.left) == 0);
                assert(height_of(r.right) < 0);
                assert(r.right is None);
                assert(n.left is None);
                assert(false);
            }
            lemma_rotate_right_ordered(*r, version);
            let rr = rotate_right(*r, version);
            lemma_rotations_shape(*r, version);
            assert forall|x: Seq<u8>, y: Seq<u8>| entries(n.left).contains_key(x) && entries(Some(Box::new(rr))).contains_key(y)
                implies #[trigger] spec_lex_lt(x, y) by {
                lemma_le_lt(x, n.key, y);
            }
            if n.left is None {
                assert forall|y: Seq<u8>| #[trigger] entries(Some(Box::new(rr))).contains_key(y)
                    implies spec_lex_lt(Seq::<u8>::empty(), y) by {
                    lemma_after_is_nonempty(n.key, y);
                }
            }
            lemma_join_ordered(n.left, Some(Box::new(rr)), version);
            let root = join(n.left, Some(Box::new(rr)), version);
            lemma_rotate_left_ordered(root, version);
        } else {
            assert(gaps(n.right) == gaps(r.left) + gaps(r.right) + if (r.left is None) != (r.right is None) { 1nat } else { 0nat });
            lemma_rotate_left_ordered(n, version);
        }
    } else if bf < -1 {
        let l = n.left->0;
        assert(shape_ok(n.left));
        assert(ordered(n.left));
        lemma_height_below_size(l.left);
        lemma_height_below_size(l.right);
        if height_of(l.right) - height_of(l.left) > 0 {
            let x = l.right->0;
            assert(shape_ok(l.right));
            assert(gaps(n.left) == gaps(l.left) + gaps(l.right) + if (l.left is None) != (l.right is None) { 1nat } else { 0nat });
            assert(gaps(l.right) == gaps(x.left) + gaps(x.right) + if (x.left is None) != (x.right is None) { 1nat } else { 0nat });
            if is_leaf(*x) {
                assert(l.left is None);
                assert(n.right is None);
                assert(false);
            }
            lemma_rotate_left_ordered(*l, version);
            let nl = rotate_left(*l, version);
            lemma_rotations_shape(*l, version);
            assert forall|x: Seq<u8>, y: Seq<u8>| entries(Some(Box::new(nl))).contains_key(x) && entries(n.right).contains_key(y)
                implies #[trigger] spec_lex_lt(x, y) by {
                lemma_le_lt(x, n.key, y);
            }
            lemma_join_ordered(Some(Box::new(nl)), n.right, version);
            let root = join(Some(Box::new(nl)), n.right, version);
            lemma_rotate_right_ordered(root, version);
        } else {
            assert(gaps(n.left) == gaps(l.left) + gaps(l.right) + if (l.left is None) != (l.right is None) { 1nat } else { 0nat });
            lemma_rotate_right_ordered(n, version);
        }
    }
}


/// Law: inserting into an ordered tree without single-child nodes gives such
/// a tree again, holding the old entries with the new entry in place of any
/// old one under the same key.
pub proof fn lemma_insert_entries(t: Option<Box<NodeV>>, key: Seq<u8>, value: Seq<u8>, version: u64)
    requires
        ordered(t),
        shape_ok(t),
        gaps(t) == 0,
    ensures
        ordered(Some(Box::new(tree_insert(t, key, value, version)))),
        gaps(Some(Box::new(tree_insert(t, key, value, version)))) == 0,
        entries(Some(Box::new(tree_insert(t, key, value, version)))) == entries(t).insert(key, value),
    decreases t,
{
    let res = tree_insert(t, key, value, version);
    let lf = leaf(key, value, version);
    match t {
        None => {
            assert(entries(Some(Box::new(lf))) =~= entries(t).insert(key, value));
        },
        Some(n) => {
            if is_leaf(*n) {
                if key == n.key {
                    assert(entries(Some(Box::new(lf))) =~= entries(t).insert(key, value));
                } else if spec_lex_lt(key, n.key) {
                    lemma_join_ordered(Some(Box::new(lf)), t, version);
                    assert(entries(Some(Box::new(res))) =~= entries(t).insert(key, value));
                } else {
                    lemma_lex_lt_total(key, n.key);
                    lemma_join_ordered(t, Some(Box::new(lf)), version);
                    assert(entries(Some(Box::new(res))) =~= entries(t).insert(key, value));
                }
            } else {
                assert(n.left is Some && n.right is Some);
                if !spec_lex_lt(n.key, key) {
                    lemma_insert_entries(n.left, key, value, version);
                    lemma_insert_shape(n.left, key, value, version);
                    let il = tree_insert(n.left, key, value, version);
                    assert forall|x: Seq<u8>, y: Seq<u8>|
                        entries(Some(Box::new(il))).contains_key(x) && entries(n.right).contains_key(y)
                        implies #[trigger] spec_lex_lt(x, y) by {
                        lemma_le_lt(x, n.key, y);
                    }
                    lemma_join_ordered(Some(Box::new(il)), n.right, version);
                    let j = join(Some(Box::new(il)), n.right, version);
                    assert(shape_ok(Some(Box::new(j))));
                    lemma_balance_ordered(j, version);
                    if entries(n.right).contains_key(key) {
                        lemma_lex_lt_asymmetric(n.key, key);
                    }
                    assert(entries(Some(Box::new(res))) =~= entries(t).insert(key, value));
                } else {
                    lemma_insert_entries(n.right, key, value, version);
                    lemma_insert_shape(n.right, key, value, version);
                    let ir = tree_insert(n.right, key, value, version);
                    assert forall|x: Seq<u8>, y: Seq<u8>|
                        entries(n.left).contains_key(x) && entries(Some(Box::new(ir))).contains_key(y)
                        implies #[trigger] spec_lex_lt(x, y) by {
                        lemma_le_lt(x, n.key, y);
                    }
                    lemma_join_ordered(n.left, Some(Box::new(ir)), version);
                    let j = join(n.left, Some(Box::new(ir)), version);
                    assert(shape_ok(Some(Box::new(j))));
                    lemma_balance_ordered(j, version);
                    assert(entries(Some(Box::new(res))) =~= entries(t).insert(key, value));
                }
            }
        },
    }
}


/// Law: in an ordered tree without single-child nodes, deleting a key that is
/// not the split key of an inner node gives an ordered tree with at most one
/// single-child node that holds the old entries without that key.
pub proof fn lemma_remove_entries(t: Option<Box<NodeV>>, key: Seq<u8>, version: u64)
    requires
        ordered(t),
        shape_ok(t),
        gaps(t) == 0,
        !is_split_key(t, key),
    ensures
        ordered(tree_remove(t, key, version).0),
        gaps(tree_remove(t, key, version).0) <= 1,
        entries(tree_remove(t, key, version).0) == entries(t).remove(key),
    decreases t,
{
    lemma_remove_shape(t, key, version);
    let res = tree_remove(t, key, version);
    match t {
        None => {
            assert(entries(res.0) =~= entries(t).remove(key));
        },
        Some(n) => {
            if is_leaf(*n) {
                assert(entries(res.0) =~= entries(t).remove(key));
            } else {
                assert(n.left is Some && n.right is Some);
                assert(key != n.key);
                if spec_lex_lt(key, n.key) {
                    lemma_remove_entries(n.left, key, version);
                    lemma_remove_shape(n.left, key, version);
                    let sub = tree_remove(n.left, key, version);
                    if entries(n.right).contains_key(key) {
                        lemma_lex_lt_asymmetric(key, n.key);
                    }
                    if !sub.1 {
                        assert forall|x: Seq<u8>, y: Seq<u8>|
                            entries(sub.0).contains_key(x) && entries(n.right).contains_key(y)
                            implies #[trigger] spec_lex_lt(x, y) by {
                            assert(entries(n.left).contains_key(x));
                            lemma_le_lt(x, n.key, y);
                        }
                        if sub.0 is None {
                            assert forall|y: Seq<u8>| #[trigger] entries(n.right).contains_key(y)
                                implies spec_lex_lt(Seq::<u8>::empty(), y) by {
                                lemma_after_is_nonempty(n.key, y);
                            }
                        }
                        lemma_join_ordered(sub.0, n.right, version);
                        let j = join(sub.0, n.right, version);
                        assert(shape_ok(Some(Box::new(j))));
                        lemma_balance_ordered(j, version);
                    }
                    assert(entries(res.0) =~= entries(t).remove(key));
                } else {
                    lemma_lex_lt_total(key, n.key);
                    lemma_remove_entries(n.right, key, version);
                    lemma_remove_shape(n.right, key, version);
                    let sub = tree_remove(n.right, key, version);
                    if entries(n.left).contains_key(key) {
                        lemma_lex_lt_asymmetric(n.key, key);
                    }
                    if !sub.1 {
                        assert forall|x: Seq<u8>, y: Seq<u8>|
                            entries(n.left).contains_key(x) && entries(sub.0).contains_key(y)
                            implies #[trigger] spec_lex_lt(x, y) by {
                            assert(entries(n.right).contains_key(y));
                            lemma_le_lt(x, n.key, y);
                        }
                        lemma_join_ordered(n.left, sub.0, version);
                        let j = join(n.left, sub.0, version);
                        assert(shape_ok(Some(Box::new(j))));
                        lemma_balance_ordered(j, version);
                    }
                    assert(entries(res.0) =~= entries(t).remove(key));
                }
            }
        },
    }
}

/// Law: deleting a key that an ordered tree neither holds nor splits on
/// leaves the tree unchanged.
pub proof fn lemma_remove_absent_key(t: Option<Box<NodeV>>, key: Seq<u8>, version: u64)
    requires
        ordered(t),
        !entries(t).contains_key(key),
        !is_split_key(t, key),
    ensures
        tree_remove(t, key, version) == (t, true),
    decreases t,
{
    if let Some(n) = t {
        if !is_leaf(*n) {
            lemma_remove_absent_key(n.left, key, version);
            lemma_remove_absent_key(n.right, key, version);
        }
    }
}


// ---------------------------------------------------------------------------
// Range scans
// ---------------------------------------------------------------------------

/// Whether a key lies in `[start, end)` (no upper bound for `None`) and
/// starts with `prefix`.
pub open spec fn in_range(k: Seq<u8>, start: Seq<u8>, end: Option<Seq<u8>>, prefix: Seq<u8>) -> bool {
    &&& lex_le(start, k)
    &&& (end matches Some(e) ==> spec_lex_lt(k, e))
    &&& prefix.is_prefix_of(k)
}

/// The entries a range scan of a subtree collects, in traversal order: a
/// leaf's entry if its key is in range, and below an inner node the left
/// subtree's unless `start` exceeds the split key, then the right subtree's
/// unless `end` does not exceed the split key.
pub open spec fn tree_range(t: Option<Box<NodeV>>, start: Seq<u8>, end: Option<Seq<u8>>, prefix: Seq<u8>)
    -> Seq<(Seq<u8>, Seq<u8>)>
    decreases t,
{
    match t {
        None => Seq::empty(),
        Some(n) => if is_leaf(*n) {
            if in_range(n.key, start, end, prefix) { seq![(n.key, n.value)] } else { Seq::empty() }
        } else {
            (if lex_le(start, n.key) { tree_range(n.left, start, end, prefix) } else { Seq::empty() })
            + (if end matches Some(e) && lex_le(e, n.key) { Seq::empty() } else { tree_range(n.right, start, end, prefix) })
        },
    }
}

/// The key-value pairs of a list as values.
pub open spec fn pairs_view(s: Seq<(Vec<u8>, Vec<u8>)>) -> Seq<(Seq<u8>, Seq<u8>)> {
    s.map_values(|p: (Vec<u8>, Vec<u8>)| (p.0@, p.1@))
}

fn end_before(end: &Option<Vec<u8>>, k: &[u8]) -> (r: bool)
    ensures
        r == (match end { Some(e) => spec_lex_lt(k@, e@), None => true }),
{
    match end {
        Some(e) => bytes_lt(k, e.as_slice()),
        None => true,
    }
}

/// Appends the entries of a subtree in `[start, end)` that start with
/// `prefix`, pruning subtrees by their split keys (see [`tree_range`]).
fn collect_prefix_range(
    t: &Option<Box<TreeNode>>,
    start: &[u8],
    end: &Option<Vec<u8>>,
    prefix: &[u8],
    out: &mut Vec<(Vec<u8>, Vec<u8>)>,
)
    ensures
        pairs_view(final(out)@) == pairs_view(old(out)@) + tree_range(
            view_tree(*t),
            start@,
            match end { Some(e) => Some(e@), None => None },
            prefix@,
        ),
    decreases t,
{
    let ghost endv: Option<Seq<u8>> = match end { Some(e) => Some(e@), None => None };
    match t {
        None => {
            assert(pairs_view(out@) =~= pairs_view(out@) + Seq::<(Seq<u8>, Seq<u8>)>::empty());
        },
        Some(b) => {
            proof {
                lemma_view_some(*b);
            }
            if b.left.is_none() && b.right.is_none() {
                let k = b.key.as_slice();
                if !bytes_lt(k, start) && end_before(end, k) && crate::state::has_prefix(k, prefix) {
                    let ghost before = out@;
                    out.push((to_vec(k), to_vec(b.value.as_slice())));
                    assert(pairs_view(out@) =~= pairs_view(before) + seq![(b.key@, b.value@)]);
                } else {
                    assert(pairs_view(out@) =~= pairs_view(out@) + Seq::<(Seq<u8>, Seq<u8>)>::empty());
                }
            } else {
                let ghost before = pairs_view(out@);
                let split = b.key.as_slice();
                let go_left = !bytes_lt(split, start);
                if go_left {
                    collect_prefix_range(&b.left, start, end, prefix, out);
                }
                let ghost mid = pairs_view(out@);
                let skip_right = match end {
                    Some(e) => !bytes_lt(split, e.as_slice()),
                    None => false,
                };
                if !skip_right {
                    collect_prefix_range(&b.right, start, end, prefix, out);
                }
                proof {
                    let lpart = if lex_le(start@, b.key@) { tree_range(view_tree(b.left), start@, endv, prefix@) } else { Seq::empty() };
                    let rpart = if endv matches Some(e) && lex_le(e, b.key@) { Seq::empty() } else { tree_range(view_tree(b.right), start@, endv, prefix@) };
                    assert(mid =~= before + lpart);
                    assert(pairs_view(out@) =~= mid + rpart);
                    assert(pairs_view(out@) =~= before + (lpart + rpart));
                }
            }
        },
    }
}

/// Strictly increasing keys.
pub open spec fn keys_increasing(s: Seq<(Seq<u8>, Seq<u8>)>) -> bool {
    forall|i: int, j: int| 0 <= i < j < s.len() ==> #[trigger] spec_lex_lt(s[i].0, s[j].0)
}

/// Whether `s` lists the entries of `m`, each once.
pub open spec fn lists_entries(s: Seq<(Seq<u8>, Seq<u8>)>, m: Map<Seq<u8>, Seq<u8>>) -> bool {
    &&& forall|i: int| 0 <= i < s.len() ==> m.contains_key(#[trigger] s[i].0) && m[s[i].0] == s[i].1
    &&& forall|k: Seq<u8>| #[trigger] m.contains_key(k) ==> exists|i: int| 0 <= i < s.len() && s[i].0 == k
}

/// The entries of `m` in range.
pub open spec fn entries_in_range(m: Map<Seq<u8>, Seq<u8>>, start: Seq<u8>, end: Option<Seq<u8>>, prefix: Seq<u8>)
    -> Map<Seq<u8>, Seq<u8>>
{
    Map::new(|k: Seq<u8>| m.contains_key(k) && in_range(k, start, end, prefix), |k: Seq<u8>| m[k])
}

/// Law: a range scan of an ordered tree lists exactly its entries in range,
/// in increasing key order.
pub proof fn lemma_range_lists_entries(t: Option<Box<NodeV>>, start: Seq<u8>, end: Option<Seq<u8>>, prefix: Seq<u8>)
    requires
        ordered(t),
    ensures
        keys_increasing(tree_range(t, start, end, prefix)),
        lists_entries(tree_range(t, start, end, prefix), entries_in_range(entries(t), start, end, prefix)),
    decreases t,
{
    let s = tree_range(t, start, end, prefix);
    let m = entries_in_range(entries(t), start, end, prefix);
    match t {
        None => {},
        Some(n) => {
            if is_leaf(*n) {
                if in_range(n.key, start, end, prefix) {
                    assert(s[0].0 == n.key);
                }
            } else {
                lemma_range_lists_entries(n.left, start, end, prefix);
                lemma_range_lists_entries(n.right, start, end, prefix);
                let goes_left = lex_le(start, n.key);
                let goes_right = !(end matches Some(e) && lex_le(e, n.key));
                let lp = if goes_left { tree_range(n.left, start, end, prefix) } else { Seq::empty() };
                let rp = if goes_right { tree_range(n.right, start, end, prefix) } else { Seq::empty() };
                let ml = entries_in_range(entries(n.left), start, end, prefix);
                let mr = entries_in_range(entries(n.right), start, end, prefix);
                assert(s == lp + rp);
                // keys of the left part do not exceed the split key; those of the right part exceed it
                assert forall|i: int| 0 <= i < lp.len() implies lex_le(#[trigger] lp[i].0, n.key) by {
                    assert(ml.contains_key(lp[i].0));
                    assert(entries(n.left).contains_key(lp[i].0));
                }
                assert forall|i: int| 0 <= i < rp.len() implies spec_lex_lt(n.key, #[trigger] rp[i].0) by {
                    assert(mr.contains_key(rp[i].0));
                    assert(entries(n.right).contains_key(rp[i].0));
                }
                assert forall|i: int, j: int| 0 <= i < j < s.len() implies #[trigger] spec_lex_lt(s[i].0, s[j].0) by {
                    if j < lp.len() {
                        assert(s[i] == lp[i] && s[j] == lp[j]);
                    } else if i >= lp.len() {
                        assert(s[i] == rp[i - lp.len()] && s[j] == rp[j - lp.len()]);
                    } else {
                        assert(s[i] == lp[i] && s[j] == rp[j - lp.len()]);
                        assert(lex_le(lp[i].0, n.key));
                        assert(spec_lex_lt(n.key, rp[j - lp.len()].0));
                        lemma_le_lt(s[i].0, n.key, s[j].0);
                    }
                }
                assert forall|i: int| 0 <= i < s.len() implies m.contains_key(#[trigger] s[i].0) && m[s[i].0] == s[i].1 by {
                    if i < lp.len() {
                        assert(s[i] == lp[i]);
                        assert(ml.contains_key(lp[i].0));
                        if entries(n.right).contains_key(lp[i].0) {
                            assert(lex_le(lp[i].0, n.key));
                            lemma_lex_lt_asymmetric(n.key, lp[i].0);
                        }
                    } else {
                        assert(s[i] == rp[i - lp.len()]);
                        assert(mr.contains_key(rp[i - lp.len()].0));
                    }
                }
                assert forall|k: Seq<u8>| #[trigger] m.contains_key(k) implies exists|i: int| 0 <= i < s.len() && s[i].0 == k by {
                    if entries(n.right).contains_key(k) {
                        assert(mr.contains_key(k));
                        if !goes_right {
                            let e = end->0;
                            assert(spec_lex_lt(k, e));
                            assert(spec_lex_lt(n.key, k));
                            lemma_le_lt(e, n.key, k);
                            lemma_lex_lt_asymmetric(k, e);
                        }
                        let i = choose|i: int| 0 <= i < rp.len() && rp[i].0 == k;
                        assert(s[lp.len() + i] == rp[i]);
                    } else {
                        assert(entries(n.left).contains_key(k));
                        assert(ml.contains_key(k));
                        if !goes_left {
                            assert(lex_le(k, n.key));
                            assert(lex_le(start, k));
                            assert(spec_lex_lt(n.key, start));
                            lemma_le_lt(k, n.key, start);
                            lemma_lex_lt_asymmetric(k, start);
                        }
                        let i = choose|i: int| 0 <= i < lp.len() && lp[i].0 == k;
                        assert(s[i] == lp[i]);
                    }
                }
            }
        },
    }
}

/// The map a list of entries builds when each entry overwrites any earlier
/// one with the same key.
pub open spec fn seq_to_map(s: Seq<(Seq<u8>, Seq<u8>)>) -> Map<Seq<u8>, Seq<u8>>
    decreases s.len(),
{
    if s.len() == 0 {
        Map::empty()
    } else {
        seq_to_map(s.drop_last()).insert(s.last().0, s.last().1)
    }
}

/// A list with increasing keys that lists a map's entries builds that map.
pub proof fn lemma_seq_to_map_of_listing(s: Seq<(Seq<u8>, Seq<u8>)>, m: Map<Seq<u8>, Seq<u8>>)
    requires
        keys_increasing(s),
        lists_entries(s, m),
    ensures
        seq_to_map(s) == m,
    decreases s.len(),
{
    if s.len() == 0 {
        assert(m =~= Map::<Seq<u8>, Seq<u8>>::empty());
    } else {
        let last = s.last();
        let d = s.drop_last();
        let mr = m.remove(last.0);
        assert forall|i: int| 0 <= i < d.len() implies mr.contains_key(#[trigger] d[i].0) && mr[d[i].0] == d[i].1 by {
            assert(d[i] == s[i]);
            assert(spec_lex_lt(s[i].0, s[s.len() - 1].0));
            lemma_lex_lt_irreflexive(s[i].0);
        }
        assert forall|k: Seq<u8>| #[trigger] mr.contains_key(k) implies exists|i: int| 0 <= i < d.len() && d[i].0 == k by {
            let i = choose|i: int| 0 <= i < s.len() && s[i].0 == k;
            assert(i != s.len() - 1);
            assert(d[i] == s[i]);
        }
        lemma_seq_to_map_of_listing(d, mr);
        assert(seq_to_map(s) =~= m);
    }
}

/// Puts an entry into a list with increasing keys, replacing the entry with
/// the same key or inserting it in its place.
fn sorted_put(out: &mut Vec<(Vec<u8>, Vec<u8>)>, k: Vec<u8>, v: Vec<u8>, Ghost(m): Ghost<Map<Seq<u8>, Seq<u8>>>)
    requires
        keys_increasing(pairs_view(old(out)@)),
        lists_entries(pairs_view(old(out)@), m),
    ensures
        keys_increasing(pairs_view(final(out)@)),
        lists_entries(pairs_view(final(out)@), m.insert(k@, v@)),
{
    let ghost old_s = pairs_view(out@);
    let n = out.len();
    let mut i: usize = 0;
    while i < n && bytes_lt(out[i].0.as_slice(), k.as_slice())
        invariant
            n == out@.len(),
            i <= n,
            old_s == pairs_view(out@),
            forall|j: int| 0 <= j < i ==> #[trigger] spec_lex_lt(old_s[j].0, k@),
        decreases n - i,
    {
        i = i + 1;
    }
    let ghost mk = m.insert(k@, v@);
    if i < n && bytes_eq(out[i].0.as_slice(), k.as_slice()) {
        out.set(i, (k, v));
        proof {
            let ns = pairs_view(out@);
            assert forall|a: int, b: int| 0 <= a < b < ns.len() implies #[trigger] spec_lex_lt(ns[a].0, ns[b].0) by {
                assert(ns[a].0 == old_s[a].0 && ns[b].0 == old_s[b].0);
            }
            assert forall|j: int| 0 <= j < ns.len() implies mk.contains_key(#[trigger] ns[j].0) && mk[ns[j].0] == ns[j].1 by {
                if j != i {
                    assert(ns[j] == old_s[j]);
                    if j < i {
                        assert(spec_lex_lt(old_s[j].0, old_s[i as int].0));
                    } else {
                        assert(spec_lex_lt(old_s[i as int].0, old_s[j].0));
                    }
                    lemma_lex_lt_irreflexive(k@);
                }
            }
            assert forall|kk: Seq<u8>| #[trigger] mk.contains_key(kk) implies exists|j: int| 0 <= j < ns.len() && ns[j].0 == kk by {
                if kk == k@ {
                    assert(ns[i as int].0 == kk);
                } else {
                    let j = choose|j: int| 0 <= j < old_s.len() && old_s[j].0 == kk;
                    assert(ns[j].0 == old_s[j].0);
                }
            }
        }
    } else {
        out.insert(i, (k, v));
        proof {
            let ns = pairs_view(out@);
            assert(ns.len() == old_s.len() + 1);
            assert forall|j: int| 0 <= j < ns.len() implies #[trigger] ns[j] == (if j < i { old_s[j] } else if j == i { (k@, v@) } else { old_s[j - 1] }) by {}
            if i < n {
                lemma_lex_lt_total(k@, old_s[i as int].0);
            }
            assert forall|j: int| i <= j < old_s.len() implies #[trigger] spec_lex_lt(k@, old_s[j].0) by {
                if j > i {
                    assert(spec_lex_lt(old_s[i as int].0, old_s[j].0));
                    lemma_lex_lt_transitive(k@, old_s[i as int].0, old_s[j].0);
                }
            }
            assert forall|a: int, b: int| 0 <= a < b < ns.len() implies #[trigger] spec_lex_lt(ns[a].0, ns[b].0) by {
                if b < i {
                } else if b == i {
                } else if a < i {
                    assert(spec_lex_lt(old_s[a].0, k@));
                    assert(spec_lex_lt(k@, old_s[b - 1].0));
                    lemma_lex_lt_transitive(old_s[a].0, k@, old_s[b - 1].0);
                } else if a == i {
                } else {
                }
            }
            assert forall|j: int| 0 <= j < ns.len() implies mk.contains_key(#[trigger] ns[j].0) && mk[ns[j].0] == ns[j].1 by {
                if j < i {
                    lemma_lex_lt_irreflexive(k@);
                } else if j > i {
                    assert(spec_lex_lt(k@, old_s[j - 1].0));
                    lemma_lex_lt_irreflexive(k@);
                }
            }
            assert forall|kk: Seq<u8>| #[trigger] mk.contains_key(kk) implies exists|j: int| 0 <= j < ns.len() && ns[j].0 == kk by {
                if kk == k@ {
                    assert(ns[i as int].0 == kk);
                } else {
                    let j = choose|j: int| 0 <= j < old_s.len() && old_s[j].0 == kk;
                    if j < i {
                        assert(ns[j].0 == kk);
                    } else {
                        assert(ns[j + 1].0 == kk);
                    }
                }
            }
        }
    }
}

/// A string sorts no later than any string it begins.
pub proof fn lemma_prefix_sorts_first(prefix: Seq<u8>, key: Seq<u8>)
    requires
        prefix.is_prefix_of(key),
    ensures
        lex_le(prefix, key),
    decreases prefix.len(),
{
    if prefix.len() > 0 {
        assert(prefix.drop_first().is_prefix_of(key.drop_first())) by {
            assert forall|i: int| 0 <= i < prefix.drop_first().len() implies prefix.drop_first()[i] == key.drop_first()[i] by {
                assert(prefix[i + 1] == key[i + 1]);
            }
        }
        lemma_prefix_sorts_first(prefix.drop_first(), key.drop_first());
    }
}

/// The entries in the range of a prefix scan are those with the prefix.
pub proof fn lemma_prefix_range(m: Map<Seq<u8>, Seq<u8>>, prefix: Seq<u8>)
    ensures
        entries_in_range(m, prefix, spec_lexicographical_successor(prefix), prefix) == spec_with_prefix(m, prefix),
{
    let end = spec_lexicographical_successor(prefix);
    assert forall|k: Seq<u8>| prefix.is_prefix_of(k) implies #[trigger] in_range(k, prefix, end, prefix) by {
        lemma_prefix_sorts_first(prefix, k);
        if end is Some {
            assert(k.subrange(0, prefix.len() as int) =~= prefix);
            lemma_successor_bounds_prefix(prefix, k);
        }
    }
    assert(entries_in_range(m, prefix, end, prefix) =~= spec_with_prefix(m, prefix));
}

/// Law: a prefix scan of an ordered tree sees exactly the tree's entries with
/// the prefix, with values written since the last commit in their place.
pub proof fn lemma_prefix_scan_entries(t: Option<Box<NodeV>>, cache: Map<Seq<u8>, Seq<u8>>, prefix: Seq<u8>)
    requires
        ordered(t),
    ensures
        seq_to_map(tree_range(t, prefix, spec_lexicographical_successor(prefix), prefix))
            .union_prefer_right(spec_with_prefix(cache, prefix))
            == spec_with_prefix(entries(t), prefix).union_prefer_right(spec_with_prefix(cache, prefix)),
{
    let end = spec_lexicographical_successor(prefix);
    lemma_range_lists_entries(t, prefix, end, prefix);
    lemma_seq_to_map_of_listing(tree_range(t, prefix, end, prefix), entries_in_range(entries(t), prefix, end, prefix));
    lemma_prefix_range(entries(t), prefix);
}

// ---------------------------------------------------------------------------
// The state tree
// ---------------------------------------------------------------------------

/// What a read of `key` returns: a value written since the last commit if
/// there is one, the tree's value otherwise.
pub open spec fn spec_read(cache: Map<Seq<u8>, Seq<u8>>, tree: Option<Box<NodeV>>, key: Seq<u8>) -> Option<Seq<u8>> {
    if cache.contains_key(key) {
        Some(cache[key])
    } else {
        tree_get(tree, key)
    }
}

/// The tree after inserting a list of entries in order.
pub open spec fn tree_insert_all(t: Option<Box<NodeV>>, s: Seq<(Seq<u8>, Seq<u8>)>, version: u64) -> Option<Box<NodeV>>
    decreases s.len(),
{
    if s.len() == 0 {
        t
    } else {
        Some(Box::new(tree_insert(tree_insert_all(t, s.drop_last(), version), s.last().0, s.last().1, version)))
    }
}

/// The tree after deleting a list of keys in order.
pub open spec fn tree_remove_all(t: Option<Box<NodeV>>, keys: Seq<Seq<u8>>, version: u64) -> Option<Box<NodeV>>
    decreases keys.len(),
{
    if keys.len() == 0 {
        t
    } else {
        tree_remove(tree_remove_all(t, keys.drop_last(), version), keys.last(), version).0
    }
}

/// A map without a list of keys.
pub open spec fn remove_all(m: Map<Seq<u8>, Seq<u8>>, keys: Seq<Seq<u8>>) -> Map<Seq<u8>, Seq<u8>>
    decreases keys.len(),
{
    if keys.len() == 0 {
        m
    } else {
        remove_all(m, keys.drop_last()).remove(keys.last())
    }
}

/// The byte strings of a list of keys.
pub open spec fn keys_view(keys: Seq<Vec<u8>>) -> Seq<Seq<u8>> {
    keys.map_values(|k: Vec<u8>| k@)
}

/// Law: a read of a key just written gives the value written.
pub proof fn lemma_read_own_write(cache: Map<Seq<u8>, Seq<u8>>, t: Option<Box<NodeV>>, key: Seq<u8>, value: Seq<u8>, version: u64)
    ensures
        spec_read(cache.insert(key, value), Some(Box::new(tree_insert(t, key, value, version))), key) == Some(value),
{
}

/// Law: a write to one key leaves the reads of every other key as they
/// were, in an ordered tree without single-child nodes.
pub proof fn lemma_write_keeps_other_reads(
    cache: Map<Seq<u8>, Seq<u8>>,
    t: Option<Box<NodeV>>,
    key: Seq<u8>,
    value: Seq<u8>,
    version: u64,
    other: Seq<u8>,
)
    requires
        ordered(t),
        shape_ok(t),
        gaps(t) == 0,
        other != key,
    ensures
        spec_read(cache.insert(key, value), Some(Box::new(tree_insert(t, key, value, version))), other)
            == spec_read(cache, t, other),
{
    let ins = Some(Box::new(tree_insert(t, key, value, version)));
    lemma_insert_entries(t, key, value, version);
    lemma_get_finds_entry(t, other);
    lemma_get_finds_entry(ins, other);
}

/// Law: after deleting a key that is not a split key from an ordered tree
/// without single-child nodes, a read of it finds nothing and reads of every
/// other key are as they were.
pub proof fn lemma_delete_reads(
    cache: Map<Seq<u8>, Seq<u8>>,
    t: Option<Box<NodeV>>,
    key: Seq<u8>,
    version: u64,
    other: Seq<u8>,
)
    requires
        ordered(t),
        shape_ok(t),
        gaps(t) == 0,
        !is_split_key(t, key),
    ensures
        spec_read(cache.remove(key), tree_remove(t, key, version).0, key) is None,
        other != key ==> spec_read(cache.remove(key), tree_remove(t, key, version).0, other)
            == spec_read(cache, t, other),
{
    let rem = tree_remove(t, key, version).0;
    lemma_remove_entries(t, key, version);
    lemma_get_finds_entry(rem, key);
    lemma_get_finds_entry(rem, other);
    lemma_get_finds_entry(t, other);
}

/// The IAVL state tree: the node tree, the version that new nodes get, and
/// the values written since the last commit, which reads consult first.
pub struct IAVLTree {
    root: Option<Box<TreeNode>>,
    current_height: u64,
    kv_cache: StateMap,
}

impl IAVLTree {
    #[verifier::type_invariant]
    spec fn wf(self) -> bool {
        &&& shape_ok(view_tree(self.root))
        &&& size_of(view_tree(self.root)) <= max_tree_nodes()
    }

    /// The node tree.
    pub closed spec fn tree(self) -> Option<Box<NodeV>> {
        view_tree(self.root)
    }

    /// The values written since the last commit.
    pub closed spec fn cache(self) -> Map<Seq<u8>, Seq<u8>> {
        self.kv_cache.view()
    }

    /// The version that new nodes get.
    pub closed spec fn version(self) -> u64 {
        self.current_height
    }

    /// An empty tree at version 0.
    pub fn new() -> (t: Self)
        ensures
            t.tree() is None,
            t.cache() == Map::<Seq<u8>, Seq<u8>>::empty(),
            t.version() == 0,
    {
        IAVLTree { root: None, current_height: 0, kv_cache: StateMap::new() }
    }

    /// Sets the version that nodes written from now on get.
    pub fn begin_block_writes(&mut self, height: u64)
        ensures
            final(self).version() == height,
            final(self).tree() == old(self).tree(),
            final(self).cache() == old(self).cache(),
    {
        proof {
            use_type_invariant(&*self);
        }
        self.current_height = height;
    }

    /// The number of nodes of the tree.
    pub fn node_count(&self) -> (n: u64)
        ensures
            n == size_of(self.tree()),
    {
        node_size(&self.root)
    }

    /// Reads a key: the value written since the last commit, else the tree's.
    pub fn get(&self, key: &[u8]) -> (r: Option<Vec<u8>>)
        ensures
            match r {
                Some(v) => spec_read(self.cache(), self.tree(), key@) == Some(v@),
                None => spec_read(self.cache(), self.tree(), key@) is None,
            },
    {
        match self.kv_cache.get(key) {
            Some(v) => Some(v),
            None => get_node(&self.root, key),
        }
    }

    /// Writes an entry into the tree and the cache.
    pub fn insert(&mut self, key: &[u8], value: &[u8])
        requires
            size_of(old(self).tree()) + 2 <= max_tree_nodes(),
        ensures
            final(self).tree() == Some(Box::new(tree_insert(old(self).tree(), key@, value@, old(self).version()))),
            final(self).cache() == old(self).cache().insert(key@, value@),
            final(self).version() == old(self).version(),
    {
        proof {
            use_type_invariant(&*self);
            lemma_insert_shape(view_tree(self.root), key@, value@, self.current_height);
        }
        let mut root: Option<Box<TreeNode>> = None;
        std::mem::swap(&mut root, &mut self.root);
        let n = insert_node(root, key, value, self.current_height);
        self.root = Some(Box::new(n));
        let mut cache = StateMap::new();
        std::mem::swap(&mut cache, &mut self.kv_cache);
        cache.insert(key, value);
        self.kv_cache = cache;
    }

    /// Deletes a key from the tree and the cache.
    pub fn delete(&mut self, key: &[u8])
        ensures
            final(self).tree() == tree_remove(old(self).tree(), key@, old(self).version()).0,
            final(self).cache() == old(self).cache().remove(key@),
            final(self).version() == old(self).version(),
    {
        proof {
            use_type_invariant(&*self);
            lemma_remove_shape(view_tree(self.root), key@, self.current_height);
        }
        let mut root: Option<Box<TreeNode>> = None;
        std::mem::swap(&mut root, &mut self.root);
        let (r, _) = remove_node(root, key, self.current_height);
        self.root = r;
        let mut cache = StateMap::new();
        std::mem::swap(&mut cache, &mut self.kv_cache);
        cache.delete(key);
        self.kv_cache = cache;
    }

    /// The entries whose key starts with `prefix`, in increasing key order:
    /// those the tree's range scan collects, each later one replacing an
    /// earlier one with the same key, with the values written since the last
    /// commit in their place.
    pub fn prefix_scan(&self, prefix: &[u8]) -> (r: Vec<(Vec<u8>, Vec<u8>)>)
        ensures
            keys_increasing(pairs_view(r@)),
            lists_entries(
                pairs_view(r@),
                seq_to_map(tree_range(self.tree(), prefix@, spec_lexicographical_successor(prefix@), prefix@))
                    .union_prefer_right(spec_with_prefix(self.cache(), prefix@)),
            ),
    {
        let end = lexicographical_successor(prefix);
        let mut committed: Vec<(Vec<u8>, Vec<u8>)> = Vec::new();
        collect_prefix_range(&self.root, prefix, &end, prefix, &mut committed);
        let ghost cs = pairs_view(committed@);
        assert(cs =~= tree_range(self.tree(), prefix@, spec_lexicographical_successor(prefix@), prefix@));
        let mut merged: Vec<(Vec<u8>, Vec<u8>)> = Vec::new();
        let n = committed.len();
        let mut i: usize = 0;
        while i < n
            invariant
                n == committed@.len(),
                i <= n,
                cs == pairs_view(committed@),
                keys_increasing(pairs_view(merged@)),
                lists_entries(pairs_view(merged@), seq_to_map(cs.take(i as int))),
            decreases n - i,
        {
            let k = to_vec(committed[i].0.as_slice());
            let v = to_vec(committed[i].1.as_slice());
            sorted_put(&mut merged, k, v, Ghost(seq_to_map(cs.take(i as int))));
            assert(cs.take(i + 1).drop_last() =~= cs.take(i as int));
            i = i + 1;
        }
        assert(cs.take(n as int) =~= cs);
        let ghost base = seq_to_map(cs);
        let ghost pc = spec_with_prefix(self.cache(), prefix@);
        let cached = self.kv_cache.prefix_scan(prefix);
        let cn = cached.len();
        let mut j: usize = 0;
        while j < cn
            invariant
                cn == cached@.len(),
                j <= cn,
                spec_enumerates(cached@, pc),
                keys_increasing(pairs_view(merged@)),
                lists_entries(pairs_view(merged@), base.union_prefer_right(pc.restrict(
                    Set::new(|k: Seq<u8>| exists|a: int| 0 <= a < j && cached@[a].0@ == k)))),
            decreases cn - j,
        {
            let ghost before = base.union_prefer_right(pc.restrict(
                Set::new(|k: Seq<u8>| exists|a: int| 0 <= a < j && cached@[a].0@ == k)));
            let k = to_vec(cached[j].0.as_slice());
            let v = to_vec(cached[j].1.as_slice());
            sorted_put(&mut merged, k, v, Ghost(before));
            proof {
                let after = base.union_prefer_right(pc.restrict(
                    Set::new(|kk: Seq<u8>| exists|a: int| 0 <= a < j + 1 && cached@[a].0@ == kk)));
                assert(pc.contains_key(cached@[j as int].0@));
                assert forall|kk: Seq<u8>| #[trigger] after.contains_key(kk) == before.insert(k@, v@).contains_key(kk) by {
                    if exists|a: int| 0 <= a < j + 1 && cached@[a].0@ == kk {
                        let a = choose|a: int| 0 <= a < j + 1 && cached@[a].0@ == kk;
                        if a < j {
                            assert(exists|a2: int| 0 <= a2 < j && cached@[a2].0@ == kk);
                        }
                    }
                    if exists|a: int| 0 <= a < j && cached@[a].0@ == kk {
                        let a = choose|a: int| 0 <= a < j && cached@[a].0@ == kk;
                        assert(exists|a2: int| 0 <= a2 < j + 1 && cached@[a2].0@ == kk);
                    }
                    if kk == k@ {
                        assert(exists|a2: int| 0 <= a2 < j + 1 && cached@[a2].0@ == kk);
                    }
                }
                assert(after =~= before.insert(k@, v@));
            }
            j = j + 1;
        }
        proof {
            let done = pc.restrict(Set::new(|k: Seq<u8>| exists|a: int| 0 <= a < cn && cached@[a].0@ == k));
            assert(done =~= pc);
        }
        merged
    }

    /// Writes a list of entries in order.
    pub fn batch_set(&mut self, updates: &[(Vec<u8>, Vec<u8>)])
        requires
            size_of(old(self).tree()) + 2 * updates@.len() <= max_tree_nodes(),
        ensures
            final(self).tree() == tree_insert_all(old(self).tree(), pairs_view(updates@), old(self).version()),
            final(self).cache() == old(self).cache().union_prefer_right(seq_to_map(pairs_view(updates@))),
            final(self).version() == old(self).version(),
    {
        let ghost s = pairs_view(updates@);
        let ghost t0 = self.tree();
        let ghost c0 = self.cache();
        let n = updates.len();
        let mut i: usize = 0;
        assert(s.take(0) =~= Seq::<(Seq<u8>, Seq<u8>)>::empty());
        assert(c0.union_prefer_right(Map::<Seq<u8>, Seq<u8>>::empty()) =~= c0);
        while i < n
            invariant
                n == updates@.len(),
                i <= n,
                s == pairs_view(updates@),
                self.version() == old(self).version(),
                t0 == old(self).tree(),
                c0 == old(self).cache(),
                size_of(t0) + 2 * n <= max_tree_nodes(),
                size_of(self.tree()) <= size_of(t0) + 2 * i,
                self.tree() == tree_insert_all(t0, s.take(i as int), self.version()),
                self.cache() == c0.union_prefer_right(seq_to_map(s.take(i as int))),
            decreases n - i,
        {
            proof {
                use_type_invariant(&*self);
                lemma_insert_shape(self.tree(), s[i as int].0, s[i as int].1, self.version());
            }
            self.insert(updates[i].0.as_slice(), updates[i].1.as_slice());
            proof {
                assert(s.take(i + 1).drop_last() =~= s.take(i as int));
                assert(self.cache() =~= c0.union_prefer_right(seq_to_map(s.take(i + 1))));
            }
            i = i + 1;
        }
        assert(s.take(n as int) =~= s);
    }

    /// Reads a list of keys.
    pub fn batch_get(&self, keys: &[Vec<u8>]) -> (r: Vec<Option<Vec<u8>>>)
        ensures
            r@.len() == keys@.len(),
            forall|i: int| 0 <= i < keys@.len() ==> match #[trigger] r@[i] {
                Some(v) => spec_read(self.cache(), self.tree(), keys@[i]@) == Some(v@),
                None => spec_read(self.cache(), self.tree(), keys@[i]@) is None,
            },
    {
        let mut out: Vec<Option<Vec<u8>>> = Vec::new();
        let n = keys.len();
        let mut i: usize = 0;
        while i < n
            invariant
                n == keys@.len(),
                i <= n,
                out@.len() == i,
                forall|j: int| 0 <= j < i ==> match #[trigger] out@[j] {
                    Some(v) => spec_read(self.cache(), self.tree(), keys@[j]@) == Some(v@),
                    None => spec_read(self.cache(), self.tree(), keys@[j]@) is None,
                },
            decreases n - i,
        {
            let r = self.get(keys[i].as_slice());
            out.push(r);
            i = i + 1;
        }
        out
    }

    /// Deletes a list of keys, then writes a list of entries, each in order.
    pub fn batch_apply(&mut self, inserts: &[(Vec<u8>, Vec<u8>)], deletes: &[Vec<u8>])
        requires
            size_of(old(self).tree()) + 2 * inserts@.len() <= max_tree_nodes(),
        ensures
            final(self).tree() == tree_insert_all(
                tree_remove_all(old(self).tree(), keys_view(deletes@), old(self).version()),
                pairs_view(inserts@),
                old(self).version(),
            ),
            final(self).cache() == remove_all(old(self).cache(), keys_view(deletes@))
                .union_prefer_right(seq_to_map(pairs_view(inserts@))),
            final(self).version() == old(self).version(),
    {
        let ghost ks = keys_view(deletes@);
        let ghost t0 = self.tree();
        let ghost c0 = self.cache();
        let n = deletes.len();
        let mut i: usize = 0;
        assert(ks.take(0) =~= Seq::<Seq<u8>>::empty());
        while i < n
            invariant
                n == deletes@.len(),
                i <= n,
                ks == keys_view(deletes@),
                self.version() == old(self).version(),
                t0 == old(self).tree(),
                c0 == old(self).cache(),
                size_of(self.tree()) <= size_of(t0),
                self.tree() == tree_remove_all(t0, ks.take(i as int), self.version()),
                self.cache() == remove_all(c0, ks.take(i as int)),
            decreases n - i,
        {
            proof {
                use_type_invariant(&*self);
                lemma_remove_shape(self.tree(), ks[i as int], self.version());
            }
            self.delete(deletes[i].as_slice());
            proof {
                assert(ks.take(i + 1).drop_last() =~= ks.take(i as int));
            }
            i = i + 1;
        }
        assert(ks.take(n as int) =~= ks);
        self.batch_set(inserts);
    }
}

} // verus!
