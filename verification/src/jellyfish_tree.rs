//! The Jellyfish Merkle tree's state: a key-value cache that serves reads and
//! writes, a cache of tree nodes by hash, and the batch update that rebuilds
//! the internal nodes touched by a batch of keys.

use vstd::prelude::*;
use crate::bytes::bytes_eq;
use crate::jellyfish::{InternalNode, LeafNode, Node, NodeHash, NibblePath, spec_node_hash, spec_zero_hash,
    spec_children_entries, spec_nibble};
use crate::hash_commitment::{HashCommitmentScheme, spec_leaf_preimage};
use crate::codec::spec_scale_compact;
use crate::crypto::{sha256, sha256_accepts, sha256_spec};
use crate::state::{StateMap, spec_with_prefix, spec_enumerates, to_vec};
use crate::iavl_tree::{pairs_view, seq_to_map, remove_all};
use crate::hash_commitment::{HashCommitment, HashProof, HashProofView, Selector, SelectorView};
use vstd::bytes::{spec_u64_to_le_bytes, u64_to_le_bytes};

verus! {

/// The value of a node; children are named by their hash bytes.
pub enum NodeV {
    Internal(Seq<(u8, Seq<u8>)>),
    Leaf(LeafNode),
    Null,
}

/// The children of an internal node as values.
pub open spec fn children_view(c: Seq<(u8, NodeHash)>) -> Seq<(u8, Seq<u8>)> {
    c.map_values(|p: (u8, NodeHash)| (p.0, p.1@))
}

/// The value of a node.
pub open spec fn node_view(n: Node) -> NodeV {
    match n {
        Node::Internal(i) => NodeV::Internal(children_view(i.children@)),
        Node::Leaf(l) => NodeV::Leaf(l),
        Node::Null => NodeV::Null,
    }
}

/// Each child's nibble and hash bytes, in order.
pub open spec fn entries_v(c: Seq<(u8, Seq<u8>)>) -> Seq<u8>
    decreases c.len(),
{
    if c.len() == 0 { Seq::empty() } else { entries_v(c.drop_last()) + seq![c.last().0] + c.last().1 }
}

/// The hash of a node value (see [`spec_node_hash`]).
pub open spec fn hash_v(v: NodeV) -> Seq<u8> {
    match v {
        NodeV::Internal(ch) => {
            let bytes = spec_scale_compact(ch.len() as u32) + entries_v(ch);
            if sha256_accepts(bytes) { sha256_spec(bytes) } else { spec_zero_hash() }
        },
        NodeV::Leaf(l) => sha256_spec(spec_leaf_preimage(l.account_key@, l.value_hash@)),
        NodeV::Null => spec_zero_hash(),
    }
}

proof fn lemma_entries_view(c: Seq<(u8, NodeHash)>)
    ensures
        spec_children_entries(c) == entries_v(children_view(c)),
    decreases c.len(),
{
    if c.len() > 0 {
        assert(children_view(c).drop_last() =~= children_view(c.drop_last()));
        lemma_entries_view(c.drop_last());
    }
}

/// A node's hash is the hash of its value.
pub proof fn lemma_hash_of_view(n: Node)
    ensures
        spec_node_hash(n) == hash_v(node_view(n)),
{
    if let Node::Internal(i) = n {
        lemma_entries_view(i.children@);
    }
}

/// A copy of a node.
fn clone_node(n: &Node) -> (r: Node)
    ensures
        node_view(r) == node_view(*n),
{
    match n {
        Node::Internal(i) => {
            let mut children: Vec<(u8, NodeHash)> = Vec::new();
            let len = i.children.len();
            let mut k: usize = 0;
            while k < len
                invariant
                    len == i.children@.len(),
                    k <= len,
                    children@ == i.children@.subrange(0, k as int),
                decreases len - k,
            {
                children.push(i.children[k]);
                k = k + 1;
            }
            assert(children@ =~= i.children@);
            Node::Internal(InternalNode { children })
        },
        Node::Leaf(l) => Node::Leaf(*l),
        Node::Null => Node::Null,
    }
}

// ---------------------------------------------------------------------------
// The node cache
// ---------------------------------------------------------------------------

/// The map a list of stored nodes builds, a later node under a hash replacing
/// an earlier one.
pub open spec fn nodes_map(s: Seq<(Seq<u8>, NodeV)>) -> Map<Seq<u8>, NodeV>
    decreases s.len(),
{
    if s.len() == 0 { Map::empty() } else { nodes_map(s.drop_last()).insert(s.last().0, s.last().1) }
}

/// Stored nodes as values.
pub open spec fn stored_view(s: Seq<(NodeHash, Node)>) -> Seq<(Seq<u8>, NodeV)> {
    s.map_values(|p: (NodeHash, Node)| (p.0@, node_view(p.1)))
}

proof fn lemma_nodes_map_suffix(s: Seq<(Seq<u8>, NodeV)>, i: int, h: Seq<u8>)
    requires
        0 <= i <= s.len(),
        forall|j: int| i <= j < s.len() ==> #[trigger] s[j].0 != h,
    ensures
        nodes_map(s).contains_key(h) == nodes_map(s.take(i)).contains_key(h),
        nodes_map(s).contains_key(h) ==> nodes_map(s)[h] == nodes_map(s.take(i))[h],
    decreases s.len() - i,
{
    if i < s.len() {
        assert(s.drop_last().take(i) =~= s.take(i));
        lemma_nodes_map_suffix(s.drop_last(), i, h);
    } else {
        assert(s.take(i) =~= s);
    }
}

/// Tree nodes by hash.
pub struct NodeCache {
    entries: Vec<(NodeHash, Node)>,
}

impl NodeCache {
    /// The nodes by hash.
    pub closed spec fn view(&self) -> Map<Seq<u8>, NodeV> {
        nodes_map(stored_view(self.entries@))
    }

    /// An empty cache.
    pub fn new() -> (c: Self)
        ensures
            c@ == Map::<Seq<u8>, NodeV>::empty(),
    {
        let c = NodeCache { entries: Vec::new() };
        assert(stored_view(c.entries@) =~= Seq::<(Seq<u8>, NodeV)>::empty());
        c
    }

    /// The node stored under a hash.
    pub fn get(&self, h: &NodeHash) -> (r: Option<Node>)
        ensures
            match r {
                Some(n) => self@.contains_key(h@) && self@[h@] == node_view(n),
                None => !self@.contains_key(h@),
            },
    {
        let ghost s = stored_view(self.entries@);
        let mut i: usize = self.entries.len();
        while i > 0
            invariant
                i <= self.entries@.len(),
                s == stored_view(self.entries@),
                forall|j: int| i <= j < s.len() ==> #[trigger] s[j].0 != h@,
            decreases i,
        {
            if bytes_eq(self.entries[i - 1].0.as_slice(), h.as_slice()) {
                proof {
                    lemma_nodes_map_suffix(s, i as int, h@);
                    assert(s.take(i as int).drop_last() =~= s.take(i - 1));
                    assert(s.take(i as int).last() == s[i - 1]);
                }
                return Some(clone_node(&self.entries[i - 1].1));
            }
            i = i - 1;
        }
        proof {
            lemma_nodes_map_suffix(s, 0, h@);
            assert(s.take(0) =~= Seq::<(Seq<u8>, NodeV)>::empty());
        }
        None
    }

    /// Stores a node under a hash, replacing any node stored there.
    pub fn insert(&mut self, h: NodeHash, n: Node)
        ensures
            final(self)@ == old(self)@.insert(h@, node_view(n)),
    {
        let ghost before = stored_view(self.entries@);
        self.entries.push((h, n));
        assert(stored_view(self.entries@).drop_last() =~= before);
    }
}


// ---------------------------------------------------------------------------
// Batch updates
// ---------------------------------------------------------------------------

/// The node a child hash names: none for the zero hash or a hash the cache
/// lacks.
pub open spec fn lookup(cache: Map<Seq<u8>, NodeV>, h: Seq<u8>) -> NodeV {
    if h == spec_zero_hash() {
        NodeV::Null
    } else if cache.contains_key(h) {
        cache[h]
    } else {
        NodeV::Null
    }
}

/// The nibble of a 32-byte key at `depth` (0 past the 64th).
pub open spec fn key_nibble(k: Seq<u8>, depth: int) -> u8 {
    spec_nibble(k, 64, depth)
}

pub open spec fn nibble_is(depth: int, nib: u8) -> spec_fn(Seq<u8>) -> bool {
    |k: Seq<u8>| key_nibble(k, depth) == nib
}

/// The keys of a batch whose nibble at `depth` is `nib`, in order.
pub open spec fn sub_batch(keys: Seq<Seq<u8>>, depth: int, nib: u8) -> Seq<Seq<u8>> {
    keys.filter(nibble_is(depth, nib))
}

/// Whether no earlier child has child `i`'s nibble; a later child with the
/// same nibble gets no keys.
pub open spec fn first_of_nibble(ch: Seq<(u8, Seq<u8>)>, i: int) -> bool {
    forall|j: int| 0 <= j < i ==> ch[j].0 != ch[i].0
}

/// Whether every chain of internal nodes from `v` through the cache has at
/// most `fuel` nodes, none with more than `u32::MAX` children.
pub open spec fn bounded(v: NodeV, cache: Map<Seq<u8>, NodeV>, fuel: nat) -> bool
    decreases fuel,
{
    match v {
        NodeV::Internal(ch) => {
            &&& fuel > 0
            &&& ch.len() <= u32::MAX
            &&& forall|i: int| #![trigger ch[i]] 0 <= i < ch.len() ==> bounded(lookup(cache, ch[i].1), cache, (fuel - 1) as nat)
        },
        _ => true,
    }
}

/// The children an internal node keeps: those whose update gave a node, under
/// the new node's hash.
pub open spec fn kept(ch: Seq<(u8, Seq<u8>)>, results: Seq<Option<(NodeV, Seq<(Seq<u8>, NodeV)>)>>) -> Seq<(u8, Seq<u8>)>
    decreases results.len(),
{
    if results.len() == 0 {
        Seq::empty()
    } else {
        kept(ch, results.drop_last()) + match results.last() {
            Some(r) => if r.0 is Null { Seq::empty() } else { seq![(ch[results.len() - 1].0, hash_v(r.0))] },
            None => Seq::empty(),
        }
    }
}

/// The nodes an update creates: those of each kept child's update, then the
/// child itself under its hash.
pub open spec fn created(results: Seq<Option<(NodeV, Seq<(Seq<u8>, NodeV)>)>>) -> Seq<(Seq<u8>, NodeV)>
    decreases results.len(),
{
    if results.len() == 0 {
        Seq::empty()
    } else {
        created(results.drop_last()) + match results.last() {
            Some(r) => if r.0 is Null { Seq::empty() } else { r.1 + seq![(hash_v(r.0), r.0)] },
            None => Seq::empty(),
        }
    }
}

pub open spec fn has_nibble(v: int) -> spec_fn((u8, Seq<u8>)) -> bool {
    |p: (u8, Seq<u8>)| p.0 == v
}

/// The children with nibbles below `v`, ordered by nibble, keeping the order
/// of children with the same nibble.
pub open spec fn buckets(c: Seq<(u8, Seq<u8>)>, v: int) -> Seq<(u8, Seq<u8>)>
    decreases v,
{
    if v <= 0 { Seq::empty() } else { buckets(c, v - 1) + c.filter(has_nibble(v - 1)) }
}

/// Children sorted stably by nibble.
pub open spec fn sort_by_nibble(c: Seq<(u8, Seq<u8>)>) -> Seq<(u8, Seq<u8>)> {
    buckets(c, 256)
}

/// The update of a subtree by a batch of keys. An internal node gives each
/// child whose nibble at `depth` some keys have (the first child with that
/// nibble only) those keys, updates the node the child's hash names one level
/// down, keeps the children whose update gave a node (under the new node's
/// hash, sorted by nibble) and drops the others, including every child that
/// got no keys. Leaves and empty nodes stay as they are. The result is the new
/// node and the nodes created on the way, in order.
pub open spec fn update_v(v: NodeV, depth: int, keys: Seq<Seq<u8>>, cache: Map<Seq<u8>, NodeV>, fuel: nat)
    -> (NodeV, Seq<(Seq<u8>, NodeV)>)
    decreases fuel, 1nat,
{
    match v {
        NodeV::Internal(ch) => if fuel == 0 {
            (v, Seq::empty())
        } else {
            let results = child_results(ch, depth, keys, cache, fuel);
            (NodeV::Internal(sort_by_nibble(kept(ch, results))), created(results))
        },
        _ => (v, Seq::empty()),
    }
}

/// What updating each child gives: `None` for a child that gets no keys.
pub open spec fn child_results(ch: Seq<(u8, Seq<u8>)>, depth: int, keys: Seq<Seq<u8>>, cache: Map<Seq<u8>, NodeV>, fuel: nat)
    -> Seq<Option<(NodeV, Seq<(Seq<u8>, NodeV)>)>>
    decreases fuel, 0nat,
{
    Seq::new(ch.len(), |i: int|
        if fuel > 0 && first_of_nibble(ch, i) && sub_batch(keys, depth, ch[i].0).len() > 0 {
            Some(update_v(lookup(cache, ch[i].1), depth + 1, sub_batch(keys, depth, ch[i].0), cache, (fuel - 1) as nat))
        } else {
            None
        })
}

pub open spec fn below(v: int) -> spec_fn((u8, Seq<u8>)) -> bool {
    |p: (u8, Seq<u8>)| (p.0 as int) < v
}

proof fn lemma_filter_split(c: Seq<(u8, Seq<u8>)>, v: int)
    ensures
        c.filter(below(v + 1)).len() == c.filter(below(v)).len() + c.filter(has_nibble(v)).len(),
    decreases c.len(),
{
    reveal(Seq::filter);
    if c.len() > 0 {
        let d = c.drop_last();
        lemma_filter_split(d, v);
        assert(c =~= d.push(c.last()));
        d.lemma_filter_push(c.last(), below(v + 1));
        d.lemma_filter_push(c.last(), below(v));
        d.lemma_filter_push(c.last(), has_nibble(v));
    }
}

proof fn lemma_filter_all(c: Seq<(u8, Seq<u8>)>)
    ensures
        c.filter(below(256)) == c,
    decreases c.len(),
{
    reveal(Seq::filter);
    if c.len() > 0 {
        let d = c.drop_last();
        lemma_filter_all(d);
        assert(c =~= d.push(c.last()));
        d.lemma_filter_push(c.last(), below(256));
    }
}

proof fn lemma_buckets_len(c: Seq<(u8, Seq<u8>)>, v: int)
    requires
        0 <= v,
    ensures
        buckets(c, v).len() == c.filter(below(v)).len(),
    decreases v,
{
    reveal(Seq::filter);
    if v == 0 {
        assert(c.filter(below(0)).len() == 0) by {
            c.filter_lemma(below(0));
            if c.filter(below(0)).len() > 0 {
                assert(below(0)(c.filter(below(0))[0]));
            }
        }
    } else {
        lemma_buckets_len(c, v - 1);
        lemma_filter_split(c, v - 1);
    }
}

/// Sorting keeps the number of children.
pub proof fn lemma_sort_len(c: Seq<(u8, Seq<u8>)>)
    ensures
        sort_by_nibble(c).len() == c.len(),
{
    lemma_buckets_len(c, 256);
    lemma_filter_all(c);
}

proof fn lemma_kept_len(ch: Seq<(u8, Seq<u8>)>, results: Seq<Option<(NodeV, Seq<(Seq<u8>, NodeV)>)>>)
    ensures
        kept(ch, results).len() <= results.len(),
    decreases results.len(),
{
    if results.len() > 0 {
        lemma_kept_len(ch, results.drop_last());
    }
}

/// The byte strings of a list of keys.
pub open spec fn keys_view(keys: Seq<[u8; 32]>) -> Seq<Seq<u8>> {
    keys.map_values(|k: [u8; 32]| k@)
}

/// The nibble of a key at `depth`.
fn key_nibble_of(k: &[u8; 32], depth: usize) -> (r: u8)
    ensures
        r == key_nibble(k@, depth as int),
{
    let p = NibblePath::new(k.as_slice());
    assert(p.spec_bytes() =~= k@);
    p.get_nibble(depth)
}

/// The keys whose nibble at `depth` is `nib`.
fn sub_batch_of(keys: &[[u8; 32]], depth: usize, nib: u8) -> (r: Vec<[u8; 32]>)
    ensures
        keys_view(r@) == sub_batch(keys_view(keys@), depth as int, nib),
{
    let ghost kv = keys_view(keys@);
    let mut r: Vec<[u8; 32]> = Vec::new();
    let n = keys.len();
    let mut j: usize = 0;
    while j < n
        invariant
            n == keys@.len(),
            j <= n,
            kv == keys_view(keys@),
            keys_view(r@) == kv.take(j as int).filter(nibble_is(depth as int, nib)),
        decreases n - j,
    {
        let ghost before = r@;
        proof {
            assert(kv.take(j + 1) =~= kv.take(j as int).push(kv[j as int]));
            kv.take(j as int).lemma_filter_push(kv[j as int], nibble_is(depth as int, nib));
        }
        if key_nibble_of(&keys[j], depth) == nib {
            r.push(keys[j]);
            assert(keys_view(r@) =~= keys_view(before).push(keys@[j as int]@));
        }
        j = j + 1;
    }
    assert(kv.take(n as int) =~= kv);
    r
}

/// The node a child hash names in the cache (see [`lookup`]).
fn get_node(cache: &NodeCache, h: &NodeHash) -> (r: Node)
    ensures
        node_view(r) == lookup(cache@, h@),
{
    let zero = [0u8; 32];
    assert(zero@ =~= spec_zero_hash());
    if bytes_eq(h.as_slice(), zero.as_slice()) {
        return Node::Null;
    }
    match cache.get(h) {
        Some(n) => n,
        None => Node::Null,
    }
}

/// Sorts children stably by nibble (see [`sort_by_nibble`]).
fn sort_children(c: &Vec<(u8, NodeHash)>) -> (r: Vec<(u8, NodeHash)>)
    ensures
        children_view(r@) == sort_by_nibble(children_view(c@)),
{
    let ghost cv = children_view(c@);
    let mut out: Vec<(u8, NodeHash)> = Vec::new();
    let n = c.len();
    let mut v: u16 = 0;
    assert(children_view(out@) =~= buckets(cv, 0));
    while v < 256
        invariant
            n == c@.len(),
            cv == children_view(c@),
            v <= 256,
            children_view(out@) == buckets(cv, v as int),
        decreases 256 - v,
    {
        let mut j: usize = 0;
        assert(cv.take(0).filter(has_nibble(v as int)) =~= Seq::<(u8, Seq<u8>)>::empty()) by {
            reveal(Seq::filter);
        }
        assert(children_view(out@) =~= buckets(cv, v as int) + cv.take(0).filter(has_nibble(v as int)));
        while j < n
            invariant
                n == c@.len(),
                cv == children_view(c@),
                v < 256,
                j <= n,
                children_view(out@) == buckets(cv, v as int) + cv.take(j as int).filter(has_nibble(v as int)),
            decreases n - j,
        {
            let ghost before = out@;
            proof {
                assert(cv.take(j + 1) =~= cv.take(j as int).push(cv[j as int]));
                cv.take(j as int).lemma_filter_push(cv[j as int], has_nibble(v as int));
            }
            if c[j].0 as u16 == v {
                out.push(c[j]);
                assert(children_view(out@) =~= children_view(before).push(cv[j as int]));
            }
            j = j + 1;
        }
        assert(cv.take(n as int) =~= cv);
        v = v + 1;
    }
    out
}

proof fn lemma_bounded_child(ch: Seq<(u8, Seq<u8>)>, cache: Map<Seq<u8>, NodeV>, fuel: nat, k: int)
    requires
        bounded(NodeV::Internal(ch), cache, fuel),
        0 <= k < ch.len(),
    ensures
        fuel > 0,
        bounded(lookup(cache, ch[k].1), cache, (fuel - 1) as nat),
{
    assert(ch[k] == ch[k]);
}

/// Updates a subtree by a batch of keys (see [`update_v`]).
fn update_subtree(
    cache: &NodeCache,
    node: Node,
    depth: usize,
    keys: &[[u8; 32]],
    scheme: &HashCommitmentScheme,
    Ghost(fuel): Ghost<nat>,
) -> (r: (Node, Vec<(NodeHash, Node)>))
    requires
        bounded(node_view(node), cache@, fuel),
        depth + fuel <= usize::MAX,
    ensures
        node_view(r.0) == update_v(node_view(node), depth as int, keys_view(keys@), cache@, fuel).0,
        stored_view(r.1@) == update_v(node_view(node), depth as int, keys_view(keys@), cache@, fuel).1,
        r.0 matches Node::Internal(i) ==> i.children@.len() <= u32::MAX,
    decreases fuel,
{
    match node {
        Node::Internal(internal) => {
            let ghost chv = children_view(internal.children@);
            let ghost kv = keys_view(keys@);
            let ghost results = child_results(chv, depth as int, kv, cache@, fuel);
            assert(node_view(node) == NodeV::Internal(chv));
            assert(bounded(NodeV::Internal(chv), cache@, fuel));
            assert forall|k: int| 0 <= k < chv.len() implies #[trigger] bounded(lookup(cache@, chv[k].1), cache@, (fuel - 1) as nat) by {
                lemma_bounded_child(chv, cache@, fuel, k);
            }
            let ch = &internal.children;
            let n = ch.len();
            let mut kept_children: Vec<(u8, NodeHash)> = Vec::new();
            let mut made: Vec<(NodeHash, Node)> = Vec::new();
            let mut i: usize = 0;
            assert(results.take(0) =~= Seq::<Option<(NodeV, Seq<(Seq<u8>, NodeV)>)>>::empty());
            assert(children_view(kept_children@) =~= Seq::<(u8, Seq<u8>)>::empty());
            assert(stored_view(made@) =~= Seq::<(Seq<u8>, NodeV)>::empty());
            while i < n
                invariant
                    n == ch@.len(),
                    chv == children_view(ch@),
                    kv == keys_view(keys@),
                    i <= n,
                    fuel > 0,
                    n <= u32::MAX,
                    depth + fuel <= usize::MAX,
                    results.len() == n,
                    forall|k: int| 0 <= k < n ==> #[trigger] bounded(lookup(cache@, chv[k].1), cache@, (fuel - 1) as nat),
                    forall|k: int| 0 <= k < n ==> #[trigger] results[k] == (
                        if first_of_nibble(chv, k) && sub_batch(kv, depth as int, chv[k].0).len() > 0 {
                            Some(update_v(lookup(cache@, chv[k].1), depth + 1, sub_batch(kv, depth as int, chv[k].0), cache@, (fuel - 1) as nat))
                        } else {
                            None
                        }),
                    children_view(kept_children@) == kept(chv, results.take(i as int)),
                    stored_view(made@) == created(results.take(i as int)),
                    kept_children@.len() <= i,
                decreases n - i,
            {
                let nib = ch[i].0;
                let mut first = true;
                let mut j: usize = 0;
                while j < i
                    invariant
                        n == ch@.len(),
                        chv == children_view(ch@),
                        i < n,
                        j <= i,
                        nib == chv[i as int].0,
                        first <==> (forall|k: int| 0 <= k < j ==> chv[k].0 != nib),
                    decreases i - j,
                {
                    assert(chv[j as int].0 == ch@[j as int].0);
                    if ch[j].0 == nib {
                        first = false;
                    }
                    j = j + 1;
                }
                assert(first == first_of_nibble(chv, i as int));
                let ghost tk = results.take(i + 1);
                assert(tk.drop_last() =~= results.take(i as int));
                assert(tk.last() == results[i as int]);
                let ghost kept_before = kept_children@;
                let ghost made_before = made@;
                if first {
                    let sub = sub_batch_of(keys, depth, nib);
                    if sub.len() > 0 {
                        let child = get_node(cache, &ch[i].1);
                        let (nc, mut cr) = update_subtree(cache, child, depth + 1, sub.as_slice(), scheme, Ghost((fuel - 1) as nat));
                        let is_null = match &nc {
                            Node::Null => true,
                            _ => false,
                        };
                        if !is_null {
                            let h = nc.hash(scheme);
                            proof {
                                lemma_hash_of_view(nc);
                            }
                            kept_children.push((nib, h));
                            made.append(&mut cr);
                            made.push((h, nc));
                            assert(children_view(kept_children@) =~= children_view(kept_before).push((nib, h@)));
                            assert(stored_view(made@) =~= stored_view(made_before) + (update_v(
                                lookup(cache@, chv[i as int].1), depth + 1, sub_batch(kv, depth as int, nib), cache@, (fuel - 1) as nat).1
                                + seq![(h@, node_view(nc))]));
                        }
                    }
                }
                i = i + 1;
            }
            assert(results.take(n as int) =~= results);
            let sorted = sort_children(&kept_children);
            proof {
                lemma_sort_len(children_view(kept_children@));
                let uv = update_v(node_view(node), depth as int, kv, cache@, fuel);
                assert(uv == (NodeV::Internal(sort_by_nibble(kept(chv, results))), created(results)));
            }
            (Node::Internal(InternalNode { children: sorted }), made)
        },
        Node::Leaf(l) => (Node::Leaf(l), Vec::new()),
        Node::Null => (Node::Null, Vec::new()),
    }
}


/// Law: a batch on a tree whose node cache is empty creates no nodes and
/// leaves the root empty, whatever the root hash and the keys: nodes only come
/// from updating nodes already in the cache.
pub proof fn lemma_batch_on_empty_cache(root: Seq<u8>, keys: Seq<Seq<u8>>)
    ensures
        update_v(lookup(Map::empty(), root), 0, keys, Map::empty(), max_update_depth())
            == (NodeV::Null, Seq::<(Seq<u8>, NodeV)>::empty()),
        hash_v(NodeV::Null) == spec_zero_hash(),
        nodes_map(Seq::<(Seq<u8>, NodeV)>::empty()) == Map::<Seq<u8>, NodeV>::empty(),
{
}

proof fn lemma_buckets_sorted(c: Seq<(u8, Seq<u8>)>, v: int)
    requires
        0 <= v,
    ensures
        forall|i: int| 0 <= i < buckets(c, v).len() ==> (#[trigger] buckets(c, v)[i].0 as int) < v,
        forall|i: int, j: int| 0 <= i <= j < buckets(c, v).len() ==> #[trigger] buckets(c, v)[i].0 <= #[trigger] buckets(c, v)[j].0,
    decreases v,
{
    if v > 0 {
        lemma_buckets_sorted(c, v - 1);
        let b = buckets(c, v - 1);
        let f = c.filter(has_nibble(v - 1));
        assert forall|i: int| 0 <= i < f.len() implies #[trigger] f[i].0 == v - 1 by {
            c.lemma_filter_pred(has_nibble(v - 1), i);
        }
        assert(buckets(c, v) == b + f);
        assert forall|i: int| 0 <= i < buckets(c, v).len() implies (#[trigger] buckets(c, v)[i].0 as int) < v by {
            if i >= b.len() {
                assert(buckets(c, v)[i] == f[i - b.len()]);
            }
        }
        assert forall|i: int, j: int| 0 <= i <= j < buckets(c, v).len() implies
            #[trigger] buckets(c, v)[i].0 <= #[trigger] buckets(c, v)[j].0 by {
            if j < b.len() {
                assert(buckets(c, v)[i] == b[i] && buckets(c, v)[j] == b[j]);
            } else if i >= b.len() {
                assert(buckets(c, v)[i] == f[i - b.len()] && buckets(c, v)[j] == f[j - b.len()]);
            } else {
                assert(buckets(c, v)[i] == b[i] && buckets(c, v)[j] == f[j - b.len()]);
            }
        }
    }
}

/// Law: the children of an internal node a batch update rebuilds are in
/// nibble order.
pub proof fn lemma_update_children_sorted(v: NodeV, depth: int, keys: Seq<Seq<u8>>, cache: Map<Seq<u8>, NodeV>, fuel: nat)
    requires
        v is Internal,
        fuel > 0,
    ensures
        update_v(v, depth, keys, cache, fuel).0 is Internal,
        forall|i: int, j: int| 0 <= i <= j < update_v(v, depth, keys, cache, fuel).0->Internal_0.len() ==>
            #[trigger] update_v(v, depth, keys, cache, fuel).0->Internal_0[i].0
                <= #[trigger] update_v(v, depth, keys, cache, fuel).0->Internal_0[j].0,
{
    if let NodeV::Internal(ch) = v {
        if fuel > 0 {
            let results = child_results(ch, depth, keys, cache, fuel);
            lemma_buckets_sorted(kept(ch, results), 256);
        }
    }
}

// ---------------------------------------------------------------------------
// The tree
// ---------------------------------------------------------------------------

/// The longest chain of internal nodes a batch update walks: one per nibble
/// of a 32-byte key, and one more.
pub open spec fn max_update_depth() -> nat {
    65
}

/// The batch keys as values.
pub open spec fn batch_keys(batch: Seq<([u8; 32], Option<Vec<u8>>)>) -> Seq<Seq<u8>> {
    batch.map_values(|p: ([u8; 32], Option<Vec<u8>>)| p.0@)
}

/// The Jellyfish Merkle tree: its root hash, the nodes it has built by hash,
/// the key-value entries that reads and writes go to, and its version.
pub struct JellyfishMerkleTree {
    root_hash: NodeHash,
    nodes: NodeCache,
    kv_cache: StateMap,
    scheme: HashCommitmentScheme,
    current_height: u64,
}

impl JellyfishMerkleTree {
    /// The root hash.
    pub closed spec fn root(self) -> Seq<u8> {
        self.root_hash@
    }

    /// The nodes by hash.
    pub closed spec fn nodes(self) -> Map<Seq<u8>, NodeV> {
        self.nodes@
    }

    /// The key-value entries.
    pub closed spec fn entries(self) -> Map<Seq<u8>, Seq<u8>> {
        self.kv_cache.view()
    }

    /// The version.
    pub closed spec fn version(self) -> u64 {
        self.current_height
    }

    /// An empty tree: the zero root, no nodes, no entries, version 0.
    pub fn new(scheme: HashCommitmentScheme) -> (t: Self)
        ensures
            t.root() == spec_zero_hash(),
            t.nodes() == Map::<Seq<u8>, NodeV>::empty(),
            t.entries() == Map::<Seq<u8>, Seq<u8>>::empty(),
            t.version() == 0,
    {
        let root_hash = [0u8; 32];
        assert(root_hash@ =~= spec_zero_hash());
        JellyfishMerkleTree { root_hash, nodes: NodeCache::new(), kv_cache: StateMap::new(), scheme, current_height: 0 }
    }

    /// Applies a batch of updates: an empty batch changes nothing; otherwise
    /// the node the root hash names is updated by the batch's keys (see
    /// [`update_v`]), the nodes created on the way are stored, and the root
    /// hash becomes the new root node's hash, which is returned.
    pub fn apply_batch_parallel(&mut self, batch: &[([u8; 32], Option<Vec<u8>>)]) -> (r: NodeHash)
        requires
            bounded(lookup(old(self).nodes(), old(self).root()), old(self).nodes(), max_update_depth()),
        ensures
            batch@.len() == 0 ==> r@ == old(self).root() && final(self).root() == old(self).root()
                && final(self).nodes() == old(self).nodes(),
            batch@.len() > 0 ==> {
                let u = update_v(lookup(old(self).nodes(), old(self).root()), 0, batch_keys(batch@), old(self).nodes(), max_update_depth());
                &&& final(self).nodes() == old(self).nodes().union_prefer_right(nodes_map(u.1))
                &&& final(self).root() == hash_v(u.0)
                &&& r@ == hash_v(u.0)
            },
            final(self).entries() == old(self).entries(),
            final(self).version() == old(self).version(),
    {
        if batch.len() == 0 {
            return self.root_hash;
        }
        let mut keys: Vec<[u8; 32]> = Vec::new();
        let n = batch.len();
        let mut i: usize = 0;
        while i < n
            invariant
                n == batch@.len(),
                i <= n,
                keys_view(keys@) == batch_keys(batch@).take(i as int),
            decreases n - i,
        {
            let ghost before = keys@;
            keys.push(batch[i].0);
            assert(keys@ == before.push(batch@[i as int].0));
            assert(keys_view(keys@) =~= keys_view(before).push(batch@[i as int].0@));
            assert(batch_keys(batch@).take(i + 1) =~= batch_keys(batch@).take(i as int).push(batch@[i as int].0@));
            i = i + 1;
        }
        assert(batch_keys(batch@).take(n as int) =~= batch_keys(batch@));
        let root_node = get_node(&self.nodes, &self.root_hash);
        let (new_root, created_nodes) = update_subtree(
            &self.nodes, root_node, 0, keys.as_slice(), &self.scheme, Ghost(max_update_depth()));
        let ghost base = self.nodes@;
        let ghost made = stored_view(created_nodes@);
        let items = created_nodes.into_iter();
        assert(made.take(0) =~= Seq::<(Seq<u8>, NodeV)>::empty());
        assert(base.union_prefer_right(Map::<Seq<u8>, NodeV>::empty()) =~= base);
        for item in it: items
            invariant
                made == stored_view(it.seq()),
                self.nodes@ == base.union_prefer_right(nodes_map(made.take(it.index() as int))),
                self.entries() == old(self).entries(),
                self.version() == old(self).version(),
        {
            let ghost k = it.index();
            self.nodes.insert(item.0, item.1);
            proof {
                assert(made.take(k + 1).drop_last() =~= made.take(k as int));
                assert(self.nodes@ =~= base.union_prefer_right(nodes_map(made.take(k + 1))));
            }
        }
        assert(made.take(made.len() as int) =~= made);
        self.root_hash = new_root.hash(&self.scheme);
        proof {
            lemma_hash_of_view(new_root);
        }
        self.root_hash
    }

    /// Ends a block: the root hash becomes the SHA-256 digest of the height
    /// as 8 little-endian bytes, and the version the height.
    pub fn commit_version(&mut self, height: u64) -> (r: NodeHash)
        ensures
            r@ == sha256_spec(spec_u64_to_le_bytes(height)),
            final(self).root() == r@,
            final(self).version() == height,
            final(self).nodes() == old(self).nodes(),
            final(self).entries() == old(self).entries(),
    {
        self.current_height = height;
        let h = u64_to_le_bytes(height);
        let d = match sha256(h.as_slice()) {
            Some(d) => d,
            None => {
                proof {
                    assert(false);
                }
                Vec::new()
            },
        };
        self.root_hash = crate::bytes::read_array(d.as_slice(), 0);
        assert(self.root_hash@ =~= d@);
        self.root_hash
    }

    /// Adopts a known root: a 32-byte root becomes the root hash and `version`
    /// the version; anything else changes nothing.
    pub fn adopt_known_root(&mut self, root: &[u8], version: u64)
        ensures
            root@.len() == 32 ==> final(self).root() == root@ && final(self).version() == version,
            root@.len() != 32 ==> final(self).root() == old(self).root() && final(self).version() == old(self).version(),
            final(self).nodes() == old(self).nodes(),
            final(self).entries() == old(self).entries(),
    {
        if root.len() == 32 {
            self.root_hash = crate::bytes::read_array(root, 0);
            assert(self.root_hash@ =~= root@);
            self.current_height = version;
        }
    }

    /// The root commitment: the root hash bytes.
    pub fn root_commitment(&self) -> (c: HashCommitment)
        ensures
            c.0@ == self.root(),
    {
        HashCommitment(to_vec(self.root_hash.as_slice()))
    }

    /// The value stored under a key.
    pub fn get(&self, key: &[u8]) -> (r: Option<Vec<u8>>)
        ensures
            match r {
                Some(v) => self.entries().contains_key(key@) && self.entries()[key@] == v@,
                None => !self.entries().contains_key(key@),
            },
    {
        self.kv_cache.get(key)
    }

    /// Stores a value under a key.
    pub fn insert(&mut self, key: &[u8], value: &[u8])
        ensures
            final(self).entries() == old(self).entries().insert(key@, value@),
            final(self).root() == old(self).root(),
            final(self).nodes() == old(self).nodes(),
            final(self).version() == old(self).version(),
    {
        self.kv_cache.insert(key, value);
    }

    /// Removes a key.
    pub fn delete(&mut self, key: &[u8])
        ensures
            final(self).entries() == old(self).entries().remove(key@),
            final(self).root() == old(self).root(),
            final(self).nodes() == old(self).nodes(),
            final(self).version() == old(self).version(),
    {
        self.kv_cache.delete(key);
    }

    /// Stores a list of entries in order.
    pub fn batch_set(&mut self, updates: &[(Vec<u8>, Vec<u8>)])
        ensures
            final(self).entries() == old(self).entries().union_prefer_right(seq_to_map(pairs_view(updates@))),
            final(self).root() == old(self).root(),
            final(self).nodes() == old(self).nodes(),
            final(self).version() == old(self).version(),
    {
        let ghost s = pairs_view(updates@);
        let ghost c0 = self.entries();
        let n = updates.len();
        let mut i: usize = 0;
        assert(s.take(0) =~= Seq::<(Seq<u8>, Seq<u8>)>::empty());
        assert(c0.union_prefer_right(Map::<Seq<u8>, Seq<u8>>::empty()) =~= c0);
        while i < n
            invariant
                n == updates@.len(),
                i <= n,
                s == pairs_view(updates@),
                c0 == old(self).entries(),
                self.entries() == c0.union_prefer_right(seq_to_map(s.take(i as int))),
                self.root() == old(self).root(),
                self.nodes() == old(self).nodes(),
                self.version() == old(self).version(),
            decreases n - i,
        {
            self.kv_cache.insert(updates[i].0.as_slice(), updates[i].1.as_slice());
            proof {
                assert(s.take(i + 1).drop_last() =~= s.take(i as int));
                assert(self.entries() =~= c0.union_prefer_right(seq_to_map(s.take(i + 1))));
            }
            i = i + 1;
        }
        assert(s.take(n as int) =~= s);
    }

    /// Reads a list of keys.
    pub fn batch_get(&self, keys: &[Vec<u8>]) -> (r: Vec<Option<Vec<u8>>>)
        ensures
            r@.len() == keys@.len(),
            forall|i: int| 0 <= i < keys@.len() ==> match #[trigger] r@[i] {
                Some(v) => self.entries().contains_key(keys@[i]@) && self.entries()[keys@[i]@] == v@,
                None => !self.entries().contains_key(keys@[i]@),
            },
    {
        let mut out: Vec<Option<Vec<u8>>> = Vec::new();
        let n = keys.len();
        let mut i: usize = 0;
        while i < n
            invariant
                n == keys@.len(),
                i <= n,
                out@.len() == i,
                forall|j: int| 0 <= j < i ==> match #[trigger] out@[j] {
                    Some(v) => self.entries().contains_key(keys@[j]@) && self.entries()[keys@[j]@] == v@,
                    None => !self.entries().contains_key(keys@[j]@),
                },
            decreases n - i,
        {
            out.push(self.get(keys[i].as_slice()));
            i = i + 1;
        }
        out
    }

    /// Removes a list of keys, then stores a list of entries, each in order.
    pub fn batch_apply(&mut self, inserts: &[(Vec<u8>, Vec<u8>)], deletes: &[Vec<u8>])
        ensures
            final(self).entries() == remove_all(old(self).entries(), crate::iavl_tree::keys_view(deletes@))
                .union_prefer_right(seq_to_map(pairs_view(inserts@))),
            final(self).root() == old(self).root(),
            final(self).nodes() == old(self).nodes(),
            final(self).version() == old(self).version(),
    {
        let ghost ks = crate::iavl_tree::keys_view(deletes@);
        let ghost c0 = self.entries();
        let n = deletes.len();
        let mut i: usize = 0;
        assert(ks.take(0) =~= Seq::<Seq<u8>>::empty());
        while i < n
            invariant
                n == deletes@.len(),
                i <= n,
                ks == crate::iavl_tree::keys_view(deletes@),
                c0 == old(self).entries(),
                self.entries() == remove_all(c0, ks.take(i as int)),
                self.root() == old(self).root(),
                self.nodes() == old(self).nodes(),
                self.version() == old(self).version(),
            decreases n - i,
        {
            self.kv_cache.delete(deletes[i].as_slice());
            proof {
                assert(ks.take(i + 1).drop_last() =~= ks.take(i as int));
            }
            i = i + 1;
        }
        assert(ks.take(n as int) =~= ks);
        self.batch_set(inserts);
    }

    /// The entries whose key starts with `prefix`, each once, in no stated order.
    pub fn prefix_scan(&self, prefix: &[u8]) -> (r: Vec<(Vec<u8>, Vec<u8>)>)
        ensures
            spec_enumerates(r@, spec_with_prefix(self.entries(), prefix@)),
    {
        self.kv_cache.prefix_scan(prefix)
    }

    /// A proof for a key: the stored value (empty when absent) under a key
    /// selector, with no additional data.
    pub fn create_proof(&self, key: &[u8]) -> (p: HashProof)
        ensures
            p@ == (HashProofView {
                value: if self.entries().contains_key(key@) { self.entries()[key@] } else { Seq::empty() },
                selector: SelectorView::Key(key@),
                additional_data: Seq::empty(),
            }),
    {
        let value = match self.get(key) {
            Some(v) => v,
            None => Vec::new(),
        };
        HashProof::new(value, Selector::Key(to_vec(key)), Vec::new())
    }
}

} // verus!
