//! Module upgrades through governance: storing a module's manifest and
//! artifact under their hashes, and scheduling a swap to them at a height.

use vstd::prelude::*;
use vstd::bytes::*;
use vstd::string::StringSliceAdditionalSpecFns;
use vstd::utf8::encode_utf8;
use crate::bytes::{append_bytes, read_array};
use crate::codec::{
    lemma_compact_unique, lemma_scale_str_unique, push_scale_str, read_scale_string, scale_compact,
    scale_decode_compact, spec_scale_compact, spec_scale_str,
};
use crate::crypto::{sha256, sha256_accepts, sha256_spec};
use crate::gov_params::{StoreModuleParams, SwapModuleParams};
use crate::governance::GovernanceModule;
use crate::service::{RejectReason, TransactionError, TxContext};
use crate::state::StateMap;

verus! {

/// The state key prefixes of stored manifests, stored artifacts and pending
/// swaps; the chain's key layout fixes them.
#[derive(Debug, Clone)]
pub struct UpgradeKeys {
    pub manifest_prefix: Vec<u8>,
    pub artifact_prefix: Vec<u8>,
    pub pending_prefix: Vec<u8>,
}

/// A scheduled swap: the service and the hashes of its new manifest and artifact.
pub type PendingSwap = (String, [u8; 32], [u8; 32]);

/// The value of a scheduled swap.
pub open spec fn pending_view(e: PendingSwap) -> (Seq<char>, [u8; 32], [u8; 32]) {
    (e.0@, e.1, e.2)
}

/// The values of a list of scheduled swaps.
pub open spec fn pendings_view(v: Seq<PendingSwap>) -> Seq<(Seq<char>, [u8; 32], [u8; 32])> {
    v.map_values(|e: PendingSwap| pending_view(e))
}

/// The encoding of one scheduled swap: the service id as a string, then both hashes.
pub open spec fn spec_pending_entry(e: (Seq<char>, [u8; 32], [u8; 32])) -> Seq<u8> {
    spec_scale_str(e.0) + e.1@ + e.2@
}

/// The concatenated encodings of scheduled swaps.
pub open spec fn spec_pending_entries(l: Seq<(Seq<char>, [u8; 32], [u8; 32])>) -> Seq<u8>
    decreases l.len(),
{
    if l.len() == 0 { Seq::empty() } else { spec_pending_entries(l.drop_last()) + spec_pending_entry(l.last()) }
}

/// The encoding of a list of scheduled swaps: its compact length, then the entries.
pub open spec fn spec_pending_bytes(l: Seq<(Seq<char>, [u8; 32], [u8; 32])>) -> Seq<u8> {
    spec_scale_compact(l.len() as u32) + spec_pending_entries(l)
}

/// Whether every service id of a list fits the encoding's `u32` length.
pub open spec fn spec_entries_fit(l: Seq<(Seq<char>, [u8; 32], [u8; 32])>) -> bool {
    forall|i: int| 0 <= i < l.len() ==> encode_utf8(#[trigger] l[i].0).len() <= u32::MAX
}

/// Whether some list of scheduled swaps encodes to `b`.
pub open spec fn spec_pending_decodes(b: Seq<u8>) -> bool {
    exists|l: Seq<(Seq<char>, [u8; 32], [u8; 32])>|
        l.len() <= u32::MAX && spec_entries_fit(l) && #[trigger] spec_pending_bytes(l) == b
}

/// The list of scheduled swaps that `b` encodes, if any.
pub open spec fn spec_pending_list(b: Seq<u8>) -> Seq<(Seq<char>, [u8; 32], [u8; 32])> {
    if spec_pending_decodes(b) {
        choose|l: Seq<(Seq<char>, [u8; 32], [u8; 32])>|
            l.len() <= u32::MAX && spec_entries_fit(l) && #[trigger] spec_pending_bytes(l) == b
    } else {
        Seq::empty()
    }
}

proof fn lemma_entries_front(l: Seq<(Seq<char>, [u8; 32], [u8; 32])>)
    requires
        l.len() > 0,
    ensures
        spec_pending_entries(l) == spec_pending_entry(l[0]) + spec_pending_entries(l.drop_first()),
    decreases l.len(),
{
    if l.len() == 1 {
        assert(l.drop_first() =~= Seq::<(Seq<char>, [u8; 32], [u8; 32])>::empty());
        assert(l.drop_last() =~= Seq::<(Seq<char>, [u8; 32], [u8; 32])>::empty());
        assert(spec_pending_entries(l) =~= spec_pending_entry(l[0]) + spec_pending_entries(l.drop_first()));
    } else {
        lemma_entries_front(l.drop_last());
        assert(l.drop_last().drop_first() =~= l.drop_first().drop_last());
        assert(l.drop_first().last() == l.last());
        assert(l.drop_last()[0] == l[0]);
        assert(spec_pending_entries(l) =~= spec_pending_entry(l[0]) + spec_pending_entries(l.drop_first()));
    }
}

proof fn lemma_entries_concat(a: Seq<(Seq<char>, [u8; 32], [u8; 32])>, b: Seq<(Seq<char>, [u8; 32], [u8; 32])>)
    ensures
        spec_pending_entries(a + b) == spec_pending_entries(a) + spec_pending_entries(b),
    decreases b.len(),
{
    if b.len() == 0 {
        assert(a + b =~= a);
        assert(spec_pending_entries(a) + spec_pending_entries(b) =~= spec_pending_entries(a));
    } else {
        lemma_entries_concat(a, b.drop_last());
        assert((a + b).drop_last() =~= a + b.drop_last());
        assert((a + b).last() == b.last());
        assert(spec_pending_entries(a + b) =~= spec_pending_entries(a) + spec_pending_entries(b));
    }
}

proof fn lemma_entry_unique(e: (Seq<char>, [u8; 32], [u8; 32]), f: (Seq<char>, [u8; 32], [u8; 32]), x: Seq<u8>, y: Seq<u8>)
    requires
        encode_utf8(e.0).len() <= u32::MAX,
        encode_utf8(f.0).len() <= u32::MAX,
        spec_pending_entry(e) + x == spec_pending_entry(f) + y,
    ensures
        e == f,
        x == y,
{
    assert(spec_pending_entry(e) + x =~= spec_scale_str(e.0) + (e.1@ + e.2@ + x));
    assert(spec_pending_entry(f) + y =~= spec_scale_str(f.0) + (f.1@ + f.2@ + y));
    lemma_scale_str_unique(e.0, f.0, e.1@ + e.2@ + x, f.1@ + f.2@ + y);
    let t = e.1@ + e.2@ + x;
    assert(e.1@ =~= t.subrange(0, 32));
    assert(f.1@ =~= t.subrange(0, 32));
    assert(e.2@ =~= t.subrange(32, 64));
    assert(f.2@ =~= t.subrange(32, 64));
    assert(x =~= t.subrange(64, t.len() as int));
    assert(y =~= t.subrange(64, t.len() as int));
    assert(e.1 =~= f.1);
    assert(e.2 =~= f.2);
}

/// Lists of one length are read back unambiguously from their entries.
proof fn lemma_entries_unique(u: Seq<(Seq<char>, [u8; 32], [u8; 32])>, w: Seq<(Seq<char>, [u8; 32], [u8; 32])>, x: Seq<u8>, y: Seq<u8>)
    requires
        u.len() == w.len(),
        spec_entries_fit(u),
        spec_entries_fit(w),
        spec_pending_entries(u) + x == spec_pending_entries(w) + y,
    ensures
        u == w,
        x == y,
    decreases u.len(),
{
    if u.len() == 0 {
        assert(spec_pending_entries(u) + x =~= x);
        assert(spec_pending_entries(w) + y =~= y);
        assert(u =~= w);
    } else {
        lemma_entries_front(u);
        lemma_entries_front(w);
        assert(encode_utf8(u[0].0).len() <= u32::MAX);
        assert(encode_utf8(w[0].0).len() <= u32::MAX);
        assert(spec_pending_entries(u) + x =~= spec_pending_entry(u[0]) + (spec_pending_entries(u.drop_first()) + x));
        assert(spec_pending_entries(w) + y =~= spec_pending_entry(w[0]) + (spec_pending_entries(w.drop_first()) + y));
        lemma_entry_unique(u[0], w[0], spec_pending_entries(u.drop_first()) + x, spec_pending_entries(w.drop_first()) + y);
        assert forall|i: int| 0 <= i < u.drop_first().len() implies
            encode_utf8(#[trigger] u.drop_first()[i].0).len() <= u32::MAX by {
            assert(u.drop_first()[i] == u[i + 1]);
        }
        assert forall|i: int| 0 <= i < w.drop_first().len() implies
            encode_utf8(#[trigger] w.drop_first()[i].0).len() <= u32::MAX by {
            assert(w.drop_first()[i] == w[i + 1]);
        }
        lemma_entries_unique(u.drop_first(), w.drop_first(), x, y);
        assert(u =~= seq![u[0]] + u.drop_first());
        assert(w =~= seq![w[0]] + w.drop_first());
    }
}

/// Lists of scheduled swaps are read back unambiguously from their encodings.
pub proof fn lemma_pending_unique(u: Seq<(Seq<char>, [u8; 32], [u8; 32])>, w: Seq<(Seq<char>, [u8; 32], [u8; 32])>)
    requires
        u.len() <= u32::MAX,
        w.len() <= u32::MAX,
        spec_entries_fit(u),
        spec_entries_fit(w),
        spec_pending_bytes(u) == spec_pending_bytes(w),
    ensures
        u == w,
{
    lemma_compact_unique(u.len() as u32, w.len() as u32, spec_pending_entries(u), spec_pending_entries(w));
    assert(spec_pending_entries(u) + Seq::<u8>::empty() =~= spec_pending_entries(u));
    assert(spec_pending_entries(w) + Seq::<u8>::empty() =~= spec_pending_entries(w));
    lemma_entries_unique(u, w, Seq::<u8>::empty(), Seq::<u8>::empty());
}

/// Reads `n` scheduled swaps from the front of `b`.
fn read_pending_entries(b: &[u8], n: u32) -> (r: Option<(Vec<PendingSwap>, &[u8])>)
    ensures
        match r {
            Some((v, rest)) => v@.len() == n && spec_entries_fit(pendings_view(v@))
                && b@ == spec_pending_entries(pendings_view(v@)) + rest@,
            None => forall|l: Seq<(Seq<char>, [u8; 32], [u8; 32])>, rest: Seq<u8>|
                l.len() == n && spec_entries_fit(l) ==> b@ != #[trigger] (spec_pending_entries(l) + rest),
        },
{
    let mut out: Vec<PendingSwap> = Vec::new();
    let mut cur: &[u8] = b;
    let mut i: u32 = 0;
    while i < n
        invariant
            i <= n,
            out@.len() == i,
            spec_entries_fit(pendings_view(out@)),
            b@ == spec_pending_entries(pendings_view(out@)) + cur@,
        decreases n - i,
    {
        let ghost k = i as int;
        let got = match read_scale_string(cur) {
            Some((s, rest)) => {
                if rest.len() >= 64 {
                    Some((s, rest))
                } else {
                    proof {
                        assert forall|e: (Seq<char>, [u8; 32], [u8; 32]), t: Seq<u8>|
                            encode_utf8(e.0).len() <= u32::MAX implies cur@ != #[trigger] (spec_pending_entry(e) + t) by {
                            if cur@ == spec_pending_entry(e) + t {
                                assert(spec_pending_entry(e) + t =~= spec_scale_str(e.0) + (e.1@ + e.2@ + t));
                                lemma_scale_str_unique(e.0, s@, e.1@ + e.2@ + t, rest@);
                            }
                        }
                    }
                    None
                }
            }
            None => {
                proof {
                    assert forall|e: (Seq<char>, [u8; 32], [u8; 32]), t: Seq<u8>|
                        encode_utf8(e.0).len() <= u32::MAX implies cur@ != #[trigger] (spec_pending_entry(e) + t) by {
                        assert(spec_pending_entry(e) + t =~= spec_scale_str(e.0) + (e.1@ + e.2@ + t));
                    }
                }
                None
            }
        };
        match got {
            Some((s, rest)) => {
                let m: [u8; 32] = read_array(rest, 0);
                let a: [u8; 32] = read_array(rest, 32);
                let tail = vstd::slice::slice_subrange(rest, 64, rest.len());
                let ghost before = pendings_view(out@);
                out.push((s, m, a));
                proof {
                    assert(rest@ =~= m@ + a@ + tail@);
                    assert(pendings_view(out@) =~= before.push((s@, m, a)));
                    assert(pendings_view(out@).drop_last() =~= before);
                    assert(cur@ =~= spec_pending_entry((s@, m, a)) + tail@);
                    assert(b@ =~= spec_pending_entries(pendings_view(out@)) + tail@);
                }
                cur = tail;
                i = i + 1;
            }
            None => {
                proof {
                    assert forall|l: Seq<(Seq<char>, [u8; 32], [u8; 32])>, rest: Seq<u8>|
                        l.len() == n && spec_entries_fit(l) implies b@ != #[trigger] (spec_pending_entries(l) + rest) by {
                        if b@ == spec_pending_entries(l) + rest {
                            let pre = l.subrange(0, k);
                            let post = l.subrange(k, l.len() as int);
                            lemma_entries_concat(pre, post);
                            assert(l =~= pre + post);
                            assert(spec_entries_fit(pre));
                            assert(spec_entries_fit(post));
                            assert(b@ =~= spec_pending_entries(pre) + (spec_pending_entries(post) + rest));
                            lemma_entries_unique(pre, pendings_view(out@), spec_pending_entries(post) + rest, cur@);
                            lemma_entries_front(post);
                            assert(cur@ =~= spec_pending_entry(post[0]) + (spec_pending_entries(post.drop_first()) + rest));
                        }
                    }
                }
                return None;
            }
        }
    }
    Some((out, cur))
}

/// Decodes a list of scheduled swaps; succeeds exactly on an encoding of some list.
pub fn decode_pending(b: &[u8]) -> (r: Option<Vec<PendingSwap>>)
    ensures
        match r {
            Some(v) => v@.len() <= u32::MAX && spec_entries_fit(pendings_view(v@)) && spec_pending_bytes(pendings_view(v@)) == b@,
            None => !spec_pending_decodes(b@),
        },
{
    let (n, rest) = match scale_decode_compact(b) {
        Some(x) => x,
        None => {
            proof {
                if spec_pending_decodes(b@) {
                    let l = choose|l: Seq<(Seq<char>, [u8; 32], [u8; 32])>|
                        l.len() <= u32::MAX && spec_entries_fit(l) && #[trigger] spec_pending_bytes(l) == b@;
                    assert(spec_scale_compact(l.len() as u32).is_prefix_of(b@));
                }
            }
            return None;
        }
    };
    let (v, tail) = match read_pending_entries(rest, n) {
        Some(x) => x,
        None => {
            proof {
                if spec_pending_decodes(b@) {
                    let l = choose|l: Seq<(Seq<char>, [u8; 32], [u8; 32])>|
                        l.len() <= u32::MAX && spec_entries_fit(l) && #[trigger] spec_pending_bytes(l) == b@;
                    lemma_compact_unique(n, l.len() as u32, rest@, spec_pending_entries(l));
                    assert(rest@ == spec_pending_entries(l) + Seq::<u8>::empty());
                }
            }
            return None;
        }
    };
    if tail.len() != 0 {
        proof {
            if spec_pending_decodes(b@) {
                let l = choose|l: Seq<(Seq<char>, [u8; 32], [u8; 32])>|
                    l.len() <= u32::MAX && spec_entries_fit(l) && #[trigger] spec_pending_bytes(l) == b@;
                lemma_compact_unique(n, l.len() as u32, rest@, spec_pending_entries(l));
                assert(rest@ == spec_pending_entries(l) + Seq::<u8>::empty());
                lemma_entries_unique(l, pendings_view(v@), Seq::<u8>::empty(), tail@);
            }
        }
        return None;
    }
    proof {
        assert(tail@ =~= Seq::<u8>::empty());
        assert(pendings_view(v@).len() == v@.len());
        assert(b@ =~= spec_pending_bytes(pendings_view(v@)));
    }
    Some(v)
}

/// Encodes a list of scheduled swaps.
pub fn encode_pending(v: &Vec<PendingSwap>) -> (b: Vec<u8>)
    requires
        v@.len() <= u32::MAX,
        spec_entries_fit(pendings_view(v@)),
    ensures
        b@ == spec_pending_bytes(pendings_view(v@)),
{
    let mut out = scale_compact(v.len() as u32);
    let ghost start = out@;
    let n = v.len();
    let mut i: usize = 0;
    while i < n
        invariant
            n == v@.len(),
            n <= u32::MAX,
            i <= n,
            spec_entries_fit(pendings_view(v@)),
            start == spec_scale_compact(n as u32),
            out@ == start + spec_pending_entries(pendings_view(v@.subrange(0, i as int))),
        decreases n - i,
    {
        let e = &v[i];
        assert(pendings_view(v@)[i as int] == pending_view(v@[i as int]));
        assert(encode_utf8(pendings_view(v@)[i as int].0).len() <= u32::MAX);
        let id: &str = e.0.as_str();
        assert(id.spec_bytes() == encode_utf8(e.0@));
        push_scale_str(&mut out, id);
        append_bytes(&mut out, e.1.as_slice());
        append_bytes(&mut out, e.2.as_slice());
        proof {
            let p = pendings_view(v@.subrange(0, i + 1));
            assert(p.drop_last() =~= pendings_view(v@.subrange(0, i as int)));
            assert(p.last() == pending_view(v@[i as int]));
        }
        i = i + 1;
    }
    assert(v@.subrange(0, n as int) =~= v@);
    assert(pendings_view(v@).len() == n);
    out
}

/// The key of a stored manifest or artifact: the prefix, then its SHA-256.
pub open spec fn spec_hash_key(prefix: Seq<u8>, data: Seq<u8>) -> Seq<u8> {
    prefix + sha256_spec(data)
}

/// The state after storing a module: the manifest and the artifact are each
/// stored under the hash of their bytes, unless already there; refused where
/// either cannot be hashed.
pub open spec fn spec_store_module(st: Map<Seq<u8>, Seq<u8>>, keys: UpgradeKeys, manifest: Seq<char>, artifact: Seq<u8>)
    -> Result<Map<Seq<u8>, Seq<u8>>, TransactionError>
{
    let mb = encode_utf8(manifest);
    if !sha256_accepts(mb) || !sha256_accepts(artifact) {
        Err(TransactionError::Crypto)
    } else {
        let mk = spec_hash_key(keys.manifest_prefix@, mb);
        let ak = spec_hash_key(keys.artifact_prefix@, artifact);
        let st1 = if st.contains_key(mk) { st } else { st.insert(mk, mb) };
        Ok(if st1.contains_key(ak) { st1 } else { st1.insert(ak, artifact) })
    }
}

/// The key of the swaps pending at a height: the prefix, then the height little-endian.
pub open spec fn spec_pending_key(prefix: Seq<u8>, height: u64) -> Seq<u8> {
    prefix + spec_u64_to_le_bytes(height)
}

/// The swaps already pending at the key: the stored list where it decodes, else none.
pub open spec fn spec_pending_at(st: Map<Seq<u8>, Seq<u8>>, key: Seq<u8>) -> Seq<(Seq<char>, [u8; 32], [u8; 32])> {
    if st.contains_key(key) { spec_pending_list(st[key]) } else { Seq::empty() }
}

/// The state after scheduling a swap: refused for a height already passed or
/// when the manifest or artifact is not stored; else the swap joins the list
/// pending at its activation height.
pub open spec fn spec_swap_module(
    st: Map<Seq<u8>, Seq<u8>>,
    keys: UpgradeKeys,
    service_id: Seq<char>,
    manifest_hash: [u8; 32],
    artifact_hash: [u8; 32],
    activation_height: u64,
    height: u64,
) -> Result<Map<Seq<u8>, Seq<u8>>, TransactionError> {
    if activation_height < height {
        Err(TransactionError::Invalid(RejectReason::ActivationHeightPassed))
    } else if !st.contains_key(keys.manifest_prefix@ + manifest_hash@) {
        Err(TransactionError::Invalid(RejectReason::ManifestNotFound))
    } else if !st.contains_key(keys.artifact_prefix@ + artifact_hash@) {
        Err(TransactionError::Invalid(RejectReason::ArtifactNotFound))
    } else {
        let key = spec_pending_key(keys.pending_prefix@, activation_height);
        let list = spec_pending_at(st, key).push((service_id, manifest_hash, artifact_hash));
        Ok(st.insert(key, spec_pending_bytes(list)))
    }
}

fn hash_key(prefix: &Vec<u8>, data: &[u8]) -> (r: Option<Vec<u8>>)
    ensures
        match r {
            Some(k) => sha256_accepts(data@) && k@ == spec_hash_key(prefix@, data@),
            None => !sha256_accepts(data@),
        },
{
    match sha256(data) {
        Some(d) => {
            let mut k = crate::state::to_vec(prefix.as_slice());
            append_bytes(&mut k, d.as_slice());
            Some(k)
        }
        None => None,
    }
}

fn prefixed(prefix: &Vec<u8>, tail: &[u8]) -> (r: Vec<u8>)
    ensures
        r@ == prefix@ + tail@,
{
    let mut k = crate::state::to_vec(prefix.as_slice());
    append_bytes(&mut k, tail);
    k
}

impl GovernanceModule {
    /// Stores a module's manifest and artifact under their hashes.
    pub fn store_module(&self, state: &mut StateMap, params: StoreModuleParams, keys: &UpgradeKeys, _ctx: &TxContext)
        -> (r: Result<(), TransactionError>)
        ensures
            match spec_store_module(old(state).view(), *keys, params.manifest@, params.artifact@) {
                Ok(st) => r is Ok && final(state).view() == st,
                Err(e) => r == Err::<(), TransactionError>(e) && final(state).view() == old(state).view(),
            },
    {
        let mb = params.manifest.as_str().as_bytes();
        let mk = match hash_key(&keys.manifest_prefix, mb) {
            Some(k) => k,
            None => return Err(TransactionError::Crypto),
        };
        let ak = match hash_key(&keys.artifact_prefix, params.artifact.as_slice()) {
            Some(k) => k,
            None => return Err(TransactionError::Crypto),
        };
        if state.get(mk.as_slice()).is_none() {
            state.insert(mk.as_slice(), mb);
        }
        if state.get(ak.as_slice()).is_none() {
            state.insert(ak.as_slice(), params.artifact.as_slice());
        }
        Ok(())
    }

    /// Schedules a swap to a stored module at its activation height.
    pub fn swap_module(&self, state: &mut StateMap, params: SwapModuleParams, keys: &UpgradeKeys, ctx: &TxContext)
        -> (r: Result<(), TransactionError>)
        requires
            encode_utf8(params.service_id@).len() <= u32::MAX,
            spec_pending_at(old(state).view(), spec_pending_key(keys.pending_prefix@, params.activation_height)).len() < u32::MAX,
        ensures
            match spec_swap_module(old(state).view(), *keys, params.service_id@, params.manifest_hash,
                params.artifact_hash, params.activation_height, ctx.block_height) {
                Ok(st) => r is Ok && final(state).view() == st,
                Err(e) => r == Err::<(), TransactionError>(e) && final(state).view() == old(state).view(),
            },
    {
        if params.activation_height < ctx.block_height {
            return Err(TransactionError::Invalid(RejectReason::ActivationHeightPassed));
        }
        let mk = prefixed(&keys.manifest_prefix, params.manifest_hash.as_slice());
        if state.get(mk.as_slice()).is_none() {
            return Err(TransactionError::Invalid(RejectReason::ManifestNotFound));
        }
        let ak = prefixed(&keys.artifact_prefix, params.artifact_hash.as_slice());
        if state.get(ak.as_slice()).is_none() {
            return Err(TransactionError::Invalid(RejectReason::ArtifactNotFound));
        }
        let h = u64_to_le_bytes(params.activation_height);
        let key = prefixed(&keys.pending_prefix, h.as_slice());
        let ghost existing = spec_pending_at(state.view(), key@);
        let mut list: Vec<PendingSwap> = match state.get(key.as_slice()) {
            Some(b) => match decode_pending(b.as_slice()) {
                Some(v) => {
                    proof {
                        let l = choose|l: Seq<(Seq<char>, [u8; 32], [u8; 32])>|
                            l.len() <= u32::MAX && spec_entries_fit(l) && #[trigger] spec_pending_bytes(l) == b@;
                        lemma_pending_unique(l, pendings_view(v@));
                    }
                    v
                }
                None => Vec::new(),
            },
            None => Vec::new(),
        };
        assert(pendings_view(list@) =~= existing);
        let ghost before = list@;
        list.push((params.service_id, params.manifest_hash, params.artifact_hash));
        proof {
            assert(pendings_view(list@) =~= pendings_view(before).push((params.service_id@, params.manifest_hash, params.artifact_hash)));
            assert forall|i: int| 0 <= i < pendings_view(list@).len() implies
                encode_utf8(#[trigger] pendings_view(list@)[i].0).len() <= u32::MAX by {
                if i < before.len() {
                    assert(pendings_view(list@)[i] == pendings_view(before)[i]);
                }
            }
        }
        let bytes = encode_pending(&list);
        state.insert(key.as_slice(), bytes.as_slice());
        Ok(())
    }
}

} // verus!
