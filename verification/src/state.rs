//! An in-memory key-value state: the chain state that the services read and write.

use vstd::prelude::*;
use crate::bytes::{append_bytes, bytes_eq};

verus! {

/// Copies a byte slice into a new vector.
pub fn to_vec(b: &[u8]) -> (r: Vec<u8>)
    ensures
        r@ == b@,
{
    let mut r: Vec<u8> = Vec::new();
    append_bytes(&mut r, b);
    r
}

/// The entries of `m` whose key starts with `prefix`.
pub open spec fn spec_with_prefix(m: Map<Seq<u8>, Seq<u8>>, prefix: Seq<u8>) -> Map<Seq<u8>, Seq<u8>> {
    Map::new(|k: Seq<u8>| m.contains_key(k) && prefix.is_prefix_of(k), |k: Seq<u8>| m[k])
}

/// Whether `s` lists the entries of `m`, each exactly once, in some order.
pub open spec fn spec_enumerates(s: Seq<(Vec<u8>, Vec<u8>)>, m: Map<Seq<u8>, Seq<u8>>) -> bool {
    &&& forall|i: int, j: int| 0 <= i < j < s.len() ==> #[trigger] s[i].0@ != #[trigger] s[j].0@
    &&& forall|i: int| 0 <= i < s.len() ==> m.contains_key(#[trigger] s[i].0@) && m[s[i].0@] == s[i].1@
    &&& forall|k: Seq<u8>| #[trigger] m.contains_key(k) ==> exists|i: int| 0 <= i < s.len() && s[i].0@ == k
}

/// Whether `k` starts with `prefix`.
pub fn has_prefix(k: &[u8], prefix: &[u8]) -> (r: bool)
    ensures
        r == prefix@.is_prefix_of(k@),
{
    if k.len() < prefix.len() {
        return false;
    }
    let head = vstd::slice::slice_subrange(k, 0, prefix.len());
    let r = bytes_eq(head, prefix);
    proof {
        if prefix@.is_prefix_of(k@) {
            assert(head@ =~= prefix@);
        }
        if r {
            assert forall|i: int| 0 <= i < prefix@.len() implies prefix@[i] == k@[i] by {
                assert(head@[i] == k@[i]);
            }
        }
    }
    r
}

/// A key-value store of byte strings; each key occurs at most once.
pub struct StateMap {
    entries: Vec<(Vec<u8>, Vec<u8>)>,
}

impl StateMap {
    /// No key occurs twice.
    #[verifier::type_invariant]
    spec fn wf(self) -> bool {
        forall|i: int, j: int|
            0 <= i < j < self.entries@.len() ==> #[trigger] self.entries@[i].0@ != #[trigger] self.entries@[j].0@
    }

    /// The stored key-value pairs as a map.
    pub closed spec fn view(&self) -> Map<Seq<u8>, Seq<u8>> {
        Map::new(
            |k: Seq<u8>| exists|i: int| 0 <= i < self.entries@.len() && self.entries@[i].0@ == k,
            |k: Seq<u8>| {
                let i = choose|i: int| 0 <= i < self.entries@.len() && self.entries@[i].0@ == k;
                self.entries@[i].1@
            },
        )
    }

    /// An empty state.
    pub fn new() -> (s: Self)
        ensures
            s.view() == Map::<Seq<u8>, Seq<u8>>::empty(),
    {
        let s = StateMap { entries: Vec::new() };
        assert(s.view() =~= Map::<Seq<u8>, Seq<u8>>::empty());
        s
    }

    /// The index of `key`, if present.
    fn find(&self, key: &[u8]) -> (r: Option<usize>)
        ensures
            match r {
                Some(i) => i < self.entries@.len() && self.entries@[i as int].0@ == key@,
                None => forall|i: int| 0 <= i < self.entries@.len() ==> self.entries@[i].0@ != key@,
            },
    {
        let n = self.entries.len();
        let mut i: usize = 0;
        while i < n
            invariant
                n == self.entries@.len(),
                i <= n,
                forall|j: int| 0 <= j < i ==> self.entries@[j].0@ != key@,
            decreases n - i,
        {
            if bytes_eq(self.entries[i].0.as_slice(), key) {
                return Some(i);
            }
            i = i + 1;
        }
        None
    }

    /// The value stored under `key`.
    pub fn get(&self, key: &[u8]) -> (r: Option<Vec<u8>>)
        ensures
            match r {
                Some(v) => self.view().contains_key(key@) && self.view()[key@] == v@,
                None => !self.view().contains_key(key@),
            },
    {
        proof {
            use_type_invariant(self);
        }
        match self.find(key) {
            Some(i) => {
                let ghost k = key@;
                assert(self.view().contains_key(k));
                let ghost c = choose|j: int| 0 <= j < self.entries@.len() && self.entries@[j].0@ == k;
                assert(c == i);
                Some(to_vec(self.entries[i].1.as_slice()))
            }
            None => None,
        }
    }

    /// Stores `value` under `key`, replacing any previous value.
    pub fn insert(&mut self, key: &[u8], value: &[u8])
        ensures
            final(self).view() == old(self).view().insert(key@, value@),
    {
        proof {
            use_type_invariant(&*self);
        }
        let ghost old_entries = self.entries@;
        let ghost old_view = self.view();
        match self.find(key) {
            Some(i) => {
                let entry = (to_vec(key), to_vec(value));
                let mut entries: Vec<(Vec<u8>, Vec<u8>)> = Vec::new();
                std::mem::swap(&mut entries, &mut self.entries);
                entries.set(i, entry);
                assert(forall|a: int, b: int|
                    0 <= a < b < entries@.len() ==> #[trigger] entries@[a].0@ != #[trigger] entries@[b].0@);
                self.entries = entries;
                proof {
                    let nv = self.view();
                    let ov = old_view.insert(key@, value@);
                    assert(self.entries@[i as int].0@ == key@);
                    assert forall|j: int| 0 <= j < self.entries@.len() && j != i implies
                        #[trigger] self.entries@[j] == old_entries[j] by {}
                    assert forall|k: Seq<u8>| nv.contains_key(k) == ov.contains_key(k) by {
                        if k == key@ {
                            assert(nv.contains_key(k));
                        } else {
                            if ov.contains_key(k) {
                                let j = choose|j: int| 0 <= j < old_entries.len() && old_entries[j].0@ == k;
                                assert(j != i);
                                assert(self.entries@[j].0@ == k);
                            }
                            if nv.contains_key(k) {
                                let j = choose|j: int| 0 <= j < self.entries@.len() && self.entries@[j].0@ == k;
                                assert(j != i);
                                assert(old_entries[j].0@ == k);
                            }
                        }
                    }
                    assert forall|k: Seq<u8>| nv.contains_key(k) implies nv[k] == ov[k] by {
                        let j = choose|j: int| 0 <= j < self.entries@.len() && self.entries@[j].0@ == k;
                        if k == key@ {
                            assert(j == i);
                        } else {
                            assert(j != i);
                            let oj = choose|oj: int| 0 <= oj < old_entries.len() && old_entries[oj].0@ == k;
                            assert(old_entries[j].0@ == k);
                            assert(oj == j);
                        }
                    }
                    assert(nv =~= ov);
                }
            }
            None => {
                let entry = (to_vec(key), to_vec(value));
                let mut entries: Vec<(Vec<u8>, Vec<u8>)> = Vec::new();
                std::mem::swap(&mut entries, &mut self.entries);
                entries.push(entry);
                assert(forall|a: int, b: int|
                    0 <= a < b < entries@.len() ==> #[trigger] entries@[a].0@ != #[trigger] entries@[b].0@);
                self.entries = entries;
                proof {
                    let nv = self.view();
                    let ov = old_view.insert(key@, value@);
                    let last = old_entries.len() as int;
                    assert(self.entries@[last].0@ == key@);
                    assert forall|k: Seq<u8>| nv.contains_key(k) == ov.contains_key(k) by {
                        if ov.contains_key(k) && k != key@ {
                            let j = choose|j: int| 0 <= j < old_entries.len() && old_entries[j].0@ == k;
                            assert(self.entries@[j].0@ == k);
                        }
                        if nv.contains_key(k) {
                            let j = choose|j: int| 0 <= j < self.entries@.len() && self.entries@[j].0@ == k;
                            if j != last {
                                assert(old_entries[j].0@ == k);
                            }
                        }
                    }
                    assert forall|k: Seq<u8>| nv.contains_key(k) implies nv[k] == ov[k] by {
                        let j = choose|j: int| 0 <= j < self.entries@.len() && self.entries@[j].0@ == k;
                        if k == key@ {
                            assert(j == last);
                        } else {
                            let oj = choose|oj: int| 0 <= oj < old_entries.len() && old_entries[oj].0@ == k;
                            assert(oj == j);
                        }
                    }
                    assert(nv =~= ov);
                }
            }
        }
    }

    /// The entries whose key starts with `prefix`, each once, in no stated order.
    pub fn prefix_scan(&self, prefix: &[u8]) -> (r: Vec<(Vec<u8>, Vec<u8>)>)
        ensures
            spec_enumerates(r@, spec_with_prefix(self.view(), prefix@)),
    {
        proof {
            use_type_invariant(self);
        }
        let ghost m = spec_with_prefix(self.view(), prefix@);
        let mut out: Vec<(Vec<u8>, Vec<u8>)> = Vec::new();
        let n = self.entries.len();
        let mut i: usize = 0;
        while i < n
            invariant
                n == self.entries@.len(),
                i <= n,
                forall|a: int, b: int|
                    0 <= a < b < self.entries@.len() ==> #[trigger] self.entries@[a].0@ != #[trigger] self.entries@[b].0@,
                m == spec_with_prefix(self.view(), prefix@),
                forall|a: int, b: int| 0 <= a < b < out@.len() ==> #[trigger] out@[a].0@ != #[trigger] out@[b].0@,
                forall|a: int| #![trigger out@[a]] 0 <= a < out@.len() ==> exists|j: int| 0 <= j < i && #[trigger] self.entries@[j].0@ == out@[a].0@
                    && self.entries@[j].1@ == out@[a].1@ && prefix@.is_prefix_of(out@[a].0@),
                forall|j: int| 0 <= j < i && prefix@.is_prefix_of(#[trigger] self.entries@[j].0@) ==>
                    exists|a: int| 0 <= a < out@.len() && out@[a].0@ == self.entries@[j].0@,
            decreases n - i,
        {
            if has_prefix(self.entries[i].0.as_slice(), prefix) {
                let k = to_vec(self.entries[i].0.as_slice());
                let v = to_vec(self.entries[i].1.as_slice());
                let ghost before = out@;
                out.push((k, v));
                proof {
                    assert forall|a: int, b: int| 0 <= a < b < out@.len() implies #[trigger] out@[a].0@ != #[trigger] out@[b].0@ by {
                        if b == before.len() {
                            let j = choose|j: int| 0 <= j < i && #[trigger] self.entries@[j].0@ == before[a].0@
                                && self.entries@[j].1@ == before[a].1@ && prefix@.is_prefix_of(before[a].0@);
                            assert(self.entries@[j].0@ != self.entries@[i as int].0@);
                        }
                    }
                    assert forall|a: int| #![trigger out@[a]] 0 <= a < out@.len() implies exists|j: int| 0 <= j < i + 1 && #[trigger] self.entries@[j].0@ == out@[a].0@
                        && self.entries@[j].1@ == out@[a].1@ && prefix@.is_prefix_of(out@[a].0@) by {
                        if a == before.len() {
                            assert(self.entries@[i as int].0@ == out@[a].0@);
                        } else {
                            assert(out@[a] == before[a]);
                        }
                    }
                    assert forall|j: int| 0 <= j < i + 1 && prefix@.is_prefix_of(#[trigger] self.entries@[j].0@) implies
                        exists|a: int| 0 <= a < out@.len() && out@[a].0@ == self.entries@[j].0@ by {
                        if j == i {
                            assert(out@[before.len() as int].0@ == self.entries@[j].0@);
                        } else {
                            let a = choose|a: int| 0 <= a < before.len() && before[a].0@ == self.entries@[j].0@;
                            assert(out@[a] == before[a]);
                        }
                    }
                }
            }
            i = i + 1;
        }
        proof {
            let v = self.view();
            assert forall|a: int| 0 <= a < out@.len() implies m.contains_key(#[trigger] out@[a].0@) && m[out@[a].0@] == out@[a].1@ by {
                assert(out@[a] == out@[a]);
                let j = choose|j: int| 0 <= j < n && #[trigger] self.entries@[j].0@ == out@[a].0@
                    && self.entries@[j].1@ == out@[a].1@ && prefix@.is_prefix_of(out@[a].0@);
                let k = out@[a].0@;
                assert(v.contains_key(k));
                let c = choose|c: int| 0 <= c < self.entries@.len() && self.entries@[c].0@ == k;
                assert(c == j);
            }
            assert forall|k: Seq<u8>| #[trigger] m.contains_key(k) implies exists|a: int| 0 <= a < out@.len() && out@[a].0@ == k by {
                let j = choose|j: int| 0 <= j < self.entries@.len() && self.entries@[j].0@ == k;
                assert(prefix@.is_prefix_of(self.entries@[j].0@));
            }
        }
        out
    }

    /// Removes `key` and its value, if present.
    pub fn delete(&mut self, key: &[u8])
        ensures
            final(self).view() == old(self).view().remove(key@),
    {
        proof {
            use_type_invariant(&*self);
        }
        let ghost old_entries = self.entries@;
        let ghost old_view = self.view();
        match self.find(key) {
            Some(i) => {
                let mut entries: Vec<(Vec<u8>, Vec<u8>)> = Vec::new();
                std::mem::swap(&mut entries, &mut self.entries);
                let _ = entries.swap_remove(i);
                assert(forall|a: int, b: int|
                    0 <= a < b < entries@.len() ==> #[trigger] entries@[a].0@ != #[trigger] entries@[b].0@) by {
                    assert forall|a: int, b: int| 0 <= a < b < entries@.len() implies
                        #[trigger] entries@[a].0@ != #[trigger] entries@[b].0@ by {
                        let oa = if a == i { old_entries.len() - 1 } else { a };
                        let ob = if b == i { old_entries.len() - 1 } else { b };
                        assert(entries@[a] == old_entries[oa]);
                        assert(entries@[b] == old_entries[ob]);
                    }
                }
                self.entries = entries;
                proof {
                    let nv = self.view();
                    let ov = old_view.remove(key@);
                    let lastj = old_entries.len() - 1;
                    assert forall|k: Seq<u8>| nv.contains_key(k) == ov.contains_key(k) by {
                        if ov.contains_key(k) {
                            let j = choose|j: int| 0 <= j < old_entries.len() && old_entries[j].0@ == k;
                            let nj = if j == lastj { i as int } else { j };
                            assert(self.entries@[nj].0@ == k);
                        }
                        if nv.contains_key(k) {
                            let j = choose|j: int| 0 <= j < self.entries@.len() && self.entries@[j].0@ == k;
                            let oj = if j == i { lastj } else { j };
                            assert(old_entries[oj].0@ == k);
                        }
                    }
                    assert forall|k: Seq<u8>| nv.contains_key(k) implies nv[k] == ov[k] by {
                        let j = choose|j: int| 0 <= j < self.entries@.len() && self.entries@[j].0@ == k;
                        let oj = if j == i { lastj } else { j };
                        assert(old_entries[oj].0@ == k);
                        let c = choose|c: int| 0 <= c < old_entries.len() && old_entries[c].0@ == k;
                        assert(c == oj);
                    }
                    assert(nv =~= ov);
                }
            }
            None => {
                assert(old_view.remove(key@) =~= old_view);
            }
        }
    }
}

} // verus!
