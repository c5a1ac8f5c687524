//! The canonical (SCALE) encoding of validator sets, read back from the front
//! of a stored value as the governance contract does.

use vstd::prelude::*;
use vstd::bytes::*;
use crate::bytes::read_array;
use crate::codec::{lemma_compact_unique, scale_decode_compact, spec_scale_compact};
use crate::validators::{ActiveKeyRecord, ValidatorSetV1, ValidatorSetsV1, ValidatorV1};

verus! {

/// The encoding of a validator: the account, the weight (16 bytes
/// little-endian), then the key's suite, hash and start height.
pub open spec fn spec_validator_bytes(v: ValidatorV1) -> Seq<u8> {
    v.account_id@ + spec_u128_to_le_bytes(v.weight) + seq![v.consensus_key.suite] + v.consensus_key.public_key_hash@
        + spec_u64_to_le_bytes(v.consensus_key.since_height)
}

/// The concatenated encodings of validators.
pub open spec fn spec_validators_bytes(vs: Seq<ValidatorV1>) -> Seq<u8>
    decreases vs.len(),
{
    if vs.len() == 0 { Seq::empty() } else { spec_validators_bytes(vs.drop_last()) + spec_validator_bytes(vs.last()) }
}

/// The encoding of a validator set: the start height, the total weight, then
/// the compact count and encodings of the validators.
pub open spec fn spec_set_bytes(from: u64, total: u128, vs: Seq<ValidatorV1>) -> Seq<u8> {
    spec_u64_to_le_bytes(from) + (spec_u128_to_le_bytes(total) + (spec_scale_compact(vs.len() as u32) + spec_validators_bytes(vs)))
}

/// A validator set as a value.
pub open spec fn set_view(s: ValidatorSetV1) -> (u64, u128, Seq<ValidatorV1>) {
    (s.effective_from_height, s.total_weight, s.validators@)
}

/// The encoding of an optional set: `0`, or `1` and the set.
pub open spec fn spec_opt_set_bytes(n: Option<(u64, u128, Seq<ValidatorV1>)>) -> Seq<u8> {
    match n {
        None => seq![0u8],
        Some(s) => seq![1u8] + spec_set_bytes(s.0, s.1, s.2),
    }
}

/// The encoding of the current and next validator sets.
pub open spec fn spec_sets_bytes(cur: (u64, u128, Seq<ValidatorV1>), next: Option<(u64, u128, Seq<ValidatorV1>)>) -> Seq<u8> {
    spec_set_bytes(cur.0, cur.1, cur.2) + spec_opt_set_bytes(next)
}

/// Whether a set's validator count fits the encoding's `u32`.
pub open spec fn spec_set_fits(s: (u64, u128, Seq<ValidatorV1>)) -> bool {
    s.2.len() <= u32::MAX
}

/// Whether both sets fit the encoding.
pub open spec fn spec_sets_fit(cur: (u64, u128, Seq<ValidatorV1>), next: Option<(u64, u128, Seq<ValidatorV1>)>) -> bool {
    spec_set_fits(cur) && (next matches Some(n) ==> spec_set_fits(n))
}

/// The current validators of the sets a stored value starts with, where it starts with sets.
pub open spec fn spec_current_validators_prefix(b: Seq<u8>) -> Option<Seq<ValidatorV1>> {
    if exists|c: (u64, u128, Seq<ValidatorV1>), n: Option<(u64, u128, Seq<ValidatorV1>)>, x: Seq<u8>|
        spec_sets_fit(c, n) && b == #[trigger] (spec_sets_bytes(c, n) + x) {
        let (c, n, x) = choose|c: (u64, u128, Seq<ValidatorV1>), n: Option<(u64, u128, Seq<ValidatorV1>)>, x: Seq<u8>|
            spec_sets_fit(c, n) && b == #[trigger] (spec_sets_bytes(c, n) + x);
        Some(c.2)
    } else {
        None
    }
}

proof fn lemma_validator_len(v: ValidatorV1)
    ensures
        spec_validator_bytes(v).len() == 89,
{
    lemma_auto_spec_u64_to_from_le_bytes();
    lemma_auto_spec_u128_to_from_le_bytes();
}

proof fn lemma_validator_unique(v: ValidatorV1, w: ValidatorV1)
    requires
        spec_validator_bytes(v) == spec_validator_bytes(w),
    ensures
        v == w,
{
    lemma_auto_spec_u64_to_from_le_bytes();
    lemma_auto_spec_u128_to_from_le_bytes();
    let a = spec_validator_bytes(v);
    let b = spec_validator_bytes(w);
    assert(a.subrange(0, 32) =~= v.account_id@);
    assert(b.subrange(0, 32) =~= w.account_id@);
    assert(a.subrange(32, 48) =~= spec_u128_to_le_bytes(v.weight));
    assert(b.subrange(32, 48) =~= spec_u128_to_le_bytes(w.weight));
    assert(a[48] == v.consensus_key.suite);
    assert(b[48] == w.consensus_key.suite);
    assert(a.subrange(49, 81) =~= v.consensus_key.public_key_hash@);
    assert(b.subrange(49, 81) =~= w.consensus_key.public_key_hash@);
    assert(a.subrange(81, 89) =~= spec_u64_to_le_bytes(v.consensus_key.since_height));
    assert(b.subrange(81, 89) =~= spec_u64_to_le_bytes(w.consensus_key.since_height));
    assert(v.account_id =~= w.account_id);
    assert(v.consensus_key.public_key_hash =~= w.consensus_key.public_key_hash);
}

proof fn lemma_validators_len(vs: Seq<ValidatorV1>)
    ensures
        spec_validators_bytes(vs).len() == 89 * vs.len(),
    decreases vs.len(),
{
    if vs.len() > 0 {
        lemma_validators_len(vs.drop_last());
        lemma_validator_len(vs.last());
    }
}

proof fn lemma_validators_unique(vs: Seq<ValidatorV1>, ws: Seq<ValidatorV1>, x: Seq<u8>, y: Seq<u8>)
    requires
        vs.len() == ws.len(),
        spec_validators_bytes(vs) + x == spec_validators_bytes(ws) + y,
    ensures
        vs == ws,
        x == y,
    decreases vs.len(),
{
    lemma_validators_len(vs);
    lemma_validators_len(ws);
    let n = 89 * vs.len();
    let s = spec_validators_bytes(vs) + x;
    assert(spec_validators_bytes(vs) =~= s.subrange(0, n as int));
    assert(spec_validators_bytes(ws) =~= s.subrange(0, n as int));
    assert(x =~= s.subrange(n as int, s.len() as int));
    assert(y =~= s.subrange(n as int, s.len() as int));
    if vs.len() > 0 {
        let k = 89 * (vs.len() - 1);
        lemma_validators_len(vs.drop_last());
        lemma_validators_len(ws.drop_last());
        lemma_validator_len(vs.last());
        lemma_validator_len(ws.last());
        let a = spec_validators_bytes(vs);
        let b = spec_validators_bytes(ws);
        assert(a.subrange(0, k) =~= spec_validators_bytes(vs.drop_last()));
        assert(b.subrange(0, k) =~= spec_validators_bytes(ws.drop_last()));
        assert(a.subrange(k, n as int) =~= spec_validator_bytes(vs.last()));
        assert(b.subrange(k, n as int) =~= spec_validator_bytes(ws.last()));
        assert(spec_validators_bytes(vs.drop_last()) + Seq::<u8>::empty() =~= spec_validators_bytes(vs.drop_last()));
        assert(spec_validators_bytes(ws.drop_last()) + Seq::<u8>::empty() =~= spec_validators_bytes(ws.drop_last()));
        lemma_validators_unique(vs.drop_last(), ws.drop_last(), Seq::<u8>::empty(), Seq::<u8>::empty());
        lemma_validator_unique(vs.last(), ws.last());
        assert(vs =~= vs.drop_last().push(vs.last()));
        assert(ws =~= ws.drop_last().push(ws.last()));
    }
}

proof fn lemma_set_unique(c: (u64, u128, Seq<ValidatorV1>), d: (u64, u128, Seq<ValidatorV1>), x: Seq<u8>, y: Seq<u8>)
    requires
        spec_set_fits(c),
        spec_set_fits(d),
        spec_set_bytes(c.0, c.1, c.2) + x == spec_set_bytes(d.0, d.1, d.2) + y,
    ensures
        c == d,
        x == y,
{
    lemma_auto_spec_u64_to_from_le_bytes();
    lemma_auto_spec_u128_to_from_le_bytes();
    let s = spec_set_bytes(c.0, c.1, c.2) + x;
    let cs = spec_scale_compact(c.2.len() as u32) + (spec_validators_bytes(c.2) + x);
    let ds = spec_scale_compact(d.2.len() as u32) + (spec_validators_bytes(d.2) + y);
    assert(s =~= spec_u64_to_le_bytes(c.0) + (spec_u128_to_le_bytes(c.1) + cs));
    assert(s =~= spec_u64_to_le_bytes(d.0) + (spec_u128_to_le_bytes(d.1) + ds));
    assert(s.subrange(0, 8) =~= spec_u64_to_le_bytes(c.0));
    assert(s.subrange(0, 8) =~= spec_u64_to_le_bytes(d.0));
    assert(s.subrange(8, 24) =~= spec_u128_to_le_bytes(c.1));
    assert(s.subrange(8, 24) =~= spec_u128_to_le_bytes(d.1));
    assert(cs =~= s.subrange(24, s.len() as int));
    assert(ds =~= s.subrange(24, s.len() as int));
    lemma_compact_unique(c.2.len() as u32, d.2.len() as u32, spec_validators_bytes(c.2) + x, spec_validators_bytes(d.2) + y);
    lemma_validators_unique(c.2, d.2, x, y);
}

/// Validator sets are read back unambiguously from the front of a value.
pub proof fn lemma_sets_unique(
    c: (u64, u128, Seq<ValidatorV1>), n: Option<(u64, u128, Seq<ValidatorV1>)>,
    d: (u64, u128, Seq<ValidatorV1>), m: Option<(u64, u128, Seq<ValidatorV1>)>,
    x: Seq<u8>, y: Seq<u8>,
)
    requires
        spec_sets_fit(c, n),
        spec_sets_fit(d, m),
        spec_sets_bytes(c, n) + x == spec_sets_bytes(d, m) + y,
    ensures
        c == d,
        n == m,
        x == y,
{
    vstd::seq_lib::lemma_concat_associative(spec_set_bytes(c.0, c.1, c.2), spec_opt_set_bytes(n), x);
    vstd::seq_lib::lemma_concat_associative(spec_set_bytes(d.0, d.1, d.2), spec_opt_set_bytes(m), y);
    lemma_set_unique(c, d, spec_opt_set_bytes(n) + x, spec_opt_set_bytes(m) + y);
    let s = spec_opt_set_bytes(n) + x;
    assert(s[0] == spec_opt_set_bytes(n)[0]);
    assert(s[0] == spec_opt_set_bytes(m)[0]);
    match (n, m) {
        (None, None) => {
            assert(x =~= s.subrange(1, s.len() as int));
            assert(y =~= s.subrange(1, s.len() as int));
        }
        (Some(a), Some(b)) => {
            assert(spec_set_bytes(a.0, a.1, a.2) + x =~= s.subrange(1, s.len() as int));
            assert(spec_set_bytes(b.0, b.1, b.2) + y =~= s.subrange(1, s.len() as int));
            lemma_set_unique(a, b, x, y);
        }
        _ => {}
    }
}

fn read_validator(b: &[u8]) -> (v: ValidatorV1)
    requires
        b@.len() == 89,
    ensures
        spec_validator_bytes(v) == b@,
{
    let account_id: [u8; 32] = read_array(b, 0);
    let weight = u128_from_le_bytes(vstd::slice::slice_subrange(b, 32, 48));
    let suite = b[48];
    let public_key_hash: [u8; 32] = read_array(b, 49);
    let since_height = u64_from_le_bytes(vstd::slice::slice_subrange(b, 81, 89));
    let v = ValidatorV1 { account_id, weight, consensus_key: ActiveKeyRecord { suite, public_key_hash, since_height } };
    proof {
        lemma_auto_spec_u64_to_from_le_bytes();
        lemma_auto_spec_u128_to_from_le_bytes();
        assert(b@.subrange(32, 48) =~= spec_u128_to_le_bytes(weight));
        assert(b@.subrange(81, 89) =~= spec_u64_to_le_bytes(since_height));
        assert(spec_validator_bytes(v) =~= b@);
    }
    v
}

fn read_set(b: &[u8]) -> (r: Option<(ValidatorSetV1, &[u8])>)
    ensures
        match r {
            Some((s, rest)) => spec_set_fits(set_view(s)) && b@ == spec_set_bytes(s.effective_from_height, s.total_weight, s.validators@) + rest@,
            None => forall|c: (u64, u128, Seq<ValidatorV1>), x: Seq<u8>| spec_set_fits(c) ==> b@ != #[trigger] (spec_set_bytes(c.0, c.1, c.2) + x),
        },
{
    proof {
        lemma_auto_spec_u64_to_from_le_bytes();
        lemma_auto_spec_u128_to_from_le_bytes();
    }
    if b.len() < 24 {
        return None;
    }
    let from = u64_from_le_bytes(vstd::slice::slice_subrange(b, 0, 8));
    let total = u128_from_le_bytes(vstd::slice::slice_subrange(b, 8, 24));
    let r1 = vstd::slice::slice_subrange(b, 24, b.len());
    proof {
        assert(b@.subrange(0, 8) =~= spec_u64_to_le_bytes(from));
        assert(b@.subrange(8, 24) =~= spec_u128_to_le_bytes(total));
        assert forall|c: (u64, u128, Seq<ValidatorV1>), x: Seq<u8>| spec_set_fits(c) && b@ == #[trigger] (spec_set_bytes(c.0, c.1, c.2) + x)
            implies r1@ == spec_scale_compact(c.2.len() as u32) + (spec_validators_bytes(c.2) + x) by {
            assert(b@ =~= spec_u64_to_le_bytes(c.0) + (spec_u128_to_le_bytes(c.1) + (spec_scale_compact(c.2.len() as u32) + (spec_validators_bytes(c.2) + x))));
            assert(r1@ =~= b@.subrange(24, b@.len() as int));
        }
    }
    let (n, r2) = match scale_decode_compact(r1) {
        Some(x) => x,
        None => {
            proof {
                assert forall|c: (u64, u128, Seq<ValidatorV1>), x: Seq<u8>| spec_set_fits(c) implies b@ != #[trigger] (spec_set_bytes(c.0, c.1, c.2) + x) by {
                    if b@ == spec_set_bytes(c.0, c.1, c.2) + x {
                        assert(spec_scale_compact(c.2.len() as u32).is_prefix_of(r1@));
                    }
                }
            }
            return None;
        }
    };
    let count = n as usize;
    if r2.len() / 89 < count {
        proof {
            assert forall|c: (u64, u128, Seq<ValidatorV1>), x: Seq<u8>| spec_set_fits(c) implies b@ != #[trigger] (spec_set_bytes(c.0, c.1, c.2) + x) by {
                if b@ == spec_set_bytes(c.0, c.1, c.2) + x {
                    lemma_compact_unique(n, c.2.len() as u32, r2@, spec_validators_bytes(c.2) + x);
                    lemma_validators_len(c.2);
                }
            }
        }
        return None;
    }
    let rlen = r2.len();
    let mut validators: Vec<ValidatorV1> = Vec::new();
    let mut i: usize = 0;
    while i < count
        invariant
            rlen == r2@.len(),
            count == n,
            i <= count,
            89 * count <= r2@.len(),
            validators@.len() == i,
            spec_validators_bytes(validators@) == r2@.subrange(0, 89 * i),
        decreases count - i,
    {
        let v = read_validator(vstd::slice::slice_subrange(r2, 89 * i, 89 * i + 89));
        let ghost before = validators@;
        validators.push(v);
        proof {
            assert(validators@.drop_last() =~= before);
            assert(r2@.subrange(0, 89 * (i + 1)) =~= r2@.subrange(0, 89 * i) + r2@.subrange(89 * i, 89 * i + 89));
        }
        i = i + 1;
    }
    let rest = vstd::slice::slice_subrange(r2, 89 * count, r2.len());
    let s = ValidatorSetV1 { effective_from_height: from, total_weight: total, validators };
    proof {
        let vb = spec_validators_bytes(s.validators@);
        assert(r2@ =~= vb + rest@);
        assert(r1@ == spec_scale_compact(n) + r2@);
        assert(b@ =~= b@.subrange(0, 8) + (b@.subrange(8, 24) + r1@));
        vstd::seq_lib::lemma_concat_associative(spec_scale_compact(n), vb, rest@);
        let t2 = spec_scale_compact(n) + vb;
        vstd::seq_lib::lemma_concat_associative(spec_u128_to_le_bytes(total), t2, rest@);
        let t1 = spec_u128_to_le_bytes(total) + t2;
        vstd::seq_lib::lemma_concat_associative(spec_u64_to_le_bytes(from), t1, rest@);
        assert(spec_set_bytes(from, total, s.validators@) == spec_u64_to_le_bytes(from) + t1);
    }
    Some((s, rest))
}

/// Reads the current and next validator sets from the front of `b`.
pub fn read_validator_sets(b: &[u8]) -> (r: Option<(ValidatorSetsV1, &[u8])>)
    ensures
        match r {
            Some((s, rest)) => spec_sets_fit(set_view(s.current), match s.next { Some(n) => Some(set_view(n)), None => None })
                && b@ == spec_sets_bytes(set_view(s.current), match s.next { Some(n) => Some(set_view(n)), None => None }) + rest@,
            None => spec_current_validators_prefix(b@) is None,
        },
{
    let (current, r1) = match read_set(b) {
        Some(x) => x,
        None => {
            proof {
                assert forall|c: (u64, u128, Seq<ValidatorV1>), n: Option<(u64, u128, Seq<ValidatorV1>)>, x: Seq<u8>|
                    spec_sets_fit(c, n) implies b@ != #[trigger] (spec_sets_bytes(c, n) + x) by {
                    vstd::seq_lib::lemma_concat_associative(spec_set_bytes(c.0, c.1, c.2), spec_opt_set_bytes(n), x);
                    assert(b@ != spec_set_bytes(c.0, c.1, c.2) + (spec_opt_set_bytes(n) + x));
                }
            }
            return None;
        }
    };
    proof {
        assert forall|c: (u64, u128, Seq<ValidatorV1>), n: Option<(u64, u128, Seq<ValidatorV1>)>, x: Seq<u8>|
            spec_sets_fit(c, n) && b@ == #[trigger] (spec_sets_bytes(c, n) + x) implies r1@ == spec_opt_set_bytes(n) + x by {
            vstd::seq_lib::lemma_concat_associative(spec_set_bytes(c.0, c.1, c.2), spec_opt_set_bytes(n), x);
            lemma_set_unique(c, set_view(current), spec_opt_set_bytes(n) + x, r1@);
        }
    }
    if r1.len() < 1 || r1[0] > 1 {
        proof {
            assert forall|c: (u64, u128, Seq<ValidatorV1>), n: Option<(u64, u128, Seq<ValidatorV1>)>, x: Seq<u8>|
                spec_sets_fit(c, n) implies b@ != #[trigger] (spec_sets_bytes(c, n) + x) by {
                if b@ == spec_sets_bytes(c, n) + x {
                    assert(r1@[0] == spec_opt_set_bytes(n)[0]);
                }
            }
        }
        return None;
    }
    let tail = vstd::slice::slice_subrange(r1, 1, r1.len());
    assert(r1@ =~= seq![r1@[0]] + tail@);
    if r1[0] == 0 {
        let s = ValidatorSetsV1 { current, next: None };
        assert(b@ =~= spec_sets_bytes(set_view(s.current), None) + tail@);
        return Some((s, tail));
    }
    match read_set(tail) {
        None => {
            proof {
                assert forall|c: (u64, u128, Seq<ValidatorV1>), n: Option<(u64, u128, Seq<ValidatorV1>)>, x: Seq<u8>|
                    spec_sets_fit(c, n) implies b@ != #[trigger] (spec_sets_bytes(c, n) + x) by {
                    if b@ == spec_sets_bytes(c, n) + x {
                        assert(r1@[0] == spec_opt_set_bytes(n)[0]);
                        if let Some(m) = n {
                            assert(tail@ =~= spec_set_bytes(m.0, m.1, m.2) + x);
                        }
                    }
                }
            }
            None
        }
        Some((next, rest)) => {
            let s = ValidatorSetsV1 { current, next: Some(next) };
            proof {
                assert(b@ =~= spec_sets_bytes(set_view(s.current), Some(set_view(next))) + rest@);
            }
            Some((s, rest))
        }
    }
}

/// The current validators of the sets a stored value starts with.
pub fn current_validators(b: &[u8]) -> (r: Option<Vec<ValidatorV1>>)
    ensures
        match r {
            Some(vs) => spec_current_validators_prefix(b@) == Some(vs@),
            None => spec_current_validators_prefix(b@) is None,
        },
{
    match read_validator_sets(b) {
        None => None,
        Some((s, rest)) => {
            proof {
                let nv = match s.next { Some(n) => Some(set_view(n)), None => None };
                assert(spec_sets_fit(set_view(s.current), nv) && b@ == spec_sets_bytes(set_view(s.current), nv) + rest@);
                let (c, n, x) = choose|c: (u64, u128, Seq<ValidatorV1>), n: Option<(u64, u128, Seq<ValidatorV1>)>, x: Seq<u8>|
                    spec_sets_fit(c, n) && b@ == #[trigger] (spec_sets_bytes(c, n) + x);
                lemma_sets_unique(c, n, set_view(s.current), nv, x, rest@);
            }
            Some(s.current.validators)
        }
    }
}

} // verus!
