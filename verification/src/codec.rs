//! The canonical (SCALE) framing of lengths and strings, and UTF-8 decoding,
//! taken from parity-scale-codec and std.

use vstd::prelude::*;
use vstd::bytes::*;
use vstd::string::StringSliceAdditionalSpecFns;
use vstd::utf8::{valid_utf8, encode_utf8};
use parity_scale_codec::{Compact, Decode, Encode};
use crate::bytes::append_bytes;

verus! {

/// The SCALE compact encoding of a `u32`: one byte below `2^6`, two bytes below
/// `2^14`, four bytes below `2^30` (the value times four plus the mode `0`, `1`
/// or `2`, little-endian), else the byte `0b11` and the four little-endian
/// bytes of the value.
pub open spec fn spec_scale_compact(n: u32) -> Seq<u8> {
    if n < 64 {
        seq![(n * 4) as u8]
    } else if n < 0x4000 {
        let v = n * 4 + 1;
        seq![(v % 256) as u8, (v / 256) as u8]
    } else if n < 0x4000_0000 {
        let v = n * 4 + 2;
        seq![(v % 256) as u8, ((v / 256) % 256) as u8, ((v / 0x1_0000) % 256) as u8, (v / 0x100_0000) as u8]
    } else {
        seq![3u8, (n % 256) as u8, ((n / 256) % 256) as u8, ((n / 0x1_0000) % 256) as u8, (n / 0x100_0000) as u8]
    }
}

/// The mode a compact encoding's first byte announces, and so its length.
pub open spec fn spec_compact_len(first: u8) -> nat {
    if first % 4 == 0 { 1 } else if first % 4 == 1 { 2 } else if first % 4 == 2 { 4 } else { 5 }
}

proof fn lemma_compact_shape(n: u32)
    ensures
        spec_scale_compact(n).len() == spec_compact_len(spec_scale_compact(n)[0]),
{
    let c = spec_scale_compact(n);
    if n < 64 {
        assert(((n * 4) as u8) % 4 == 0) by (nonlinear_arith) requires n < 64;
    } else if n < 0x4000 {
        let v = n * 4 + 1;
        assert((v % 256) % 4 == 1) by (nonlinear_arith) requires v == n * 4 + 1;
    } else if n < 0x4000_0000 {
        let v = n * 4 + 2;
        assert((v % 256) % 4 == 2) by (nonlinear_arith) requires v == n * 4 + 2;
    }
}

/// The compact encoding is prefix-free and one-to-one: an encoded value and
/// what follows it are read back unambiguously.
pub proof fn lemma_compact_unique(n: u32, m: u32, x: Seq<u8>, y: Seq<u8>)
    requires
        spec_scale_compact(n) + x == spec_scale_compact(m) + y,
    ensures
        n == m,
        x == y,
{
    let a = spec_scale_compact(n);
    let b = spec_scale_compact(m);
    lemma_compact_shape(n);
    lemma_compact_shape(m);
    assert((a + x)[0] == a[0]);
    assert((b + y)[0] == b[0]);
    assert(a.len() == b.len());
    assert(a =~= (a + x).subrange(0, a.len() as int));
    assert(b =~= (b + y).subrange(0, b.len() as int));
    assert(x =~= (a + x).subrange(a.len() as int, (a + x).len() as int));
    assert(y =~= (b + y).subrange(b.len() as int, (b + y).len() as int));
    assert(a == b);
    if a.len() == 1 {
        assert(a[0] == (n * 4) as u8 && b[0] == (m * 4) as u8);
    } else if a.len() == 2 {
        let v = n * 4 + 1;
        let w = m * 4 + 1;
        assert(v == (v % 256) + 256 * (v / 256)) by (nonlinear_arith);
        assert(w == (w % 256) + 256 * (w / 256)) by (nonlinear_arith);
    } else if a.len() == 4 {
        let v = n * 4 + 2;
        let w = m * 4 + 2;
        assert(v == (v % 256) + 256 * ((v / 256) % 256) + 0x1_0000 * ((v / 0x1_0000) % 256) + 0x100_0000 * (v / 0x100_0000))
            by (nonlinear_arith) requires 0 <= v;
        assert(w == (w % 256) + 256 * ((w / 256) % 256) + 0x1_0000 * ((w / 0x1_0000) % 256) + 0x100_0000 * (w / 0x100_0000))
            by (nonlinear_arith) requires 0 <= w;
    } else {
        assert(n == (n % 256) + 256 * ((n / 256) % 256) + 0x1_0000 * ((n / 0x1_0000) % 256) + 0x100_0000 * (n / 0x100_0000))
            by (nonlinear_arith) requires 0 <= n;
        assert(m == (m % 256) + 256 * ((m / 256) % 256) + 0x1_0000 * ((m / 0x1_0000) % 256) + 0x100_0000 * (m / 0x100_0000))
            by (nonlinear_arith) requires 0 <= m;
    }
}

/// A compact encoding takes one to five bytes, and a larger value never takes fewer.
pub proof fn lemma_compact_len_mono(a: u32, b: u32)
    requires
        a <= b,
    ensures
        1 <= spec_scale_compact(a).len() <= spec_scale_compact(b).len() <= 5,
{
}

/// The SCALE encoding of a byte vector: its compact length, then the bytes.
pub open spec fn spec_scale_bytes(b: Seq<u8>) -> Seq<u8> {
    spec_scale_compact(b.len() as u32) + b
}

/// The SCALE encoding of a string: its UTF-8 bytes as a byte vector.
pub open spec fn spec_scale_str(s: Seq<char>) -> Seq<u8> {
    spec_scale_bytes(encode_utf8(s))
}

/// Calls parity-scale-codec's `Compact::<u32>::encode`.
/// Claims: the bytes are the compact encoding the codec's source writes for the value.
#[verifier::external_body]
pub(crate) fn scale_compact(n: u32) -> (res: Vec<u8>)
    ensures
        res@ == spec_scale_compact(n),
{
    Compact(n).encode()
}

/// Calls parity-scale-codec's `Compact::<u32>::decode` on the front of `b`.
/// Claims: it succeeds exactly when `b` starts with the canonical compact
/// encoding of some value (the codec rejects out-of-range, non-minimal forms),
/// and hands back that value and the bytes after it.
#[verifier::external_body]
pub(crate) fn scale_decode_compact(b: &[u8]) -> (res: Option<(u32, &[u8])>)
    ensures
        match res {
            Some((n, rest)) => b@ == spec_scale_compact(n) + rest@,
            None => forall|n: u32| !(#[trigger] spec_scale_compact(n)).is_prefix_of(b@),
        },
{
    let mut input = b;
    match Compact::<u32>::decode(&mut input) {
        Ok(c) => Some((c.0, input)),
        Err(_) => None,
    }
}

/// The value of an ASCII hex digit of either case.
pub open spec fn spec_hex_digit(c: u8) -> Option<u8> {
    if 48 <= c <= 57 {
        Some((c - 48) as u8)
    } else if 65 <= c <= 70 {
        Some((c - 55) as u8)
    } else if 97 <= c <= 102 {
        Some((c - 87) as u8)
    } else {
        None
    }
}

/// The bytes a hex string denotes: two digits per byte, high digit first;
/// `None` for an odd length or a character that is not a hex digit.
pub open spec fn spec_hex_decode(s: Seq<u8>) -> Option<Seq<u8>> {
    if s.len() % 2 != 0 {
        None
    } else if exists|i: int| 0 <= i < s.len() && (#[trigger] spec_hex_digit(s[i])) is None {
        None
    } else {
        Some(Seq::new(s.len() / 2, |i: int|
            (spec_hex_digit(s[2 * i])->0 * 16 + spec_hex_digit(s[2 * i + 1])->0) as u8))
    }
}

/// Calls hex's `decode`.
/// Claims: the result is the byte string the hex text denotes, as the crate's
/// source computes it (odd lengths and non-digits refused, both cases accepted).
#[verifier::external_body]
pub(crate) fn hex_decode(s: &[u8]) -> (r: Option<Vec<u8>>)
    ensures
        match r {
            Some(v) => spec_hex_decode(s@) == Some(v@),
            None => spec_hex_decode(s@) is None,
        },
{
    match hex::decode(s) {
        Ok(v) => Some(v),
        Err(_) => None,
    }
}

/// The lowercase ASCII hex digit of a value below 16.
pub open spec fn spec_hex_char(d: int) -> u8 {
    if d < 10 { (48 + d) as u8 } else { (87 + d) as u8 }
}

/// The lowercase hex text of a byte string: two digits per byte, high digit first.
pub open spec fn spec_hex_encode(b: Seq<u8>) -> Seq<u8> {
    Seq::new(2 * b.len(), |i: int|
        if i % 2 == 0 { spec_hex_char((b[i / 2] as int) / 16) } else { spec_hex_char((b[i / 2] as int) % 16) })
}

/// Calls hex's `encode`.
/// Claims: the result is the lowercase hex text of the input, two digits per
/// byte with the high digit first, as the crate's source computes it.
#[verifier::external_body]
pub(crate) fn hex_encode(b: &[u8]) -> (r: Vec<u8>)
    requires
        2 * b@.len() <= isize::MAX,
    ensures
        r@ == spec_hex_encode(b@),
{
    hex::encode(b).into_bytes()
}

/// Calls std's `String::from_utf8`.
/// Claims: it succeeds exactly on valid UTF-8, and the string's UTF-8
/// encoding is the input.
#[verifier::external_body]
pub(crate) fn utf8_to_string(b: &[u8]) -> (res: Option<String>)
    ensures
        res is Some <==> valid_utf8(b@),
        res matches Some(s) ==> encode_utf8(s@) == b@,
{
    match String::from_utf8(b.to_vec()) {
        Ok(s) => Some(s),
        Err(_) => None,
    }
}

/// Appends the SCALE encoding of a byte vector.
pub fn push_scale_bytes(out: &mut Vec<u8>, b: &[u8])
    requires
        b@.len() <= u32::MAX,
    ensures
        final(out)@ == old(out)@ + spec_scale_bytes(b@),
{
    let len = scale_compact(b.len() as u32);
    append_bytes(out, len.as_slice());
    append_bytes(out, b);
}

/// Appends the SCALE encoding of a string.
pub fn push_scale_str(out: &mut Vec<u8>, s: &str)
    requires
        s.spec_bytes().len() <= u32::MAX,
    ensures
        final(out)@ == old(out)@ + spec_scale_str(s@),
{
    push_scale_bytes(out, s.as_bytes());
}

/// Encoded byte vectors are read back unambiguously: equal encodings followed
/// by anything come from equal vectors followed by equal bytes.
pub proof fn lemma_scale_bytes_unique(v1: Seq<u8>, v2: Seq<u8>, x: Seq<u8>, y: Seq<u8>)
    requires
        v1.len() <= u32::MAX,
        v2.len() <= u32::MAX,
        spec_scale_bytes(v1) + x == spec_scale_bytes(v2) + y,
    ensures
        v1 == v2,
        x == y,
{
    assert(spec_scale_bytes(v1) + x =~= spec_scale_compact(v1.len() as u32) + (v1 + x));
    assert(spec_scale_bytes(v2) + y =~= spec_scale_compact(v2.len() as u32) + (v2 + y));
    lemma_compact_unique(v1.len() as u32, v2.len() as u32, v1 + x, v2 + y);
    assert(v1 =~= (v1 + x).subrange(0, v1.len() as int));
    assert(v2 =~= (v2 + y).subrange(0, v2.len() as int));
    assert(x =~= (v1 + x).subrange(v1.len() as int, (v1 + x).len() as int));
    assert(y =~= (v2 + y).subrange(v2.len() as int, (v2 + y).len() as int));
}

/// Encoded strings are read back unambiguously: equal encodings followed by
/// anything come from equal strings followed by equal bytes.
pub proof fn lemma_scale_str_unique(s1: Seq<char>, s2: Seq<char>, x: Seq<u8>, y: Seq<u8>)
    requires
        encode_utf8(s1).len() <= u32::MAX,
        encode_utf8(s2).len() <= u32::MAX,
        spec_scale_str(s1) + x == spec_scale_str(s2) + y,
    ensures
        s1 == s2,
        x == y,
{
    let e1 = encode_utf8(s1);
    let e2 = encode_utf8(s2);
    assert(spec_scale_str(s1) + x =~= spec_scale_compact(e1.len() as u32) + (e1 + x));
    assert(spec_scale_str(s2) + y =~= spec_scale_compact(e2.len() as u32) + (e2 + y));
    lemma_compact_unique(e1.len() as u32, e2.len() as u32, e1 + x, e2 + y);
    assert(e1 =~= (e1 + x).subrange(0, e1.len() as int));
    assert(e2 =~= (e2 + y).subrange(0, e2.len() as int));
    assert(x =~= (e1 + x).subrange(e1.len() as int, (e1 + x).len() as int));
    assert(y =~= (e2 + y).subrange(e2.len() as int, (e2 + y).len() as int));
    vstd::utf8::encode_utf8_decode_utf8(s1);
    vstd::utf8::encode_utf8_decode_utf8(s2);
}

/// Reads a SCALE byte vector from the front of `b`: its compact length, then
/// that many bytes. Hands back the bytes and what follows them.
pub fn read_scale_bytes(b: &[u8]) -> (r: Option<(Vec<u8>, &[u8])>)
    ensures
        match r {
            Some((v, rest)) => v@.len() <= u32::MAX && b@ == spec_scale_bytes(v@) + rest@,
            None => forall|v: Seq<u8>, rest: Seq<u8>|
                v.len() <= u32::MAX ==> b@ != #[trigger] (spec_scale_bytes(v) + rest),
        },
{
    match scale_decode_compact(b) {
        None => {
            assert forall|v: Seq<u8>, rest: Seq<u8>|
                v.len() <= u32::MAX implies b@ != #[trigger] (spec_scale_bytes(v) + rest) by {
                if b@ == spec_scale_bytes(v) + rest {
                    let c = spec_scale_compact(v.len() as u32);
                    assert(b@ =~= c + (v + rest));
                    assert(c.is_prefix_of(b@));
                }
            }
            None
        }
        Some((n, rest1)) => {
            if rest1.len() < n as usize {
                assert forall|v: Seq<u8>, rest: Seq<u8>|
                    v.len() <= u32::MAX implies b@ != #[trigger] (spec_scale_bytes(v) + rest) by {
                    if b@ == spec_scale_bytes(v) + rest {
                        assert(b@ =~= spec_scale_compact(v.len() as u32) + (v + rest));
                        lemma_compact_unique(n, v.len() as u32, rest1@, v + rest);
                    }
                }
                return None;
            }
            let k = n as usize;
            let v = vstd::slice::slice_to_vec(vstd::slice::slice_subrange(rest1, 0, k));
            let rest = vstd::slice::slice_subrange(rest1, k, rest1.len());
            assert(rest1@ =~= v@ + rest@);
            assert(b@ =~= spec_scale_bytes(v@) + rest@);
            Some((v, rest))
        }
    }
}

/// Reads a SCALE string from the front of `b`: a byte vector that must be
/// valid UTF-8. Hands back the string and what follows it.
pub fn read_scale_string(b: &[u8]) -> (r: Option<(String, &[u8])>)
    ensures
        match r {
            Some((s, rest)) => encode_utf8(s@).len() <= u32::MAX && b@ == spec_scale_str(s@) + rest@,
            None => forall|s: Seq<char>, rest: Seq<u8>|
                encode_utf8(s).len() <= u32::MAX ==> b@ != #[trigger] (spec_scale_str(s) + rest),
        },
{
    match read_scale_bytes(b) {
        None => {
            assert forall|s: Seq<char>, rest: Seq<u8>|
                encode_utf8(s).len() <= u32::MAX implies b@ != #[trigger] (spec_scale_str(s) + rest) by {
                assert(spec_scale_str(s) + rest == spec_scale_bytes(encode_utf8(s)) + rest);
            }
            None
        }
        Some((v, rest)) => {
            match utf8_to_string(v.as_slice()) {
                Some(s) => Some((s, rest)),
                None => {
                    assert forall|s: Seq<char>, r2: Seq<u8>|
                        encode_utf8(s).len() <= u32::MAX implies b@ != #[trigger] (spec_scale_str(s) + r2) by {
                        if b@ == spec_scale_str(s) + r2 {
                            let e = encode_utf8(s);
                            assert(b@ =~= spec_scale_compact(e.len() as u32) + (e + r2));
                            assert(b@ =~= spec_scale_compact(v@.len() as u32) + (v@ + rest@));
                            lemma_compact_unique(e.len() as u32, v@.len() as u32, e + r2, v@ + rest@);
                            assert(e =~= (e + r2).subrange(0, e.len() as int));
                            assert(v@ =~= (v@ + rest@).subrange(0, v@.len() as int));
                            vstd::utf8::encode_utf8_valid_utf8(s);
                        }
                    }
                    None
                }
            }
        }
    }
}

} // verus!
