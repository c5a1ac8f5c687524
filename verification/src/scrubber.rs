//! The scrub-on-export airlock: detected secrets and personal data are cut
//! out of a text and replaced by placeholders, and each cut is recorded with
//! the hash of what it removed, so that it can be checked later. The
//! detections come from the local safety model.

use vstd::prelude::*;
use vstd::string::StringSliceAdditionalSpecFns;
use vstd::utf8::{encode_utf8, is_char_boundary, valid_utf8};
use crate::agent::str_is;
use crate::bytes::{append_bytes, read_array};
use crate::codec::utf8_to_string;
use crate::crypto::{sha256, sha256_spec};

verus! {

/// A detection: the byte range `[start, end)` of the input and its category.
pub type Detection = (usize, usize, String);

/// The kind of a redaction.
#[derive(Debug, Clone, Copy, PartialEq, Eq, Structural)]
pub enum RedactionType {
    /// Personal data.
    Pii,
    /// A secret such as an API key.
    Secret,
}

/// One redaction: where it was in the original input, what kind it was and
/// the hash of the removed bytes.
#[derive(Debug, Clone, Copy)]
pub struct RedactionEntry {
    pub start_index: u32,
    pub end_index: u32,
    pub redaction_type: RedactionType,
    pub original_hash: [u8; 32],
}

/// All redactions of one scrub, in order.
#[derive(Debug, Clone)]
pub struct RedactionMap {
    pub entries: Vec<RedactionEntry>,
}

/// A redaction as mathematical values.
pub struct RedactionView {
    pub start_index: u32,
    pub end_index: u32,
    pub redaction_type: RedactionType,
    pub original_hash: Seq<u8>,
}

impl RedactionEntry {
    pub open spec fn view(&self) -> RedactionView {
        RedactionView {
            start_index: self.start_index,
            end_index: self.end_index,
            redaction_type: self.redaction_type,
            original_hash: self.original_hash@,
        }
    }
}

/// Whether a detection starts at `k`.
pub open spec fn starts_at(k: usize) -> spec_fn(Detection) -> bool {
    |d: Detection| d.0 == k
}

/// The detections that start at `k`, in order.
pub open spec fn spec_with_start(s: Seq<Detection>, k: usize) -> Seq<Detection> {
    s.filter(starts_at(k))
}

/// Whether detections are ordered by start.
pub open spec fn spec_sorted_by_start(s: Seq<Detection>) -> bool {
    forall|i: int, j: int| 0 <= i <= j < s.len() ==> (#[trigger] s[i]).0 <= (#[trigger] s[j]).0
}

/// Whether `r` is `v` sorted by start, stably: detections with one start keep their order.
pub open spec fn spec_stable_sort_of(r: Seq<Detection>, v: Seq<Detection>) -> bool {
    &&& spec_sorted_by_start(r)
    &&& forall|k: usize| #[trigger] spec_with_start(r, k) == spec_with_start(v, k)
}

/// Calls std's `slice::sort_by_key`, keyed by the start of each detection.
/// Claims what std documents: the result is sorted by the key and the sort is
/// stable, so the detections of each start keep their order.
#[verifier::external_body]
fn sort_by_start(v: &mut Vec<Detection>)
    ensures
        spec_stable_sort_of(final(v)@, old(v)@),
{
    v.sort_by_key(|d| d.0);
}

/// The placeholder that replaces a redacted range: `<REDACTED:category>`.
pub open spec fn spec_placeholder(category: Seq<char>) -> Seq<u8> {
    encode_utf8("<REDACTED:"@) + encode_utf8(category) + encode_utf8(">"@)
}

/// The kind of a category: `API_KEY` is a secret, everything else personal data.
pub open spec fn spec_redaction_type(category: Seq<char>) -> RedactionType {
    if category == "API_KEY"@ { RedactionType::Secret } else { RedactionType::Pii }
}

/// Scrubs the input bytes `b` from position `last` on with the sorted
/// detections `d`: a detection that starts before `last` overlaps the previous
/// one and is skipped; otherwise the text up to it is kept, the range is
/// replaced by its placeholder and recorded, and the scan goes on after it.
/// The result is the output bytes and the redactions.
pub open spec fn spec_scrub_from(b: Seq<u8>, d: Seq<Detection>, last: int) -> (Seq<u8>, Seq<RedactionView>)
    decreases d.len(),
{
    if d.len() == 0 {
        (if last < b.len() { b.subrange(last, b.len() as int) } else { Seq::empty() }, Seq::empty())
    } else {
        let s = d[0].0 as int;
        let e = d[0].1 as int;
        if s < last {
            spec_scrub_from(b, d.drop_first(), last)
        } else {
            let rest = spec_scrub_from(b, d.drop_first(), e);
            (
                b.subrange(last, s) + spec_placeholder(d[0].2@) + rest.0,
                seq![RedactionView {
                    start_index: d[0].0 as u32,
                    end_index: d[0].1 as u32,
                    redaction_type: spec_redaction_type(d[0].2@),
                    original_hash: sha256_spec(b.subrange(s, e)),
                }] + rest.1,
            )
        }
    }
}

/// Whether every detection the scrub uses from `last` on is a range of the
/// input whose ends are character boundaries (others would split a character).
pub open spec fn spec_scrub_ok(b: Seq<u8>, d: Seq<Detection>, last: int) -> bool
    decreases d.len(),
{
    if d.len() == 0 {
        true
    } else {
        let s = d[0].0 as int;
        let e = d[0].1 as int;
        if s < last {
            spec_scrub_ok(b, d.drop_first(), last)
        } else {
            &&& s <= e <= b.len()
            &&& is_char_boundary(b, s)
            &&& is_char_boundary(b, e)
            &&& spec_scrub_ok(b, d.drop_first(), e)
        }
    }
}

pub(crate) proof fn lemma_valid_piece(b: Seq<u8>, i: int, j: int)
    requires
        valid_utf8(b),
        0 <= i <= j <= b.len(),
        is_char_boundary(b, i),
        is_char_boundary(b, j),
    ensures
        valid_utf8(b.subrange(i, j)),
{
    vstd::utf8::valid_utf8_split(b, i);
    let t = b.subrange(i, b.len() as int);
    if j == b.len() {
        vstd::utf8::is_char_boundary_start_end_of_seq(t);
    } else {
        vstd::utf8::is_char_boundary_iff_not_is_continuation_byte(b, j);
        vstd::utf8::is_char_boundary_iff_not_is_continuation_byte(t, j - i);
        assert(t[j - i] == b[j]);
    }
    vstd::utf8::valid_utf8_split(t, j - i);
    assert(t.subrange(0, j - i) =~= b.subrange(i, j));
}

/// Cuts the detected ranges out of `input`: detections are taken in order of
/// their start, overlapping ones are skipped, each range is replaced by
/// `<REDACTED:category>` and recorded with the hash of the removed bytes.
pub fn scrub(input: &str, detections: Vec<Detection>) -> (r: (String, RedactionMap))
    requires
        input.spec_bytes().len() < 0x2000_0000_0000_0000,
        forall|d: Seq<Detection>| #[trigger] spec_stable_sort_of(d, detections@) ==> spec_scrub_ok(input.spec_bytes(), d, 0),
    ensures
        exists|d: Seq<Detection>| #[trigger] spec_stable_sort_of(d, detections@)
            && spec_scrub_from(input.spec_bytes(), d, 0)
                == (encode_utf8(r.0@), r.1.entries@.map_values(|e: RedactionEntry| e.view())),
{
    let b = input.as_bytes();
    let ghost bs = input.spec_bytes();
    proof {
        vstd::utf8::encode_utf8_valid_utf8(input@);
        vstd::utf8::is_char_boundary_start_end_of_seq(bs);
    }
    let mut sorted = detections;
    sort_by_start(&mut sorted);
    let ghost d = sorted@;
    let mut out: Vec<u8> = Vec::new();
    let mut entries: Vec<RedactionEntry> = Vec::new();
    let mut last: usize = 0;
    let n = sorted.len();
    let mut i: usize = 0;
    proof {
        assert(d.skip(0) =~= d);
        assert(spec_stable_sort_of(d, detections@));
        let whole = spec_scrub_from(bs, d, 0);
        assert(whole.0 =~= out@ + whole.0);
        assert(whole.1 =~= entries@.map_values(|e: RedactionEntry| e.view()) + whole.1);
    }
    while i < n
        invariant
            n == sorted@.len(),
            d == sorted@,
            b@ == bs,
            valid_utf8(bs),
            bs.len() < 0x2000_0000_0000_0000,
            i <= n,
            last <= bs.len(),
            is_char_boundary(bs, last as int),
            valid_utf8(out@),
            spec_scrub_ok(bs, d.skip(i as int), last as int),
            ({
                let whole = spec_scrub_from(bs, d, 0);
                let rest = spec_scrub_from(bs, d.skip(i as int), last as int);
                &&& whole.0 == out@ + rest.0
                &&& whole.1 == entries@.map_values(|e: RedactionEntry| e.view()) + rest.1
            }),
        decreases n - i,
    {
        let ghost suffix = d.skip(i as int);
        assert(suffix[0] == d[i as int]);
        assert(suffix.drop_first() =~= d.skip(i + 1));
        let start = sorted[i].0;
        let end = sorted[i].1;
        if start >= last {
            proof {
                lemma_valid_piece(bs, last as int, start as int);
                lemma_valid_piece(bs, start as int, end as int);
            }
            let ghost before_out = out@;
            let ghost before_entries = entries@.map_values(|e: RedactionEntry| e.view());
            let keep = vstd::slice::slice_subrange(b, last, start);
            append_bytes(&mut out, keep);
            let secret = vstd::slice::slice_subrange(b, start, end);
            let digest = match sha256(secret) {
                Some(h) => h,
                None => Vec::new(),
            };
            let hash: [u8; 32] = read_array(digest.as_slice(), 0);
            let category = sorted[i].2.as_str();
            let kind = if str_is(category, "API_KEY") { RedactionType::Secret } else { RedactionType::Pii };
            let entry = RedactionEntry { start_index: #[verifier::truncate] (start as u32), end_index: #[verifier::truncate] (end as u32), redaction_type: kind, original_hash: hash };
            entries.push(entry);
            append_bytes(&mut out, "<REDACTED:".as_bytes());
            append_bytes(&mut out, category.as_bytes());
            append_bytes(&mut out, ">".as_bytes());
            proof {
                assert(hash@ =~= digest@);
                assert(keep@ =~= bs.subrange(last as int, start as int));
                let ph = spec_placeholder(category@);
                assert(out@ =~= before_out + bs.subrange(last as int, start as int) + ph);
                vstd::utf8::encode_utf8_valid_utf8("<REDACTED:"@);
                vstd::utf8::encode_utf8_valid_utf8(category@);
                vstd::utf8::encode_utf8_valid_utf8(">"@);
                vstd::utf8::valid_utf8_concat(before_out, bs.subrange(last as int, start as int));
                vstd::utf8::valid_utf8_concat(encode_utf8("<REDACTED:"@), encode_utf8(category@));
                vstd::utf8::valid_utf8_concat(encode_utf8("<REDACTED:"@) + encode_utf8(category@), encode_utf8(">"@));
                vstd::utf8::valid_utf8_concat(before_out + bs.subrange(last as int, start as int), ph);
                assert(entries@.map_values(|e: RedactionEntry| e.view()) =~= before_entries.push(entry.view()));
                let rest = spec_scrub_from(bs, d.skip(i + 1), end as int);
                assert(spec_scrub_from(bs, suffix, last as int).1 =~= seq![entry.view()] + rest.1);
                assert(before_entries + (seq![entry.view()] + rest.1) =~= before_entries.push(entry.view()) + rest.1);
                assert(before_out + (bs.subrange(last as int, start as int) + ph + rest.0) =~= out@ + rest.0);
            }
            last = end;
        }
        i = i + 1;
    }
    proof {
        assert(d.skip(n as int) =~= Seq::<Detection>::empty());
    }
    if last < b.len() {
        let tail = vstd::slice::slice_subrange(b, last, b.len());
        proof {
            lemma_valid_piece(bs, last as int, bs.len() as int);
            vstd::utf8::valid_utf8_concat(out@, tail@);
        }
        append_bytes(&mut out, tail);
    }
    proof {
        assert(out@ == spec_scrub_from(bs, d, 0).0);
    }
    let text = match utf8_to_string(out.as_slice()) {
        Some(s) => s,
        None => String::new(),
    };
    (text, RedactionMap { entries })
}

proof fn lemma_filter_empty(s: Seq<Detection>, k: usize)
    requires
        s.len() == 0,
    ensures
        spec_with_start(s, k).len() == 0,
{
    reveal(Seq::filter);
}

proof fn lemma_head_in_filter(s: Seq<Detection>)
    requires
        s.len() > 0,
    ensures
        spec_with_start(s, s[0].0).contains(s[0]),
{
    s.lemma_filter_contains(starts_at(s[0].0), 0);
}

proof fn lemma_with_start_prepend(x: Detection, s: Seq<Detection>, k: usize)
    ensures
        spec_with_start(seq![x] + s, k) == if x.0 == k { seq![x] + spec_with_start(s, k) } else { spec_with_start(s, k) },
{
    s.lemma_filter_prepend(x, starts_at(k));
    if x.0 != k {
        assert(Seq::<Detection>::empty() + spec_with_start(s, k) =~= spec_with_start(s, k));
    }
}

proof fn lemma_same_filters_equal(r1: Seq<Detection>, r2: Seq<Detection>)
    requires
        spec_sorted_by_start(r1),
        spec_sorted_by_start(r2),
        forall|k: usize| #[trigger] spec_with_start(r1, k) == spec_with_start(r2, k),
    ensures
        r1 == r2,
    decreases r1.len(),
{
    if r1.len() == 0 {
        if r2.len() > 0 {
            lemma_head_in_filter(r2);
            lemma_filter_empty(r1, r2[0].0);
            assert(spec_with_start(r1, r2[0].0) == spec_with_start(r2, r2[0].0));
        }
        assert(r1 =~= r2);
    } else if r2.len() == 0 {
        lemma_head_in_filter(r1);
        lemma_filter_empty(r2, r1[0].0);
        assert(spec_with_start(r1, r1[0].0) == spec_with_start(r2, r1[0].0));
    } else {
        let a = r1[0];
        let b = r2[0];
        lemma_head_in_filter(r1);
        lemma_head_in_filter(r2);
        assert(spec_with_start(r1, a.0) == spec_with_start(r2, a.0));
        assert(spec_with_start(r1, b.0) == spec_with_start(r2, b.0));
        r2.lemma_filter_contains_rev(starts_at(a.0), a);
        r1.lemma_filter_contains_rev(starts_at(b.0), b);
        let j2 = choose|j: int| 0 <= j < r2.len() && r2[j] == a;
        let j1 = choose|j: int| 0 <= j < r1.len() && r1[j] == b;
        assert(r2[0].0 <= r2[j2].0);
        assert(r1[0].0 <= r1[j1].0);
        let m = a.0;
        let t1 = r1.drop_first();
        let t2 = r2.drop_first();
        assert(r1 =~= seq![a] + t1);
        assert(r2 =~= seq![b] + t2);
        assert forall|k: usize| #[trigger] spec_with_start(t1, k) == spec_with_start(t2, k) by {
            lemma_with_start_prepend(a, t1, k);
            lemma_with_start_prepend(b, t2, k);
            assert(spec_with_start(r1, k) == spec_with_start(r2, k));
            if k == m {
                let f1 = spec_with_start(t1, k);
                let f2 = spec_with_start(t2, k);
                assert((seq![a] + f1).drop_first() =~= f1);
                assert((seq![b] + f2).drop_first() =~= f2);
            } else {
                assert(Seq::<Detection>::empty() + spec_with_start(t1, k) =~= spec_with_start(t1, k));
                assert(Seq::<Detection>::empty() + spec_with_start(t2, k) =~= spec_with_start(t2, k));
            }
        }
        lemma_with_start_prepend(a, t1, m);
        lemma_with_start_prepend(b, t2, m);
        assert(spec_with_start(r1, m) == spec_with_start(r2, m));
        assert(b.0 == m);
        assert(spec_with_start(r1, m) == seq![a] + spec_with_start(t1, m));
        assert(spec_with_start(r2, m) == seq![b] + spec_with_start(t2, m));
        assert((seq![a] + spec_with_start(t1, m))[0] == a);
        assert((seq![b] + spec_with_start(t2, m))[0] == b);
        assert(a == b);
        assert forall|i: int, j: int| 0 <= i <= j < t1.len() implies (#[trigger] t1[i]).0 <= (#[trigger] t1[j]).0 by {
            assert(t1[i] == r1[i + 1] && t1[j] == r1[j + 1]);
        }
        assert forall|i: int, j: int| 0 <= i <= j < t2.len() implies (#[trigger] t2[i]).0 <= (#[trigger] t2[j]).0 by {
            assert(t2[i] == r2[i + 1] && t2[j] == r2[j + 1]);
        }
        lemma_same_filters_equal(t1, t2);
        assert(r1 =~= r2);
    }
}

/// The stable sort by start is unique, so the scrub's result is determined
/// by its input: two stable sorts of the same detections are equal.
pub proof fn lemma_stable_sort_unique(r1: Seq<Detection>, r2: Seq<Detection>, v: Seq<Detection>)
    requires
        spec_stable_sort_of(r1, v),
        spec_stable_sort_of(r2, v),
    ensures
        r1 == r2,
{
    assert forall|k: usize| #[trigger] spec_with_start(r1, k) == spec_with_start(r2, k) by {
        assert(spec_with_start(r1, k) == spec_with_start(v, k));
        assert(spec_with_start(r2, k) == spec_with_start(v, k));
    }
    lemma_same_filters_equal(r1, r2);
}

} // verus!
