//! Detection of secret keys in text, as the local safety model reports them
//! to the scrubber: byte ranges with a label.

use vstd::prelude::*;
use vstd::string::{StringExecFns, StringSliceAdditionalSpecFns};
use vstd::utf8::encode_utf8;

verus! {

/// Whether `pat` occurs in `s` at byte `i`.
pub open spec fn spec_occurs_at(s: Seq<u8>, pat: Seq<u8>, i: int) -> bool {
    0 <= i && i + pat.len() <= s.len() && s.subrange(i, i + pat.len()) == pat
}

/// The starts of the non-overlapping occurrences of `pat` in `s` from byte
/// `from` on, found left to right: each search resumes after the previous
/// occurrence.
pub open spec fn spec_match_starts(s: Seq<u8>, pat: Seq<u8>, from: int) -> Seq<int>
    decreases s.len() - from,
{
    if pat.len() == 0 || from < 0 || from + pat.len() > s.len() {
        Seq::empty()
    } else if spec_occurs_at(s, pat, from) {
        seq![from] + spec_match_starts(s, pat, from + pat.len())
    } else {
        spec_match_starts(s, pat, from + 1)
    }
}

/// The prefix of API keys the detector looks for. (`sk_live_`)
pub open spec fn spec_key_marker() -> Seq<u8> {
    seq![115u8, 107u8, 95u8, 108u8, 105u8, 118u8, 101u8, 95u8]
}

/// The findings for the key starts: each key runs 32 bytes from its start,
/// cut at the end of the input, and is labelled `API_KEY`.
pub open spec fn spec_findings(starts: Seq<int>, len: nat) -> Seq<(int, int)> {
    starts.map_values(|i: int| (i, if i + 32 <= len { i + 32 } else { len as int }))
}

/// Whether a finding is the key range `e` labelled `API_KEY`.
pub open spec fn spec_finding_is(f: (usize, usize, String), e: (int, int)) -> bool {
    f.0 == e.0 && f.1 == e.1 && f.2@ == "API_KEY"@
}

fn occurs_at(s: &[u8], pat: &[u8], i: usize) -> (r: bool)
    requires
        i + pat@.len() <= s@.len(),
    ensures
        r == spec_occurs_at(s@, pat@, i as int),
{
    let sl = s.len();
    let pl = pat.len();
    assert(i + pl <= sl);
    let piece = vstd::slice::slice_subrange(s, i, i + pl);
    crate::bytes::bytes_eq(piece, pat)
}

/// Finds secret keys in text: every `sk_live_` occurrence, left to right
/// without overlap, as the byte range of the 32 bytes from its start (cut at
/// the end of the text) and the label `API_KEY`.
pub fn detect_pii(input: &str) -> (r: Vec<(usize, usize, String)>)
    ensures
        r@.len() == spec_match_starts(input.spec_bytes(), spec_key_marker(), 0).len(),
        forall|k: int| 0 <= k < r@.len() ==> #[trigger] spec_finding_is(r@[k],
            spec_findings(spec_match_starts(input.spec_bytes(), spec_key_marker(), 0), input.spec_bytes().len())[k]),
{
    let s = input.as_bytes();
    let pat: [u8; 8] = [115u8, 107u8, 95u8, 108u8, 105u8, 118u8, 101u8, 95u8];
    assert(pat@ =~= spec_key_marker());
    let n = s.len();
    let mut out: Vec<(usize, usize, String)> = Vec::new();
    let ghost mut starts: Seq<int> = Seq::empty();
    let mut i: usize = 0;
    while i < n && n - i >= 8
        invariant
            n == s@.len(),
            s@ == input.spec_bytes(),
            pat@ == spec_key_marker(),
            i <= n,
            spec_match_starts(s@, pat@, 0) == starts + spec_match_starts(s@, pat@, i as int),
            out@.len() == starts.len(),
            forall|k: int| 0 <= k < out@.len() ==> #[trigger] spec_finding_is(out@[k], spec_findings(starts, n as nat)[k]),
        decreases n - i,
    {
        if occurs_at(s, pat.as_slice(), i) {
            let end = if n - i >= 32 { i + 32 } else { n };
            out.push((i, end, String::from_str("API_KEY")));
            proof {
                reveal_strlit("API_KEY");
                let old_starts = starts;
                starts = starts.push(i as int);
                assert(seq![i as int] + spec_match_starts(s@, pat@, i + 8) =~= spec_match_starts(s@, pat@, i as int));
                assert(old_starts + spec_match_starts(s@, pat@, i as int) =~= starts + spec_match_starts(s@, pat@, i + 8));
                assert forall|k: int| 0 <= k < out@.len() implies #[trigger] spec_finding_is(out@[k], spec_findings(starts, n as nat)[k]) by {
                    if k < old_starts.len() {
                        assert(spec_findings(starts, n as nat)[k] == spec_findings(old_starts, n as nat)[k]);
                        assert(spec_finding_is(out@[k], spec_findings(old_starts, n as nat)[k]));
                    }
                }
            }
            i = i + 8;
        } else {
            proof {
                assert(spec_match_starts(s@, pat@, i as int) == spec_match_starts(s@, pat@, i + 1));
            }
            i = i + 1;
        }
    }
    proof {
        assert(spec_match_starts(s@, pat@, i as int) =~= Seq::<int>::empty());
        assert(starts + Seq::<int>::empty() =~= starts);
    }
    out
}

} // verus!
