//! Reading stored proposals back: a proposal and the entry that wraps it are
//! decoded from the front of a stored value, as the canonical (SCALE) decoder
//! does; bytes after the encoding are left over.

use vstd::prelude::*;
use vstd::bytes::*;
use vstd::utf8::encode_utf8;
use crate::codec::{
    lemma_scale_bytes_unique, lemma_scale_str_unique, read_scale_bytes, read_scale_string, spec_scale_bytes,
    spec_scale_str,
};
use crate::governance::{
    proposal_key, spec_entry_bytes, spec_opt_tally_bytes, spec_proposal_bytes, spec_proposal_key, spec_status_index, Proposal,
    ProposalStatus, ProposalType, TallyResult,
};
use crate::state::StateMap;

verus! {

/// The kind of a proposal as a value.
pub enum ProposalTypeView {
    Text,
    Custom(Seq<char>),
}

/// A proposal as a value.
pub struct ProposalView {
    pub id: u64,
    pub title: Seq<char>,
    pub description: Seq<char>,
    pub proposal_type: ProposalTypeView,
    pub status: ProposalStatus,
    pub submitter: Seq<u8>,
    pub submit_height: u64,
    pub deposit_end_height: u64,
    pub voting_start_height: u64,
    pub voting_end_height: u64,
    pub total_deposit: u64,
    pub final_tally: Option<TallyResult>,
}

/// The value of a proposal kind.
pub open spec fn proposal_type_view(t: ProposalType) -> ProposalTypeView {
    match t {
        ProposalType::Text => ProposalTypeView::Text,
        ProposalType::Custom(c) => ProposalTypeView::Custom(c@),
    }
}

/// The value of a proposal.
pub open spec fn proposal_view(p: Proposal) -> ProposalView {
    ProposalView {
        id: p.id,
        title: p.title@,
        description: p.description@,
        proposal_type: proposal_type_view(p.proposal_type),
        status: p.status,
        submitter: p.submitter@,
        submit_height: p.submit_height,
        deposit_end_height: p.deposit_end_height,
        voting_start_height: p.voting_start_height,
        voting_end_height: p.voting_end_height,
        total_deposit: p.total_deposit,
        final_tally: p.final_tally,
    }
}

/// The encoding of a proposal kind: `0`, or `1` and the custom name.
pub open spec fn spec_type_view_bytes(t: ProposalTypeView) -> Seq<u8> {
    match t {
        ProposalTypeView::Text => seq![0u8],
        ProposalTypeView::Custom(c) => seq![1u8] + spec_scale_str(c),
    }
}

/// Whether the strings and the submitter of a proposal fit the encoding's `u32` lengths.
pub open spec fn spec_view_fits(v: ProposalView) -> bool {
    &&& encode_utf8(v.title).len() <= u32::MAX
    &&& encode_utf8(v.description).len() <= u32::MAX
    &&& (v.proposal_type matches ProposalTypeView::Custom(c) ==> encode_utf8(c).len() <= u32::MAX)
    &&& v.submitter.len() <= u32::MAX
}

/// The encoding of the last fields of a proposal: the submitter, the heights,
/// the deposit and the optional tally.
pub open spec fn spec_tail5_of(submitter: Seq<u8>, submit_height: u64, deposit_end_height: u64, voting_start_height: u64,
    voting_end_height: u64, total_deposit: u64, final_tally: Option<TallyResult>) -> Seq<u8>
{
    spec_scale_bytes(submitter) + (spec_u64_to_le_bytes(submit_height) + (spec_u64_to_le_bytes(deposit_end_height)
        + (spec_u64_to_le_bytes(voting_start_height) + (spec_u64_to_le_bytes(voting_end_height)
        + (spec_u64_to_le_bytes(total_deposit) + spec_opt_tally_bytes(final_tally))))))
}

/// The encoding of a proposal from its submitter on.
pub open spec fn spec_tail5(v: ProposalView) -> Seq<u8> {
    spec_tail5_of(v.submitter, v.submit_height, v.deposit_end_height, v.voting_start_height, v.voting_end_height,
        v.total_deposit, v.final_tally)
}

/// The encoding of a proposal from its status on.
pub open spec fn spec_tail4(v: ProposalView) -> Seq<u8> {
    seq![spec_status_index(v.status)] + spec_tail5(v)
}

/// The encoding of a proposal from its kind on.
pub open spec fn spec_tail3(v: ProposalView) -> Seq<u8> {
    spec_type_view_bytes(v.proposal_type) + spec_tail4(v)
}

/// The encoding of a proposal from its description on.
pub open spec fn spec_tail2(v: ProposalView) -> Seq<u8> {
    spec_scale_str(v.description) + spec_tail3(v)
}

/// The encoding of a proposal from its title on.
pub open spec fn spec_tail1(v: ProposalView) -> Seq<u8> {
    spec_scale_str(v.title) + spec_tail2(v)
}

/// The encoding of a proposal: its fields in order, integers little-endian,
/// strings and the submitter length-prefixed.
pub open spec fn spec_view_bytes(v: ProposalView) -> Seq<u8> {
    spec_u64_to_le_bytes(v.id) + spec_tail1(v)
}

/// A proposal encodes as its value does.
pub proof fn lemma_proposal_bytes_view(p: Proposal)
    ensures
        spec_proposal_bytes(p) == spec_view_bytes(proposal_view(p)),
{
    let v = proposal_view(p);
    assert(spec_type_view_bytes(v.proposal_type) == crate::governance::spec_proposal_type_bytes(p.proposal_type));
    let c0 = spec_u64_to_le_bytes(v.id);
    let c1 = spec_scale_str(v.title);
    let c2 = spec_scale_str(v.description);
    let c3 = spec_type_view_bytes(v.proposal_type);
    let c4 = seq![spec_status_index(v.status)];
    let c5 = spec_scale_bytes(v.submitter);
    let c6 = spec_u64_to_le_bytes(v.submit_height);
    let c7 = spec_u64_to_le_bytes(v.deposit_end_height);
    let c8 = spec_u64_to_le_bytes(v.voting_start_height);
    let c9 = spec_u64_to_le_bytes(v.voting_end_height);
    let c10 = spec_u64_to_le_bytes(v.total_deposit);
    let c11 = spec_opt_tally_bytes(v.final_tally);
    let r10 = c10 + c11;
    let r9 = c9 + r10;
    let r8 = c8 + r9;
    let r7 = c7 + r8;
    let r6 = c6 + r7;
    let r5 = c5 + r6;
    let r4 = c4 + r5;
    let r3 = c3 + r4;
    let r2 = c2 + r3;
    let r1 = c1 + r2;
    let l1 = c0 + c1;
    let l2 = l1 + c2;
    let l3 = l2 + c3;
    let l4 = l3 + c4;
    let l5 = l4 + c5;
    let l6 = l5 + c6;
    let l7 = l6 + c7;
    let l8 = l7 + c8;
    let l9 = l8 + c9;
    let l10 = l9 + c10;
    vstd::seq_lib::lemma_concat_associative(c0, c1, r2);
    vstd::seq_lib::lemma_concat_associative(l1, c2, r3);
    vstd::seq_lib::lemma_concat_associative(l2, c3, r4);
    vstd::seq_lib::lemma_concat_associative(l3, c4, r5);
    vstd::seq_lib::lemma_concat_associative(l4, c5, r6);
    vstd::seq_lib::lemma_concat_associative(l5, c6, r7);
    vstd::seq_lib::lemma_concat_associative(l6, c7, r8);
    vstd::seq_lib::lemma_concat_associative(l7, c8, r9);
    vstd::seq_lib::lemma_concat_associative(l8, c9, r10);
    vstd::seq_lib::lemma_concat_associative(l9, c10, c11);
    assert(spec_view_bytes(v) == c0 + r1);
    assert(spec_proposal_bytes(p) == l10 + c11);
}

proof fn lemma_u64_unique(a: u64, b: u64, x: Seq<u8>, y: Seq<u8>)
    requires
        spec_u64_to_le_bytes(a) + x == spec_u64_to_le_bytes(b) + y,
    ensures
        a == b,
        x == y,
{
    lemma_auto_spec_u64_to_from_le_bytes();
    let s = spec_u64_to_le_bytes(a) + x;
    assert(spec_u64_to_le_bytes(a) =~= s.subrange(0, 8));
    assert(spec_u64_to_le_bytes(b) =~= s.subrange(0, 8));
    assert(x =~= s.subrange(8, s.len() as int));
    assert(y =~= s.subrange(8, s.len() as int));
}

proof fn lemma_type_unique(t: ProposalTypeView, u: ProposalTypeView, x: Seq<u8>, y: Seq<u8>)
    requires
        t matches ProposalTypeView::Custom(c) ==> encode_utf8(c).len() <= u32::MAX,
        u matches ProposalTypeView::Custom(c) ==> encode_utf8(c).len() <= u32::MAX,
        spec_type_view_bytes(t) + x == spec_type_view_bytes(u) + y,
    ensures
        t == u,
        x == y,
{
    let s = spec_type_view_bytes(t) + x;
    assert(s[0] == spec_type_view_bytes(t)[0]);
    assert(s[0] == spec_type_view_bytes(u)[0]);
    match (t, u) {
        (ProposalTypeView::Text, ProposalTypeView::Text) => {
            assert(x =~= s.subrange(1, s.len() as int));
            assert(y =~= s.subrange(1, s.len() as int));
        }
        (ProposalTypeView::Custom(c), ProposalTypeView::Custom(d)) => {
            assert(spec_scale_str(c) + x =~= s.subrange(1, s.len() as int));
            assert(spec_scale_str(d) + y =~= s.subrange(1, s.len() as int));
            lemma_scale_str_unique(c, d, x, y);
        }
        _ => {}
    }
}

proof fn lemma_tally_unique(t: Option<TallyResult>, u: Option<TallyResult>, x: Seq<u8>, y: Seq<u8>)
    requires
        spec_opt_tally_bytes(t) + x == spec_opt_tally_bytes(u) + y,
    ensures
        t == u,
        x == y,
{
    let s = spec_opt_tally_bytes(t) + x;
    assert(s[0] == spec_opt_tally_bytes(t)[0]);
    assert(s[0] == spec_opt_tally_bytes(u)[0]);
    match (t, u) {
        (None, None) => {
            assert(x =~= s.subrange(1, s.len() as int));
            assert(y =~= s.subrange(1, s.len() as int));
        }
        (Some(a), Some(b)) => {
            let s1 = s.subrange(1, s.len() as int);
            assert(s1 =~= spec_u64_to_le_bytes(a.yes) + (spec_u64_to_le_bytes(a.no) + (spec_u64_to_le_bytes(a.no_with_veto)
                + (spec_u64_to_le_bytes(a.abstain) + x))));
            assert(s1 =~= spec_u64_to_le_bytes(b.yes) + (spec_u64_to_le_bytes(b.no) + (spec_u64_to_le_bytes(b.no_with_veto)
                + (spec_u64_to_le_bytes(b.abstain) + y))));
            lemma_u64_unique(a.yes, b.yes, spec_u64_to_le_bytes(a.no) + (spec_u64_to_le_bytes(a.no_with_veto)
                + (spec_u64_to_le_bytes(a.abstain) + x)), spec_u64_to_le_bytes(b.no) + (spec_u64_to_le_bytes(b.no_with_veto)
                + (spec_u64_to_le_bytes(b.abstain) + y)));
            lemma_u64_unique(a.no, b.no, spec_u64_to_le_bytes(a.no_with_veto) + (spec_u64_to_le_bytes(a.abstain) + x),
                spec_u64_to_le_bytes(b.no_with_veto) + (spec_u64_to_le_bytes(b.abstain) + y));
            lemma_u64_unique(a.no_with_veto, b.no_with_veto, spec_u64_to_le_bytes(a.abstain) + x, spec_u64_to_le_bytes(b.abstain) + y);
            lemma_u64_unique(a.abstain, b.abstain, x, y);
        }
        _ => {}
    }
}

proof fn lemma_status_unique(a: ProposalStatus, b: ProposalStatus, x: Seq<u8>, y: Seq<u8>)
    requires
        seq![spec_status_index(a)] + x == seq![spec_status_index(b)] + y,
    ensures
        a == b,
        x == y,
{
    let s = seq![spec_status_index(a)] + x;
    assert(s[0] == spec_status_index(a));
    assert(s[0] == spec_status_index(b));
    assert(x =~= s.subrange(1, s.len() as int));
    assert(y =~= s.subrange(1, s.len() as int));
}

/// Proposals are read back unambiguously from the front of a value.
pub proof fn lemma_view_unique(v: ProposalView, w: ProposalView, x: Seq<u8>, y: Seq<u8>)
    requires
        spec_view_fits(v),
        spec_view_fits(w),
        spec_view_bytes(v) + x == spec_view_bytes(w) + y,
    ensures
        v == w,
        x == y,
{
    vstd::seq_lib::lemma_concat_associative(spec_u64_to_le_bytes(v.id), spec_tail1(v), x);
    vstd::seq_lib::lemma_concat_associative(spec_u64_to_le_bytes(w.id), spec_tail1(w), y);
    lemma_u64_unique(v.id, w.id, spec_tail1(v) + x, spec_tail1(w) + y);
    lemma_tail1_unique(v, w, x, y);
    lemma_tail5_unique(v, w, x, y);
}

proof fn lemma_tail1_unique(v: ProposalView, w: ProposalView, x: Seq<u8>, y: Seq<u8>)
    requires
        spec_view_fits(v),
        spec_view_fits(w),
        spec_tail1(v) + x == spec_tail1(w) + y,
    ensures
        v.title == w.title,
        v.description == w.description,
        v.proposal_type == w.proposal_type,
        v.status == w.status,
        spec_tail5(v) + x == spec_tail5(w) + y,
{
    vstd::seq_lib::lemma_concat_associative(spec_scale_str(v.title), spec_tail2(v), x);
    vstd::seq_lib::lemma_concat_associative(spec_scale_str(w.title), spec_tail2(w), y);
    lemma_scale_str_unique(v.title, w.title, spec_tail2(v) + x, spec_tail2(w) + y);
    vstd::seq_lib::lemma_concat_associative(spec_scale_str(v.description), spec_tail3(v), x);
    vstd::seq_lib::lemma_concat_associative(spec_scale_str(w.description), spec_tail3(w), y);
    lemma_scale_str_unique(v.description, w.description, spec_tail3(v) + x, spec_tail3(w) + y);
    vstd::seq_lib::lemma_concat_associative(spec_type_view_bytes(v.proposal_type), spec_tail4(v), x);
    vstd::seq_lib::lemma_concat_associative(spec_type_view_bytes(w.proposal_type), spec_tail4(w), y);
    lemma_type_unique(v.proposal_type, w.proposal_type, spec_tail4(v) + x, spec_tail4(w) + y);
    vstd::seq_lib::lemma_concat_associative(seq![spec_status_index(v.status)], spec_tail5(v), x);
    vstd::seq_lib::lemma_concat_associative(seq![spec_status_index(w.status)], spec_tail5(w), y);
    lemma_status_unique(v.status, w.status, spec_tail5(v) + x, spec_tail5(w) + y);
}

proof fn lemma_tail5_unique(v: ProposalView, w: ProposalView, x: Seq<u8>, y: Seq<u8>)
    requires
        v.submitter.len() <= u32::MAX,
        w.submitter.len() <= u32::MAX,
        spec_tail5(v) + x == spec_tail5(w) + y,
    ensures
        v.submitter == w.submitter,
        v.submit_height == w.submit_height,
        v.deposit_end_height == w.deposit_end_height,
        v.voting_start_height == w.voting_start_height,
        v.voting_end_height == w.voting_end_height,
        v.total_deposit == w.total_deposit,
        v.final_tally == w.final_tally,
        x == y,
{
    let a6 = spec_u64_to_le_bytes(v.submit_height) + (spec_u64_to_le_bytes(v.deposit_end_height)
        + (spec_u64_to_le_bytes(v.voting_start_height) + (spec_u64_to_le_bytes(v.voting_end_height)
        + (spec_u64_to_le_bytes(v.total_deposit) + (spec_opt_tally_bytes(v.final_tally) + x)))));
    let b6 = spec_u64_to_le_bytes(w.submit_height) + (spec_u64_to_le_bytes(w.deposit_end_height)
        + (spec_u64_to_le_bytes(w.voting_start_height) + (spec_u64_to_le_bytes(w.voting_end_height)
        + (spec_u64_to_le_bytes(w.total_deposit) + (spec_opt_tally_bytes(w.final_tally) + y)))));
    assert(spec_tail5(v) + x =~= spec_scale_bytes(v.submitter) + a6);
    assert(spec_tail5(w) + y =~= spec_scale_bytes(w.submitter) + b6);
    lemma_scale_bytes_unique(v.submitter, w.submitter, a6, b6);
    let a7 = spec_u64_to_le_bytes(v.deposit_end_height) + (spec_u64_to_le_bytes(v.voting_start_height)
        + (spec_u64_to_le_bytes(v.voting_end_height) + (spec_u64_to_le_bytes(v.total_deposit) + (spec_opt_tally_bytes(v.final_tally) + x))));
    let b7 = spec_u64_to_le_bytes(w.deposit_end_height) + (spec_u64_to_le_bytes(w.voting_start_height)
        + (spec_u64_to_le_bytes(w.voting_end_height) + (spec_u64_to_le_bytes(w.total_deposit) + (spec_opt_tally_bytes(w.final_tally) + y))));
    lemma_u64_unique(v.submit_height, w.submit_height, a7, b7);
    let a8 = spec_u64_to_le_bytes(v.voting_start_height) + (spec_u64_to_le_bytes(v.voting_end_height)
        + (spec_u64_to_le_bytes(v.total_deposit) + (spec_opt_tally_bytes(v.final_tally) + x)));
    let b8 = spec_u64_to_le_bytes(w.voting_start_height) + (spec_u64_to_le_bytes(w.voting_end_height)
        + (spec_u64_to_le_bytes(w.total_deposit) + (spec_opt_tally_bytes(w.final_tally) + y)));
    lemma_u64_unique(v.deposit_end_height, w.deposit_end_height, a8, b8);
    let a9 = spec_u64_to_le_bytes(v.voting_end_height) + (spec_u64_to_le_bytes(v.total_deposit) + (spec_opt_tally_bytes(v.final_tally) + x));
    let b9 = spec_u64_to_le_bytes(w.voting_end_height) + (spec_u64_to_le_bytes(w.total_deposit) + (spec_opt_tally_bytes(w.final_tally) + y));
    lemma_u64_unique(v.voting_start_height, w.voting_start_height, a9, b9);
    let a10 = spec_u64_to_le_bytes(v.total_deposit) + (spec_opt_tally_bytes(v.final_tally) + x);
    let b10 = spec_u64_to_le_bytes(w.total_deposit) + (spec_opt_tally_bytes(w.final_tally) + y);
    lemma_u64_unique(v.voting_end_height, w.voting_end_height, a10, b10);
    lemma_u64_unique(v.total_deposit, w.total_deposit, spec_opt_tally_bytes(v.final_tally) + x, spec_opt_tally_bytes(w.final_tally) + y);
    lemma_tally_unique(v.final_tally, w.final_tally, x, y);
}

/// Reads a little-endian `u64` from the front of `b`.
pub(crate) fn read_u64(b: &[u8]) -> (r: Option<(u64, &[u8])>)
    ensures
        match r {
            Some((v, rest)) => b@ == spec_u64_to_le_bytes(v) + rest@,
            None => b@.len() < 8,
        },
{
    if b.len() < 8 {
        return None;
    }
    let head = vstd::slice::slice_subrange(b, 0, 8);
    let rest = vstd::slice::slice_subrange(b, 8, b.len());
    let v = u64_from_le_bytes(head);
    proof {
        lemma_auto_spec_u64_to_from_le_bytes();
        assert(b@ =~= head@ + rest@);
    }
    Some((v, rest))
}

fn read_type(b: &[u8]) -> (r: Option<(ProposalType, &[u8])>)
    ensures
        match r {
            Some((t, rest)) => (proposal_type_view(t) matches ProposalTypeView::Custom(c) ==> encode_utf8(c).len() <= u32::MAX)
                && b@ == spec_type_view_bytes(proposal_type_view(t)) + rest@,
            None => forall|t: ProposalTypeView, x: Seq<u8>|
                (t matches ProposalTypeView::Custom(c) ==> encode_utf8(c).len() <= u32::MAX)
                ==> b@ != #[trigger] (spec_type_view_bytes(t) + x),
        },
{
    if b.len() < 1 || b[0] > 1 {
        proof {
            assert forall|t: ProposalTypeView, x: Seq<u8>|
                (t matches ProposalTypeView::Custom(c) ==> encode_utf8(c).len() <= u32::MAX)
                implies b@ != #[trigger] (spec_type_view_bytes(t) + x) by {
                if b@ == spec_type_view_bytes(t) + x {
                    assert(b@[0] == spec_type_view_bytes(t)[0]);
                }
            }
        }
        return None;
    }
    let tail = vstd::slice::slice_subrange(b, 1, b.len());
    assert(b@ =~= seq![b@[0]] + tail@);
    if b[0] == 0 {
        return Some((ProposalType::Text, tail));
    }
    match read_scale_string(tail) {
        Some((c, rest)) => {
            assert(b@ =~= seq![1u8] + spec_scale_str(c@) + rest@);
            Some((ProposalType::Custom(c), rest))
        }
        None => {
            proof {
                assert forall|t: ProposalTypeView, x: Seq<u8>|
                    (t matches ProposalTypeView::Custom(c) ==> encode_utf8(c).len() <= u32::MAX)
                    implies b@ != #[trigger] (spec_type_view_bytes(t) + x) by {
                    if b@ == spec_type_view_bytes(t) + x {
                        assert(b@[0] == spec_type_view_bytes(t)[0]);
                        if let ProposalTypeView::Custom(c) = t {
                            assert(tail@ =~= spec_scale_str(c) + x);
                        }
                    }
                }
            }
            None
        }
    }
}

fn read_status(b: &[u8]) -> (r: Option<(ProposalStatus, &[u8])>)
    ensures
        match r {
            Some((st, rest)) => b@ == seq![spec_status_index(st)] + rest@,
            None => forall|st: ProposalStatus, x: Seq<u8>| b@ != #[trigger] (seq![spec_status_index(st)] + x),
        },
{
    if b.len() < 1 || b[0] > 3 {
        proof {
            assert forall|st: ProposalStatus, x: Seq<u8>| b@ != #[trigger] (seq![spec_status_index(st)] + x) by {
                if b@ == seq![spec_status_index(st)] + x {
                    assert(b@[0] == spec_status_index(st));
                }
            }
        }
        return None;
    }
    let rest = vstd::slice::slice_subrange(b, 1, b.len());
    let st = if b[0] == 0 {
        ProposalStatus::DepositPeriod
    } else if b[0] == 1 {
        ProposalStatus::VotingPeriod
    } else if b[0] == 2 {
        ProposalStatus::Passed
    } else {
        ProposalStatus::Rejected
    };
    assert(b@ =~= seq![spec_status_index(st)] + rest@);
    Some((st, rest))
}

fn read_opt_tally(b: &[u8]) -> (r: Option<(Option<TallyResult>, &[u8])>)
    ensures
        match r {
            Some((t, rest)) => b@ == spec_opt_tally_bytes(t) + rest@,
            None => forall|t: Option<TallyResult>, x: Seq<u8>| b@ != #[trigger] (spec_opt_tally_bytes(t) + x),
        },
{
    proof {
        lemma_auto_spec_u64_to_from_le_bytes();
    }
    if b.len() < 1 || b[0] > 1 || (b[0] == 1 && b.len() < 33) {
        proof {
            assert forall|t: Option<TallyResult>, x: Seq<u8>| b@ != #[trigger] (spec_opt_tally_bytes(t) + x) by {
                if b@ == spec_opt_tally_bytes(t) + x {
                    assert(b@[0] == spec_opt_tally_bytes(t)[0]);
                }
            }
        }
        return None;
    }
    if b[0] == 0 {
        let rest = vstd::slice::slice_subrange(b, 1, b.len());
        assert(b@ =~= spec_opt_tally_bytes(None) + rest@);
        return Some((None, rest));
    }
    let yes = u64_from_le_bytes(vstd::slice::slice_subrange(b, 1, 9));
    let no = u64_from_le_bytes(vstd::slice::slice_subrange(b, 9, 17));
    let no_with_veto = u64_from_le_bytes(vstd::slice::slice_subrange(b, 17, 25));
    let abstain = u64_from_le_bytes(vstd::slice::slice_subrange(b, 25, 33));
    let rest = vstd::slice::slice_subrange(b, 33, b.len());
    let t = TallyResult { yes, no, no_with_veto, abstain };
    proof {
        assert(b@.subrange(1, 9) =~= spec_u64_to_le_bytes(yes));
        assert(b@.subrange(9, 17) =~= spec_u64_to_le_bytes(no));
        assert(b@.subrange(17, 25) =~= spec_u64_to_le_bytes(no_with_veto));
        assert(b@.subrange(25, 33) =~= spec_u64_to_le_bytes(abstain));
        assert(b@ =~= spec_opt_tally_bytes(Some(t)) + rest@);
    }
    Some((Some(t), rest))
}

/// The last fields of a proposal as read back.
pub struct Tail5 {
    pub submitter: Vec<u8>,
    pub submit_height: u64,
    pub deposit_end_height: u64,
    pub voting_start_height: u64,
    pub voting_end_height: u64,
    pub total_deposit: u64,
    pub final_tally: Option<TallyResult>,
}

fn read_tail5(b: &[u8]) -> (r: Option<(Tail5, &[u8])>)
    ensures
        match r {
            Some((t, rest)) => t.submitter@.len() <= u32::MAX && b@ == spec_tail5_of(t.submitter@, t.submit_height,
                t.deposit_end_height, t.voting_start_height, t.voting_end_height, t.total_deposit, t.final_tally) + rest@,
            None => forall|v: ProposalView, x: Seq<u8>| v.submitter.len() <= u32::MAX ==> b@ != #[trigger] (spec_tail5(v) + x),
        },
{
    let ghost e6 = |v: ProposalView| spec_u64_to_le_bytes(v.submit_height) + (spec_u64_to_le_bytes(v.deposit_end_height)
        + (spec_u64_to_le_bytes(v.voting_start_height) + (spec_u64_to_le_bytes(v.voting_end_height)
        + (spec_u64_to_le_bytes(v.total_deposit) + spec_opt_tally_bytes(v.final_tally)))));
    let ghost e7 = |v: ProposalView| spec_u64_to_le_bytes(v.deposit_end_height)
        + (spec_u64_to_le_bytes(v.voting_start_height) + (spec_u64_to_le_bytes(v.voting_end_height)
        + (spec_u64_to_le_bytes(v.total_deposit) + spec_opt_tally_bytes(v.final_tally))));
    let ghost e8 = |v: ProposalView| spec_u64_to_le_bytes(v.voting_start_height) + (spec_u64_to_le_bytes(v.voting_end_height)
        + (spec_u64_to_le_bytes(v.total_deposit) + spec_opt_tally_bytes(v.final_tally)));
    let ghost e9 = |v: ProposalView| spec_u64_to_le_bytes(v.voting_end_height)
        + (spec_u64_to_le_bytes(v.total_deposit) + spec_opt_tally_bytes(v.final_tally));
    let ghost e10 = |v: ProposalView| spec_u64_to_le_bytes(v.total_deposit) + spec_opt_tally_bytes(v.final_tally);
    let (submitter, r6) = match read_scale_bytes(b) {
        Some(x) => x,
        None => {
            proof {
                assert forall|v: ProposalView, x: Seq<u8>| v.submitter.len() <= u32::MAX implies b@ != #[trigger] (spec_tail5(v) + x) by {
                    vstd::seq_lib::lemma_concat_associative(spec_scale_bytes(v.submitter), e6(v), x);
                    assert(b@ != spec_scale_bytes(v.submitter) + (e6(v) + x));
                }
            }
            return None;
        }
    };
    proof {
        assert forall|v: ProposalView, x: Seq<u8>| v.submitter.len() <= u32::MAX && b@ == #[trigger] (spec_tail5(v) + x)
            implies r6@ == e6(v) + x by {
            vstd::seq_lib::lemma_concat_associative(spec_scale_bytes(v.submitter), e6(v), x);
            lemma_scale_bytes_unique(v.submitter, submitter@, e6(v) + x, r6@);
        }
    }
    let (submit_height, r7) = match read_u64(r6) {
        Some(x) => x,
        None => {
            proof {
                assert forall|v: ProposalView, x: Seq<u8>| v.submitter.len() <= u32::MAX implies b@ != #[trigger] (spec_tail5(v) + x) by {
                    if b@ == spec_tail5(v) + x {
                        lemma_auto_spec_u64_to_from_le_bytes();
                        assert((e6(v) + x).len() >= 8);
                    }
                }
            }
            return None;
        }
    };
    proof {
        assert forall|v: ProposalView, x: Seq<u8>| v.submitter.len() <= u32::MAX && b@ == #[trigger] (spec_tail5(v) + x)
            implies r7@ == e7(v) + x by {
            vstd::seq_lib::lemma_concat_associative(spec_u64_to_le_bytes(v.submit_height), e7(v), x);
            lemma_u64_unique(v.submit_height, submit_height, e7(v) + x, r7@);
        }
    }
    let (deposit_end_height, r8) = match read_u64(r7) {
        Some(x) => x,
        None => {
            proof {
                assert forall|v: ProposalView, x: Seq<u8>| v.submitter.len() <= u32::MAX implies b@ != #[trigger] (spec_tail5(v) + x) by {
                    if b@ == spec_tail5(v) + x {
                        lemma_auto_spec_u64_to_from_le_bytes();
                        assert((e7(v) + x).len() >= 8);
                    }
                }
            }
            return None;
        }
    };
    proof {
        assert forall|v: ProposalView, x: Seq<u8>| v.submitter.len() <= u32::MAX && b@ == #[trigger] (spec_tail5(v) + x)
            implies r8@ == e8(v) + x by {
            vstd::seq_lib::lemma_concat_associative(spec_u64_to_le_bytes(v.deposit_end_height), e8(v), x);
            lemma_u64_unique(v.deposit_end_height, deposit_end_height, e8(v) + x, r8@);
        }
    }
    let (voting_start_height, r9) = match read_u64(r8) {
        Some(x) => x,
        None => {
            proof {
                assert forall|v: ProposalView, x: Seq<u8>| v.submitter.len() <= u32::MAX implies b@ != #[trigger] (spec_tail5(v) + x) by {
                    if b@ == spec_tail5(v) + x {
                        lemma_auto_spec_u64_to_from_le_bytes();
                        assert((e8(v) + x).len() >= 8);
                    }
                }
            }
            return None;
        }
    };
    proof {
        assert forall|v: ProposalView, x: Seq<u8>| v.submitter.len() <= u32::MAX && b@ == #[trigger] (spec_tail5(v) + x)
            implies r9@ == e9(v) + x by {
            vstd::seq_lib::lemma_concat_associative(spec_u64_to_le_bytes(v.voting_start_height), e9(v), x);
            lemma_u64_unique(v.voting_start_height, voting_start_height, e9(v) + x, r9@);
        }
    }
    let (voting_end_height, r10) = match read_u64(r9) {
        Some(x) => x,
        None => {
            proof {
                assert forall|v: ProposalView, x: Seq<u8>| v.submitter.len() <= u32::MAX implies b@ != #[trigger] (spec_tail5(v) + x) by {
                    if b@ == spec_tail5(v) + x {
                        lemma_auto_spec_u64_to_from_le_bytes();
                        assert((e9(v) + x).len() >= 8);
                    }
                }
            }
            return None;
        }
    };
    proof {
        assert forall|v: ProposalView, x: Seq<u8>| v.submitter.len() <= u32::MAX && b@ == #[trigger] (spec_tail5(v) + x)
            implies r10@ == e10(v) + x by {
            vstd::seq_lib::lemma_concat_associative(spec_u64_to_le_bytes(v.voting_end_height), e10(v), x);
            lemma_u64_unique(v.voting_end_height, voting_end_height, e10(v) + x, r10@);
        }
    }
    let (total_deposit, r11) = match read_u64(r10) {
        Some(x) => x,
        None => {
            proof {
                assert forall|v: ProposalView, x: Seq<u8>| v.submitter.len() <= u32::MAX implies b@ != #[trigger] (spec_tail5(v) + x) by {
                    if b@ == spec_tail5(v) + x {
                        lemma_auto_spec_u64_to_from_le_bytes();
                        assert((e10(v) + x).len() >= 8);
                    }
                }
            }
            return None;
        }
    };
    proof {
        assert forall|v: ProposalView, x: Seq<u8>| v.submitter.len() <= u32::MAX && b@ == #[trigger] (spec_tail5(v) + x)
            implies r11@ == spec_opt_tally_bytes(v.final_tally) + x by {
            vstd::seq_lib::lemma_concat_associative(spec_u64_to_le_bytes(v.total_deposit), spec_opt_tally_bytes(v.final_tally), x);
            lemma_u64_unique(v.total_deposit, total_deposit, spec_opt_tally_bytes(v.final_tally) + x, r11@);
        }
    }
    let (final_tally, rest) = match read_opt_tally(r11) {
        Some(x) => x,
        None => {
            proof {
                assert forall|v: ProposalView, x: Seq<u8>| v.submitter.len() <= u32::MAX implies b@ != #[trigger] (spec_tail5(v) + x) by {
                    if b@ == spec_tail5(v) + x {
                        assert(r11@ == spec_opt_tally_bytes(v.final_tally) + x);
                    }
                }
            }
            return None;
        }
    };
    let t = Tail5 { submitter, submit_height, deposit_end_height, voting_start_height, voting_end_height, total_deposit, final_tally };
    proof {
        let c10 = spec_u64_to_le_bytes(total_deposit) + spec_opt_tally_bytes(final_tally);
        vstd::seq_lib::lemma_concat_associative(spec_u64_to_le_bytes(total_deposit), spec_opt_tally_bytes(final_tally), rest@);
        let c9 = spec_u64_to_le_bytes(voting_end_height) + c10;
        vstd::seq_lib::lemma_concat_associative(spec_u64_to_le_bytes(voting_end_height), c10, rest@);
        let c8 = spec_u64_to_le_bytes(voting_start_height) + c9;
        vstd::seq_lib::lemma_concat_associative(spec_u64_to_le_bytes(voting_start_height), c9, rest@);
        let c7 = spec_u64_to_le_bytes(deposit_end_height) + c8;
        vstd::seq_lib::lemma_concat_associative(spec_u64_to_le_bytes(deposit_end_height), c8, rest@);
        let c6 = spec_u64_to_le_bytes(submit_height) + c7;
        vstd::seq_lib::lemma_concat_associative(spec_u64_to_le_bytes(submit_height), c7, rest@);
        vstd::seq_lib::lemma_concat_associative(spec_scale_bytes(submitter@), c6, rest@);
    }
    Some((t, rest))
}

/// Reads a proposal from the front of `b`, handing back what follows it.
pub fn read_proposal(b: &[u8]) -> (r: Option<(Proposal, &[u8])>)
    ensures
        match r {
            Some((p, rest)) => spec_view_fits(proposal_view(p)) && b@ == spec_view_bytes(proposal_view(p)) + rest@,
            None => forall|v: ProposalView, x: Seq<u8>| spec_view_fits(v) ==> b@ != #[trigger] (spec_view_bytes(v) + x),
        },
{
    let (id, r1) = match read_u64(b) {
        Some(x) => x,
        None => {
            proof {
                assert forall|v: ProposalView, x: Seq<u8>| spec_view_fits(v) implies b@ != #[trigger] (spec_view_bytes(v) + x) by {
                    lemma_auto_spec_u64_to_from_le_bytes();
                    assert((spec_view_bytes(v) + x).len() >= 8);
                }
            }
            return None;
        }
    };
    proof {
        assert forall|v: ProposalView, x: Seq<u8>| spec_view_fits(v) && b@ == #[trigger] (spec_view_bytes(v) + x)
            implies r1@ == spec_tail1(v) + x by {
            vstd::seq_lib::lemma_concat_associative(spec_u64_to_le_bytes(v.id), spec_tail1(v), x);
            lemma_u64_unique(v.id, id, spec_tail1(v) + x, r1@);
        }
    }
    let (title, r2) = match read_scale_string(r1) {
        Some(x) => x,
        None => {
            proof {
                assert forall|v: ProposalView, x: Seq<u8>| spec_view_fits(v) implies b@ != #[trigger] (spec_view_bytes(v) + x) by {
                    if b@ == spec_view_bytes(v) + x {
                        vstd::seq_lib::lemma_concat_associative(spec_scale_str(v.title), spec_tail2(v), x);
                        assert(r1@ == spec_scale_str(v.title) + (spec_tail2(v) + x));
                    }
                }
            }
            return None;
        }
    };
    proof {
        assert forall|v: ProposalView, x: Seq<u8>| spec_view_fits(v) && b@ == #[trigger] (spec_view_bytes(v) + x)
            implies r2@ == spec_tail2(v) + x by {
            vstd::seq_lib::lemma_concat_associative(spec_scale_str(v.title), spec_tail2(v), x);
            lemma_scale_str_unique(v.title, title@, spec_tail2(v) + x, r2@);
        }
    }
    let (description, r3) = match read_scale_string(r2) {
        Some(x) => x,
        None => {
            proof {
                assert forall|v: ProposalView, x: Seq<u8>| spec_view_fits(v) implies b@ != #[trigger] (spec_view_bytes(v) + x) by {
                    if b@ == spec_view_bytes(v) + x {
                        vstd::seq_lib::lemma_concat_associative(spec_scale_str(v.description), spec_tail3(v), x);
                        assert(r2@ == spec_scale_str(v.description) + (spec_tail3(v) + x));
                    }
                }
            }
            return None;
        }
    };
    proof {
        assert forall|v: ProposalView, x: Seq<u8>| spec_view_fits(v) && b@ == #[trigger] (spec_view_bytes(v) + x)
            implies r3@ == spec_tail3(v) + x by {
            vstd::seq_lib::lemma_concat_associative(spec_scale_str(v.description), spec_tail3(v), x);
            lemma_scale_str_unique(v.description, description@, spec_tail3(v) + x, r3@);
        }
    }
    let (proposal_type, r4) = match read_type(r3) {
        Some(x) => x,
        None => {
            proof {
                assert forall|v: ProposalView, x: Seq<u8>| spec_view_fits(v) implies b@ != #[trigger] (spec_view_bytes(v) + x) by {
                    if b@ == spec_view_bytes(v) + x {
                        vstd::seq_lib::lemma_concat_associative(spec_type_view_bytes(v.proposal_type), spec_tail4(v), x);
                        assert(r3@ == spec_type_view_bytes(v.proposal_type) + (spec_tail4(v) + x));
                    }
                }
            }
            return None;
        }
    };
    proof {
        assert forall|v: ProposalView, x: Seq<u8>| spec_view_fits(v) && b@ == #[trigger] (spec_view_bytes(v) + x)
            implies r4@ == spec_tail4(v) + x by {
            vstd::seq_lib::lemma_concat_associative(spec_type_view_bytes(v.proposal_type), spec_tail4(v), x);
            lemma_type_unique(v.proposal_type, proposal_type_view(proposal_type), spec_tail4(v) + x, r4@);
        }
    }
    let (status, r5) = match read_status(r4) {
        Some(x) => x,
        None => {
            proof {
                assert forall|v: ProposalView, x: Seq<u8>| spec_view_fits(v) implies b@ != #[trigger] (spec_view_bytes(v) + x) by {
                    if b@ == spec_view_bytes(v) + x {
                        vstd::seq_lib::lemma_concat_associative(seq![spec_status_index(v.status)], spec_tail5(v), x);
                        assert(r4@ == seq![spec_status_index(v.status)] + (spec_tail5(v) + x));
                    }
                }
            }
            return None;
        }
    };
    proof {
        assert forall|v: ProposalView, x: Seq<u8>| spec_view_fits(v) && b@ == #[trigger] (spec_view_bytes(v) + x)
            implies r5@ == spec_tail5(v) + x by {
            vstd::seq_lib::lemma_concat_associative(seq![spec_status_index(v.status)], spec_tail5(v), x);
            lemma_status_unique(v.status, status, spec_tail5(v) + x, r5@);
        }
    }
    let (t, rest) = match read_tail5(r5) {
        Some(x) => x,
        None => {
            proof {
                assert forall|v: ProposalView, x: Seq<u8>| spec_view_fits(v) implies b@ != #[trigger] (spec_view_bytes(v) + x) by {
                    if b@ == spec_view_bytes(v) + x {
                        assert(r5@ == spec_tail5(v) + x);
                    }
                }
            }
            return None;
        }
    };
    let p = Proposal {
        id,
        title,
        description,
        proposal_type,
        status,
        submitter: t.submitter,
        submit_height: t.submit_height,
        deposit_end_height: t.deposit_end_height,
        voting_start_height: t.voting_start_height,
        voting_end_height: t.voting_end_height,
        total_deposit: t.total_deposit,
        final_tally: t.final_tally,
    };
    proof {
        let v = proposal_view(p);
        assert(r5@ == spec_tail5(v) + rest@);
        vstd::seq_lib::lemma_concat_associative(seq![spec_status_index(v.status)], spec_tail5(v), rest@);
        vstd::seq_lib::lemma_concat_associative(spec_type_view_bytes(v.proposal_type), spec_tail4(v), rest@);
        vstd::seq_lib::lemma_concat_associative(spec_scale_str(v.description), spec_tail3(v), rest@);
        vstd::seq_lib::lemma_concat_associative(spec_scale_str(v.title), spec_tail2(v), rest@);
        vstd::seq_lib::lemma_concat_associative(spec_u64_to_le_bytes(v.id), spec_tail1(v), rest@);
    }
    Some((p, rest))
}

/// Stored entries are read back unambiguously from the front of a value.
pub proof fn lemma_entry_unique(v: Seq<u8>, h: u64, w: Seq<u8>, g: u64, x: Seq<u8>, y: Seq<u8>)
    requires
        v.len() <= u32::MAX,
        w.len() <= u32::MAX,
        spec_entry_bytes(v, h) + x == spec_entry_bytes(w, g) + y,
    ensures
        v == w,
        h == g,
        x == y,
{
    vstd::seq_lib::lemma_concat_associative(spec_scale_bytes(v), spec_u64_to_le_bytes(h), x);
    vstd::seq_lib::lemma_concat_associative(spec_scale_bytes(w), spec_u64_to_le_bytes(g), y);
    lemma_scale_bytes_unique(v, w, spec_u64_to_le_bytes(h) + x, spec_u64_to_le_bytes(g) + y);
    lemma_u64_unique(h, g, x, y);
}

/// Reads a stored entry (a value and the height it was written at) from the front of `b`.
pub fn read_entry(b: &[u8]) -> (r: Option<(Vec<u8>, u64, &[u8])>)
    ensures
        match r {
            Some((v, h, rest)) => v@.len() <= u32::MAX && b@ == spec_entry_bytes(v@, h) + rest@,
            None => forall|v: Seq<u8>, h: u64, x: Seq<u8>| v.len() <= u32::MAX ==> b@ != #[trigger] (spec_entry_bytes(v, h) + x),
        },
{
    match read_scale_bytes(b) {
        None => {
            assert forall|v: Seq<u8>, h: u64, x: Seq<u8>| v.len() <= u32::MAX implies b@ != #[trigger] (spec_entry_bytes(v, h) + x) by {
                vstd::seq_lib::lemma_concat_associative(spec_scale_bytes(v), spec_u64_to_le_bytes(h), x);
                assert(b@ != spec_scale_bytes(v) + (spec_u64_to_le_bytes(h) + x));
            }
            None
        }
        Some((v, r1)) => match read_u64(r1) {
            None => {
                assert forall|w: Seq<u8>, h: u64, x: Seq<u8>| w.len() <= u32::MAX implies b@ != #[trigger] (spec_entry_bytes(w, h) + x) by {
                    if b@ == spec_entry_bytes(w, h) + x {
                        vstd::seq_lib::lemma_concat_associative(spec_scale_bytes(w), spec_u64_to_le_bytes(h), x);
                        lemma_scale_bytes_unique(w, v@, spec_u64_to_le_bytes(h) + x, r1@);
                        lemma_auto_spec_u64_to_from_le_bytes();
                    }
                }
                None
            }
            Some((h, rest)) => {
                proof {
                    vstd::seq_lib::lemma_concat_associative(spec_scale_bytes(v@), spec_u64_to_le_bytes(h), rest@);
                }
                Some((v, h, rest))
            }
        },
    }
}

/// The entry a stored value starts with, where one does.
pub open spec fn spec_entry_prefix(b: Seq<u8>) -> Option<(Seq<u8>, u64)> {
    if exists|vh: (Seq<u8>, u64)| #![trigger spec_entry_bytes(vh.0, vh.1)] exists|x: Seq<u8>| vh.0.len() <= u32::MAX && b == #[trigger] (spec_entry_bytes(vh.0, vh.1) + x) {
        Some(choose|vh: (Seq<u8>, u64)| #![trigger spec_entry_bytes(vh.0, vh.1)] exists|x: Seq<u8>| vh.0.len() <= u32::MAX && b == #[trigger] (spec_entry_bytes(vh.0, vh.1) + x))
    } else {
        None
    }
}

/// The proposal a value starts with, where one does.
pub open spec fn spec_proposal_prefix(b: Seq<u8>) -> Option<ProposalView> {
    if exists|v: ProposalView| #![trigger spec_view_bytes(v)] exists|x: Seq<u8>| spec_view_fits(v) && b == #[trigger] (spec_view_bytes(v) + x) {
        Some(choose|v: ProposalView| #![trigger spec_view_bytes(v)] exists|x: Seq<u8>| spec_view_fits(v) && b == #[trigger] (spec_view_bytes(v) + x))
    } else {
        None
    }
}

/// The entry a value starts with is the one read from it.
proof fn lemma_entry_prefix_is(b: Seq<u8>, value: Seq<u8>, height: u64, rest: Seq<u8>)
    requires
        value.len() <= u32::MAX,
        b == spec_entry_bytes(value, height) + rest,
    ensures
        spec_entry_prefix(b) == Some((value, height)),
{
    assert(exists|vh: (Seq<u8>, u64)| #![trigger spec_entry_bytes(vh.0, vh.1)] exists|x: Seq<u8>| vh.0.len() <= u32::MAX && b == #[trigger] (spec_entry_bytes(vh.0, vh.1) + x)) by {
        assert((value, height).0 == value && (value, height).1 == height);
        assert(b == spec_entry_bytes((value, height).0, (value, height).1) + rest);
    }
    assert(spec_entry_prefix(b) is Some);
    let vh = spec_entry_prefix(b)->0;
    assert(exists|x: Seq<u8>| vh.0.len() <= u32::MAX && b == #[trigger] (spec_entry_bytes(vh.0, vh.1) + x));
    let x = choose|x: Seq<u8>| vh.0.len() <= u32::MAX && b == #[trigger] (spec_entry_bytes(vh.0, vh.1) + x);
    lemma_entry_unique(vh.0, vh.1, value, height, x, rest);
}

/// The proposal a value starts with is the one read from it.
proof fn lemma_proposal_prefix_is(b: Seq<u8>, pv: ProposalView, rest: Seq<u8>)
    requires
        spec_view_fits(pv),
        b == spec_view_bytes(pv) + rest,
    ensures
        spec_proposal_prefix(b) == Some(pv),
{
    assert(exists|x: Seq<u8>| spec_view_fits(pv) && b == #[trigger] (spec_view_bytes(pv) + x));
    assert(spec_proposal_prefix(b) is Some);
    let v = spec_proposal_prefix(b)->0;
    assert(exists|x: Seq<u8>| spec_view_fits(v) && b == #[trigger] (spec_view_bytes(v) + x));
    let x = choose|x: Seq<u8>| spec_view_fits(v) && b == #[trigger] (spec_view_bytes(v) + x);
    lemma_view_unique(v, pv, x, rest);
}

/// Why a stored proposal could not be loaded.
#[derive(Debug, Clone, Copy, PartialEq, Eq, Structural)]
pub enum LoadError {
    /// No proposal is stored under the id.
    NotFound,
    /// The stored entry or the proposal in it does not decode.
    Undecodable,
}

/// The proposal stored under an id and the height of its entry.
pub open spec fn spec_load_proposal(st: Map<Seq<u8>, Seq<u8>>, id: u64) -> Result<(ProposalView, u64), LoadError> {
    let key = spec_proposal_key(id);
    if !st.contains_key(key) {
        Err(LoadError::NotFound)
    } else {
        match spec_entry_prefix(st[key]) {
            None => Err(LoadError::Undecodable),
            Some((value, height)) => match spec_proposal_prefix(value) {
                None => Err(LoadError::Undecodable),
                Some(v) => Ok((v, height)),
            },
        }
    }
}

/// Loads the proposal stored under an id, with the height of its entry.
pub fn load_proposal(state: &StateMap, id: u64) -> (r: Result<(Proposal, u64), LoadError>)
    ensures
        match (r, spec_load_proposal(state.view(), id)) {
            (Ok((p, h)), Ok((v, g))) => proposal_view(p) == v && h == g && spec_view_fits(v),
            (Err(e), Err(f)) => e == f,
            _ => false,
        },
{
    let key = proposal_key(id);
    let stored = match state.get(key.as_slice()) {
        None => return Err(LoadError::NotFound),
        Some(b) => b,
    };
    let (value, height, rest) = match read_entry(stored.as_slice()) {
        None => return Err(LoadError::Undecodable),
        Some(x) => x,
    };
    proof {
        lemma_entry_prefix_is(stored@, value@, height, rest@);
    }
    match read_proposal(value.as_slice()) {
        None => Err(LoadError::Undecodable),
        Some((p, tail)) => {
            proof {
                lemma_proposal_prefix_is(value@, proposal_view(p), tail@);
            }
            Ok((p, height))
        }
    }
}

/// An encoded entry reads back as itself.
pub proof fn lemma_entry_roundtrip(value: Seq<u8>, height: u64)
    requires
        value.len() <= u32::MAX,
    ensures
        spec_entry_prefix(spec_entry_bytes(value, height)) == Some((value, height)),
{
    let b = spec_entry_bytes(value, height);
    assert(b =~= spec_entry_bytes(value, height) + Seq::<u8>::empty());
    lemma_entry_prefix_is(b, value, height, Seq::<u8>::empty());
}

/// An encoded proposal reads back as itself.
pub proof fn lemma_proposal_roundtrip(pv: ProposalView)
    requires
        spec_view_fits(pv),
    ensures
        spec_proposal_prefix(spec_view_bytes(pv)) == Some(pv),
{
    let b = spec_view_bytes(pv);
    assert(b =~= spec_view_bytes(pv) + Seq::<u8>::empty());
    lemma_proposal_prefix_is(b, pv, Seq::<u8>::empty());
}

/// The length of an encoded proposal: its tally takes one byte when absent and
/// 33 when present; the status always takes one.
pub proof fn lemma_view_bytes_tally_len(v: ProposalView, t: Option<TallyResult>, status: ProposalStatus)
    ensures
        spec_view_bytes(ProposalView { final_tally: t, status, ..v }).len() + spec_opt_tally_bytes(v.final_tally).len()
            == spec_view_bytes(v).len() + spec_opt_tally_bytes(t).len(),
        spec_opt_tally_bytes(t).len() == (if t is Some { 33int } else { 1int }),
        spec_opt_tally_bytes(v.final_tally).len() == (if v.final_tally is Some { 33int } else { 1int }),
{
    lemma_auto_spec_u64_to_from_le_bytes();
}

} // verus!
