//! The governance contract's rules: proposals open for voting at once and
//! are indexed by the height at which their vote closes; at that height each
//! is tallied against the current validator weights with a one-third quorum
//! and a simple majority of the non-abstaining power.

use vstd::prelude::*;
use vstd::bytes::*;
use crate::bytes::{append_bytes, bytes_eq};
use crate::codec::{lemma_compact_unique, scale_decode_compact, spec_scale_compact};
use crate::governance::{
    decode_vote, spec_decode_vote, next_proposal_id_key, power_of, proposal_key, proposal_to_bytes, push_u64, spec_entry_bytes, spec_next_proposal_id_key,
    spec_power_of, spec_proposal_fields_bytes, spec_total_power, spec_proposal_key, spec_vote_index, spec_vote_key, spec_voter, vote_key, Proposal,
    ProposalStatus, SubmitProposalParams, TallyResult, VoteOption,
};
use crate::codec::{push_scale_bytes, spec_scale_bytes};
use crate::mhnsw::{push_scale_ids, spec_ids_bytes, spec_scale_ids};
use crate::proposal_codec::{load_proposal, spec_load_proposal, LoadError};
use crate::state::{spec_enumerates, StateMap};
use crate::validators::{ValidatorSetsV1, ValidatorV1};
use vstd::utf8::encode_utf8;

verus! {

/// How many blocks a proposal's vote stays open.
pub const VOTING_PERIOD_BLOCKS: u64 = 20_000;

/// Errors of the contract.
#[derive(Debug, Clone, Copy, PartialEq, Eq, Structural)]
pub enum ContractError {
    /// No proposal with the id exists.
    ProposalNotFound,
    /// The proposal is not in its voting period.
    NotVotingPeriod,
    /// The stored tally index does not decode.
    InvalidIndex,
    /// Parameters, a stored entry or a stored proposal do not decode.
    Decode,
}

/// Prefix of the tally index: the ids of the proposals whose vote closes at a
/// height, keyed by the little-endian height. (`gov::index::tally::`)
pub open spec fn spec_tally_index_prefix() -> Seq<u8> {
    seq![103u8, 111u8, 118u8, 58u8, 58u8, 105u8, 110u8, 100u8, 101u8, 120u8, 58u8, 58u8, 116u8, 97u8, 108u8, 108u8, 121u8, 58u8, 58u8]
}

/// The key of the tally index for a height.
pub open spec fn spec_tally_index_key(height: u64) -> Seq<u8> {
    spec_tally_index_prefix() + spec_u64_to_le_bytes(height)
}

/// The key of the tally index for a height.
pub fn tally_index_key(height: u64) -> (r: Vec<u8>)
    ensures
        r@ == spec_tally_index_key(height),
{
    let mut r: Vec<u8> = vec![103u8, 111u8, 118u8, 58u8, 58u8, 105u8, 110u8, 100u8, 101u8, 120u8, 58u8, 58u8, 116u8, 97u8, 108u8, 108u8, 121u8, 58u8, 58u8];
    assert(r@ =~= spec_tally_index_prefix());
    push_u64(&mut r, height);
    r
}

/// The `u64` a stored value starts with: its first eight bytes, little-endian;
/// `None` for a shorter value. Bytes after them are ignored.
pub open spec fn spec_u64_prefix(b: Seq<u8>) -> Option<u64> {
    if b.len() >= 8 { Some(spec_u64_from_le_bytes(b.subrange(0, 8))) } else { None }
}

/// The list of ids a stored value starts with, where one does.
pub open spec fn spec_id_list_prefix(b: Seq<u8>) -> Option<Seq<u64>> {
    if exists|v: Seq<u64>, rest: Seq<u8>| v.len() <= u32::MAX && b == #[trigger] (spec_scale_ids(v) + rest) {
        Some(choose|v: Seq<u64>| #![trigger spec_scale_ids(v)] exists|rest: Seq<u8>| v.len() <= u32::MAX && b == #[trigger] (spec_scale_ids(v) + rest))
    } else {
        None
    }
}

proof fn lemma_ids_bytes_len(v: Seq<u64>)
    ensures
        spec_ids_bytes(v).len() == 8 * v.len(),
    decreases v.len(),
{
    if v.len() > 0 {
        lemma_ids_bytes_len(v.drop_last());
        lemma_auto_spec_u64_to_from_le_bytes();
        assert(spec_u64_to_le_bytes(v.last()).len() == 8);
    }
}

proof fn lemma_ids_bytes_unique(v: Seq<u64>, w: Seq<u64>)
    requires
        v.len() == w.len(),
        spec_ids_bytes(v) == spec_ids_bytes(w),
    ensures
        v == w,
    decreases v.len(),
{
    if v.len() > 0 {
        lemma_ids_bytes_len(v.drop_last());
        lemma_ids_bytes_len(w.drop_last());
        lemma_auto_spec_u64_to_from_le_bytes();
        let a = spec_ids_bytes(v);
        let k = 8 * (v.len() - 1);
        assert(spec_u64_to_le_bytes(v.last()).len() == 8);
        assert(spec_u64_to_le_bytes(w.last()).len() == 8);
        assert(a.subrange(0, k) =~= spec_ids_bytes(v.drop_last()));
        assert(spec_ids_bytes(w).subrange(0, k) =~= spec_ids_bytes(w.drop_last()));
        assert(a.subrange(k, a.len() as int) =~= spec_u64_to_le_bytes(v.last()));
        assert(spec_ids_bytes(w).subrange(k, a.len() as int) =~= spec_u64_to_le_bytes(w.last()));
        lemma_ids_bytes_unique(v.drop_last(), w.drop_last());
        assert(v =~= v.drop_last().push(v.last()));
        assert(w =~= w.drop_last().push(w.last()));
    }
}

/// Lists of ids are read back unambiguously.
proof fn lemma_id_list_unique(v: Seq<u64>, w: Seq<u64>, x: Seq<u8>, y: Seq<u8>)
    requires
        v.len() <= u32::MAX,
        w.len() <= u32::MAX,
        spec_scale_ids(v) + x == spec_scale_ids(w) + y,
    ensures
        v == w,
        x == y,
{
    assert(spec_scale_ids(v) + x =~= spec_scale_compact(v.len() as u32) + (spec_ids_bytes(v) + x));
    assert(spec_scale_ids(w) + y =~= spec_scale_compact(w.len() as u32) + (spec_ids_bytes(w) + y));
    lemma_compact_unique(v.len() as u32, w.len() as u32, spec_ids_bytes(v) + x, spec_ids_bytes(w) + y);
    lemma_ids_bytes_len(v);
    lemma_ids_bytes_len(w);
    let n = spec_ids_bytes(v).len() as int;
    assert(spec_ids_bytes(v) =~= (spec_ids_bytes(v) + x).subrange(0, n));
    assert(spec_ids_bytes(w) =~= (spec_ids_bytes(w) + y).subrange(0, n));
    assert(x =~= (spec_ids_bytes(v) + x).subrange(n, (spec_ids_bytes(v) + x).len() as int));
    assert(y =~= (spec_ids_bytes(w) + y).subrange(n, (spec_ids_bytes(w) + y).len() as int));
    lemma_ids_bytes_unique(v, w);
}

/// Reads the list of ids a stored value starts with.
fn read_id_list(b: &[u8]) -> (r: Option<Vec<u64>>)
    ensures
        match r {
            Some(v) => spec_id_list_prefix(b@) == Some(v@),
            None => spec_id_list_prefix(b@) is None,
        },
{
    let (n, rest) = match scale_decode_compact(b) {
        Some(x) => x,
        None => {
            proof {
                if exists|v: Seq<u64>, r2: Seq<u8>| v.len() <= u32::MAX && b@ == #[trigger] (spec_scale_ids(v) + r2) {
                    let (v, r2) = choose|v: Seq<u64>, r2: Seq<u8>| v.len() <= u32::MAX && b@ == #[trigger] (spec_scale_ids(v) + r2);
                    assert(b@ =~= spec_scale_compact(v.len() as u32) + (spec_ids_bytes(v) + r2));
                    assert(spec_scale_compact(v.len() as u32).is_prefix_of(b@));
                }
            }
            return None;
        }
    };
    if (rest.len() as u64) < 8 * (n as u64) {
        proof {
            if exists|v: Seq<u64>, r2: Seq<u8>| v.len() <= u32::MAX && b@ == #[trigger] (spec_scale_ids(v) + r2) {
                let (v, r2) = choose|v: Seq<u64>, r2: Seq<u8>| v.len() <= u32::MAX && b@ == #[trigger] (spec_scale_ids(v) + r2);
                assert(b@ =~= spec_scale_compact(v.len() as u32) + (spec_ids_bytes(v) + r2));
                lemma_compact_unique(n, v.len() as u32, rest@, spec_ids_bytes(v) + r2);
                lemma_ids_bytes_len(v);
            }
        }
        return None;
    }
    let mut out: Vec<u64> = Vec::new();
    let mut i: usize = 0;
    let count = n as usize;
    let rlen = rest.len();
    while i < count
        invariant
            count == n,
            rlen == rest@.len(),
            (rest@.len() as int) >= 8 * count,
            i <= count,
            out@.len() == i,
            spec_ids_bytes(out@) == rest@.subrange(0, 8 * i as int),
        decreases count - i,
    {
        assert(8 * i + 8 <= 8 * count) by (nonlinear_arith)
            requires
                i < count,
        ;
        let x = u64_from_le_bytes(vstd::slice::slice_subrange(rest, 8 * i, 8 * i + 8));
        let ghost before = out@;
        out.push(x);
        proof {
            lemma_auto_spec_u64_to_from_le_bytes();
            assert(out@.drop_last() =~= before);
            assert(rest@.subrange(0, 8 * (i + 1)) =~= rest@.subrange(0, 8 * i as int) + rest@.subrange(8 * i as int, 8 * i + 8));
        }
        i = i + 1;
    }
    proof {
        let tail = rest@.subrange(8 * count as int, rest@.len() as int);
        assert(rest@ =~= spec_ids_bytes(out@) + tail);
        assert(b@ =~= spec_scale_ids(out@) + tail);
        assert(exists|v: Seq<u64>, r2: Seq<u8>| v.len() <= u32::MAX && b@ == #[trigger] (spec_scale_ids(v) + r2));
        let v = choose|v: Seq<u64>| #![trigger spec_scale_ids(v)] exists|r2: Seq<u8>| v.len() <= u32::MAX && b@ == #[trigger] (spec_scale_ids(v) + r2);
        let r2 = choose|r2: Seq<u8>| v.len() <= u32::MAX && b@ == #[trigger] (spec_scale_ids(v) + r2);
        lemma_id_list_unique(v, out@, r2, tail);
    }
    Some(out)
}

/// The state after a submission: the counter (read from the first eight bytes
/// of its value, 0 where there are none) moves on; the proposal is stored open
/// for voting from now for the voting period; its id joins the tally index of
/// the closing height, unless already there (an index that does not decode
/// counts as empty).
pub open spec fn spec_contract_submit(st: Map<Seq<u8>, Seq<u8>>, submitter: Seq<u8>, p: SubmitProposalParams, height: u64)
    -> Map<Seq<u8>, Seq<u8>>
{
    let id = match (if st.contains_key(spec_next_proposal_id_key()) { spec_u64_prefix(st[spec_next_proposal_id_key()]) } else { None }) {
        Some(x) => x,
        None => 0,
    };
    let end = (height + VOTING_PERIOD_BLOCKS) as u64;
    let proposal = spec_proposal_fields_bytes(id, p.title@, p.description@, p.proposal_type, ProposalStatus::VotingPeriod,
        submitter, height, 0, height, end, p.deposit, None);
    let st1 = st.insert(spec_next_proposal_id_key(), spec_u64_to_le_bytes((id + 1) as u64))
        .insert(spec_proposal_key(id), spec_entry_bytes(proposal, height));
    let index_key = spec_tally_index_key(end);
    let index = match (if st1.contains_key(index_key) { spec_id_list_prefix(st1[index_key]) } else { None }) {
        Some(v) => v,
        None => Seq::empty(),
    };
    if index.contains(id) { st1 } else { st1.insert(index_key, spec_scale_ids(index.push(id))) }
}

/// Whether the counter, the heights and the encodings of a submission fit their limits.
pub open spec fn spec_contract_submit_fits(st: Map<Seq<u8>, Seq<u8>>, submitter: Seq<u8>, p: SubmitProposalParams, height: u64) -> bool {
    let id = match (if st.contains_key(spec_next_proposal_id_key()) { spec_u64_prefix(st[spec_next_proposal_id_key()]) } else { None }) {
        Some(x) => x,
        None => 0,
    };
    let end = (height + VOTING_PERIOD_BLOCKS) as u64;
    &&& id < u64::MAX
    &&& height + VOTING_PERIOD_BLOCKS <= u64::MAX
    &&& encode_utf8(p.title@).len() <= u32::MAX
    &&& encode_utf8(p.description@).len() <= u32::MAX
    &&& (p.proposal_type matches crate::governance::ProposalType::Custom(c) ==> encode_utf8(c@).len() <= u32::MAX)
    &&& submitter.len() <= u32::MAX
    &&& spec_proposal_fields_bytes(id, p.title@, p.description@, p.proposal_type, ProposalStatus::VotingPeriod,
        submitter, height, 0, height, end, p.deposit, None).len() <= u32::MAX
    &&& (st.contains_key(spec_tally_index_key(end)) ==>
        (spec_id_list_prefix(st[spec_tally_index_key(end)]) matches Some(v) ==> v.len() < u32::MAX))
}

/// Submits a proposal under the contract's rules.
pub fn contract_submit_proposal(state: &mut StateMap, submitter: &[u8; 32], p: SubmitProposalParams, height: u64)
    requires
        spec_contract_submit_fits(old(state).view(), submitter@, p, height),
    ensures
        final(state).view() == spec_contract_submit(old(state).view(), submitter@, p, height),
{
    let ghost st0 = state.view();
    let counter_key = next_proposal_id_key();
    let id: u64 = match state.get(counter_key.as_slice()) {
        Some(b) => if b.len() >= 8 { u64_from_le_bytes(vstd::slice::slice_subrange(b.as_slice(), 0, 8)) } else { 0 },
        None => 0,
    };
    let next = u64_to_le_bytes(id + 1);
    state.insert(counter_key.as_slice(), next.as_slice());
    let end = height + VOTING_PERIOD_BLOCKS;
    let ghost expected = spec_proposal_fields_bytes(id, p.title@, p.description@, p.proposal_type, ProposalStatus::VotingPeriod,
        submitter@, height, 0, height, end, p.deposit, None);
    let proposal = Proposal {
        id,
        title: p.title,
        description: p.description,
        proposal_type: p.proposal_type,
        status: ProposalStatus::VotingPeriod,
        submitter: crate::state::to_vec(submitter.as_slice()),
        submit_height: height,
        deposit_end_height: 0,
        voting_start_height: height,
        voting_end_height: end,
        total_deposit: p.deposit,
        final_tally: None,
    };
    assert(crate::governance::spec_proposal_bytes(proposal) == expected);
    let value = proposal_to_bytes(&proposal);
    let mut entry: Vec<u8> = Vec::new();
    push_scale_bytes(&mut entry, value.as_slice());
    push_u64(&mut entry, height);
    let key = proposal_key(id);
    state.insert(key.as_slice(), entry.as_slice());
    let index_key = tally_index_key(end);
    proof {
        assert(index_key@[5] == 105u8);
        assert(key@[5] == 112u8);
        assert(counter_key@[5] == 110u8);
        assert(index_key@ != key@);
        assert(index_key@ != counter_key@);
    }
    let mut index: Vec<u64> = match state.get(index_key.as_slice()) {
        Some(b) => match read_id_list(b.as_slice()) {
            Some(v) => v,
            None => Vec::new(),
        },
        None => Vec::new(),
    };
    let mut present = false;
    let n = index.len();
    let mut i: usize = 0;
    while i < n
        invariant
            n == index@.len(),
            i <= n,
            present <==> (exists|j: int| 0 <= j < i && index@[j] == id),
        decreases n - i,
    {
        if index[i] == id {
            present = true;
        }
        i = i + 1;
    }
    if !present {
        index.push(id);
        let mut bytes: Vec<u8> = Vec::new();
        push_scale_ids(&mut bytes, &index);
        assert(bytes@ =~= spec_scale_ids(index@));
        state.insert(index_key.as_slice(), bytes.as_slice());
    }
}

/// The proposal id and vote option that call parameters start with: the id
/// little-endian, then the option's index; bytes after them are ignored.
pub open spec fn spec_vote_params_prefix(b: Seq<u8>) -> Option<(u64, VoteOption)> {
    if b.len() < 9 {
        None
    } else {
        match spec_decode_vote(seq![b[8]]) {
            None => None,
            Some(o) => Some((spec_u64_from_le_bytes(b.subrange(0, 8)), o)),
        }
    }
}

/// The state after a vote under the contract's rules: the parameters must
/// decode, the stored proposal must exist, decode and be in its voting period
/// (there is no height window here); the vote is recorded under the voter.
pub open spec fn spec_contract_vote(st: Map<Seq<u8>, Seq<u8>>, voter: [u8; 32], params: Seq<u8>)
    -> Result<Map<Seq<u8>, Seq<u8>>, ContractError>
{
    match spec_vote_params_prefix(params) {
        None => Err(ContractError::Decode),
        Some((id, option)) => match spec_load_proposal(st, id) {
            Err(LoadError::NotFound) => Err(ContractError::ProposalNotFound),
            Err(LoadError::Undecodable) => Err(ContractError::Decode),
            Ok((v, _)) => if v.status != ProposalStatus::VotingPeriod {
                Err(ContractError::NotVotingPeriod)
            } else {
                Ok(st.insert(spec_vote_key(id, voter@), seq![spec_vote_index(option)]))
            },
        },
    }
}

/// Records a vote under the contract's rules.
pub fn contract_vote(state: &mut StateMap, voter: &[u8; 32], params: &[u8]) -> (r: Result<(), ContractError>)
    ensures
        match spec_contract_vote(old(state).view(), *voter, params@) {
            Ok(st) => r is Ok && final(state).view() == st,
            Err(e) => r == Err::<(), ContractError>(e) && final(state).view() == old(state).view(),
        },
{
    if params.len() < 9 {
        return Err(ContractError::Decode);
    }
    let option = match decode_vote(vstd::slice::slice_subrange(params, 8, 9)) {
        None => {
            assert(params@.subrange(8, 9) =~= seq![params@[8]]);
            return Err(ContractError::Decode);
        }
        Some(o) => o,
    };
    assert(params@.subrange(8, 9) =~= seq![params@[8]]);
    let proposal_id = u64_from_le_bytes(vstd::slice::slice_subrange(params, 0, 8));
    let p = match load_proposal(state, proposal_id) {
        Err(LoadError::NotFound) => return Err(ContractError::ProposalNotFound),
        Err(LoadError::Undecodable) => return Err(ContractError::Decode),
        Ok((p, _)) => p,
    };
    if p.status != ProposalStatus::VotingPeriod {
        return Err(ContractError::NotVotingPeriod);
    }
    let key = vote_key(proposal_id, voter);
    let idx: u8 = match option {
        VoteOption::Yes => 0,
        VoteOption::No => 1,
        VoteOption::NoWithVeto => 2,
        VoteOption::Abstain => 3,
    };
    let value: Vec<u8> = vec![idx];
    assert(value@ =~= seq![spec_vote_index(option)]);
    state.insert(key.as_slice(), value.as_slice());
    Ok(())
}

/// The vote option a stored value starts with: its first byte as a variant
/// index; `None` for an empty value or an unknown index. Bytes after it are ignored.
pub open spec fn spec_vote_prefix(b: Seq<u8>) -> Option<VoteOption> {
    if b.len() == 0 {
        None
    } else if b[0] == 0 {
        Some(VoteOption::Yes)
    } else if b[0] == 1 {
        Some(VoteOption::No)
    } else if b[0] == 2 {
        Some(VoteOption::NoWithVeto)
    } else if b[0] == 3 {
        Some(VoteOption::Abstain)
    } else {
        None
    }
}

/// The weight one vote record carries: its voter's stake, 0 for an unknown
/// voter; `None` where the key is too short to name a voter.
pub open spec fn spec_vote_weight(stakes: Seq<([u8; 32], u64)>, key: Seq<u8>) -> Option<nat> {
    match spec_voter(key) {
        Some(v) => Some(spec_power_of(stakes, v) as nat),
        None => None,
    }
}

/// The contract's tally of the vote records, as (yes, no, no_with_veto,
/// abstain, voted): records with a short key or an undecodable option are skipped.
pub open spec fn spec_contract_tally(stakes: Seq<([u8; 32], u64)>, votes: Seq<(Vec<u8>, Vec<u8>)>) -> (nat, nat, nat, nat, nat)
    decreases votes.len(),
{
    if votes.len() == 0 {
        (0, 0, 0, 0, 0)
    } else {
        let (y, n, v, a, t) = spec_contract_tally(stakes, votes.drop_last());
        let (key, value) = votes.last();
        match spec_vote_weight(stakes, key@) {
            None => (y, n, v, a, t),
            Some(w) => match spec_vote_prefix(value@) {
                None => (y, n, v, a, t),
                Some(VoteOption::Yes) => (y + w, n, v, a, t + w),
                Some(VoteOption::No) => (y, n + w, v, a, t + w),
                Some(VoteOption::NoWithVeto) => (y, n, v + w, a, t + w),
                Some(VoteOption::Abstain) => (y, n, v, a + w, t + w),
            },
        }
    }
}

/// What one vote record adds to the contract's tally (yes, no, no_with_veto,
/// abstain, voted): its voter's stake under its option, nothing where the
/// record is skipped.
pub open spec fn spec_vote_contrib(stakes: Seq<([u8; 32], u64)>, key: Seq<u8>, value: Seq<u8>) -> (nat, nat, nat, nat, nat) {
    match spec_vote_weight(stakes, key) {
        None => (0, 0, 0, 0, 0),
        Some(w) => match spec_vote_prefix(value) {
            None => (0, 0, 0, 0, 0),
            Some(VoteOption::Yes) => (w, 0, 0, 0, w),
            Some(VoteOption::No) => (0, w, 0, 0, w),
            Some(VoteOption::NoWithVeto) => (0, 0, w, 0, w),
            Some(VoteOption::Abstain) => (0, 0, 0, w, w),
        },
    }
}

/// Component-wise sum of two tallies.
pub open spec fn spec_add5(a: (nat, nat, nat, nat, nat), b: (nat, nat, nat, nat, nat)) -> (nat, nat, nat, nat, nat) {
    (a.0 + b.0, a.1 + b.1, a.2 + b.2, a.3 + b.3, a.4 + b.4)
}

proof fn lemma_tally_step(stakes: Seq<([u8; 32], u64)>, votes: Seq<(Vec<u8>, Vec<u8>)>)
    requires
        votes.len() > 0,
    ensures
        spec_contract_tally(stakes, votes) == spec_add5(spec_contract_tally(stakes, votes.drop_last()),
            spec_vote_contrib(stakes, votes.last().0@, votes.last().1@)),
{
}

proof fn lemma_tally_remove(stakes: Seq<([u8; 32], u64)>, t: Seq<(Vec<u8>, Vec<u8>)>, j: int)
    requires
        0 <= j < t.len(),
    ensures
        spec_contract_tally(stakes, t) == spec_add5(spec_contract_tally(stakes, t.remove(j)), spec_vote_contrib(stakes, t[j].0@, t[j].1@)),
    decreases t.len(),
{
    lemma_tally_step(stakes, t);
    if j == t.len() - 1 {
        assert(t.remove(j) =~= t.drop_last());
    } else {
        lemma_tally_remove(stakes, t.drop_last(), j);
        assert(t.drop_last().remove(j) =~= t.remove(j).drop_last());
        assert(t.remove(j).last() == t.last());
        lemma_tally_step(stakes, t.remove(j));
    }
}

/// The contract's tally does not depend on the order of the vote records:
/// two listings of the same records give the same sums.
pub proof fn lemma_tally_order_free(stakes: Seq<([u8; 32], u64)>, s: Seq<(Vec<u8>, Vec<u8>)>, t: Seq<(Vec<u8>, Vec<u8>)>, m: Map<Seq<u8>, Seq<u8>>)
    requires
        spec_enumerates(s, m),
        spec_enumerates(t, m),
    ensures
        spec_contract_tally(stakes, s) == spec_contract_tally(stakes, t),
    decreases s.len(),
{
    if s.len() == 0 {
        if t.len() > 0 {
            assert(m.contains_key(t[0].0@));
        }
    } else {
        let e = s.last();
        let k = e.0@;
        assert(m.contains_key(s[s.len() - 1].0@));
        let j = choose|j: int| 0 <= j < t.len() && t[j].0@ == k;
        assert(m.contains_key(t[j].0@));
        let m2 = m.remove(k);
        let s2 = s.drop_last();
        let t2 = t.remove(j);
        assert forall|a: int, b: int| 0 <= a < b < s2.len() implies #[trigger] s2[a].0@ != #[trigger] s2[b].0@ by {
            assert(s2[a] == s[a] && s2[b] == s[b]);
        }
        assert forall|a: int| 0 <= a < s2.len() implies m2.contains_key(#[trigger] s2[a].0@) && m2[s2[a].0@] == s2[a].1@ by {
            assert(s2[a] == s[a]);
            assert(m.contains_key(s[a].0@));
            assert(s[a].0@ != s[s.len() - 1].0@);
        }
        assert forall|q: Seq<u8>| #[trigger] m2.contains_key(q) implies exists|a: int| 0 <= a < s2.len() && s2[a].0@ == q by {
            assert(m.contains_key(q));
            let a = choose|a: int| 0 <= a < s.len() && s[a].0@ == q;
            assert(a != s.len() - 1);
            assert(s2[a] == s[a]);
        }
        assert forall|a: int, b: int| 0 <= a < b < t2.len() implies #[trigger] t2[a].0@ != #[trigger] t2[b].0@ by {
            let oa = if a < j { a } else { a + 1 };
            let ob = if b < j { b } else { b + 1 };
            assert(t2[a] == t[oa] && t2[b] == t[ob]);
        }
        assert forall|a: int| 0 <= a < t2.len() implies m2.contains_key(#[trigger] t2[a].0@) && m2[t2[a].0@] == t2[a].1@ by {
            let oa = if a < j { a } else { a + 1 };
            assert(t2[a] == t[oa]);
            assert(m.contains_key(t[oa].0@));
            assert(t[oa].0@ != t[j].0@);
        }
        assert forall|q: Seq<u8>| #[trigger] m2.contains_key(q) implies exists|a: int| 0 <= a < t2.len() && t2[a].0@ == q by {
            assert(m.contains_key(q));
            let b = choose|b: int| 0 <= b < t.len() && t[b].0@ == q;
            assert(b != j);
            let a = if b < j { b } else { b - 1 };
            assert(t2[a] == t[b]);
        }
        lemma_tally_order_free(stakes, s2, t2, m2);
        lemma_tally_step(stakes, s);
        lemma_tally_remove(stakes, t, j);
        assert(t[j].1@ == e.1@);
    }
}

/// The contract's decision: rejected without stake or below a one-third
/// quorum; passed when Yes exceeds half of the non-abstaining power.
pub open spec fn spec_contract_decide(total_stake: nat, yes: nat, no: nat, veto: nat, voted: nat) -> ProposalStatus {
    if total_stake > 0 && voted >= total_stake / 3 {
        let non_abstain = yes + no + veto;
        if non_abstain > 0 && yes > non_abstain / 2 { ProposalStatus::Passed } else { ProposalStatus::Rejected }
    } else {
        ProposalStatus::Rejected
    }
}

/// Whether every sum of the contract's tally fits in `u64`.
pub open spec fn spec_contract_tally_fits(stakes: Seq<([u8; 32], u64)>, votes: Seq<(Vec<u8>, Vec<u8>)>) -> bool {
    &&& spec_total_power(stakes) <= u64::MAX
    &&& spec_contract_tally(stakes, votes).4 <= u64::MAX
}

proof fn lemma_contract_tally_sums(stakes: Seq<([u8; 32], u64)>, votes: Seq<(Vec<u8>, Vec<u8>)>)
    ensures
        ({
            let (y, n, v, a, t) = spec_contract_tally(stakes, votes);
            y + n + v + a == t
        }),
    decreases votes.len(),
{
    if votes.len() > 0 {
        lemma_contract_tally_sums(stakes, votes.drop_last());
    }
}

proof fn lemma_contract_tally_prefix(stakes: Seq<([u8; 32], u64)>, votes: Seq<(Vec<u8>, Vec<u8>)>, i: int)
    requires
        0 <= i <= votes.len(),
    ensures
        spec_contract_tally(stakes, votes.subrange(0, i)).4 <= spec_contract_tally(stakes, votes).4,
    decreases votes.len(),
{
    if i < votes.len() {
        assert(votes.drop_last().subrange(0, i) =~= votes.subrange(0, i));
        lemma_contract_tally_prefix(stakes, votes.drop_last(), i);
    } else {
        assert(votes.subrange(0, i) =~= votes);
    }
}

/// Tallies the votes on a proposal under the contract's rules.
pub fn contract_tally(stakes: &Vec<([u8; 32], u64)>, votes: &Vec<(Vec<u8>, Vec<u8>)>) -> (r: (ProposalStatus, TallyResult))
    requires
        spec_contract_tally_fits(stakes@, votes@),
    ensures
        ({
            let (y, n, v, a, t) = spec_contract_tally(stakes@, votes@);
            &&& r.1 == (TallyResult { yes: y as u64, no: n as u64, no_with_veto: v as u64, abstain: a as u64 })
            &&& r.0 == spec_contract_decide(spec_total_power(stakes@), y, n, v, t)
        }),
{
    let mut yes: u64 = 0;
    let mut no: u64 = 0;
    let mut veto: u64 = 0;
    let mut abstain: u64 = 0;
    let mut voted: u64 = 0;
    let count = votes.len();
    let mut i: usize = 0;
    while i < count
        invariant
            count == votes@.len(),
            i <= count,
            spec_contract_tally(stakes@, votes@).4 <= u64::MAX,
            spec_contract_tally(stakes@, votes@.subrange(0, i as int))
                == (yes as nat, no as nat, veto as nat, abstain as nat, voted as nat),
        decreases count - i,
    {
        let ghost prev = votes@.subrange(0, i as int);
        assert(votes@.subrange(0, i + 1).drop_last() =~= prev);
        proof {
            lemma_contract_tally_sums(stakes@, prev);
            lemma_contract_tally_prefix(stakes@, votes@, i + 1);
        }
        let key = &votes[i].0;
        let value = &votes[i].1;
        let key_len = key.len();
        if key_len >= 32 {
            let voter = vstd::slice::slice_subrange(key.as_slice(), key_len - 32, key_len);
            let weight = power_of(stakes, voter);
            if value.len() > 0 && value[0] <= 3 {
                if value[0] == 0 {
                    yes = yes + weight;
                } else if value[0] == 1 {
                    no = no + weight;
                } else if value[0] == 2 {
                    veto = veto + weight;
                } else {
                    abstain = abstain + weight;
                }
                voted = voted + weight;
            }
        }
        i = i + 1;
    }
    assert(votes@.subrange(0, count as int) =~= votes@);
    let total = crate::governance::total_power(stakes);
    let status = if total > 0 && voted >= total / 3 {
        let non_abstain = yes as u128 + no as u128 + veto as u128;
        if non_abstain > 0 && yes as u128 > non_abstain / 2 { ProposalStatus::Passed } else { ProposalStatus::Rejected }
    } else {
        ProposalStatus::Rejected
    };
    (status, TallyResult { yes, no, no_with_veto: veto, abstain })
}

/// A proposal after its vote closed: its final tally and the decision recorded.
pub fn contract_finalize(proposal: Proposal, stakes: &Vec<([u8; 32], u64)>, votes: &Vec<(Vec<u8>, Vec<u8>)>) -> (p: Proposal)
    requires
        spec_contract_tally_fits(stakes@, votes@),
    ensures
        ({
            let (y, n, v, a, t) = spec_contract_tally(stakes@, votes@);
            &&& p.final_tally == Some(TallyResult { yes: y as u64, no: n as u64, no_with_veto: v as u64, abstain: a as u64 })
            &&& p.status == spec_contract_decide(spec_total_power(stakes@), y, n, v, t)
            &&& p == (Proposal { final_tally: p.final_tally, status: p.status, ..proposal })
        }),
{
    let (status, tally) = contract_tally(stakes, votes);
    let mut p = proposal;
    p.final_tally = Some(tally);
    p.status = status;
    p
}

/// The stakes the contract tallies with: each current validator's weight,
/// truncated to `u64`; a later entry for an account replaces an earlier one.
pub open spec fn spec_contract_stakes(vs: Seq<ValidatorV1>) -> Seq<([u8; 32], u64)>
    decreases vs.len(),
{
    if vs.len() == 0 {
        Seq::empty()
    } else {
        let s = spec_contract_stakes(vs.drop_last());
        let v = vs.last();
        let w = v.weight as u64;
        if exists|i: int| 0 <= i < s.len() && s[i].0 == v.account_id {
            let i = choose|i: int| 0 <= i < s.len() && s[i].0 == v.account_id;
            s.update(i, (v.account_id, w))
        } else {
            s.push((v.account_id, w))
        }
    }
}

fn find_stake(s: &Vec<([u8; 32], u64)>, account: &[u8; 32]) -> (r: Option<usize>)
    ensures
        match r {
            Some(i) => i < s@.len() && s@[i as int].0 == *account,
            None => forall|j: int| 0 <= j < s@.len() ==> s@[j].0 != *account,
        },
{
    let n = s.len();
    let mut i: usize = 0;
    while i < n
        invariant
            n == s@.len(),
            i <= n,
            forall|j: int| 0 <= j < i ==> s@[j].0 != *account,
        decreases n - i,
    {
        if bytes_eq(s[i].0.as_slice(), account.as_slice()) {
            assert(s@[i as int].0 =~= *account);
            return Some(i);
        }
        i = i + 1;
    }
    None
}

/// The stakes of a list of validators, as the contract tallies with them.
pub fn stakes_of_validators(vs: &Vec<ValidatorV1>) -> (r: Vec<([u8; 32], u64)>)
    ensures
        r@ == spec_contract_stakes(vs@),
{
    let mut out: Vec<([u8; 32], u64)> = Vec::new();
    let n = vs.len();
    let mut i: usize = 0;
    while i < n
        invariant
            n == vs@.len(),
            i <= n,
            out@ == spec_contract_stakes(vs@.subrange(0, i as int)),
            forall|a: int, b: int| 0 <= a < b < out@.len() ==> out@[a].0 != out@[b].0,
        decreases n - i,
    {
        let v = vs[i];
        let w = v.weight as u64;
        assert(vs@.subrange(0, i + 1).drop_last() =~= vs@.subrange(0, i as int));
        match find_stake(&out, &v.account_id) {
            Some(j) => {
                proof {
                    let c = choose|k: int| 0 <= k < out@.len() && out@[k].0 == v.account_id;
                    assert(c == j);
                }
                out.set(j, (v.account_id, w));
            }
            None => {
                out.push((v.account_id, w));
            }
        }
        i = i + 1;
    }
    assert(vs@.subrange(0, n as int) =~= vs@);
    out
}

/// The stakes the contract tallies with, from the current validator set, or
/// none where no validator set is stored.
pub fn contract_stakes(sets: &Option<ValidatorSetsV1>) -> (r: Vec<([u8; 32], u64)>)
    ensures
        r@ == match sets { Some(s) => spec_contract_stakes(s.current.validators@), None => Seq::empty() },
{
    match sets {
        None => Vec::new(),
        Some(s) => stakes_of_validators(&s.current.validators),
    }
}

/// The ids whose vote closes at `height`: none where no index is stored; the
/// stored index must decode.
pub open spec fn spec_tally_index_at(st: Map<Seq<u8>, Seq<u8>>, height: u64) -> Result<Option<Seq<u64>>, ContractError> {
    let key = spec_tally_index_key(height);
    if !st.contains_key(key) {
        Ok(None)
    } else {
        match spec_id_list_prefix(st[key]) {
            None => Err(ContractError::InvalidIndex),
            Some(v) => Ok(Some(v)),
        }
    }
}

/// Reads the ids of the proposals whose vote closes at `height`.
pub fn tally_index_at(state: &StateMap, height: u64) -> (r: Result<Option<Vec<u64>>, ContractError>)
    ensures
        match (r, spec_tally_index_at(state.view(), height)) {
            (Ok(Some(a)), Ok(Some(b))) => a@ == b,
            (Ok(None), Ok(None)) => true,
            (Err(e), Err(f)) => e == f,
            _ => false,
        },
{
    let key = tally_index_key(height);
    match state.get(key.as_slice()) {
        None => Ok(None),
        Some(b) => match read_id_list(b.as_slice()) {
            None => Err(ContractError::InvalidIndex),
            Some(v) => Ok(Some(v)),
        },
    }
}

/// A submitted proposal is tallied when its vote closes: its id is in the
/// tally index of the height the submission's vote ends at.
pub proof fn lemma_submitted_proposal_is_indexed(st: Map<Seq<u8>, Seq<u8>>, submitter: Seq<u8>, p: SubmitProposalParams, height: u64)
    requires
        spec_contract_submit_fits(st, submitter, p, height),
    ensures
        ({
            let after = spec_contract_submit(st, submitter, p, height);
            let id = match (if st.contains_key(spec_next_proposal_id_key()) { spec_u64_prefix(st[spec_next_proposal_id_key()]) } else { None }) {
                Some(x) => x,
                None => 0,
            };
            spec_tally_index_at(after, (height + VOTING_PERIOD_BLOCKS) as u64) matches Ok(Some(ids)) && ids.contains(id)
        }),
{
    let id = match (if st.contains_key(spec_next_proposal_id_key()) { spec_u64_prefix(st[spec_next_proposal_id_key()]) } else { None }) {
        Some(x) => x,
        None => 0,
    };
    let end = (height + VOTING_PERIOD_BLOCKS) as u64;
    let key = spec_tally_index_key(end);
    let after = spec_contract_submit(st, submitter, p, height);
    assert(key[5] == 105u8);
    assert(spec_proposal_key(id)[5] == 112u8);
    assert(spec_next_proposal_id_key()[5] == 110u8);
    let proposal = spec_proposal_fields_bytes(id, p.title@, p.description@, p.proposal_type, ProposalStatus::VotingPeriod,
        submitter, height, 0, height, end, p.deposit, None);
    let st1 = st.insert(spec_next_proposal_id_key(), spec_u64_to_le_bytes((id + 1) as u64))
        .insert(spec_proposal_key(id), spec_entry_bytes(proposal, height));
    let index = match (if st1.contains_key(key) { spec_id_list_prefix(st1[key]) } else { None }) {
        Some(v) => v,
        None => Seq::empty(),
    };
    if index.contains(id) {
        assert(after == st1);
        assert(st1.contains_key(key));
        assert(spec_id_list_prefix(st1[key]) == Some(index));
    } else {
        let ids = index.push(id);
        assert(ids[ids.len() - 1] == id);
        assert(after[key] == spec_scale_ids(ids));
        assert(spec_scale_ids(ids) =~= spec_scale_ids(ids) + Seq::<u8>::empty());
        assert(ids.len() <= u32::MAX) by {
            if st.contains_key(key) {
                assert(st1[key] == st[key]);
            }
        }
        let v = choose|v: Seq<u64>| #![trigger spec_scale_ids(v)] exists|rest: Seq<u8>| v.len() <= u32::MAX && after[key] == #[trigger] (spec_scale_ids(v) + rest);
        let r = choose|rest: Seq<u8>| v.len() <= u32::MAX && after[key] == #[trigger] (spec_scale_ids(v) + rest);
        lemma_id_list_unique(v, ids, r, Seq::<u8>::empty());
    }
}

/// Law: the contract passes a proposal only when its Yes power is more than
/// half of the Yes, No and NoWithVeto power together and the voted power is at
/// least a third of the total stake (as integer division gives it); so Yes
/// power no greater than the No or the NoWithVeto power is always rejected.
pub proof fn lemma_contract_passed_needs_majority(total_stake: nat, yes: nat, no: nat, veto: nat, voted: nat)
    requires
        spec_contract_decide(total_stake, yes, no, veto, voted) == ProposalStatus::Passed,
    ensures
        2 * yes > yes + no + veto,
        yes > no,
        yes > veto,
        total_stake > 0,
        3 * voted + 3 > total_stake,
{
    let s = yes + no + veto;
    assert(yes > s / 2);
    assert(2 * yes > s) by (nonlinear_arith)
        requires yes > s / 2;
    assert(3 * voted + 3 > total_stake) by (nonlinear_arith)
        requires voted >= total_stake / 3;
}

/// Law: in the contract's tally of any votes, a passed outcome has Yes power
/// above half of the Yes, No and NoWithVeto power the tally records.
pub proof fn lemma_contract_tally_passed_majority(stakes: Seq<([u8; 32], u64)>, votes: Seq<(Vec<u8>, Vec<u8>)>)
    ensures
        ({
            let (y, n, v, a, t) = spec_contract_tally(stakes, votes);
            spec_contract_decide(spec_total_power(stakes), y, n, v, t) == ProposalStatus::Passed
                ==> 2 * y > y + n + v
        }),
{
    let (y, n, v, a, t) = spec_contract_tally(stakes, votes);
    if spec_contract_decide(spec_total_power(stakes), y, n, v, t) == ProposalStatus::Passed {
        lemma_contract_passed_needs_majority(spec_total_power(stakes), y, n, v, t);
    }
}

} // verus!
