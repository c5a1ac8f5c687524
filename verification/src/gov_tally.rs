//! The governance contract's end of block: every proposal whose vote closes at
//! this height is tallied against the current validator weights, its final
//! tally and decision are stored, and the height's tally index is cleared.

use vstd::prelude::*;
use vstd::bytes::*;
use crate::bytes::append_bytes;
use crate::codec::{lemma_compact_len_mono, push_scale_bytes, spec_scale_bytes, spec_scale_compact};
use crate::gov_contract::{
    contract_finalize, lemma_tally_order_free, spec_contract_decide, spec_contract_stakes, spec_contract_tally,
    spec_id_list_prefix, spec_tally_index_key, stakes_of_validators, tally_index_at, tally_index_key, ContractError,
};
use crate::governance::{
    proposal_key, proposal_to_bytes, push_u64, spec_entry_bytes, spec_proposal_key, spec_tally_fits, spec_tally_proposal,
    spec_total_power, GovernanceError, GovernanceModule, GovernanceParams, ProposalStatus, TallyResult,
};
use crate::proposal_codec::{
    lemma_entry_roundtrip, lemma_proposal_bytes_view, lemma_proposal_roundtrip, lemma_view_bytes_tally_len, load_proposal,
    proposal_view, spec_entry_prefix, spec_load_proposal, spec_proposal_prefix, spec_view_bytes,
    spec_view_fits, LoadError, ProposalView,
};
use crate::state::{spec_enumerates, spec_with_prefix, StateMap};
use crate::validator_codec::{current_validators, spec_current_validators_prefix};

verus! {

/// The key of the validator sets. (`system::validators::current`)
pub open spec fn spec_validator_set_key() -> Seq<u8> {
    seq![115u8, 121u8, 115u8, 116u8, 101u8, 109u8, 58u8, 58u8, 118u8, 97u8, 108u8, 105u8, 100u8, 97u8, 116u8, 111u8, 114u8,
        115u8, 58u8, 58u8, 99u8, 117u8, 114u8, 114u8, 101u8, 110u8, 116u8]
}

/// The key of the validator sets. (`system::validators::current`)
pub fn validator_set_key() -> (r: Vec<u8>)
    ensures
        r@ == spec_validator_set_key(),
{
    let r: Vec<u8> = vec![115u8, 121u8, 115u8, 116u8, 101u8, 109u8, 58u8, 58u8, 118u8, 97u8, 108u8, 105u8, 100u8, 97u8, 116u8,
        111u8, 114u8, 115u8, 58u8, 58u8, 99u8, 117u8, 114u8, 114u8, 101u8, 110u8, 116u8];
    assert(r@ =~= spec_validator_set_key());
    r
}

/// The stakes the contract tallies with: those of the current validators of
/// the stored sets; none where no sets are stored or they do not decode.
pub open spec fn spec_state_stakes(st: Map<Seq<u8>, Seq<u8>>) -> Seq<([u8; 32], u64)> {
    if !st.contains_key(spec_validator_set_key()) {
        Seq::empty()
    } else {
        match spec_current_validators_prefix(st[spec_validator_set_key()]) {
            Some(vs) => spec_contract_stakes(vs),
            None => Seq::empty(),
        }
    }
}

/// Reads the stakes the contract tallies with.
pub fn state_stakes(state: &StateMap) -> (r: Vec<([u8; 32], u64)>)
    ensures
        r@ == spec_state_stakes(state.view()),
{
    let key = validator_set_key();
    match state.get(key.as_slice()) {
        None => Vec::new(),
        Some(b) => match current_validators(b.as_slice()) {
            None => Vec::new(),
            Some(vs) => stakes_of_validators(&vs),
        },
    }
}

/// The key prefix of the votes on a proposal: `gov::vote::`, the id
/// little-endian, then `::`.
pub open spec fn spec_votes_key_prefix(id: u64) -> Seq<u8> {
    crate::governance::spec_vote_prefix() + spec_u64_to_le_bytes(id) + seq![58u8, 58u8]
}

pub(crate) fn votes_key_prefix(id: u64) -> (r: Vec<u8>)
    ensures
        r@ == spec_votes_key_prefix(id),
{
    let mut r = crate::governance::vote_prefix();
    let b = u64_to_le_bytes(id);
    append_bytes(&mut r, b.as_slice());
    r.push(58u8);
    r.push(58u8);
    r
}

/// The vote records on a proposal, listed in some order (the tally does not
/// depend on it).
pub open spec fn spec_votes_of(st: Map<Seq<u8>, Seq<u8>>, id: u64) -> Seq<(Vec<u8>, Vec<u8>)> {
    choose|s: Seq<(Vec<u8>, Vec<u8>)>| spec_enumerates(s, spec_with_prefix(st, spec_votes_key_prefix(id)))
}

/// A proposal after its vote closed: its final tally and the decision recorded.
pub open spec fn spec_tallied(v: ProposalView, stakes: Seq<([u8; 32], u64)>, votes: Seq<(Vec<u8>, Vec<u8>)>) -> ProposalView {
    let (y, n, ve, a, t) = spec_contract_tally(stakes, votes);
    ProposalView {
        final_tally: Some(TallyResult { yes: y as u64, no: n as u64, no_with_veto: ve as u64, abstain: a as u64 }),
        status: spec_contract_decide(spec_total_power(stakes), y, n, ve, t),
        ..v
    }
}

/// The state after tallying one proposal: it must be stored and decode; its
/// entry keeps its height and holds the tallied proposal.
pub open spec fn spec_tally_step(st: Map<Seq<u8>, Seq<u8>>, id: u64, stakes: Seq<([u8; 32], u64)>)
    -> Result<Map<Seq<u8>, Seq<u8>>, ContractError>
{
    match spec_load_proposal(st, id) {
        Err(LoadError::NotFound) => Err(ContractError::ProposalNotFound),
        Err(LoadError::Undecodable) => Err(ContractError::Decode),
        Ok((v, h)) => Ok(st.insert(spec_proposal_key(id),
            spec_entry_bytes(spec_view_bytes(spec_tallied(v, stakes, spec_votes_of(st, id))), h))),
    }
}

/// Tallies the proposals in order; the first failure stops the run and keeps
/// the earlier proposals' results.
pub open spec fn spec_tally_all(st: Map<Seq<u8>, Seq<u8>>, ids: Seq<u64>, stakes: Seq<([u8; 32], u64)>)
    -> (Map<Seq<u8>, Seq<u8>>, Option<ContractError>)
    decreases ids.len(),
{
    if ids.len() == 0 {
        (st, None)
    } else {
        match spec_tally_step(st, ids[0], stakes) {
            Err(e) => (st, Some(e)),
            Ok(st2) => spec_tally_all(st2, ids.drop_first(), stakes),
        }
    }
}

/// The contract's end of block at `height`: nothing to do without a tally
/// index for the height; an index that does not decode is refused; else every
/// indexed proposal is tallied with the stakes of the current validators and,
/// when all succeed, the index is removed.
pub open spec fn spec_contract_end_block(st: Map<Seq<u8>, Seq<u8>>, height: u64) -> (Map<Seq<u8>, Seq<u8>>, Result<(), ContractError>) {
    let key = spec_tally_index_key(height);
    if !st.contains_key(key) {
        (st, Ok(()))
    } else {
        match spec_id_list_prefix(st[key]) {
            None => (st, Err(ContractError::InvalidIndex)),
            Some(ids) => {
                let (st2, e) = spec_tally_all(st, ids, spec_state_stakes(st));
                match e {
                    Some(e) => (st2, Err(e)),
                    None => (st2.remove(key), Ok(())),
                }
            },
        }
    }
}

/// The bound on stored proposal entries: re-encoding with a final tally adds
/// at most 36 bytes, which must still fit the encoding's `u32` length.
pub open spec fn spec_entry_limit() -> nat {
    0xFFFF_FFBF
}

/// Whether the entry stored for a proposal is within the bound, or is one this
/// tally wrote (already carrying a final tally) within the bound plus 36 bytes.
pub open spec fn spec_stored_fits(st: Map<Seq<u8>, Seq<u8>>, id: u64) -> bool {
    let k = spec_proposal_key(id);
    st.contains_key(k) ==> (st[k].len() <= spec_entry_limit()
        || (st[k].len() <= spec_entry_limit() + 36 && (spec_load_proposal(st, id) matches Ok((v, _)) && v.final_tally is Some)))
}

/// Whether the tally of the proposals indexed at `height` stays within the
/// machine's integers: the stakes and every tally fit `u64`, and every stored
/// proposal entry stays within the encoding's limit.
pub open spec fn spec_end_block_fits(st: Map<Seq<u8>, Seq<u8>>, height: u64) -> bool {
    let key = spec_tally_index_key(height);
    st.contains_key(key) ==> (spec_id_list_prefix(st[key]) matches Some(ids) ==> {
        let stakes = spec_state_stakes(st);
        &&& spec_total_power(stakes) <= u64::MAX
        &&& forall|i: int| 0 <= i < ids.len() ==> #[trigger] spec_contract_tally(stakes, spec_votes_of(st, ids[i])).4 <= u64::MAX
        &&& forall|i: int| 0 <= i < ids.len() ==> #[trigger] st.contains_key(spec_proposal_key(ids[i]))
            ==> st[spec_proposal_key(ids[i])].len() <= spec_entry_limit()
    })
}

/// Distinct ids have distinct proposal keys.
proof fn lemma_proposal_key_injective(a: u64, b: u64)
    requires
        spec_proposal_key(a) == spec_proposal_key(b),
    ensures
        a == b,
{
    lemma_auto_spec_u64_to_from_le_bytes();
    let ka = spec_proposal_key(a);
    let kb = spec_proposal_key(b);
    let n = crate::governance::spec_proposal_prefix().len() as int;
    assert(ka.subrange(n, n + 8) =~= spec_u64_to_le_bytes(a));
    assert(kb.subrange(n, n + 8) =~= spec_u64_to_le_bytes(b));
}

/// Writing a proposal entry leaves every proposal's votes as they were.
proof fn lemma_votes_untouched(st: Map<Seq<u8>, Seq<u8>>, id: u64, value: Seq<u8>, other: u64)
    ensures
        spec_with_prefix(st.insert(spec_proposal_key(id), value), spec_votes_key_prefix(other))
            == spec_with_prefix(st, spec_votes_key_prefix(other)),
{
    let k = spec_proposal_key(id);
    let p = spec_votes_key_prefix(other);
    assert(k[5] == 112u8);
    assert(p[5] == 118u8);
    assert(!p.is_prefix_of(k));
    assert(spec_with_prefix(st.insert(k, value), p) =~= spec_with_prefix(st, p));
}

/// A loaded proposal's encoding, with its length prefix and height, fits in
/// the stored value it was read from.
proof fn lemma_loaded_len(st: Map<Seq<u8>, Seq<u8>>, id: u64, v: ProposalView, h: u64)
    requires
        spec_load_proposal(st, id) == Ok::<(ProposalView, u64), LoadError>((v, h)),
    ensures
        spec_view_bytes(v).len() <= u32::MAX,
        spec_scale_compact(spec_view_bytes(v).len() as u32).len() + spec_view_bytes(v).len() + 8 <= st[spec_proposal_key(id)].len(),
{
    let s = st[spec_proposal_key(id)];
    let (value0, h0) = spec_entry_prefix(s)->0;
    let x = choose|x: Seq<u8>| value0.len() <= u32::MAX && s == #[trigger] (spec_entry_bytes(value0, h0) + x);
    let y = choose|y: Seq<u8>| spec_view_fits(v) && value0 == #[trigger] (spec_view_bytes(v) + y);
    assert(spec_view_bytes(v).len() <= value0.len());
    lemma_compact_len_mono(spec_view_bytes(v).len() as u32, value0.len() as u32);
    lemma_auto_spec_u64_to_from_le_bytes();
    assert(spec_entry_bytes(value0, h0).len() == spec_scale_compact(value0.len() as u32).len() + value0.len() + 8);
}

/// The length of a stored entry once its proposal carries a final tally: at
/// most 36 bytes more than the bound when it had none, no more than before
/// when it had one.
proof fn lemma_retally_len(st: Map<Seq<u8>, Seq<u8>>, id: u64, v: ProposalView, h: u64, t: Option<TallyResult>, status: crate::governance::ProposalStatus)
    requires
        spec_load_proposal(st, id) == Ok::<(ProposalView, u64), LoadError>((v, h)),
        spec_view_fits(v),
        spec_stored_fits(st, id),
        t is Some,
    ensures
        ({
            let v2 = ProposalView { final_tally: t, status, ..v };
            let e = spec_entry_bytes(spec_view_bytes(v2), h);
            &&& spec_view_fits(v2)
            &&& spec_view_bytes(v2).len() <= spec_entry_limit() + 23
            &&& e.len() <= spec_entry_limit() + 36
        }),
{
    let s = st[spec_proposal_key(id)];
    lemma_loaded_len(st, id, v, h);
    let v2 = ProposalView { final_tally: t, status, ..v };
    lemma_view_bytes_tally_len(v, t, status);
    let len1 = spec_view_bytes(v).len();
    let len2 = spec_view_bytes(v2).len();
    lemma_auto_spec_u64_to_from_le_bytes();
    assert(spec_entry_bytes(spec_view_bytes(v2), h).len() == spec_scale_compact(len2 as u32).len() + len2 + 8);
    if v.final_tally is Some {
        assert(len2 == len1);
    } else {
        assert(s.len() <= spec_entry_limit());
        lemma_compact_len_mono(len2 as u32, u32::MAX);
    }
}

/// Encodes the entry of a proposal written at height `h`.
fn entry_of(p: &crate::governance::Proposal, h: u64) -> (e: Vec<u8>)
    requires
        spec_view_fits(proposal_view(*p)),
        spec_view_bytes(proposal_view(*p)).len() <= u32::MAX,
    ensures
        e@ == spec_entry_bytes(spec_view_bytes(proposal_view(*p)), h),
{
    proof {
        lemma_proposal_bytes_view(*p);
    }
    let value = proposal_to_bytes(p);
    let mut entry: Vec<u8> = Vec::new();
    push_scale_bytes(&mut entry, value.as_slice());
    push_u64(&mut entry, h);
    assert(entry@ =~= spec_entry_bytes(value@, h));
    entry
}

/// Tallies one proposal.
fn tally_one(state: &mut StateMap, id: u64, stakes: &Vec<([u8; 32], u64)>) -> (r: Result<(), ContractError>)
    requires
        spec_total_power(stakes@) <= u64::MAX,
        spec_contract_tally(stakes@, spec_votes_of(old(state).view(), id)).4 <= u64::MAX,
        spec_stored_fits(old(state).view(), id),
    ensures
        match spec_tally_step(old(state).view(), id, stakes@) {
            Ok(st) => r is Ok && final(state).view() == st,
            Err(e) => r == Err::<(), ContractError>(e) && final(state).view() == old(state).view(),
        },
        r is Ok ==> spec_stored_fits(final(state).view(), id),
{
    let ghost st = state.view();
    let (p, h) = match load_proposal(state, id) {
        Err(LoadError::NotFound) => return Err(ContractError::ProposalNotFound),
        Err(LoadError::Undecodable) => return Err(ContractError::Decode),
        Ok(x) => x,
    };
    let ghost v = proposal_view(p);
    let vp = votes_key_prefix(id);
    let votes = state.prefix_scan(vp.as_slice());
    let ghost chosen = spec_votes_of(st, id);
    proof {
        assert(spec_enumerates(chosen, spec_with_prefix(st, spec_votes_key_prefix(id))));
        lemma_tally_order_free(stakes@, votes@, chosen, spec_with_prefix(st, spec_votes_key_prefix(id)));
    }
    let p2 = contract_finalize(p, stakes, &votes);
    let ghost v2 = spec_tallied(v, stakes@, chosen);
    proof {
        assert(proposal_view(p2) == v2);
        lemma_retally_len(st, id, v, h, v2.final_tally, v2.status);
        assert(v2 == (ProposalView { final_tally: v2.final_tally, status: v2.status, ..v }));
    }
    let entry = entry_of(&p2, h);
    let key = proposal_key(id);
    state.insert(key.as_slice(), entry.as_slice());
    proof {
        lemma_entry_roundtrip(spec_view_bytes(v2), h);
        lemma_proposal_roundtrip(v2);
        assert(spec_load_proposal(state.view(), id) == Ok::<(ProposalView, u64), LoadError>((v2, h)));
    }
    Ok(())
}

/// A proposal after the module's tally: the decided status, and the final
/// tally where one was taken (none is taken without any voting power, and the
/// stored one is then kept).
pub open spec fn spec_module_tallied(v: ProposalView, status: ProposalStatus, tally: Option<TallyResult>) -> ProposalView {
    ProposalView { status, final_tally: if tally is Some { tally } else { v.final_tally }, ..v }
}

/// The state and the outcome of the module's tally of proposal `id` on the
/// listed vote records: a missing proposal and one that does not decode are
/// refused, as is a tally that fails; else only the proposal's entry is
/// rewritten, keeping its height and every field but the status and the tally.
pub open spec fn spec_module_tally_stored(
    st: Map<Seq<u8>, Seq<u8>>,
    params: GovernanceParams,
    id: u64,
    stakes: Seq<([u8; 32], u64)>,
    votes: Seq<(Vec<u8>, Vec<u8>)>,
) -> (Map<Seq<u8>, Seq<u8>>, Result<(), GovernanceError>) {
    match spec_load_proposal(st, id) {
        Err(LoadError::NotFound) => (st, Err(GovernanceError::ProposalNotFound(id))),
        Err(LoadError::Undecodable) => (st, Err(GovernanceError::InvalidProposal)),
        Ok((v, h)) => match spec_tally_proposal(params, stakes, votes) {
            Err(e) => (st, Err(e)),
            Ok((status, tally)) => (
                st.insert(spec_proposal_key(id), spec_entry_bytes(spec_view_bytes(spec_module_tallied(v, status, tally)), h)),
                Ok(()),
            ),
        },
    }
}

impl GovernanceModule {
    /// Tallies the proposal stored under `proposal_id` on the vote records
    /// stored for it (`gov::vote::`, the id, `::`, the voter) and stores the
    /// outcome in the proposal's entry. The state is left as it was on every
    /// refusal.
    pub fn tally_stored_proposal(&self, state: &mut StateMap, proposal_id: u64, stakes: &Vec<([u8; 32], u64)>)
        -> (r: Result<(), GovernanceError>)
        requires
            spec_stored_fits(old(state).view(), proposal_id),
            forall|votes: Seq<(Vec<u8>, Vec<u8>)>|
                #[trigger] spec_enumerates(votes, spec_with_prefix(old(state).view(), spec_votes_key_prefix(proposal_id)))
                ==> spec_tally_fits(self.params, stakes@, votes),
        ensures
            exists|votes: Seq<(Vec<u8>, Vec<u8>)>|
                #[trigger] spec_enumerates(votes, spec_with_prefix(old(state).view(), spec_votes_key_prefix(proposal_id)))
                && (final(state).view(), r) == spec_module_tally_stored(old(state).view(), self.params, proposal_id, stakes@, votes),
    {
        let ghost st = state.view();
        let vp = votes_key_prefix(proposal_id);
        let votes = state.prefix_scan(vp.as_slice());
        assert(spec_enumerates(votes@, spec_with_prefix(st, spec_votes_key_prefix(proposal_id))));
        let (p, h) = match load_proposal(state, proposal_id) {
            Err(LoadError::NotFound) => return Err(GovernanceError::ProposalNotFound(proposal_id)),
            Err(LoadError::Undecodable) => return Err(GovernanceError::InvalidProposal),
            Ok(x) => x,
        };
        let ghost v = proposal_view(p);
        let (status, tally) = match self.tally_proposal(stakes, &votes) {
            Err(e) => return Err(e),
            Ok(x) => x,
        };
        let mut p2 = p;
        p2.status = status;
        if tally.is_some() {
            p2.final_tally = tally;
        }
        let ghost v2 = spec_module_tallied(v, status, tally);
        proof {
            assert(proposal_view(p2) == v2);
            if tally is Some {
                lemma_retally_len(st, proposal_id, v, h, tally, status);
            } else {
                lemma_loaded_len(st, proposal_id, v, h);
                lemma_view_bytes_tally_len(v, v.final_tally, status);
            }
        }
        let entry = entry_of(&p2, h);
        let key = proposal_key(proposal_id);
        state.insert(key.as_slice(), entry.as_slice());
        Ok(())
    }
}

/// Runs the contract's end of block at `height`.
#[verifier::rlimit(40)]
pub fn contract_end_block(state: &mut StateMap, height: u64) -> (r: Result<(), ContractError>)
    requires
        spec_end_block_fits(old(state).view(), height),
    ensures
        ({
            let (st, res) = spec_contract_end_block(old(state).view(), height);
            final(state).view() == st && r == res
        }),
{
    let ghost st0 = state.view();
    let ids = match tally_index_at(state, height) {
        Err(e) => return Err(e),
        Ok(None) => return Ok(()),
        Ok(Some(ids)) => ids,
    };
    let stakes = state_stakes(state);
    let n = ids.len();
    assert(ids@.subrange(0, n as int) =~= ids@);
    let mut i: usize = 0;
    while i < n
        invariant
            n == ids@.len(),
            i <= n,
            st0 == old(state).view(),
            st0.contains_key(spec_tally_index_key(height)),
            spec_id_list_prefix(st0[spec_tally_index_key(height)]) == Some(ids@),
            stakes@ == spec_state_stakes(st0),
            spec_total_power(stakes@) <= u64::MAX,
            spec_tally_all(st0, ids@, stakes@) == spec_tally_all(state.view(), ids@.subrange(i as int, n as int), stakes@),
            forall|j: int| 0 <= j < n ==> #[trigger] spec_with_prefix(state.view(), spec_votes_key_prefix(ids@[j]))
                == spec_with_prefix(st0, spec_votes_key_prefix(ids@[j])),
            forall|j: int| 0 <= j < n ==> #[trigger] spec_contract_tally(stakes@, spec_votes_of(st0, ids@[j])).4 <= u64::MAX,
            forall|j: int| 0 <= j < n ==> #[trigger] spec_stored_fits(state.view(), ids@[j]),
        decreases n - i,
    {
        let id = ids[i];
        let ghost sti = state.view();
        proof {
            assert(spec_with_prefix(sti, spec_votes_key_prefix(ids@[i as int])) == spec_with_prefix(st0, spec_votes_key_prefix(ids@[i as int])));
            assert(spec_votes_of(sti, id) == spec_votes_of(st0, id));
            assert(spec_contract_tally(stakes@, spec_votes_of(st0, ids@[i as int])).4 <= u64::MAX);
            assert(spec_stored_fits(sti, ids@[i as int]));
            assert(ids@.subrange(i as int, n as int)[0] == id);
        }
        match tally_one(state, id, &stakes) {
            Err(e) => {
                proof {
                    assert(spec_tally_all(sti, ids@.subrange(i as int, n as int), stakes@) == (sti, Some(e)));
                    assert(spec_tally_all(st0, ids@, stakes@) == (sti, Some(e)));
                    assert(spec_contract_end_block(st0, height) == (sti, Err::<(), ContractError>(e)));
                }
                return Err(e);
            }
            Ok(()) => {}
        }
        proof {
            let stn = state.view();
            assert(ids@.subrange(i as int, n as int).drop_first() =~= ids@.subrange(i + 1, n as int));
            let k = spec_proposal_key(id);
            assert forall|j: int| 0 <= j < n implies #[trigger] spec_with_prefix(stn, spec_votes_key_prefix(ids@[j]))
                == spec_with_prefix(st0, spec_votes_key_prefix(ids@[j])) by {
                lemma_votes_untouched(sti, id, stn[k], ids@[j]);
                assert(stn == sti.insert(k, stn[k]));
            }
            assert forall|j: int| 0 <= j < n implies #[trigger] spec_stored_fits(stn, ids@[j]) by {
                if ids@[j] != id {
                    let kj = spec_proposal_key(ids@[j]);
                    if kj == k {
                        lemma_proposal_key_injective(ids@[j], id);
                    }
                    assert(stn.contains_key(kj) == sti.contains_key(kj));
                    assert(spec_stored_fits(sti, ids@[j]));
                    if sti.contains_key(kj) {
                        assert(stn[kj] == sti[kj]);
                        assert(spec_load_proposal(stn, ids@[j]) == spec_load_proposal(sti, ids@[j]));
                    }
                }
            }
        }
        i = i + 1;
    }
    let key = tally_index_key(height);
    proof {
        assert(ids@.subrange(n as int, n as int) =~= Seq::<u64>::empty());
    }
    state.delete(key.as_slice());
    Ok(())
}

/// Whether the proposal stored under an id carries a final tally and a decision.
pub open spec fn spec_finalized(st: Map<Seq<u8>, Seq<u8>>, id: u64) -> bool {
    spec_load_proposal(st, id) matches Ok((v, _)) && v.final_tally is Some
        && (v.status == crate::governance::ProposalStatus::Passed || v.status == crate::governance::ProposalStatus::Rejected)
}

proof fn lemma_loaded_fits(st: Map<Seq<u8>, Seq<u8>>, id: u64, v: ProposalView, h: u64)
    requires
        spec_load_proposal(st, id) == Ok::<(ProposalView, u64), LoadError>((v, h)),
    ensures
        spec_view_fits(v),
{
    let s = st[spec_proposal_key(id)];
    let (value0, h0) = spec_entry_prefix(s)->0;
    let y = choose|y: Seq<u8>| spec_view_fits(v) && value0 == #[trigger] (spec_view_bytes(v) + y);
}

/// One tally step leaves its proposal tallied, decided and within the bound,
/// and touches no other key.
proof fn lemma_step_effect(st: Map<Seq<u8>, Seq<u8>>, j: u64, stakes: Seq<([u8; 32], u64)>)
    requires
        spec_tally_step(st, j, stakes) is Ok,
        spec_stored_fits(st, j),
    ensures
        ({
            let st2 = spec_tally_step(st, j, stakes)->Ok_0;
            &&& spec_finalized(st2, j)
            &&& spec_stored_fits(st2, j)
            &&& st2 == st.insert(spec_proposal_key(j), st2[spec_proposal_key(j)])
        }),
{
    let (v, h) = spec_load_proposal(st, j)->Ok_0;
    lemma_loaded_fits(st, j, v, h);
    let v2 = spec_tallied(v, stakes, spec_votes_of(st, j));
    lemma_retally_len(st, j, v, h, v2.final_tally, v2.status);
    assert(v2 == (ProposalView { final_tally: v2.final_tally, status: v2.status, ..v }));
    lemma_entry_roundtrip(spec_view_bytes(v2), h);
    lemma_proposal_roundtrip(v2);
    let st2 = spec_tally_step(st, j, stakes)->Ok_0;
    assert(spec_load_proposal(st2, j) == Ok::<(ProposalView, u64), LoadError>((v2, h)));
}

proof fn lemma_tally_all_finalizes(st: Map<Seq<u8>, Seq<u8>>, ids: Seq<u64>, stakes: Seq<([u8; 32], u64)>, id: u64)
    requires
        forall|i: int| 0 <= i < ids.len() ==> #[trigger] spec_stored_fits(st, ids[i]),
        spec_tally_all(st, ids, stakes).1 is None,
        ids.contains(id) || spec_finalized(st, id),
    ensures
        spec_finalized(spec_tally_all(st, ids, stakes).0, id),
    decreases ids.len(),
{
    if ids.len() > 0 {
        let j = ids[0];
        assert(spec_stored_fits(st, ids[0]));
        lemma_step_effect(st, j, stakes);
        let st1 = spec_tally_step(st, j, stakes)->Ok_0;
        let k = spec_proposal_key(j);
        let rest = ids.drop_first();
        assert forall|i: int| 0 <= i < rest.len() implies #[trigger] spec_stored_fits(st1, rest[i]) by {
            assert(rest[i] == ids[i + 1]);
            assert(spec_stored_fits(st, ids[i + 1]));
            if rest[i] != j {
                let ki = spec_proposal_key(rest[i]);
                if ki == k {
                    lemma_proposal_key_injective(rest[i], j);
                }
                assert(spec_load_proposal(st1, rest[i]) == spec_load_proposal(st, rest[i]));
            }
        }
        if id != j && spec_finalized(st, id) {
            let ki = spec_proposal_key(id);
            if ki == k {
                lemma_proposal_key_injective(id, j);
            }
            assert(spec_load_proposal(st1, id) == spec_load_proposal(st, id));
        }
        if id != j && !spec_finalized(st, id) {
            let i = choose|i: int| 0 <= i < ids.len() && ids[i] == id;
            assert(rest[i - 1] == id);
        }
        lemma_tally_all_finalizes(st1, rest, stakes, id);
    }
}

/// Law: a successful end of block at a height leaves every proposal indexed
/// for that height with a final tally and a decision (passed or rejected),
/// and clears the height's index.
pub proof fn lemma_end_block_finalizes(st: Map<Seq<u8>, Seq<u8>>, height: u64, id: u64)
    requires
        spec_end_block_fits(st, height),
        spec_contract_end_block(st, height).1 is Ok,
        st.contains_key(spec_tally_index_key(height)),
        spec_id_list_prefix(st[spec_tally_index_key(height)]) matches Some(ids) && ids.contains(id),
    ensures
        spec_finalized(spec_contract_end_block(st, height).0, id),
        !spec_contract_end_block(st, height).0.contains_key(spec_tally_index_key(height)),
{
    let key = spec_tally_index_key(height);
    let ids = spec_id_list_prefix(st[key])->0;
    let stakes = spec_state_stakes(st);
    assert forall|i: int| 0 <= i < ids.len() implies #[trigger] spec_stored_fits(st, ids[i]) by {
        if st.contains_key(spec_proposal_key(ids[i])) {
            assert(st[spec_proposal_key(ids[i])].len() <= spec_entry_limit());
        }
    }
    lemma_tally_all_finalizes(st, ids, stakes, id);
    let st2 = spec_tally_all(st, ids, stakes).0;
    let k = spec_proposal_key(id);
    assert(key[5] == 105u8);
    assert(k[5] == 112u8);
    assert(spec_load_proposal(st2.remove(key), id) == spec_load_proposal(st2, id));
}

} // verus!
