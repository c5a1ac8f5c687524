//! Governance tallying: the votes cast on a proposal, weighted by stake, decide
//! whether it passes.

use vstd::prelude::*;
use vstd::bytes::*;
use vstd::utf8::encode_utf8;
use crate::bytes::{append_bytes, bytes_eq};
use crate::codec::{push_scale_bytes, push_scale_str, spec_scale_bytes, spec_scale_str};
use crate::service::{TransactionError, TxContext};
use crate::state::StateMap;

verus! {

/// A vote.
#[derive(Debug, Clone, Copy, PartialEq, Eq, Structural)]
pub enum VoteOption {
    Yes,
    No,
    NoWithVeto,
    Abstain,
}

/// The lifecycle status of a proposal.
#[derive(Debug, Clone, Copy, PartialEq, Eq, Structural)]
pub enum ProposalStatus {
    DepositPeriod,
    VotingPeriod,
    Passed,
    Rejected,
}

/// The voting power behind each option.
#[derive(Debug, Clone, Copy, PartialEq, Eq, Structural)]
pub struct TallyResult {
    pub yes: u64,
    pub no: u64,
    pub no_with_veto: u64,
    pub abstain: u64,
}

/// The governance parameters the tally reads, as percentages.
#[derive(Debug, Clone, Copy, PartialEq, Eq, Structural)]
pub struct GovernanceParams {
    /// The minimum deposit of a proposal.
    pub min_deposit: u64,
    /// How many blocks the deposit period of a new proposal lasts.
    pub max_deposit_period_blocks: u64,
    /// The share of all voting power that must vote.
    pub quorum: u8,
    /// The share of non-abstaining power that Yes must exceed.
    pub threshold: u8,
    /// The share of non-abstaining power that NoWithVeto must not exceed.
    pub veto_threshold: u8,
}

/// Errors of governance calls.
#[derive(Debug, Clone, Copy, PartialEq, Eq, Structural)]
pub enum GovernanceError {
    /// A stored vote does not decode to a vote option.
    InvalidVote,
    /// No proposal with the id exists.
    ProposalNotFound(u64),
    /// The proposal is not accepting votes at this height.
    NotVotingPeriod,
    /// The deposit is below the minimum.
    InsufficientDeposit,
    /// The stored proposal counter does not decode.
    InvalidCounter,
    /// The stored proposal entry does not decode.
    InvalidProposal,
}

/// The governance module.
#[derive(Debug, Clone, Copy)]
pub struct GovernanceModule {
    pub params: GovernanceParams,
}

/// The key of the next proposal id. (`gov::next_id`)
pub open spec fn spec_next_proposal_id_key() -> Seq<u8> {
    seq![103u8, 111u8, 118u8, 58u8, 58u8, 110u8, 101u8, 120u8, 116u8, 95u8, 105u8, 100u8]
}

/// The key of the next proposal id. (`gov::next_id`)
pub fn next_proposal_id_key() -> (r: Vec<u8>)
    ensures
        r@ == spec_next_proposal_id_key(),
{
    let r: Vec<u8> = vec![103u8, 111u8, 118u8, 58u8, 58u8, 110u8, 101u8, 120u8, 116u8, 95u8, 105u8, 100u8];
    assert(r@ =~= spec_next_proposal_id_key());
    r
}

/// Prefix of stored proposals, followed by the little-endian id. (`gov::proposal::`)
pub open spec fn spec_proposal_prefix() -> Seq<u8> {
    seq![103u8, 111u8, 118u8, 58u8, 58u8, 112u8, 114u8, 111u8, 112u8, 111u8, 115u8, 97u8, 108u8, 58u8, 58u8]
}

/// Prefix of stored proposals, followed by the little-endian id. (`gov::proposal::`)
pub fn proposal_prefix() -> (r: Vec<u8>)
    ensures
        r@ == spec_proposal_prefix(),
{
    let r: Vec<u8> = vec![103u8, 111u8, 118u8, 58u8, 58u8, 112u8, 114u8, 111u8, 112u8, 111u8, 115u8, 97u8, 108u8, 58u8, 58u8];
    assert(r@ =~= spec_proposal_prefix());
    r
}

/// Prefix of stored votes: the little-endian proposal id, `::`, the voter. (`gov::vote::`)
pub open spec fn spec_vote_prefix() -> Seq<u8> {
    seq![103u8, 111u8, 118u8, 58u8, 58u8, 118u8, 111u8, 116u8, 101u8, 58u8, 58u8]
}

/// Prefix of stored votes: the little-endian proposal id, `::`, the voter. (`gov::vote::`)
pub fn vote_prefix() -> (r: Vec<u8>)
    ensures
        r@ == spec_vote_prefix(),
{
    let r: Vec<u8> = vec![103u8, 111u8, 118u8, 58u8, 58u8, 118u8, 111u8, 116u8, 101u8, 58u8, 58u8];
    assert(r@ =~= spec_vote_prefix());
    r
}

/// The key of a proposal.
pub open spec fn spec_proposal_key(id: u64) -> Seq<u8> {
    spec_proposal_prefix() + spec_u64_to_le_bytes(id)
}

/// The key of a proposal.
pub fn proposal_key(id: u64) -> (r: Vec<u8>)
    ensures
        r@ == spec_proposal_key(id),
{
    let mut r = proposal_prefix();
    let b = u64_to_le_bytes(id);
    append_bytes(&mut r, b.as_slice());
    r
}

/// The key of a vote: `gov::vote::`, the little-endian proposal id, `::`, the voter.
pub open spec fn spec_vote_key(proposal_id: u64, voter: Seq<u8>) -> Seq<u8> {
    spec_vote_prefix() + spec_u64_to_le_bytes(proposal_id) + seq![58u8, 58u8] + voter
}

/// The key of a vote.
pub fn vote_key(proposal_id: u64, voter: &[u8; 32]) -> (r: Vec<u8>)
    ensures
        r@ == spec_vote_key(proposal_id, voter@),
{
    let mut r = vote_prefix();
    let b = u64_to_le_bytes(proposal_id);
    append_bytes(&mut r, b.as_slice());
    r.push(58u8);
    r.push(58u8);
    append_bytes(&mut r, voter.as_slice());
    assert(r@ =~= spec_vote_key(proposal_id, voter@));
    r
}

/// A vote is counted for the account that cast it: the tally reads the voter
/// of a stored vote back from its key.
pub proof fn lemma_vote_key_names_voter(proposal_id: u64, voter: [u8; 32])
    ensures
        spec_voter(spec_vote_key(proposal_id, voter@)) == Some(voter@),
{
    let k = spec_vote_key(proposal_id, voter@);
    assert(k.subrange(k.len() - 32, k.len() as int) =~= voter@);
}

/// The vote option one stored byte string encodes (a single variant index).
pub open spec fn spec_decode_vote(b: Seq<u8>) -> Option<VoteOption> {
    if b.len() != 1 {
        None
    } else if b[0] == 0 {
        Some(VoteOption::Yes)
    } else if b[0] == 1 {
        Some(VoteOption::No)
    } else if b[0] == 2 {
        Some(VoteOption::NoWithVeto)
    } else if b[0] == 3 {
        Some(VoteOption::Abstain)
    } else {
        None
    }
}

/// The sum of the stakes.
pub open spec fn spec_total_power(stakes: Seq<([u8; 32], u64)>) -> nat
    decreases stakes.len(),
{
    if stakes.len() == 0 { 0 } else { spec_total_power(stakes.drop_last()) + stakes.last().1 as nat }
}

/// The stake of `voter`: the first entry for it, or 0.
pub open spec fn spec_power_of(stakes: Seq<([u8; 32], u64)>, voter: Seq<u8>) -> u64
    decreases stakes.len(),
{
    if stakes.len() == 0 {
        0
    } else if stakes[0].0@ == voter {
        stakes[0].1
    } else {
        spec_power_of(stakes.drop_first(), voter)
    }
}

/// The voter a vote key names: its last 32 bytes; `None` for a shorter key.
pub open spec fn spec_voter(key: Seq<u8>) -> Option<Seq<u8>> {
    if key.len() < 32 { None } else { Some(key.subrange(key.len() - 32, key.len() as int)) }
}

/// The power one vote record counts: its voter's stake, or 0 for a malformed key.
pub open spec fn spec_vote_power(stakes: Seq<([u8; 32], u64)>, key: Seq<u8>) -> nat {
    match spec_voter(key) {
        Some(v) => spec_power_of(stakes, v) as nat,
        None => 0,
    }
}

/// The tally of the first votes, as (yes, no, no_with_veto, abstain, voted),
/// or `None` where a vote does not decode.
pub open spec fn spec_tally(stakes: Seq<([u8; 32], u64)>, votes: Seq<(Vec<u8>, Vec<u8>)>) -> Option<(nat, nat, nat, nat, nat)>
    decreases votes.len(),
{
    if votes.len() == 0 {
        Some((0, 0, 0, 0, 0))
    } else {
        match spec_tally(stakes, votes.drop_last()) {
            None => None,
            Some((y, n, v, a, t)) => {
                let (key, value) = votes.last();
                let p = spec_vote_power(stakes, key@);
                match spec_decode_vote(value@) {
                    None => None,
                    Some(VoteOption::Yes) => Some((y + p, n, v, a, t + p)),
                    Some(VoteOption::No) => Some((y, n + p, v, a, t + p)),
                    Some(VoteOption::NoWithVeto) => Some((y, n, v + p, a, t + p)),
                    Some(VoteOption::Abstain) => Some((y, n, v, a + p, t + p)),
                }
            }
        }
    }
}

/// The sum of the power of all vote records, whatever they hold.
pub open spec fn spec_counted_power(stakes: Seq<([u8; 32], u64)>, votes: Seq<(Vec<u8>, Vec<u8>)>) -> nat
    decreases votes.len(),
{
    if votes.len() == 0 { 0 } else { spec_counted_power(stakes, votes.drop_last()) + spec_vote_power(stakes, votes.last().0@) }
}

/// The outcome for a tally: rejected without quorum, rejected when the veto
/// share is exceeded, passed when Yes exceeds the pass share, else rejected.
pub open spec fn spec_decide(params: GovernanceParams, total: nat, yes: nat, no: nat, veto: nat, voted: nat) -> ProposalStatus {
    let quorum_threshold = (total * params.quorum) / 100;
    let excl = yes + no + veto;
    if voted < quorum_threshold {
        ProposalStatus::Rejected
    } else if veto > (excl * params.veto_threshold) / 100 {
        ProposalStatus::Rejected
    } else if yes > (excl * params.threshold) / 100 {
        ProposalStatus::Passed
    } else {
        ProposalStatus::Rejected
    }
}

/// Whether every intermediate sum of a tally fits in `u64`.
pub open spec fn spec_tally_fits(params: GovernanceParams, stakes: Seq<([u8; 32], u64)>, votes: Seq<(Vec<u8>, Vec<u8>)>) -> bool {
    &&& spec_total_power(stakes) <= u64::MAX
    &&& spec_total_power(stakes) * params.quorum <= u64::MAX
    &&& spec_counted_power(stakes, votes) <= u64::MAX
    &&& spec_counted_power(stakes, votes) * params.veto_threshold <= u64::MAX
    &&& spec_counted_power(stakes, votes) * params.threshold <= u64::MAX
}

/// The result of a tally: the status and the final tally, or why it fails.
pub open spec fn spec_tally_proposal(params: GovernanceParams, stakes: Seq<([u8; 32], u64)>, votes: Seq<(Vec<u8>, Vec<u8>)>)
    -> Result<(ProposalStatus, Option<TallyResult>), GovernanceError>
{
    if spec_total_power(stakes) == 0 {
        Ok((ProposalStatus::Rejected, None))
    } else {
        match spec_tally(stakes, votes) {
            None => Err(GovernanceError::InvalidVote),
            Some((y, n, v, a, t)) => Ok((
                spec_decide(params, spec_total_power(stakes), y, n, v, t),
                Some(TallyResult { yes: y as u64, no: n as u64, no_with_veto: v as u64, abstain: a as u64 }),
            )),
        }
    }
}

/// The power behind the four options adds up to the voted power, which is the
/// power of all counted vote records.
pub proof fn lemma_tally_bounded(stakes: Seq<([u8; 32], u64)>, votes: Seq<(Vec<u8>, Vec<u8>)>)
    ensures
        spec_tally(stakes, votes) matches Some((y, n, v, a, t)) ==> y + n + v + a == t && t == spec_counted_power(stakes, votes),
    decreases votes.len(),
{
    if votes.len() > 0 {
        lemma_tally_bounded(stakes, votes.drop_last());
    }
}

proof fn lemma_counted_power_prefix(stakes: Seq<([u8; 32], u64)>, votes: Seq<(Vec<u8>, Vec<u8>)>, i: int)
    requires
        0 <= i <= votes.len(),
    ensures
        spec_counted_power(stakes, votes.subrange(0, i)) <= spec_counted_power(stakes, votes),
    decreases votes.len(),
{
    if i < votes.len() {
        assert(votes.drop_last().subrange(0, i) =~= votes.subrange(0, i));
        lemma_counted_power_prefix(stakes, votes.drop_last(), i);
    } else {
        assert(votes.subrange(0, i) =~= votes);
    }
}

proof fn lemma_tally_prefix_none(stakes: Seq<([u8; 32], u64)>, votes: Seq<(Vec<u8>, Vec<u8>)>, i: int)
    requires
        0 <= i <= votes.len(),
        spec_tally(stakes, votes.subrange(0, i)) is None,
    ensures
        spec_tally(stakes, votes) is None,
    decreases votes.len(),
{
    if i < votes.len() {
        assert(votes.drop_last().subrange(0, i) =~= votes.subrange(0, i));
        lemma_tally_prefix_none(stakes, votes.drop_last(), i);
    } else {
        assert(votes.subrange(0, i) =~= votes);
    }
}

pub(crate) fn decode_vote(b: &[u8]) -> (r: Option<VoteOption>)
    ensures
        r == spec_decode_vote(b@),
{
    if b.len() != 1 {
        None
    } else if b[0] == 0 {
        Some(VoteOption::Yes)
    } else if b[0] == 1 {
        Some(VoteOption::No)
    } else if b[0] == 2 {
        Some(VoteOption::NoWithVeto)
    } else if b[0] == 3 {
        Some(VoteOption::Abstain)
    } else {
        None
    }
}

pub(crate) fn power_of(stakes: &Vec<([u8; 32], u64)>, voter: &[u8]) -> (p: u64)
    ensures
        p == spec_power_of(stakes@, voter@),
{
    let n = stakes.len();
    let mut i: usize = 0;
    assert(stakes@.skip(0) =~= stakes@);
    while i < n
        invariant
            n == stakes@.len(),
            i <= n,
            spec_power_of(stakes@, voter@) == spec_power_of(stakes@.skip(i as int), voter@),
        decreases n - i,
    {
        let ghost rest = stakes@.skip(i as int);
        assert(rest[0] == stakes@[i as int]);
        if bytes_eq(stakes[i].0.as_slice(), voter) {
            return stakes[i].1;
        }
        assert(rest.drop_first() =~= stakes@.skip(i + 1));
        i = i + 1;
    }
    proof {
        assert(stakes@.skip(n as int).len() == 0);
    }
    0
}

pub(crate) fn total_power(stakes: &Vec<([u8; 32], u64)>) -> (t: u64)
    requires
        spec_total_power(stakes@) <= u64::MAX,
    ensures
        t == spec_total_power(stakes@),
{
    let n = stakes.len();
    let mut t: u64 = 0;
    let mut i: usize = 0;
    while i < n
        invariant
            n == stakes@.len(),
            i <= n,
            spec_total_power(stakes@) <= u64::MAX,
            t == spec_total_power(stakes@.subrange(0, i as int)),
        decreases n - i,
    {
        assert(stakes@.subrange(0, i + 1).drop_last() =~= stakes@.subrange(0, i as int));
        proof {
            lemma_total_power_prefix(stakes@, i + 1);
        }
        t = t + stakes[i].1;
        i = i + 1;
    }
    assert(stakes@.subrange(0, n as int) =~= stakes@);
    t
}

proof fn lemma_total_power_prefix(stakes: Seq<([u8; 32], u64)>, i: int)
    requires
        0 <= i <= stakes.len(),
    ensures
        spec_total_power(stakes.subrange(0, i)) <= spec_total_power(stakes),
    decreases stakes.len(),
{
    if i < stakes.len() {
        assert(stakes.drop_last().subrange(0, i) =~= stakes.subrange(0, i));
        lemma_total_power_prefix(stakes.drop_last(), i);
    } else {
        assert(stakes.subrange(0, i) =~= stakes);
    }
}

/// More Yes power never turns a passing proposal down: a passed outcome stays
/// passed when Yes votes of any further power are added.
pub proof fn lemma_more_yes_keeps_passed(params: GovernanceParams, total: nat, yes: nat, no: nat, veto: nat, voted: nat, extra: nat)
    requires
        spec_decide(params, total, yes, no, veto, voted) == ProposalStatus::Passed,
    ensures
        spec_decide(params, total, yes + extra, no, veto, voted + extra) == ProposalStatus::Passed,
{
    let excl = yes + no + veto;
    let th = params.threshold as nat;
    let vt = params.veto_threshold as nat;
    assert(yes > (excl * th) / 100);
    assert((excl * vt) / 100 <= ((excl + extra) * vt) / 100) by (nonlinear_arith)
        requires vt >= 0, extra >= 0, excl >= 0;
    if th <= 100 {
        assert(((excl + extra) * th) / 100 <= (excl * th) / 100 + extra) by (nonlinear_arith)
            requires th <= 100, extra >= 0, excl >= 0;
    } else {
        assert((excl * th) / 100 >= excl) by (nonlinear_arith)
            requires th > 100, excl >= 0;
        assert(false);
    }
}

impl GovernanceModule {
    /// Creates the module with its parameters.
    pub fn new(params: GovernanceParams) -> (m: Self)
        ensures
            m.params == params,
    {
        Self { params }
    }

    /// Tallies the votes on a proposal. `stakes` maps voters to voting power;
    /// `votes` holds the stored vote records (key, encoded option), whose keys
    /// end in the voter's account id. With no voting power at all the proposal
    /// is rejected without a tally.
    pub fn tally_proposal(
        &self,
        stakes: &Vec<([u8; 32], u64)>,
        votes: &Vec<(Vec<u8>, Vec<u8>)>,
    ) -> (r: Result<(ProposalStatus, Option<TallyResult>), GovernanceError>)
        requires
            spec_tally_fits(self.params, stakes@, votes@),
        ensures
            r == spec_tally_proposal(self.params, stakes@, votes@),
    {
        let total_voting_power = total_power(stakes);
        if total_voting_power == 0 {
            return Ok((ProposalStatus::Rejected, None));
        }
        let mut yes: u64 = 0;
        let mut no: u64 = 0;
        let mut no_with_veto: u64 = 0;
        let mut abstain: u64 = 0;
        let mut total_voted_power: u64 = 0;
        let n = votes.len();
        let mut i: usize = 0;
        while i < n
            invariant
                n == votes@.len(),
                i <= n,
                spec_counted_power(stakes@, votes@) <= u64::MAX,
                total_voting_power == spec_total_power(stakes@),
                total_voting_power != 0,
                spec_tally(stakes@, votes@.subrange(0, i as int))
                    == Some((yes as nat, no as nat, no_with_veto as nat, abstain as nat, total_voted_power as nat)),
            decreases n - i,
        {
            let ghost prev = votes@.subrange(0, i as int);
            let ghost next = votes@.subrange(0, i + 1);
            assert(next.drop_last() =~= prev);
            proof {
                lemma_tally_bounded(stakes@, prev);
                lemma_counted_power_prefix(stakes@, votes@, i + 1);
            }
            let key = &votes[i].0;
            let option = match decode_vote(votes[i].1.as_slice()) {
                Some(o) => o,
                None => {
                    proof {
                        assert(next.last() == votes@[i as int]);
                        assert(spec_tally(stakes@, next) is None);
                        lemma_tally_prefix_none(stakes@, votes@, i + 1);
                    }
                    return Err(GovernanceError::InvalidVote);
                }
            };
            let key_len = key.len();
            let voting_power: u64 = if key_len < 32 {
                0
            } else {
                let voter = vstd::slice::slice_subrange(key.as_slice(), key_len - 32, key_len);
                power_of(stakes, voter)
            };
            match option {
                VoteOption::Yes => yes = yes + voting_power,
                VoteOption::No => no = no + voting_power,
                VoteOption::NoWithVeto => no_with_veto = no_with_veto + voting_power,
                VoteOption::Abstain => abstain = abstain + voting_power,
            }
            total_voted_power = total_voted_power + voting_power;
            i = i + 1;
        }
        assert(votes@.subrange(0, n as int) =~= votes@);
        let tally = TallyResult { yes, no, no_with_veto, abstain };
        proof {
            lemma_tally_bounded(stakes@, votes@);
            let c = spec_counted_power(stakes@, votes@);
            let e = yes + no + no_with_veto;
            let vt = self.params.veto_threshold as int;
            let th = self.params.threshold as int;
            assert(e * vt <= c * vt) by (nonlinear_arith)
                requires e <= c, 0 <= vt;
            assert(e * th <= c * th) by (nonlinear_arith)
                requires e <= c, 0 <= th;
        }
        let quorum_threshold = (total_voting_power * self.params.quorum as u64) / 100;
        let total_power_excluding_abstain = yes + no + no_with_veto;
        let status = if total_voted_power < quorum_threshold {
            ProposalStatus::Rejected
        } else {
            let veto_threshold = (total_power_excluding_abstain * self.params.veto_threshold as u64) / 100;
            if no_with_veto > veto_threshold {
                ProposalStatus::Rejected
            } else {
                let pass_threshold = (total_power_excluding_abstain * self.params.threshold as u64) / 100;
                if yes > pass_threshold {
                    ProposalStatus::Passed
                } else {
                    ProposalStatus::Rejected
                }
            }
        };
        Ok((status, Some(tally)))
    }
}

/// The kind of a proposal.
#[derive(Debug, Clone)]
pub enum ProposalType {
    Text,
    Custom(String),
}

/// A governance proposal as stored.
#[derive(Debug, Clone)]
pub struct Proposal {
    pub id: u64,
    pub title: String,
    pub description: String,
    pub proposal_type: ProposalType,
    pub status: ProposalStatus,
    pub submitter: Vec<u8>,
    pub submit_height: u64,
    pub deposit_end_height: u64,
    pub voting_start_height: u64,
    pub voting_end_height: u64,
    pub total_deposit: u64,
    pub final_tally: Option<TallyResult>,
}

/// The parameters of `submit_proposal`.
#[derive(Debug, Clone)]
pub struct SubmitProposalParams {
    pub proposal_type: ProposalType,
    pub title: String,
    pub description: String,
    pub deposit: u64,
}

/// The variant index of a status in the encoding.
pub open spec fn spec_status_index(s: ProposalStatus) -> u8 {
    match s {
        ProposalStatus::DepositPeriod => 0,
        ProposalStatus::VotingPeriod => 1,
        ProposalStatus::Passed => 2,
        ProposalStatus::Rejected => 3,
    }
}

/// The variant index of a vote option in the encoding.
pub open spec fn spec_vote_index(o: VoteOption) -> u8 {
    match o {
        VoteOption::Yes => 0,
        VoteOption::No => 1,
        VoteOption::NoWithVeto => 2,
        VoteOption::Abstain => 3,
    }
}

/// The encoding of a proposal type.
pub open spec fn spec_proposal_type_bytes(t: ProposalType) -> Seq<u8> {
    match t {
        ProposalType::Text => seq![0u8],
        ProposalType::Custom(c) => seq![1u8] + spec_scale_str(c@),
    }
}

/// The encoding of an optional tally: `0`, or `1` and the four sums.
pub open spec fn spec_opt_tally_bytes(t: Option<TallyResult>) -> Seq<u8> {
    match t {
        None => seq![0u8],
        Some(r) => seq![1u8] + spec_u64_to_le_bytes(r.yes) + spec_u64_to_le_bytes(r.no)
            + spec_u64_to_le_bytes(r.no_with_veto) + spec_u64_to_le_bytes(r.abstain),
    }
}

/// The canonical encoding of proposal fields: in order, integers
/// little-endian, strings and the submitter length-prefixed.
pub open spec fn spec_proposal_fields_bytes(
    id: u64, title: Seq<char>, description: Seq<char>, proposal_type: ProposalType, status: ProposalStatus,
    submitter: Seq<u8>, submit_height: u64, deposit_end_height: u64, voting_start_height: u64,
    voting_end_height: u64, total_deposit: u64, final_tally: Option<TallyResult>,
) -> Seq<u8> {
    spec_u64_to_le_bytes(id) + spec_scale_str(title) + spec_scale_str(description)
        + spec_proposal_type_bytes(proposal_type) + seq![spec_status_index(status)]
        + spec_scale_bytes(submitter) + spec_u64_to_le_bytes(submit_height)
        + spec_u64_to_le_bytes(deposit_end_height) + spec_u64_to_le_bytes(voting_start_height)
        + spec_u64_to_le_bytes(voting_end_height) + spec_u64_to_le_bytes(total_deposit)
        + spec_opt_tally_bytes(final_tally)
}

/// The canonical encoding of a proposal.
pub open spec fn spec_proposal_bytes(p: Proposal) -> Seq<u8> {
    spec_proposal_fields_bytes(p.id, p.title@, p.description@, p.proposal_type, p.status, p.submitter@,
        p.submit_height, p.deposit_end_height, p.voting_start_height, p.voting_end_height, p.total_deposit,
        p.final_tally)
}

/// The encoding of a stored entry: the value length-prefixed, then the height.
pub open spec fn spec_entry_bytes(value: Seq<u8>, height: u64) -> Seq<u8> {
    spec_scale_bytes(value) + spec_u64_to_le_bytes(height)
}

/// Whether the strings of a proposal fit the encoding's `u32` lengths.
pub open spec fn spec_proposal_fits(p: Proposal) -> bool {
    &&& encode_utf8(p.title@).len() <= u32::MAX
    &&& encode_utf8(p.description@).len() <= u32::MAX
    &&& (p.proposal_type matches ProposalType::Custom(c) ==> encode_utf8(c@).len() <= u32::MAX)
    &&& p.submitter@.len() <= u32::MAX
    &&& spec_proposal_bytes(p).len() <= u32::MAX
}

pub(crate) fn push_u64(out: &mut Vec<u8>, x: u64)
    ensures
        final(out)@ == old(out)@ + spec_u64_to_le_bytes(x),
{
    let b = u64_to_le_bytes(x);
    append_bytes(out, b.as_slice());
}

/// Encodes a proposal.
pub fn proposal_to_bytes(p: &Proposal) -> (b: Vec<u8>)
    requires
        spec_proposal_fits(*p),
    ensures
        b@ == spec_proposal_bytes(*p),
{
    let mut out = u64_to_le_bytes(p.id);
    push_scale_str(&mut out, p.title.as_str());
    push_scale_str(&mut out, p.description.as_str());
    match &p.proposal_type {
        ProposalType::Text => out.push(0u8),
        ProposalType::Custom(c) => {
            out.push(1u8);
            push_scale_str(&mut out, c.as_str());
        }
    }
    let status: u8 = match p.status {
        ProposalStatus::DepositPeriod => 0,
        ProposalStatus::VotingPeriod => 1,
        ProposalStatus::Passed => 2,
        ProposalStatus::Rejected => 3,
    };
    out.push(status);
    push_scale_bytes(&mut out, p.submitter.as_slice());
    push_u64(&mut out, p.submit_height);
    push_u64(&mut out, p.deposit_end_height);
    push_u64(&mut out, p.voting_start_height);
    push_u64(&mut out, p.voting_end_height);
    push_u64(&mut out, p.total_deposit);
    match &p.final_tally {
        None => out.push(0u8),
        Some(t) => {
            out.push(1u8);
            push_u64(&mut out, t.yes);
            push_u64(&mut out, t.no);
            push_u64(&mut out, t.no_with_veto);
            push_u64(&mut out, t.abstain);
        }
    }
    assert(out@ =~= spec_proposal_bytes(*p));
    out
}

/// The id the next proposal gets: the stored counter, 0 where none is stored,
/// `None` where the stored bytes are not eight.
pub open spec fn spec_next_proposal_id(st: Map<Seq<u8>, Seq<u8>>) -> Option<u64> {
    if !st.contains_key(spec_next_proposal_id_key()) {
        Some(0)
    } else if st[spec_next_proposal_id_key()].len() == 8 {
        Some(spec_u64_from_le_bytes(st[spec_next_proposal_id_key()]))
    } else {
        None
    }
}

/// The encoding of the proposal a submission records: in its deposit period,
/// submitted by the signer at the current height, with no votes yet.
pub open spec fn spec_new_proposal_bytes(id: u64, p: SubmitProposalParams, ctx: TxContext, period: u64) -> Seq<u8> {
    spec_proposal_fields_bytes(id, p.title@, p.description@, p.proposal_type, ProposalStatus::DepositPeriod,
        ctx.signer_account_id@, ctx.block_height, (ctx.block_height + period) as u64, 0, 0, p.deposit, None)
}

/// Whether the strings of a submission and the proposal encoding fit `u32` lengths.
pub open spec fn spec_submission_fits(id: u64, p: SubmitProposalParams, ctx: TxContext, period: u64) -> bool {
    &&& encode_utf8(p.title@).len() <= u32::MAX
    &&& encode_utf8(p.description@).len() <= u32::MAX
    &&& (p.proposal_type matches ProposalType::Custom(c) ==> encode_utf8(c@).len() <= u32::MAX)
    &&& spec_new_proposal_bytes(id, p, ctx, period).len() <= u32::MAX
}

/// Whether a new proposal's encoding and the counter fit their limits.
pub open spec fn spec_submit_fits(st: Map<Seq<u8>, Seq<u8>>, params: GovernanceParams, p: SubmitProposalParams, ctx: TxContext) -> bool {
    &&& ctx.block_height + params.max_deposit_period_blocks <= u64::MAX
    &&& spec_next_proposal_id(st) matches Some(id) ==> id < u64::MAX
        && spec_submission_fits(id, p, ctx, params.max_deposit_period_blocks)
}

/// The state after a submission, or why it is refused.
pub open spec fn spec_submit(st: Map<Seq<u8>, Seq<u8>>, params: GovernanceParams, p: SubmitProposalParams, ctx: TxContext)
    -> Result<Map<Seq<u8>, Seq<u8>>, GovernanceError>
{
    if p.deposit < params.min_deposit {
        Err(GovernanceError::InsufficientDeposit)
    } else {
        match spec_next_proposal_id(st) {
            None => Err(GovernanceError::InvalidCounter),
            Some(id) => {
                let bytes = spec_new_proposal_bytes(id, p, ctx, params.max_deposit_period_blocks);
                Ok(st.insert(spec_next_proposal_id_key(), spec_u64_to_le_bytes((id + 1) as u64))
                    .insert(spec_proposal_key(id), spec_entry_bytes(bytes, ctx.block_height)))
            }
        }
    }
}

/// The state after a vote, or why it is refused: the stored proposal must
/// exist and be in its voting period at this height.
pub open spec fn spec_vote(st: Map<Seq<u8>, Seq<u8>>, stored: Option<Proposal>, proposal_id: u64, option: VoteOption, voter: [u8; 32], height: u64)
    -> Result<Map<Seq<u8>, Seq<u8>>, GovernanceError>
{
    match stored {
        None => Err(GovernanceError::ProposalNotFound(proposal_id)),
        Some(p) => if p.status != ProposalStatus::VotingPeriod || height < p.voting_start_height || height > p.voting_end_height {
            Err(GovernanceError::NotVotingPeriod)
        } else {
            Ok(st.insert(spec_vote_key(proposal_id, voter@), seq![spec_vote_index(option)]))
        },
    }
}

impl GovernanceModule {
    /// Submits a proposal: it needs the minimum deposit; it takes the next id
    /// and is stored, with the height, in its deposit period.
    pub fn submit_proposal(&self, state: &mut StateMap, params: SubmitProposalParams, ctx: &TxContext) -> (r: Result<(), GovernanceError>)
        requires
            spec_submit_fits(old(state).view(), self.params, params, *ctx),
        ensures
            match spec_submit(old(state).view(), self.params, params, *ctx) {
                Ok(st) => r is Ok && final(state).view() == st,
                Err(e) => r == Err::<(), GovernanceError>(e) && final(state).view() == old(state).view(),
            },
    {
        if params.deposit < self.params.min_deposit {
            return Err(GovernanceError::InsufficientDeposit);
        }
        let counter_key = next_proposal_id_key();
        let id = match state.get(counter_key.as_slice()) {
            None => 0u64,
            Some(b) => {
                if b.len() != 8 {
                    return Err(GovernanceError::InvalidCounter);
                }
                u64_from_le_bytes(b.as_slice())
            }
        };
        let next = u64_to_le_bytes(id + 1);
        state.insert(counter_key.as_slice(), next.as_slice());
        let ghost expected = spec_new_proposal_bytes(id, params, *ctx, self.params.max_deposit_period_blocks);
        let submitter = crate::state::to_vec(ctx.signer_account_id.as_slice());
        let proposal = Proposal {
            id,
            title: params.title,
            description: params.description,
            proposal_type: params.proposal_type,
            status: ProposalStatus::DepositPeriod,
            submitter,
            submit_height: ctx.block_height,
            deposit_end_height: ctx.block_height + self.params.max_deposit_period_blocks,
            voting_start_height: 0,
            voting_end_height: 0,
            total_deposit: params.deposit,
            final_tally: None,
        };
        assert(spec_proposal_bytes(proposal) == expected);
        let value = proposal_to_bytes(&proposal);
        let mut entry: Vec<u8> = Vec::new();
        push_scale_bytes(&mut entry, value.as_slice());
        push_u64(&mut entry, ctx.block_height);
        let key = proposal_key(id);
        state.insert(key.as_slice(), entry.as_slice());
        Ok(())
    }

    /// Records a vote on a stored proposal, which must be in its voting period.
    pub fn vote(
        &self,
        state: &mut StateMap,
        stored: Option<Proposal>,
        proposal_id: u64,
        option: VoteOption,
        voter: &[u8; 32],
        height: u64,
    ) -> (r: Result<(), GovernanceError>)
        ensures
            match spec_vote(old(state).view(), stored, proposal_id, option, *voter, height) {
                Ok(st) => r is Ok && final(state).view() == st,
                Err(e) => r == Err::<(), GovernanceError>(e) && final(state).view() == old(state).view(),
            },
    {
        let p = match stored {
            None => return Err(GovernanceError::ProposalNotFound(proposal_id)),
            Some(p) => p,
        };
        if p.status != ProposalStatus::VotingPeriod || height < p.voting_start_height || height > p.voting_end_height {
            return Err(GovernanceError::NotVotingPeriod);
        }
        let key = vote_key(proposal_id, voter);
        let idx: u8 = match option {
            VoteOption::Yes => 0,
            VoteOption::No => 1,
            VoteOption::NoWithVeto => 2,
            VoteOption::Abstain => 3,
        };
        let value: Vec<u8> = vec![idx];
        assert(value@ =~= seq![spec_vote_index(option)]);
        state.insert(key.as_slice(), value.as_slice());
        Ok(())
    }
}

/// A recorded vote is read back by the tally as the voter's option, counted
/// for the voter.
pub proof fn lemma_recorded_vote_is_counted(proposal_id: u64, option: VoteOption, voter: [u8; 32])
    ensures
        spec_decode_vote(seq![spec_vote_index(option)]) == Some(option),
        spec_voter(spec_vote_key(proposal_id, voter@)) == Some(voter@),
{
    lemma_vote_key_names_voter(proposal_id, voter);
}

/// Law: whatever the stakes, a decision passes only when the Yes power is
/// above the pass share of all non-abstaining power (Yes, No and NoWithVeto
/// together), the NoWithVeto power is within the veto share of that power,
/// and the voted power reaches the quorum share of the total. So a proposal
/// whose No power is at least its Yes power never passes with a threshold of
/// at least one half.
pub proof fn lemma_decide_passed_needs_majority(params: GovernanceParams, total: nat, yes: nat, no: nat, veto: nat, voted: nat)
    requires
        spec_decide(params, total, yes, no, veto, voted) == ProposalStatus::Passed,
    ensures
        yes * 100 > (yes + no + veto) * params.threshold,
        veto * 100 <= (yes + no + veto) * params.veto_threshold,
        voted * 100 + 100 > total * params.quorum,
        params.threshold >= 50 && no >= yes ==> false,
{
    let x = ((yes + no + veto) * params.threshold) as int;
    let w = ((yes + no + veto) * params.veto_threshold) as int;
    let q = (total * params.quorum) as int;
    assert(yes > x / 100);
    assert(yes * 100 > x) by (nonlinear_arith)
        requires yes > x / 100, x >= 0;
    assert(veto <= w / 100);
    assert(veto * 100 <= w) by (nonlinear_arith)
        requires veto <= w / 100, w >= 0;
    assert(voted >= q / 100);
    assert(voted * 100 + 100 > q) by (nonlinear_arith)
        requires voted >= q / 100, q >= 0;
    if params.threshold >= 50 && no >= yes {
        let th = params.threshold as nat;
        assert((yes + no + veto) * th >= (yes + yes) * 50) by (nonlinear_arith)
            requires th >= 50, no >= yes;
    }
}

/// Law: a tally that passes a proposal records its tally, and in that tally
/// the Yes power is above the pass share of the Yes, No and NoWithVeto power
/// together and the NoWithVeto power is within the veto share of it; so a
/// proposal whose No power is at least its Yes power is never passed under a
/// threshold of at least one half.
pub proof fn lemma_tally_passed_needs_majority(params: GovernanceParams, stakes: Seq<([u8; 32], u64)>, votes: Seq<(Vec<u8>, Vec<u8>)>)
    requires
        spec_tally_fits(params, stakes, votes),
    ensures
        (spec_tally_proposal(params, stakes, votes) matches Ok((ProposalStatus::Passed, tally)) ==> {
            &&& tally matches Some(t)
            &&& t.yes * 100 > (t.yes + t.no + t.no_with_veto) * params.threshold
            &&& t.no_with_veto * 100 <= (t.yes + t.no + t.no_with_veto) * params.veto_threshold
            &&& (params.threshold >= 50 ==> t.yes > t.no)
        }),
{
    lemma_tally_bounded(stakes, votes);
    if spec_total_power(stakes) != 0 {
        if let Some((y, n, v, a, c)) = spec_tally(stakes, votes) {
            if spec_decide(params, spec_total_power(stakes), y, n, v, c) == ProposalStatus::Passed {
                lemma_decide_passed_needs_majority(params, spec_total_power(stakes), y, n, v, c);
                assert(y as u64 == y && n as u64 == n && v as u64 == v);
                if params.threshold >= 50 && n >= y {
                    assert(false);
                }
            }
        }
    }
}

} // verus!
