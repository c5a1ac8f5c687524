use ioi_kernel::governance::{
    proposal_key, proposal_to_bytes, vote_key, GovernanceError, GovernanceModule, GovernanceParams, Proposal,
    ProposalStatus, ProposalType, SubmitProposalParams, TallyResult, VoteOption,
};
use ioi_kernel::service::TxContext;
use ioi_kernel::proposal_codec::load_proposal;
use ioi_kernel::state::StateMap;

fn module() -> GovernanceModule {
    GovernanceModule::new(GovernanceParams { min_deposit: 10, max_deposit_period_blocks: 100, quorum: 33, threshold: 50, veto_threshold: 33 })
}

fn vote(voter: u8, option: u8) -> (Vec<u8>, Vec<u8>) {
    let mut key = b"gov::vote::".to_vec();
    key.extend_from_slice(&1u64.to_le_bytes());
    key.extend_from_slice(b"::");
    key.extend_from_slice(&[voter; 32]);
    (key, vec![option])
}

fn stakes() -> Vec<([u8; 32], u64)> {
    vec![([1u8; 32], 60), ([2u8; 32], 30), ([3u8; 32], 10)]
}

#[test]
fn majority_passes() {
    let r = module().tally_proposal(&stakes(), &vec![vote(1, 0), vote(2, 1)]).unwrap();
    assert_eq!(r.0, ProposalStatus::Passed);
    assert_eq!(r.1, Some(TallyResult { yes: 60, no: 30, no_with_veto: 0, abstain: 0 }));
}

#[test]
fn quorum_and_veto() {
    // 10 of 100 voted: below the 33% quorum.
    let r = module().tally_proposal(&stakes(), &vec![vote(3, 0)]).unwrap();
    assert_eq!(r.0, ProposalStatus::Rejected);
    // Veto above a third of the non-abstaining power.
    let r = module().tally_proposal(&stakes(), &vec![vote(1, 0), vote(2, 2), vote(3, 2)]).unwrap();
    assert_eq!(r.0, ProposalStatus::Rejected);
    assert_eq!(r.1, Some(TallyResult { yes: 60, no: 0, no_with_veto: 40, abstain: 0 }));
    // Abstentions count for quorum only.
    let r = module().tally_proposal(&stakes(), &vec![vote(1, 3), vote(3, 0)]).unwrap();
    assert_eq!(r.0, ProposalStatus::Passed);
    assert_eq!(r.1, Some(TallyResult { yes: 10, no: 0, no_with_veto: 0, abstain: 60 }));
}

#[test]
fn no_power_rejects_without_tally() {
    let r = module().tally_proposal(&vec![], &vec![vote(1, 0)]).unwrap();
    assert_eq!(r, (ProposalStatus::Rejected, None));
}

#[test]
fn malformed_votes() {
    assert_eq!(module().tally_proposal(&stakes(), &vec![vote(1, 0), vote(2, 9)]), Err(GovernanceError::InvalidVote));
    // A short key counts no power; an unknown voter counts none either.
    let r = module().tally_proposal(&stakes(), &vec![(vec![1, 2, 3], vec![0]), vote(7, 0)]).unwrap();
    assert_eq!(r.1, Some(TallyResult { yes: 0, no: 0, no_with_veto: 0, abstain: 0 }));
    assert_eq!(r.0, ProposalStatus::Rejected);
}

fn ctx(height: u64) -> TxContext {
    TxContext { signer_account_id: [4u8; 32], block_height: height, block_timestamp_ns: 0 }
}

fn submission(deposit: u64) -> SubmitProposalParams {
    SubmitProposalParams { proposal_type: ProposalType::Text, title: "t".to_string(), description: "d".to_string(), deposit }
}

#[test]
fn keys() {
    let mut k = b"gov::vote::".to_vec();
    k.extend_from_slice(&3u64.to_le_bytes());
    k.extend_from_slice(b"::");
    k.extend_from_slice(&[8u8; 32]);
    assert_eq!(vote_key(3, &[8u8; 32]), k);
    let mut p = b"gov::proposal::".to_vec();
    p.extend_from_slice(&3u64.to_le_bytes());
    assert_eq!(proposal_key(3), p);
}

#[test]
fn submit_stores_proposals_under_fresh_ids() {
    let m = module();
    let mut st = StateMap::new();
    assert_eq!(m.submit_proposal(&mut st, submission(9), &ctx(50)), Err(GovernanceError::InsufficientDeposit));
    assert_eq!(st.get(b"gov::next_id"), None);
    assert_eq!(m.submit_proposal(&mut st, submission(10), &ctx(50)), Ok(()));
    assert_eq!(m.submit_proposal(&mut st, submission(11), &ctx(51)), Ok(()));
    assert_eq!(st.get(b"gov::next_id"), Some(2u64.to_le_bytes().to_vec()));
    let expected = Proposal {
        id: 0,
        title: "t".to_string(),
        description: "d".to_string(),
        proposal_type: ProposalType::Text,
        status: ProposalStatus::DepositPeriod,
        submitter: vec![4u8; 32],
        submit_height: 50,
        deposit_end_height: 150,
        voting_start_height: 0,
        voting_end_height: 0,
        total_deposit: 10,
        final_tally: None,
    };
    let value = proposal_to_bytes(&expected);
    let mut entry = vec![0u8, 0];
    let n = value.len() as u16;
    entry[0] = ((n << 2) | 1) as u8;
    entry[1] = ((n << 2) >> 8) as u8;
    entry.extend_from_slice(&value);
    entry.extend_from_slice(&50u64.to_le_bytes());
    assert_eq!(st.get(&proposal_key(0)), Some(entry));
    assert!(st.get(&proposal_key(1)).is_some());
    st.insert(b"gov::next_id", &[1, 2, 3]);
    assert_eq!(m.submit_proposal(&mut st, submission(10), &ctx(52)), Err(GovernanceError::InvalidCounter));
}

#[test]
fn proposal_encoding_layout() {
    let p = Proposal {
        id: 1,
        title: "a".to_string(),
        description: "".to_string(),
        proposal_type: ProposalType::Custom("x".to_string()),
        status: ProposalStatus::Passed,
        submitter: vec![7],
        submit_height: 2,
        deposit_end_height: 3,
        voting_start_height: 4,
        voting_end_height: 5,
        total_deposit: 6,
        final_tally: Some(TallyResult { yes: 1, no: 2, no_with_veto: 3, abstain: 4 }),
    };
    let mut e = 1u64.to_le_bytes().to_vec();
    e.extend_from_slice(&[4, b'a', 0, 1, 4, b'x', 2, 4, 7]);
    for x in [2u64, 3, 4, 5, 6] {
        e.extend_from_slice(&x.to_le_bytes());
    }
    e.push(1);
    for x in [1u64, 2, 3, 4] {
        e.extend_from_slice(&x.to_le_bytes());
    }
    assert_eq!(proposal_to_bytes(&p), e);
}

#[test]
fn votes_only_in_voting_period() {
    let m = module();
    let mut st = StateMap::new();
    let mut p = Proposal {
        id: 3,
        title: "t".to_string(),
        description: "d".to_string(),
        proposal_type: ProposalType::Text,
        status: ProposalStatus::VotingPeriod,
        submitter: vec![],
        submit_height: 0,
        deposit_end_height: 0,
        voting_start_height: 10,
        voting_end_height: 20,
        total_deposit: 0,
        final_tally: None,
    };
    assert_eq!(m.vote(&mut st, None, 3, VoteOption::Yes, &[1u8; 32], 15), Err(GovernanceError::ProposalNotFound(3)));
    assert_eq!(m.vote(&mut st, Some(p.clone()), 3, VoteOption::Yes, &[1u8; 32], 9), Err(GovernanceError::NotVotingPeriod));
    assert_eq!(m.vote(&mut st, Some(p.clone()), 3, VoteOption::Yes, &[1u8; 32], 21), Err(GovernanceError::NotVotingPeriod));
    assert_eq!(m.vote(&mut st, Some(p.clone()), 3, VoteOption::NoWithVeto, &[1u8; 32], 20), Ok(()));
    assert_eq!(st.get(&vote_key(3, &[1u8; 32])), Some(vec![2u8]));
    p.status = ProposalStatus::DepositPeriod;
    assert_eq!(m.vote(&mut st, Some(p), 3, VoteOption::Yes, &[1u8; 32], 15), Err(GovernanceError::NotVotingPeriod));
    // The recorded vote is tallied for its voter.
    let votes = vec![(vote_key(3, &[1u8; 32]), vec![2u8])];
    let r = module().tally_proposal(&vec![([1u8; 32], 5)], &votes).unwrap();
    assert_eq!(r.1, Some(TallyResult { yes: 0, no: 0, no_with_veto: 5, abstain: 0 }));
}

fn stored_entry(p: &Proposal, height: u64) -> Vec<u8> {
    let value = proposal_to_bytes(p);
    let n = value.len();
    let mut entry = if n < 64 {
        vec![(n << 2) as u8]
    } else {
        vec![(((n << 2) | 1) & 0xff) as u8, ((n << 2) >> 8) as u8]
    };
    entry.extend_from_slice(&value);
    entry.extend_from_slice(&height.to_le_bytes());
    entry
}

fn open_proposal(id: u64, final_tally: Option<TallyResult>) -> Proposal {
    Proposal {
        id,
        title: "t".to_string(),
        description: "d".to_string(),
        proposal_type: ProposalType::Text,
        status: ProposalStatus::VotingPeriod,
        submitter: vec![9u8; 4],
        submit_height: 1,
        deposit_end_height: 2,
        voting_start_height: 3,
        voting_end_height: 4,
        total_deposit: 10,
        final_tally,
    }
}

#[test]
fn stored_proposals_are_tallied_in_place() {
    let m = module();
    let mut st = StateMap::new();
    st.insert(&proposal_key(1), &stored_entry(&open_proposal(1, None), 7));
    st.insert(&vote_key(1, &[1u8; 32]), &[0u8]);
    st.insert(&vote_key(1, &[2u8; 32]), &[1u8]);
    assert_eq!(m.tally_stored_proposal(&mut st, 1, &stakes()), Ok(()));
    let (p, h) = load_proposal(&st, 1).unwrap();
    assert_eq!(h, 7);
    assert_eq!(p.status, ProposalStatus::Passed);
    assert_eq!(p.final_tally, Some(TallyResult { yes: 60, no: 30, no_with_veto: 0, abstain: 0 }));
    let mut expected = open_proposal(1, p.final_tally.clone());
    expected.status = ProposalStatus::Passed;
    assert_eq!(st.get(&proposal_key(1)), Some(stored_entry(&expected, 7)));
    assert_eq!(st.get(&vote_key(1, &[1u8; 32])), Some(vec![0u8]));
}

#[test]
fn tallying_a_missing_or_broken_proposal_is_refused() {
    let m = module();
    let mut st = StateMap::new();
    assert_eq!(m.tally_stored_proposal(&mut st, 9, &stakes()), Err(GovernanceError::ProposalNotFound(9)));
    st.insert(&proposal_key(3), &[1, 2, 3]);
    assert_eq!(m.tally_stored_proposal(&mut st, 3, &stakes()), Err(GovernanceError::InvalidProposal));
    assert_eq!(st.get(&proposal_key(3)), Some(vec![1, 2, 3]));
    st.insert(&proposal_key(4), &stored_entry(&open_proposal(4, None), 5));
    let mut bad_vote_key = b"gov::vote::".to_vec();
    bad_vote_key.extend_from_slice(&4u64.to_le_bytes());
    bad_vote_key.extend_from_slice(b"::");
    bad_vote_key.extend_from_slice(&[1u8; 32]);
    st.insert(&bad_vote_key, &[9u8]);
    assert_eq!(m.tally_stored_proposal(&mut st, 4, &stakes()), Err(GovernanceError::InvalidVote));
    assert_eq!(st.get(&proposal_key(4)), Some(stored_entry(&open_proposal(4, None), 5)));
}

#[test]
fn without_voting_power_the_stored_tally_is_kept() {
    let m = module();
    let mut st = StateMap::new();
    let earlier = Some(TallyResult { yes: 1, no: 2, no_with_veto: 3, abstain: 4 });
    st.insert(&proposal_key(2), &stored_entry(&open_proposal(2, earlier.clone()), 11));
    assert_eq!(m.tally_stored_proposal(&mut st, 2, &vec![]), Ok(()));
    let (p, h) = load_proposal(&st, 2).unwrap();
    assert_eq!(h, 11);
    assert_eq!(p.status, ProposalStatus::Rejected);
    assert_eq!(p.final_tally, earlier);
}
