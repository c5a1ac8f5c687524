use ioi_kernel::gov_contract::{
    contract_finalize, contract_stakes, contract_submit_proposal, contract_tally, contract_vote, tally_index_at,
    tally_index_key, ContractError,
};
use ioi_kernel::governance::{proposal_key, proposal_to_bytes, vote_key, Proposal, ProposalStatus, ProposalType, SubmitProposalParams, TallyResult, VoteOption};
use ioi_kernel::state::StateMap;
use ioi_kernel::validators::{ActiveKeyRecord, ValidatorSetV1, ValidatorSetsV1, ValidatorV1};

fn params() -> SubmitProposalParams {
    SubmitProposalParams { proposal_type: ProposalType::Text, title: "t".to_string(), description: "d".to_string(), deposit: 1 }
}

fn vote(voter: u8, option: u8) -> (Vec<u8>, Vec<u8>) {
    (vote_key(0, &[voter; 32]), vec![option])
}

#[test]
fn index_key_layout() {
    let mut k = b"gov::index::tally::".to_vec();
    k.extend_from_slice(&20_005u64.to_le_bytes());
    assert_eq!(tally_index_key(20_005), k);
}

#[test]
fn submissions_are_indexed_by_closing_height() {
    let mut st = StateMap::new();
    contract_submit_proposal(&mut st, &[1u8; 32], params(), 5);
    contract_submit_proposal(&mut st, &[1u8; 32], params(), 5);
    assert_eq!(st.get(b"gov::next_id"), Some(2u64.to_le_bytes().to_vec()));
    assert_eq!(tally_index_at(&st, 20_005), Ok(Some(vec![0, 1])));
    assert_eq!(tally_index_at(&st, 20_006), Ok(None));
    assert!(st.get(&proposal_key(1)).is_some());
    st.insert(&tally_index_key(7), &[0xff]);
    assert_eq!(tally_index_at(&st, 7), Err(ContractError::InvalidIndex));
    // A counter with trailing bytes is read from its first eight bytes.
    let mut counter = 9u64.to_le_bytes().to_vec();
    counter.push(1);
    st.insert(b"gov::next_id", &counter);
    contract_submit_proposal(&mut st, &[1u8; 32], params(), 6);
    assert_eq!(st.get(b"gov::next_id"), Some(10u64.to_le_bytes().to_vec()));
    assert_eq!(tally_index_at(&st, 20_006), Ok(Some(vec![9])));
}

fn open_proposal(status: ProposalStatus) -> Proposal {
    Proposal {
        id: 0,
        title: "t".to_string(),
        description: "d".to_string(),
        proposal_type: ProposalType::Text,
        status,
        submitter: vec![],
        submit_height: 0,
        deposit_end_height: 0,
        voting_start_height: 0,
        voting_end_height: 10,
        total_deposit: 0,
        final_tally: None,
    }
}

fn store(st: &mut StateMap, p: &Proposal, height: u64) {
    let value = proposal_to_bytes(p);
    let mut entry = vec![(value.len() as u8) << 2];
    entry.extend_from_slice(&value);
    entry.extend_from_slice(&height.to_le_bytes());
    st.insert(&proposal_key(p.id), &entry);
}

fn vote_params(id: u64, option: u8) -> Vec<u8> {
    let mut b = id.to_le_bytes().to_vec();
    b.push(option);
    b
}

#[test]
fn contract_votes() {
    let mut st = StateMap::new();
    assert_eq!(contract_vote(&mut st, &[1u8; 32], &vote_params(0, 0)), Err(ContractError::ProposalNotFound));
    assert_eq!(contract_vote(&mut st, &[1u8; 32], &[0u8; 8]), Err(ContractError::Decode));
    assert_eq!(contract_vote(&mut st, &[1u8; 32], &vote_params(0, 4)), Err(ContractError::Decode));
    store(&mut st, &open_proposal(ProposalStatus::Passed), 3);
    assert_eq!(contract_vote(&mut st, &[1u8; 32], &vote_params(0, 0)), Err(ContractError::NotVotingPeriod));
    store(&mut st, &open_proposal(ProposalStatus::VotingPeriod), 3);
    // Bytes after the parameters are ignored.
    let mut p = vote_params(0, 3);
    p.push(0xee);
    assert_eq!(contract_vote(&mut st, &[1u8; 32], &p), Ok(()));
    assert_eq!(st.get(&vote_key(0, &[1u8; 32])), Some(vec![3u8]));
    st.insert(&proposal_key(0), &[1, 2, 3]);
    assert_eq!(contract_vote(&mut st, &[2u8; 32], &vote_params(0, 0)), Err(ContractError::Decode));
}

#[test]
fn submitted_proposals_take_votes() {
    let mut st = StateMap::new();
    contract_submit_proposal(&mut st, &[1u8; 32], params(), 5);
    assert_eq!(contract_vote(&mut st, &[7u8; 32], &vote_params(0, 1)), Ok(()));
    assert_eq!(st.get(&vote_key(0, &[7u8; 32])), Some(vec![1u8]));
    assert_eq!(contract_vote(&mut st, &[7u8; 32], &vote_params(1, 1)), Err(ContractError::ProposalNotFound));
}

#[test]
fn contract_tally_rules() {
    let stakes = vec![([1u8; 32], 50), ([2u8; 32], 30), ([3u8; 32], 20)];
    // 50 yes of 80 non-abstaining passes; the malformed record is skipped.
    let (status, t) = contract_tally(&stakes, &vec![vote(1, 0), vote(2, 1), vote(3, 9), (vec![1], vec![0])]);
    assert_eq!(status, ProposalStatus::Passed);
    assert_eq!(t, TallyResult { yes: 50, no: 30, no_with_veto: 0, abstain: 0 });
    // Yes must exceed half of the non-abstaining power.
    let (status, _) = contract_tally(&stakes, &vec![vote(3, 0), vote(2, 1), vote(1, 3)]);
    assert_eq!(status, ProposalStatus::Rejected);
    let even = vec![([1u8; 32], 10), ([2u8; 32], 10)];
    assert_eq!(contract_tally(&even, &vec![vote(1, 0), vote(2, 1)]).0, ProposalStatus::Rejected);
    // Below a third of the stake voted.
    let (status, _) = contract_tally(&stakes, &vec![vote(2, 0)]);
    assert_eq!(status, ProposalStatus::Rejected);
    // Trailing bytes after the option byte are ignored.
    let (status, t) = contract_tally(&stakes, &vec![(vote_key(0, &[1u8; 32]), vec![0, 7, 7])]);
    assert_eq!(status, ProposalStatus::Passed);
    assert_eq!(t.yes, 50);
    // No stake at all rejects.
    assert_eq!(contract_tally(&vec![], &vec![vote(1, 0)]).0, ProposalStatus::Rejected);
    let p = contract_finalize(open_proposal(ProposalStatus::VotingPeriod), &stakes, &vec![vote(1, 0)]);
    assert_eq!(p.status, ProposalStatus::Passed);
    assert_eq!(p.final_tally, Some(TallyResult { yes: 50, no: 0, no_with_veto: 0, abstain: 0 }));
}

#[test]
fn stakes_from_current_validators() {
    let key = ActiveKeyRecord { suite: 0, public_key_hash: [0u8; 32], since_height: 0 };
    let sets = ValidatorSetsV1 {
        current: ValidatorSetV1 {
            effective_from_height: 0,
            total_weight: 0,
            validators: vec![
                ValidatorV1 { account_id: [1u8; 32], weight: 10, consensus_key: key },
                ValidatorV1 { account_id: [2u8; 32], weight: (1u128 << 64) + 5, consensus_key: key },
                ValidatorV1 { account_id: [1u8; 32], weight: 7, consensus_key: key },
            ],
        },
        next: None,
    };
    assert_eq!(contract_stakes(&Some(sets)), vec![([1u8; 32], 7), ([2u8; 32], 5)]);
    assert_eq!(contract_stakes(&None), vec![]);
}
