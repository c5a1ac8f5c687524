use ioi_kernel::gov_contract::{contract_submit_proposal, contract_vote, tally_index_at, tally_index_key, ContractError};
use ioi_kernel::gov_tally::{contract_end_block, state_stakes, validator_set_key};
use ioi_kernel::governance::{proposal_key, proposal_to_bytes, ProposalStatus, ProposalType, SubmitProposalParams, TallyResult};
use ioi_kernel::proposal_codec::{load_proposal, read_entry, read_proposal, LoadError};
use ioi_kernel::state::StateMap;
use ioi_kernel::validator_codec::{current_validators, read_validator_sets};

fn params() -> SubmitProposalParams {
    SubmitProposalParams { proposal_type: ProposalType::Custom("upgrade".to_string()), title: "t".to_string(), description: "d".to_string(), deposit: 1 }
}

fn validator(account: u8, weight: u128) -> Vec<u8> {
    let mut b = vec![account; 32];
    b.extend_from_slice(&weight.to_le_bytes());
    b.push(0);
    b.extend_from_slice(&[9u8; 32]);
    b.extend_from_slice(&4u64.to_le_bytes());
    b
}

fn sets(validators: &[(u8, u128)]) -> Vec<u8> {
    let mut b = 7u64.to_le_bytes().to_vec();
    b.extend_from_slice(&0u128.to_le_bytes());
    b.push((validators.len() as u8) << 2);
    for (a, w) in validators {
        b.extend_from_slice(&validator(*a, *w));
    }
    b.push(0);
    b
}

fn vote_params(id: u64, option: u8) -> Vec<u8> {
    let mut b = id.to_le_bytes().to_vec();
    b.push(option);
    b
}

#[test]
fn validator_sets_decode_from_the_front() {
    let mut b = sets(&[(1, 60), (2, 30)]);
    b.extend_from_slice(&[0xaa, 0xbb]);
    let (s, rest) = read_validator_sets(&b).unwrap();
    assert_eq!(rest, &[0xaa, 0xbb]);
    assert_eq!(s.current.effective_from_height, 7);
    assert_eq!(s.current.validators.len(), 2);
    assert_eq!(s.current.validators[1].account_id, [2u8; 32]);
    assert_eq!(s.current.validators[1].weight, 30);
    assert_eq!(s.current.validators[0].consensus_key.since_height, 4);
    assert!(s.next.is_none());
    let vs = current_validators(&b).unwrap();
    assert_eq!(vs.len(), 2);
    // A count that promises more validators than there are bytes does not decode.
    let mut short = sets(&[(1, 60)]);
    short[24] = 8;
    assert!(current_validators(&short).is_none());
}

#[test]
fn stored_proposals_decode_from_the_front() {
    let mut st = StateMap::new();
    contract_submit_proposal(&mut st, &[5u8; 32], params(), 10);
    let stored = st.get(&proposal_key(0)).unwrap();
    let (value, height, rest) = read_entry(&stored).unwrap();
    assert_eq!(height, 10);
    assert!(rest.is_empty());
    let mut with_tail = value.clone();
    with_tail.push(42);
    let (p, tail) = read_proposal(&with_tail).unwrap();
    assert_eq!(tail, &[42]);
    assert_eq!(p.id, 0);
    assert_eq!(p.title, "t");
    assert_eq!(p.status, ProposalStatus::VotingPeriod);
    assert_eq!(p.voting_end_height, 20_010);
    assert_eq!(p.submitter, vec![5u8; 32]);
    match &p.proposal_type {
        ProposalType::Custom(c) => assert_eq!(c, "upgrade"),
        ProposalType::Text => panic!("kind lost"),
    }
    assert_eq!(proposal_to_bytes(&p), value);
    assert!(read_proposal(&value[..value.len() - 1]).is_none());
    let (q, h) = load_proposal(&st, 0).unwrap();
    assert_eq!((q.id, h), (0, 10));
    assert!(matches!(load_proposal(&st, 1), Err(LoadError::NotFound)));
}

#[test]
fn end_block_tallies_the_closing_proposals() {
    let mut st = StateMap::new();
    contract_submit_proposal(&mut st, &[5u8; 32], params(), 5);
    st.insert(&validator_set_key(), &sets(&[(1, 60), (2, 30), (3, 10)]));
    assert_eq!(state_stakes(&st), vec![([1u8; 32], 60), ([2u8; 32], 30), ([3u8; 32], 10)]);
    contract_vote(&mut st, &[1u8; 32], &vote_params(0, 0)).unwrap();
    contract_vote(&mut st, &[2u8; 32], &vote_params(0, 1)).unwrap();
    contract_vote(&mut st, &[9u8; 32], &vote_params(0, 0)).unwrap();
    // Nothing closes at another height.
    assert_eq!(contract_end_block(&mut st, 20_004), Ok(()));
    assert_eq!(load_proposal(&st, 0).unwrap().0.status, ProposalStatus::VotingPeriod);
    assert_eq!(contract_end_block(&mut st, 20_005), Ok(()));
    let (p, h) = load_proposal(&st, 0).unwrap();
    assert_eq!(h, 5);
    assert_eq!(p.status, ProposalStatus::Passed);
    assert_eq!(p.final_tally, Some(TallyResult { yes: 60, no: 30, no_with_veto: 0, abstain: 0 }));
    assert_eq!(tally_index_at(&st, 20_005), Ok(None));
}

#[test]
fn end_block_without_validators_rejects() {
    let mut st = StateMap::new();
    contract_submit_proposal(&mut st, &[5u8; 32], params(), 5);
    contract_vote(&mut st, &[1u8; 32], &vote_params(0, 0)).unwrap();
    assert_eq!(contract_end_block(&mut st, 20_005), Ok(()));
    let (p, _) = load_proposal(&st, 0).unwrap();
    assert_eq!(p.status, ProposalStatus::Rejected);
    assert_eq!(p.final_tally, Some(TallyResult { yes: 0, no: 0, no_with_veto: 0, abstain: 0 }));
}

#[test]
fn end_block_failures() {
    let mut st = StateMap::new();
    st.insert(&tally_index_key(8), &[0xff]);
    assert_eq!(contract_end_block(&mut st, 8), Err(ContractError::InvalidIndex));
    // An index naming a missing proposal stops the run and stays.
    let mut ids = vec![4u8];
    ids.extend_from_slice(&3u64.to_le_bytes());
    st.insert(&tally_index_key(9), &ids);
    assert_eq!(contract_end_block(&mut st, 9), Err(ContractError::ProposalNotFound));
    assert_eq!(tally_index_at(&st, 9), Ok(Some(vec![3])));
    st.insert(&proposal_key(3), &[0]);
    assert_eq!(contract_end_block(&mut st, 9), Err(ContractError::Decode));
}

#[test]
fn prefix_scan_lists_matching_entries() {
    let mut st = StateMap::new();
    st.insert(b"ab1", b"x");
    st.insert(b"b", b"y");
    st.insert(b"ab2", b"z");
    let mut found = st.prefix_scan(b"ab");
    found.sort();
    assert_eq!(found, vec![(b"ab1".to_vec(), b"x".to_vec()), (b"ab2".to_vec(), b"z".to_vec())]);
    assert_eq!(st.prefix_scan(b"").len(), 3);
    assert!(st.prefix_scan(b"c").is_empty());
}
