use pallet_voting::{Config, Error, Event, Pallet};

fn new_test_ext() -> Pallet {
    Pallet::new(Config { max_description_length: 256, max_proposals_per_block: 100 })
}

#[test]
fn create_proposal_should_work() {
    let mut voting = new_test_ext();
    let description = b"Proposal description".to_vec();
    let duration = 10;

    assert!(voting.create_proposal(1, description.clone(), duration).is_ok());

    let proposal = voting.proposals(1).unwrap();
    assert_eq!(proposal.creator, 1);
    assert_eq!(proposal.description, description);
    assert_eq!(proposal.begin_block, 0);
    assert_eq!(proposal.end_block, 10);
    assert_eq!(proposal.yes_votes, 0);
    assert_eq!(proposal.no_votes, 0);
    assert_eq!(proposal.voting_ended, false);
}

#[test]
fn create_proposal_with_long_description_should_fail() {
    let mut voting = new_test_ext();
    let description = vec![0; 300];
    let duration = 10;

    assert_eq!(voting.create_proposal(1, description, duration), Err(Error::DescriptionTooLong));
}

#[test]
fn vote_on_proposal_should_work() {
    let mut voting = new_test_ext();
    let description = b"Proposal description".to_vec();
    let duration = 10;

    assert!(voting.create_proposal(1, description.clone(), duration).is_ok());
    assert!(voting.vote(2, 1, true).is_ok());

    let proposal = voting.proposals(1).unwrap();
    assert_eq!(proposal.yes_votes, 1);
    assert_eq!(proposal.no_votes, 0);
}

#[test]
fn double_voting_should_fail() {
    let mut voting = new_test_ext();
    let description = b"Proposal description".to_vec();
    let duration = 10;

    assert!(voting.create_proposal(1, description.clone(), duration).is_ok());
    assert!(voting.vote(2, 1, true).is_ok());
    assert_eq!(voting.vote(2, 1, false), Err(Error::AlreadyVoted));
}

#[test]
fn voting_after_end_should_fail() {
    let mut voting = new_test_ext();
    let description = b"Proposal description".to_vec();
    let duration = 1;

    assert!(voting.create_proposal(1, description.clone(), duration).is_ok());
    voting.set_block_number(2);
    assert_eq!(voting.vote(2, 1, true), Err(Error::VotingPeriodEnded));
}

#[test]
fn finalize_proposal_should_work() {
    let mut voting = new_test_ext();
    let description = b"Proposal description".to_vec();
    let duration = 1;

    assert!(voting.create_proposal(1, description.clone(), duration).is_ok());
    assert!(voting.vote(2, 1, true).is_ok());
    assert!(voting.vote(3, 1, false).is_ok());
    assert!(voting.vote(4, 1, true).is_ok());

    voting.set_block_number(1);
    let now = voting.block_number();
    let _ = voting.block_actions(now).is_ok();

    let proposal = voting.proposals(1).unwrap();
    assert_eq!(proposal.voting_ended, true);
    assert_eq!(voting.events().last(), Some(&Event::ProposalFinalized(1, true)));
}

#[test]
fn test_benchmarks() {
    let mut voting = new_test_ext();
    assert!(voting.create_proposal(9, vec![0; 256], 100).is_ok());
    assert_eq!(voting.next_proposal_id(), 2);

    let mut voting = new_test_ext();
    assert!(voting.create_proposal(9, vec![0; 256], 100).is_ok());
    assert!(voting.vote(9, 1, true).is_ok());
    assert_eq!(voting.proposals(1).unwrap().yes_votes, 1);

    let mut voting = new_test_ext();
    for _ in 0..100 {
        assert!(voting.create_proposal(9, vec![0; 256], 1).is_ok());
    }
    voting.set_block_number(1);
    voting.on_initialize(1);
    for i in 1..=100 {
        assert!(voting.proposals(i).unwrap().voting_ended);
    }
}
