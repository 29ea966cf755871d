use pallet_voting::{Config, DefaultForNextProposalId, Error, Event, Pallet};

fn store(max_description_length: u32, max_proposals_per_block: u32) -> Pallet {
    Pallet::new(Config { max_description_length, max_proposals_per_block })
}

fn finalized_events(voting: &Pallet, id: u32) -> usize {
    voting
        .events()
        .iter()
        .filter(|e| matches!(e, Event::ProposalFinalized(i, _) if *i == id))
        .count()
}

#[test]
fn first_identifier_is_one() {
    assert_eq!(DefaultForNextProposalId(), 1);
    let voting = store(8, 2);
    assert_eq!(voting.next_proposal_id(), 1);
    assert_eq!(voting.block_number(), 0);
    assert!(voting.proposals(1).is_none());
    assert!(voting.events().is_empty());
}

#[test]
fn identifiers_strictly_increase() {
    let mut voting = store(8, 10);
    let a = voting.create_proposal(1, vec![1], 5).unwrap();
    assert!(voting.vote(2, a, true).is_ok());
    voting.set_block_number(3);
    let b = voting.create_proposal(1, vec![2], 5).unwrap();
    voting.set_block_number(8);
    voting.on_initialize(8);
    let c = voting.create_proposal(3, vec![], 1).unwrap();
    assert_eq!((a, b, c), (1, 2, 3));
    assert_eq!(voting.next_proposal_id(), 4);
}

#[test]
fn long_description_leaves_state_unchanged() {
    let mut voting = store(4, 10);
    assert_eq!(voting.create_proposal(1, vec![7; 5], 3), Err(Error::DescriptionTooLong));
    assert_eq!(voting.next_proposal_id(), 1);
    assert!(voting.proposals(1).is_none());
    assert!(voting.proposals_to_finalize(3).is_empty());
    assert!(voting.events().is_empty());
    assert_eq!(voting.create_proposal(1, vec![7; 4], 3), Ok(1));
}

#[test]
fn created_event_carries_initial_record() {
    let mut voting = store(16, 4);
    voting.set_block_number(7);
    assert_eq!(voting.create_proposal(5, b"fund".to_vec(), 3), Ok(1));
    assert_eq!(
        voting.events().last(),
        Some(&Event::ProposalCreated {
            proposal_id: 1,
            creator: 5,
            description: b"fund".to_vec(),
            begin_block: 7,
            end_block: 10,
            yes_votes: 0,
            no_votes: 0,
            voting_ended: false,
        })
    );
    assert_eq!(voting.proposals_to_finalize(10), vec![1]);
}

#[test]
fn closing_height_saturates() {
    let mut voting = store(16, 4);
    voting.set_block_number(5);
    assert_eq!(voting.create_proposal(1, vec![], u64::MAX), Ok(1));
    assert_eq!(voting.proposals(1).unwrap().end_block, u64::MAX);
    assert_eq!(voting.proposals_to_finalize(u64::MAX), vec![1]);
}

#[test]
fn second_vote_is_rejected_without_change() {
    let mut voting = store(16, 4);
    voting.create_proposal(1, vec![], 10).unwrap();
    assert_eq!(voting.vote(2, 1, true), Ok(()));
    assert_eq!(voting.vote(2, 1, true), Err(Error::AlreadyVoted));
    assert_eq!(voting.vote(2, 1, false), Err(Error::AlreadyVoted));
    let p = voting.proposals(1).unwrap();
    assert_eq!((p.yes_votes, p.no_votes), (1, 0));
    assert_eq!(voting.votes(1, 2), Some(true));
    assert_eq!(voting.votes(1, 3), None);
    assert_eq!(voting.events().last(), Some(&Event::VoteCast(1, 2, true)));
}

#[test]
fn vote_on_missing_proposal_fails() {
    let mut voting = store(16, 4);
    assert_eq!(voting.vote(2, 0, true), Err(Error::ProposalNotFound));
    assert_eq!(voting.vote(2, 1, true), Err(Error::ProposalNotFound));
    voting.create_proposal(1, vec![], 10).unwrap();
    assert_eq!(voting.vote(2, 2, true), Err(Error::ProposalNotFound));
}

#[test]
fn voting_open_through_end_block() {
    let mut voting = store(16, 4);
    voting.create_proposal(1, vec![], 10).unwrap();
    voting.set_block_number(10);
    assert_eq!(voting.vote(2, 1, false), Ok(()));
    voting.set_block_number(11);
    assert_eq!(voting.vote(3, 1, false), Err(Error::VotingPeriodEnded));
    assert_eq!(voting.proposals(1).unwrap().no_votes, 1);
}

#[test]
fn settling_twice_is_a_no_op() {
    let mut voting = store(16, 4);
    voting.create_proposal(1, vec![], 2).unwrap();
    voting.create_proposal(1, vec![], 2).unwrap();
    voting.vote(3, 2, true).unwrap();
    voting.set_block_number(2);
    voting.on_initialize(2);
    let events = voting.events().clone();
    let first = (voting.proposals(1).cloned(), voting.proposals(2).cloned());
    voting.on_initialize(2);
    assert_eq!(voting.events(), &events);
    assert_eq!((voting.proposals(1).cloned(), voting.proposals(2).cloned()), first);
    assert!(voting.proposals_to_finalize(2).is_empty());
    assert_eq!(finalized_events(&voting, 1), 1);
    assert_eq!(finalized_events(&voting, 2), 1);
}

#[test]
fn settlement_happens_once_per_proposal() {
    let mut voting = store(16, 4);
    voting.create_proposal(1, vec![], 0).unwrap();
    voting.create_proposal(1, vec![], 1).unwrap();
    for h in 0..4 {
        voting.set_block_number(h);
        voting.on_initialize(h);
        voting.on_initialize(h);
    }
    assert!(voting.proposals(1).unwrap().voting_ended);
    assert!(voting.proposals(2).unwrap().voting_ended);
    assert_eq!(finalized_events(&voting, 1), 1);
    assert_eq!(finalized_events(&voting, 2), 1);
    assert_eq!(finalized_events(&voting, 3), 0);
}

#[test]
fn empty_height_is_a_no_op() {
    let mut voting = store(16, 4);
    voting.create_proposal(1, vec![], 5).unwrap();
    assert_eq!(voting.block_actions(4), Ok(()));
    assert!(!voting.proposals(1).unwrap().voting_ended);
    assert_eq!(voting.proposals_to_finalize(5), vec![1]);
    assert_eq!(voting.events().len(), 1);
}

#[test]
fn tie_is_rejected() {
    let mut voting = store(16, 4);
    voting.create_proposal(1, vec![], 1).unwrap();
    for (who, v) in [(10, true), (11, true), (12, false), (13, false)] {
        voting.vote(who, 1, v).unwrap();
    }
    voting.set_block_number(1);
    voting.on_initialize(1);
    assert_eq!(voting.events().last(), Some(&Event::ProposalFinalized(1, false)));
}

#[test]
fn strict_majority_is_approved() {
    let mut voting = store(16, 4);
    voting.create_proposal(1, vec![], 1).unwrap();
    for (who, v) in [(10, true), (11, true), (12, true), (13, false), (14, false)] {
        voting.vote(who, 1, v).unwrap();
    }
    voting.set_block_number(1);
    voting.on_initialize(1);
    assert_eq!(voting.events().last(), Some(&Event::ProposalFinalized(1, true)));
}

#[test]
fn no_votes_is_rejected() {
    let mut voting = store(16, 4);
    voting.create_proposal(1, vec![], 0).unwrap();
    voting.on_initialize(0);
    assert_eq!(voting.events().last(), Some(&Event::ProposalFinalized(1, false)));
}

#[test]
fn capacity_is_enforced_without_leftovers() {
    let mut voting = store(16, 2);
    assert_eq!(voting.create_proposal(1, vec![], 4), Ok(1));
    assert_eq!(voting.create_proposal(2, vec![], 4), Ok(2));
    let events = voting.events().len();
    assert_eq!(voting.create_proposal(3, vec![], 4), Err(Error::TooManyProposalsInBlock));
    assert_eq!(voting.next_proposal_id(), 3);
    assert!(voting.proposals(3).is_none());
    assert_eq!(voting.proposals_to_finalize(4), vec![1, 2]);
    assert_eq!(voting.events().len(), events);
    assert_eq!(voting.create_proposal(3, vec![], 5), Ok(3));
}

#[test]
fn zero_capacity_rejects_every_proposal() {
    let mut voting = store(16, 0);
    assert_eq!(voting.create_proposal(1, vec![], 4), Err(Error::TooManyProposalsInBlock));
    assert_eq!(voting.next_proposal_id(), 1);
}

#[test]
fn end_to_end_scenario() {
    let mut voting = store(256, 100);
    assert_eq!(voting.create_proposal(1, b"upgrade".to_vec(), 10), Ok(1));
    assert_eq!(voting.proposals(1).unwrap().end_block, 10);
    voting.vote(2, 1, true).unwrap();
    voting.vote(3, 1, true).unwrap();
    voting.vote(4, 1, false).unwrap();
    for h in 1..=10 {
        voting.set_block_number(h);
        voting.on_initialize(h);
    }
    let p = voting.proposals(1).unwrap();
    assert!(p.voting_ended);
    assert_eq!((p.yes_votes, p.no_votes), (2, 1));
    assert_eq!(voting.events().last(), Some(&Event::ProposalFinalized(1, true)));
    assert_eq!(finalized_events(&voting, 1), 1);
    assert!(voting.proposals_to_finalize(10).is_empty());
}

#[test]
fn config_is_kept() {
    let voting = store(3, 9);
    assert_eq!(voting.config(), Config { max_description_length: 3, max_proposals_per_block: 9 });
}
