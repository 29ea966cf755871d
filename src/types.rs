use vstd::prelude::*;

verus! {

/// A voter or proposal creator, as identified by the host.
pub type AccountId = u64;

/// A value of the logical clock.
pub type BlockNumber = u64;

/// The two bounds fixed when the system starts.
#[derive(Clone, Copy, Debug, PartialEq, Eq, Structural)]
pub struct Config {
    /// Longest description accepted, in bytes.
    pub max_description_length: u32,
    /// Most proposals that may expire at one height.
    pub max_proposals_per_block: u32,
}

/// Why an operation was rejected. A rejected operation changes nothing.
#[derive(Clone, Copy, Debug, PartialEq, Eq, Structural)]
pub enum Error {
    ProposalNotFound,
    VotingPeriodEnded,
    AlreadyVoted,
    /// Kept for callers that match on it; no operation of this crate returns it.
    VotingPeriodNotEnded,
    DescriptionTooLong,
    TooManyProposalsInBlock,
    /// A proposal identifier or a vote tally would pass `u32::MAX`.
    CounterOverflow,
}

/// A governance item with its voting window and running tally.
#[derive(Clone, Debug, PartialEq, Eq)]
pub struct Proposal {
    pub id: u32,
    pub creator: AccountId,
    pub description: Vec<u8>,
    pub begin_block: BlockNumber,
    pub end_block: BlockNumber,
    pub yes_votes: u32,
    pub no_votes: u32,
    pub voting_ended: bool,
}

/// The mathematical value of a [`Proposal`].
pub struct ProposalView {
    pub id: u32,
    pub creator: AccountId,
    pub description: Seq<u8>,
    pub begin_block: BlockNumber,
    pub end_block: BlockNumber,
    pub yes_votes: u32,
    pub no_votes: u32,
    pub voting_ended: bool,
}

impl View for Proposal {
    type V = ProposalView;

    open spec fn view(&self) -> ProposalView {
        ProposalView {
            id: self.id,
            creator: self.creator,
            description: self.description@,
            begin_block: self.begin_block,
            end_block: self.end_block,
            yes_votes: self.yes_votes,
            no_votes: self.no_votes,
            voting_ended: self.voting_ended,
        }
    }
}

/// One recorded choice of one voter on one proposal.
#[derive(Clone, Copy, Debug, PartialEq, Eq, Structural)]
pub struct Ballot {
    pub proposal_id: u32,
    pub voter: AccountId,
    pub vote: bool,
}

/// A notification appended to the event log.
#[derive(Clone, Debug, PartialEq, Eq)]
pub enum Event {
    ProposalCreated {
        proposal_id: u32,
        creator: AccountId,
        description: Vec<u8>,
        begin_block: BlockNumber,
        end_block: BlockNumber,
        yes_votes: u32,
        no_votes: u32,
        voting_ended: bool,
    },
    VoteCast(u32, AccountId, bool),
    ProposalFinalized(u32, bool),
}

/// The mathematical value of an [`Event`].
pub enum EventView {
    ProposalCreated {
        proposal_id: u32,
        creator: AccountId,
        description: Seq<u8>,
        begin_block: BlockNumber,
        end_block: BlockNumber,
        yes_votes: u32,
        no_votes: u32,
        voting_ended: bool,
    },
    VoteCast(u32, AccountId, bool),
    ProposalFinalized(u32, bool),
}

impl View for Event {
    type V = EventView;

    open spec fn view(&self) -> EventView {
        match self {
            Event::ProposalCreated {
                proposal_id,
                creator,
                description,
                begin_block,
                end_block,
                yes_votes,
                no_votes,
                voting_ended,
            } => EventView::ProposalCreated {
                proposal_id: *proposal_id,
                creator: *creator,
                description: description@,
                begin_block: *begin_block,
                end_block: *end_block,
                yes_votes: *yes_votes,
                no_votes: *no_votes,
                voting_ended: *voting_ended,
            },
            Event::VoteCast(id, who, v) => EventView::VoteCast(*id, *who, *v),
            Event::ProposalFinalized(id, approved) => EventView::ProposalFinalized(*id, *approved),
        }
    }
}

/// The identifier handed to the first proposal.
#[allow(non_snake_case)]
pub fn DefaultForNextProposalId() -> (r: u32)
    ensures
        r == 1,
{
    1
}

} // verus!
