use vstd::prelude::*;
use crate::types::{AccountId, BlockNumber, Config, Error, EventView, ProposalView};

verus! {

/// The whole state of the governance core, as a mathematical value.
pub struct PalletView {
    pub config: Config,
    /// The current logical height.
    pub block_number: BlockNumber,
    pub next_proposal_id: u32,
    /// The proposal with identifier `i + 1` sits at index `i`.
    pub proposals: Seq<ProposalView>,
    /// The ballot of each `(proposal, voter)` pair that has voted.
    pub votes: Map<(u32, AccountId), bool>,
    /// The identifiers of the proposals that expire at each height.
    pub schedule: Map<BlockNumber, Seq<u32>>,
    pub events: Seq<EventView>,
}

/// One operation on the store, with its arguments.
pub enum Op {
    Create { creator: AccountId, description: Seq<u8>, duration: BlockNumber },
    Vote { who: AccountId, id: u32, vote: bool },
    Advance { now: BlockNumber },
    SetBlock { n: BlockNumber },
}

/// `a + b`, or `u64::MAX` where the sum does not fit.
pub open spec fn saturating_add_spec(a: u64, b: u64) -> u64 {
    if a + b > u64::MAX {
        u64::MAX
    } else {
        (a + b) as u64
    }
}

/// How many `ProposalFinalized` notifications for `id` the log holds.
pub open spec fn finalized_count(events: Seq<EventView>, id: u32) -> nat
    decreases events.len(),
{
    if events.len() == 0 {
        0
    } else {
        let rest = finalized_count(events.drop_last(), id);
        match events.last() {
            EventView::ProposalFinalized(i, _) => if i == id {
                rest + 1
            } else {
                rest
            },
            _ => rest,
        }
    }
}

/// Appending one event adds one to the count for `id` exactly when it is a
/// `ProposalFinalized` for `id`.
pub proof fn lemma_finalized_count_push(events: Seq<EventView>, e: EventView, id: u32)
    ensures
        finalized_count(events.push(e), id) == finalized_count(events, id) + match e {
            EventView::ProposalFinalized(i, _) => if i == id {
                1nat
            } else {
                0nat
            },
            _ => 0nat,
        },
{
    assert(events.push(e).drop_last() =~= events);
}

/// The outcome of a settled proposal: a strict majority of yes votes; a tie rejects.
pub open spec fn approved(p: ProposalView) -> bool {
    p.yes_votes > p.no_votes
}

impl PalletView {
    /// The proposal with identifier `id`, if one was created.
    pub open spec fn proposal(self, id: u32) -> Option<ProposalView> {
        if 1 <= id && id <= self.proposals.len() {
            Some(self.proposals[id - 1])
        } else {
            None
        }
    }

    /// The identifiers that expire at height `h`; empty where no bucket is stored.
    pub open spec fn bucket(self, h: BlockNumber) -> Seq<u32> {
        if self.schedule.contains_key(h) {
            self.schedule[h]
        } else {
            Seq::empty()
        }
    }

    /// The state with the clock moved to height `n`.
    pub open spec fn with_block(self, n: BlockNumber) -> Self {
        PalletView { block_number: n, ..self }
    }

    /// What holds of every state that the operations can reach.
    pub open spec fn inv(self) -> bool {
        &&& self.next_proposal_id as int == self.proposals.len() + 1
        &&& forall|i: int|
            0 <= i < self.proposals.len() ==> {
                let p = #[trigger] self.proposals[i];
                &&& p.id == i + 1
                &&& p.begin_block <= p.end_block
                &&& p.description.len() <= self.config.max_description_length
                &&& finalized_count(self.events, p.id) == if p.voting_ended {
                    1nat
                } else {
                    0nat
                }
            }
        &&& forall|id: u32|
            id == 0 || id >= self.next_proposal_id ==> finalized_count(self.events, id) == 0
        &&& forall|k: (u32, AccountId)| #[trigger]
            self.votes.contains_key(k) ==> 1 <= k.0 < self.next_proposal_id
        &&& forall|h: BlockNumber| #[trigger]
            self.schedule.contains_key(h) ==> {
                &&& 0 < self.schedule[h].len() <= self.config.max_proposals_per_block
                &&& forall|j: int|
                    0 <= j < self.schedule[h].len() ==> {
                        &&& 1 <= #[trigger] self.schedule[h][j] < self.next_proposal_id
                        &&& self.proposals[self.schedule[h][j] - 1].end_block == h
                    }
            }
    }

    /// The result of `create_proposal` by `creator` on this state, and the state after it.
    pub open spec fn create_spec(self, creator: AccountId, description: Seq<u8>, duration: BlockNumber) -> (
        Self,
        Result<u32, Error>,
    ) {
        let id = self.next_proposal_id;
        let end = saturating_add_spec(self.block_number, duration);
        if description.len() > self.config.max_description_length {
            (self, Err(Error::DescriptionTooLong))
        } else if id == u32::MAX {
            (self, Err(Error::CounterOverflow))
        } else if self.bucket(end).len() >= self.config.max_proposals_per_block {
            (self, Err(Error::TooManyProposalsInBlock))
        } else {
            let p = ProposalView {
                id,
                creator,
                description,
                begin_block: self.block_number,
                end_block: end,
                yes_votes: 0,
                no_votes: 0,
                voting_ended: false,
            };
            let e = EventView::ProposalCreated {
                proposal_id: id,
                creator,
                description,
                begin_block: self.block_number,
                end_block: end,
                yes_votes: 0,
                no_votes: 0,
                voting_ended: false,
            };
            (
                PalletView {
                    next_proposal_id: (id + 1) as u32,
                    proposals: self.proposals.push(p),
                    schedule: self.schedule.insert(end, self.bucket(end).push(id)),
                    events: self.events.push(e),
                    ..self
                },
                Ok(id),
            )
        }
    }

    /// The result of `vote` by `who` on this state, and the state after it.
    pub open spec fn vote_spec(self, who: AccountId, id: u32, vote: bool) -> (Self, Result<(), Error>) {
        match self.proposal(id) {
            None => (self, Err(Error::ProposalNotFound)),
            Some(p) => if self.block_number > p.end_block {
                (self, Err(Error::VotingPeriodEnded))
            } else if self.votes.contains_key((id, who)) {
                (self, Err(Error::AlreadyVoted))
            } else if (vote && p.yes_votes == u32::MAX) || (!vote && p.no_votes == u32::MAX) {
                (self, Err(Error::CounterOverflow))
            } else {
                let q = if vote {
                    ProposalView { yes_votes: (p.yes_votes + 1) as u32, ..p }
                } else {
                    ProposalView { no_votes: (p.no_votes + 1) as u32, ..p }
                };
                (
                    PalletView {
                        proposals: self.proposals.update(id - 1, q),
                        votes: self.votes.insert((id, who), vote),
                        events: self.events.push(EventView::VoteCast(id, who, vote)),
                        ..self
                    },
                    Ok(()),
                )
            },
        }
    }

    /// Settles proposal `id` if it exists and is still open.
    pub open spec fn settle_one(self, id: u32) -> Self {
        match self.proposal(id) {
            Some(p) => if p.voting_ended {
                self
            } else {
                PalletView {
                    proposals: self.proposals.update(id - 1, ProposalView { voting_ended: true, ..p }),
                    events: self.events.push(EventView::ProposalFinalized(id, approved(p))),
                    ..self
                }
            },
            None => self,
        }
    }

    /// Settles the first `k` identifiers of `ids`, in order.
    pub open spec fn settle_prefix(self, ids: Seq<u32>, k: int) -> Self
        decreases k,
    {
        if k <= 0 {
            self
        } else {
            self.settle_prefix(ids, k - 1).settle_one(ids[k - 1])
        }
    }

    /// The state after the height-advance pass for height `now`: every open
    /// proposal of the bucket is settled in order, and the bucket is removed.
    pub open spec fn settle_spec(self, now: BlockNumber) -> Self {
        let ids = self.bucket(now);
        let s = self.settle_prefix(ids, ids.len() as int);
        PalletView { schedule: s.schedule.remove(now), ..s }
    }

    /// Moving the clock keeps the invariant.
    pub proof fn lemma_with_block_inv(self, n: BlockNumber)
        requires
            self.inv(),
        ensures
            self.with_block(n).inv(),
    {
        let t = self.with_block(n);
        assert forall|i: int| 0 <= i < t.proposals.len() implies {
            let q = #[trigger] t.proposals[i];
            &&& q.id == i + 1
            &&& q.begin_block <= q.end_block
            &&& q.description.len() <= t.config.max_description_length
            &&& finalized_count(t.events, q.id) == if q.voting_ended {
                1nat
            } else {
                0nat
            }
        } by {
            assert(self.proposals[i] == t.proposals[i]);
        };
    }

    /// Creating a proposal keeps the invariant.
    pub proof fn lemma_create_inv(self, creator: AccountId, description: Seq<u8>, duration: BlockNumber)
        requires
            self.inv(),
        ensures
            self.create_spec(creator, description, duration).0.inv(),
    {
        let (t, r) = self.create_spec(creator, description, duration);
        if r is Ok {
            let end = saturating_add_spec(self.block_number, duration);
            assert forall|x: u32| #[trigger] finalized_count(t.events, x) == finalized_count(self.events, x) by {
                lemma_finalized_count_push(self.events, t.events.last(), x);
                assert(self.events.push(t.events.last()) =~= t.events);
            };
            assert forall|i: int| 0 <= i < t.proposals.len() implies {
                let q = #[trigger] t.proposals[i];
                &&& q.id == i + 1
                &&& q.begin_block <= q.end_block
                &&& q.description.len() <= t.config.max_description_length
                &&& finalized_count(t.events, q.id) == if q.voting_ended {
                    1nat
                } else {
                    0nat
                }
            } by {
                if i < self.proposals.len() {
                    assert(t.proposals[i] == self.proposals[i]);
                }
            };
            assert forall|h: BlockNumber| #[trigger] t.schedule.contains_key(h) implies {
                &&& 0 < t.schedule[h].len() <= t.config.max_proposals_per_block
                &&& forall|j: int|
                    0 <= j < t.schedule[h].len() ==> 1 <= #[trigger] t.schedule[h][j] < t.next_proposal_id
            } by {
                if h == end {
                    assert forall|j: int| 0 <= j < t.schedule[h].len() implies 1 <= #[trigger] t.schedule[h][j]
                        < t.next_proposal_id by {
                        if j < self.bucket(end).len() {
                            assert(t.schedule[h][j] == self.schedule[h][j]);
                        }
                    };
                }
            };
        }
    }

    /// Casting a ballot keeps the invariant.
    pub proof fn lemma_vote_inv(self, who: AccountId, id: u32, vote: bool)
        requires
            self.inv(),
        ensures
            self.vote_spec(who, id, vote).0.inv(),
    {
        let (t, r) = self.vote_spec(who, id, vote);
        if r is Ok {
            assert forall|x: u32| #[trigger] finalized_count(t.events, x) == finalized_count(self.events, x) by {
                lemma_finalized_count_push(self.events, t.events.last(), x);
                assert(self.events.push(t.events.last()) =~= t.events);
            };
            assert forall|i: int| 0 <= i < t.proposals.len() implies {
                let q = #[trigger] t.proposals[i];
                &&& q.id == i + 1
                &&& q.begin_block <= q.end_block
                &&& q.description.len() <= t.config.max_description_length
                &&& finalized_count(t.events, q.id) == if q.voting_ended {
                    1nat
                } else {
                    0nat
                }
            } by {
                assert(self.proposals[i].id == i + 1);
            };
        }
    }

    /// Settling one proposal keeps the invariant.
    pub proof fn lemma_settle_one_inv(self, id: u32)
        requires
            self.inv(),
        ensures
            self.settle_one(id).inv(),
    {
        let t = self.settle_one(id);
        if let Some(p) = self.proposal(id) {
            if !p.voting_ended {
                assert forall|x: u32|
                    #[trigger] finalized_count(t.events, x) == finalized_count(self.events, x) + if x == id {
                        1nat
                    } else {
                        0nat
                    } by {
                    lemma_finalized_count_push(self.events, t.events.last(), x);
                    assert(self.events.push(t.events.last()) =~= t.events);
                };
                assert forall|i: int| 0 <= i < t.proposals.len() implies {
                    let q = #[trigger] t.proposals[i];
                    &&& q.id == i + 1
                    &&& q.begin_block <= q.end_block
                    &&& q.description.len() <= t.config.max_description_length
                    &&& finalized_count(t.events, q.id) == if q.voting_ended {
                        1nat
                    } else {
                        0nat
                    }
                } by {
                    assert(self.proposals[i].id == i + 1);
                };
            }
        }
    }

    /// The state after one operation.
    pub open spec fn step(self, op: Op) -> Self {
        match op {
            Op::Create { creator, description, duration } => self.create_spec(creator, description, duration).0,
            Op::Vote { who, id, vote } => self.vote_spec(who, id, vote).0,
            Op::Advance { now } => self.settle_spec(now),
            Op::SetBlock { n } => self.with_block(n),
        }
    }

    /// The state after a sequence of operations, applied in order.
    pub open spec fn run(self, ops: Seq<Op>) -> Self
        decreases ops.len(),
    {
        if ops.len() == 0 {
            self
        } else {
            self.run(ops.drop_last()).step(ops.last())
        }
    }

    /// What no operation undoes: identifiers are never handed out again,
    /// proposals are never removed and keep their closing height, a settled
    /// proposal stays settled, and a ballot stays as it was cast.
    pub open spec fn evolves_to(self, t: Self) -> bool {
        &&& self.config == t.config
        &&& self.next_proposal_id <= t.next_proposal_id
        &&& self.proposals.len() <= t.proposals.len()
        &&& forall|i: int|
            0 <= i < self.proposals.len() ==> {
                &&& #[trigger] t.proposals[i].end_block == self.proposals[i].end_block
                &&& (self.proposals[i].voting_ended ==> t.proposals[i].voting_ended)
            }
        &&& forall|k: (u32, AccountId)| #[trigger]
            self.votes.contains_key(k) ==> t.votes.contains_key(k) && t.votes[k] == self.votes[k]
    }

    pub proof fn lemma_evolves_to_trans(self, s: Self, u: Self)
        requires
            s.evolves_to(self),
            self.evolves_to(u),
        ensures
            s.evolves_to(u),
    {
        assert forall|i: int| 0 <= i < s.proposals.len() implies {
            &&& #[trigger] u.proposals[i].end_block == s.proposals[i].end_block
            &&& (s.proposals[i].voting_ended ==> u.proposals[i].voting_ended)
        } by {
            assert(self.proposals[i].end_block == s.proposals[i].end_block);
            assert(s.proposals[i].voting_ended ==> self.proposals[i].voting_ended);
            assert(u.proposals[i].end_block == self.proposals[i].end_block);
            assert(self.proposals[i].voting_ended ==> u.proposals[i].voting_ended);
        };
    }

    /// Settling one proposal undoes nothing.
    pub proof fn lemma_settle_one_evolves(self, id: u32)
        ensures
            self.evolves_to(self.settle_one(id)),
    {
    }

    /// Settling a prefix of a bucket keeps the invariant and touches only
    /// proposals and events.
    pub proof fn lemma_settle_prefix(self, ids: Seq<u32>, k: int)
        requires
            self.inv(),
        ensures
            self.settle_prefix(ids, k).inv(),
            self.settle_prefix(ids, k).config == self.config,
            self.settle_prefix(ids, k).block_number == self.block_number,
            self.settle_prefix(ids, k).next_proposal_id == self.next_proposal_id,
            self.settle_prefix(ids, k).votes == self.votes,
            self.settle_prefix(ids, k).schedule == self.schedule,
            self.settle_prefix(ids, k).proposals.len() == self.proposals.len(),
            self.evolves_to(self.settle_prefix(ids, k)),
        decreases k,
    {
        if k > 0 {
            self.lemma_settle_prefix(ids, k - 1);
            let s = self.settle_prefix(ids, k - 1);
            s.lemma_settle_one_inv(ids[k - 1]);
            s.lemma_settle_one_evolves(ids[k - 1]);
            s.lemma_evolves_to_trans(self, s.settle_one(ids[k - 1]));
        }
    }

    /// The height-advance pass keeps the invariant.
    pub proof fn lemma_settle_inv(self, now: BlockNumber)
        requires
            self.inv(),
        ensures
            self.settle_spec(now).inv(),
    {
        let ids = self.bucket(now);
        self.lemma_settle_prefix(ids, ids.len() as int);
    }
}

} // verus!
