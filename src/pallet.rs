use vstd::prelude::*;
use crate::model::PalletView;
use crate::types::{
    AccountId, Ballot, BlockNumber, Config, DefaultForNextProposalId, Error, Event, Proposal,
};

verus! {

/// The proposals that expire at one height.
struct Bucket {
    block: BlockNumber,
    proposal_ids: Vec<u32>,
}

/// The governance core: proposal store, vote ledger, finalization schedule
/// and event log, driven by `create_proposal`, `vote` and the per-height hook.
pub struct Pallet {
    config: Config,
    block_number: BlockNumber,
    next_proposal_id: u32,
    proposals: Vec<Proposal>,
    votes: Vec<Ballot>,
    votes_model: Ghost<Map<(u32, AccountId), bool>>,
    schedule: Vec<Bucket>,
    schedule_model: Ghost<Map<BlockNumber, Seq<u32>>>,
    events: Vec<Event>,
}

impl View for Pallet {
    type V = PalletView;

    closed spec fn view(&self) -> PalletView {
        PalletView {
            config: self.config,
            block_number: self.block_number,
            next_proposal_id: self.next_proposal_id,
            proposals: self.proposals@.map_values(|p: Proposal| p@),
            votes: self.votes_model@,
            schedule: self.schedule_model@,
            events: self.events@.map_values(|e: Event| e@),
        }
    }
}

impl Pallet {
    /// The vector of ballots and the bucket list agree with their models.
    pub closed spec fn rep_ok(&self) -> bool {
        &&& forall|i: int|
            0 <= i < self.votes@.len() ==> {
                let b = #[trigger] self.votes@[i];
                &&& self.votes_model@.contains_key((b.proposal_id, b.voter))
                &&& self.votes_model@[(b.proposal_id, b.voter)] == b.vote
            }
        &&& forall|k: (u32, AccountId)| #[trigger]
            self.votes_model@.contains_key(k) ==> exists|i: int|
                0 <= i < self.votes@.len() && #[trigger] self.votes@[i].proposal_id == k.0
                    && self.votes@[i].voter == k.1
        &&& forall|i: int|
            0 <= i < self.schedule@.len() ==> {
                let b = #[trigger] self.schedule@[i];
                &&& self.schedule_model@.contains_key(b.block)
                &&& self.schedule_model@[b.block] == b.proposal_ids@
            }
        &&& forall|h: BlockNumber| #[trigger]
            self.schedule_model@.contains_key(h) ==> exists|i: int|
                0 <= i < self.schedule@.len() && #[trigger] self.schedule@[i].block == h
        &&& forall|i: int, j: int|
            0 <= i < self.schedule@.len() && 0 <= j < self.schedule@.len() && #[trigger] self.schedule@[i].block
                == #[trigger] self.schedule@[j].block ==> i == j
    }

    /// The state is one that the operations can reach.
    pub open spec fn wf(&self) -> bool {
        self@.inv() && self.rep_ok()
    }

    /// An empty store at height zero, with the given bounds.
    pub fn new(config: Config) -> (r: Self)
        ensures
            r.wf(),
            r@.config == config,
            r@.block_number == 0,
            r@.next_proposal_id == 1,
            r@.proposals == Seq::<crate::types::ProposalView>::empty(),
            r@.votes == Map::<(u32, AccountId), bool>::empty(),
            r@.schedule == Map::<BlockNumber, Seq<u32>>::empty(),
            r@.events == Seq::<crate::types::EventView>::empty(),
    {
        let r = Pallet {
            config,
            block_number: 0,
            next_proposal_id: DefaultForNextProposalId(),
            proposals: Vec::new(),
            votes: Vec::new(),
            votes_model: Ghost(Map::empty()),
            schedule: Vec::new(),
            schedule_model: Ghost(Map::empty()),
            events: Vec::new(),
        };
        proof {
            assert(r@.proposals =~= Seq::empty());
            assert(r@.events =~= Seq::empty());
        }
        r
    }

    /// The ballot of `who` on proposal `id`, if one was cast.
    pub fn votes(&self, id: u32, who: AccountId) -> (r: Option<bool>)
        requires
            self.wf(),
        ensures
            r == (if self@.votes.contains_key((id, who)) {
                Some(self@.votes[(id, who)])
            } else {
                None::<bool>
            }),
    {
        let mut i: usize = 0;
        while i < self.votes.len()
            invariant
                i <= self.votes@.len(),
                self.rep_ok(),
                forall|j: int| 0 <= j < i ==> !(self.votes@[j].proposal_id == id && self.votes@[j].voter == who),
            decreases self.votes@.len() - i,
        {
            if self.votes[i].proposal_id == id && self.votes[i].voter == who {
                proof {
                    let b = self.votes@[i as int];
                    assert(self.votes_model@.contains_key((b.proposal_id, b.voter)));
                }
                return Some(self.votes[i].vote);
            }
            i = i + 1;
        }
        proof {
            if self.votes_model@.contains_key((id, who)) {
                let k = (id, who);
                let j = choose|j: int|
                    0 <= j < self.votes@.len() && #[trigger] self.votes@[j].proposal_id == k.0
                        && self.votes@[j].voter == k.1;
            }
        }
        None
    }

    /// The index of the bucket for height `h`, if one is stored.
    fn find_bucket(&self, h: BlockNumber) -> (r: Option<usize>)
        requires
            self.rep_ok(),
        ensures
            match r {
                Some(i) => i < self.schedule@.len() && self.schedule@[i as int].block == h
                    && self.schedule_model@.contains_key(h),
                None => !self.schedule_model@.contains_key(h),
            },
    {
        let mut i: usize = 0;
        while i < self.schedule.len()
            invariant
                i <= self.schedule@.len(),
                self.rep_ok(),
                forall|j: int| 0 <= j < i ==> self.schedule@[j].block != h,
            decreases self.schedule@.len() - i,
        {
            if self.schedule[i].block == h {
                proof {
                    let b = self.schedule@[i as int];
                    assert(self.schedule_model@.contains_key(b.block));
                }
                return Some(i);
            }
            i = i + 1;
        }
        proof {
            if self.schedule_model@.contains_key(h) {
                let j = choose|j: int| 0 <= j < self.schedule@.len() && #[trigger] self.schedule@[j].block == h;
            }
        }
        None
    }

    /// Submits a proposal by `creator` that closes `duration` heights from now
    /// (saturating at `u64::MAX`). On success the proposal is stored, the
    /// identifier counter advances, the identifier joins the bucket of its
    /// closing height and a `ProposalCreated` event is logged; on failure
    /// nothing changes.
    pub fn create_proposal(&mut self, creator: AccountId, description: Vec<u8>, duration: BlockNumber) -> (r: Result<u32, Error>)
        requires
            old(self).wf(),
        ensures
            final(self).wf(),
            final(self)@ == old(self)@.create_spec(creator, description@, duration).0,
            r == old(self)@.create_spec(creator, description@, duration).1,
    {
        if description.len() > self.config.max_description_length as usize {
            return Err(Error::DescriptionTooLong);
        }
        let id = self.next_proposal_id;
        if id == u32::MAX {
            return Err(Error::CounterOverflow);
        }
        let now = self.block_number;
        let end = now.saturating_add(duration);
        let slot = self.find_bucket(end);
        let cap = self.config.max_proposals_per_block as usize;
        match slot {
            Some(i) => {
                if self.schedule[i].proposal_ids.len() >= cap {
                    return Err(Error::TooManyProposalsInBlock);
                }
            },
            None => {
                if cap == 0 {
                    return Err(Error::TooManyProposalsInBlock);
                }
            },
        }
        let ghost s0 = self@;
        let ghost old_sched = self.schedule@;
        let ghost old_model = self.schedule_model@;
        let event_description = description.clone();
        proof {
            assert(event_description@ =~= description@);
        }
        self.proposals.push(
            Proposal {
                id,
                creator,
                description,
                begin_block: now,
                end_block: end,
                yes_votes: 0,
                no_votes: 0,
                voting_ended: false,
            },
        );
        self.next_proposal_id = id + 1;
        let ghost old_bucket = s0.bucket(end);
        match slot {
            Some(i) => {
                self.schedule[i].proposal_ids.push(id);
            },
            None => {
                self.schedule.push(Bucket { block: end, proposal_ids: vec![id] });
            },
        }
        proof {
            self.schedule_model@ = self.schedule_model@.insert(end, old_bucket.push(id));
        }
        self.events.push(
            Event::ProposalCreated {
                proposal_id: id,
                creator,
                description: event_description,
                begin_block: now,
                end_block: end,
                yes_votes: 0,
                no_votes: 0,
                voting_ended: false,
            },
        );
        proof {
            let t = s0.create_spec(creator, description@, duration).0;
            assert(self@.proposals =~= t.proposals);
            assert(self@.events =~= t.events);
            assert(self@.schedule =~= t.schedule);
            assert(self@ == t);
            s0.lemma_create_inv(creator, description@, duration);
            assert forall|j: int| 0 <= j < self.schedule@.len() implies {
                let b = #[trigger] self.schedule@[j];
                &&& self.schedule_model@.contains_key(b.block)
                &&& self.schedule_model@[b.block] == b.proposal_ids@
            } by {
                if j < old_sched.len() && !(slot == Some(j as usize)) {
                    assert(self.schedule@[j] == old_sched[j]);
                    assert(old_model.contains_key(old_sched[j].block));
                }
            };
            assert forall|h: BlockNumber| #[trigger] self.schedule_model@.contains_key(h) implies exists|i: int|
                0 <= i < self.schedule@.len() && #[trigger] self.schedule@[i].block == h by {
                if h == end {
                    match slot {
                        Some(i) => assert(self.schedule@[i as int].block == h),
                        None => assert(self.schedule@[old_sched.len() as int].block == h),
                    }
                } else {
                    let i = choose|i: int| 0 <= i < old_sched.len() && #[trigger] old_sched[i].block == h;
                    assert(self.schedule@[i].block == h);
                }
            };
            assert forall|i: int, j: int|
                0 <= i < self.schedule@.len() && 0 <= j < self.schedule@.len() && #[trigger] self.schedule@[i].block
                    == #[trigger] self.schedule@[j].block implies i == j by {
                if i < old_sched.len() {
                    assert(old_model.contains_key(old_sched[i].block));
                    assert(self.schedule@[i].block == old_sched[i].block);
                }
                if j < old_sched.len() {
                    assert(old_model.contains_key(old_sched[j].block));
                    assert(self.schedule@[j].block == old_sched[j].block);
                }
            };
            assert(self.rep_ok());
        }
        Ok(id)
    }

    /// Records `who`'s ballot on proposal `proposal_id`. Voting stays open up
    /// to and including the proposal's closing height. On success exactly one
    /// tally grows by one, the ballot is stored and a `VoteCast` event is
    /// logged; on failure nothing changes.
    #[verifier::spinoff_prover]
    pub fn vote(&mut self, who: AccountId, proposal_id: u32, vote: bool) -> (r: Result<(), Error>)
        requires
            old(self).wf(),
        ensures
            final(self).wf(),
            final(self)@ == old(self)@.vote_spec(who, proposal_id, vote).0,
            r == old(self)@.vote_spec(who, proposal_id, vote).1,
    {
        if proposal_id == 0 || proposal_id as usize > self.proposals.len() {
            return Err(Error::ProposalNotFound);
        }
        let idx = (proposal_id - 1) as usize;
        assert(self@.proposals[idx as int] == self.proposals@[idx as int]@);
        if self.block_number > self.proposals[idx].end_block {
            return Err(Error::VotingPeriodEnded);
        }
        if self.votes(proposal_id, who).is_some() {
            return Err(Error::AlreadyVoted);
        }
        let ghost s0 = self@;
        let ghost old_votes = self.votes@;
        let yes = self.proposals[idx].yes_votes;
        let no = self.proposals[idx].no_votes;
        if vote {
            if yes == u32::MAX {
                return Err(Error::CounterOverflow);
            }
            self.proposals[idx].yes_votes = yes + 1;
        } else {
            if no == u32::MAX {
                return Err(Error::CounterOverflow);
            }
            self.proposals[idx].no_votes = no + 1;
        }
        self.votes.push(Ballot { proposal_id, voter: who, vote });
        proof {
            self.votes_model@ = self.votes_model@.insert((proposal_id, who), vote);
        }
        self.events.push(Event::VoteCast(proposal_id, who, vote));
        proof {
            let t = s0.vote_spec(who, proposal_id, vote).0;
            assert(self@.proposals =~= t.proposals);
            assert(self@.events =~= t.events);
            assert(self@ == t);
            s0.lemma_vote_inv(who, proposal_id, vote);
            assert forall|i: int| 0 <= i < self.votes@.len() implies {
                let b = #[trigger] self.votes@[i];
                &&& self.votes_model@.contains_key((b.proposal_id, b.voter))
                &&& self.votes_model@[(b.proposal_id, b.voter)] == b.vote
            } by {
                if i < old_votes.len() {
                    assert(self.votes@[i] == old_votes[i]);
                    assert(s0.votes.contains_key((old_votes[i].proposal_id, old_votes[i].voter)));
                }
            };
            assert forall|k: (u32, AccountId)| #[trigger] self.votes_model@.contains_key(k) implies exists|i: int|
                0 <= i < self.votes@.len() && #[trigger] self.votes@[i].proposal_id == k.0
                    && self.votes@[i].voter == k.1 by {
                if k == (proposal_id, who) {
                    assert(self.votes@[old_votes.len() as int].proposal_id == k.0);
                } else {
                    let i = choose|i: int|
                        0 <= i < old_votes.len() && #[trigger] old_votes[i].proposal_id == k.0
                            && old_votes[i].voter == k.1;
                    assert(self.votes@[i].proposal_id == k.0);
                }
            };
            assert(self.schedule@ == old(self).schedule@);
            assert(self.schedule_model@ == old(self).schedule_model@);
            assert(self.rep_ok());
        }
        Ok(())
    }

    /// Settles proposal `id` if it exists and is still open.
    fn settle(&mut self, id: u32)
        requires
            old(self).wf(),
        ensures
            final(self).wf(),
            final(self)@ == old(self)@.settle_one(id),
            final(self).schedule@ == old(self).schedule@,
    {
        proof {
            self@.lemma_settle_one_inv(id);
        }
        if id >= 1 && id as usize <= self.proposals.len() {
            let idx = (id - 1) as usize;
            assert(self@.proposals[idx as int] == self.proposals@[idx as int]@);
            if !self.proposals[idx].voting_ended {
                let ghost s0 = self@;
                let approved = self.proposals[idx].yes_votes > self.proposals[idx].no_votes;
                self.proposals[idx].voting_ended = true;
                self.events.push(Event::ProposalFinalized(id, approved));
                proof {
                    let t = s0.settle_one(id);
                    assert(self@.proposals =~= t.proposals);
                    assert(self@.events =~= t.events);
                }
            }
        }
        assert(self.schedule@ == old(self).schedule@);
        assert(self.votes@ == old(self).votes@);
    }

    /// The per-height pass for height `now`: every still-open proposal of the
    /// bucket at `now` is settled in bucket order (approved on a strict
    /// majority of yes votes, a tie rejects) and logged with a
    /// `ProposalFinalized` event; then the bucket is removed. It never fails.
    pub fn block_actions(&mut self, now: BlockNumber) -> (r: Result<(), Error>)
        requires
            old(self).wf(),
        ensures
            final(self).wf(),
            final(self)@ == old(self)@.settle_spec(now),
            r is Ok,
    {
        let ghost s0 = self@;
        proof {
            s0.lemma_settle_inv(now);
            s0.lemma_settle_prefix(s0.bucket(now), s0.bucket(now).len() as int);
        }
        match self.find_bucket(now) {
            None => {
                assert(s0.schedule.remove(now) =~= s0.schedule);
                assert(self@ == s0.settle_spec(now));
            },
            Some(i) => {
                let ids = self.schedule[i].proposal_ids.clone();
                proof {
                    assert(ids@ =~= self.schedule@[i as int].proposal_ids@);
                }
                let ghost sched0 = self.schedule@;
                let ghost model0 = self.schedule_model@;
                let mut k: usize = 0;
                while k < ids.len()
                    invariant
                        k <= ids@.len(),
                        ids@ == s0.bucket(now),
                        self.wf(),
                        self@ == s0.settle_prefix(ids@, k as int),
                        self.schedule@ == sched0,
                        self.schedule_model@ == model0,
                        i < sched0.len(),
                        sched0[i as int].block == now,
                        model0 == s0.schedule,
                        s0.inv(),
                    decreases ids@.len() - k,
                {
                    proof {
                        s0.lemma_settle_prefix(ids@, k as int + 1);
                    }
                    self.settle(ids[k]);
                    k = k + 1;
                }
                let ghost s1 = self@;
                let ghost votes1 = self.votes@;
                self.schedule.remove(i);
                proof {
                    self.schedule_model@ = self.schedule_model@.remove(now);
                    assert(self@.schedule =~= s0.settle_spec(now).schedule);
                    assert(self@.proposals == s1.proposals);
                    assert(self@ == s0.settle_spec(now));
                    assert forall|j: int| 0 <= j < self.schedule@.len() implies {
                        let b = #[trigger] self.schedule@[j];
                        &&& self.schedule_model@.contains_key(b.block)
                        &&& self.schedule_model@[b.block] == b.proposal_ids@
                    } by {
                        let jj = if j < i { j } else { j + 1 };
                        assert(self.schedule@[j] == sched0[jj]);
                        assert(model0.contains_key(sched0[jj].block));
                    };
                    assert forall|h: BlockNumber| #[trigger] self.schedule_model@.contains_key(h) implies exists|j: int|
                        0 <= j < self.schedule@.len() && #[trigger] self.schedule@[j].block == h by {
                        let jj = choose|jj: int| 0 <= jj < sched0.len() && #[trigger] sched0[jj].block == h;
                        if jj < i {
                            assert(self.schedule@[jj].block == h);
                        } else {
                            assert(self.schedule@[jj - 1].block == h);
                        }
                    };
                    assert forall|a: int, b: int|
                        0 <= a < self.schedule@.len() && 0 <= b < self.schedule@.len() && #[trigger] self.schedule@[a].block
                            == #[trigger] self.schedule@[b].block implies a == b by {
                        let aa = if a < i { a } else { a + 1 };
                        let bb = if b < i { b } else { b + 1 };
                        assert(self.schedule@[a] == sched0[aa]);
                        assert(self.schedule@[b] == sched0[bb]);
                    };
                    assert(self.votes@ == votes1);
                    assert(self.rep_ok());
                }
            },
        }
        Ok(())
    }

    /// The hook run once per height advance: settles what expires at `now`.
    pub fn on_initialize(&mut self, now: BlockNumber)
        requires
            old(self).wf(),
        ensures
            final(self).wf(),
            final(self)@ == old(self)@.settle_spec(now),
    {
        let _ = self.block_actions(now);
    }

    /// The bounds this store was created with.
    pub fn config(&self) -> (r: Config)
        ensures
            r == self@.config,
    {
        self.config
    }

    /// The current logical height.
    pub fn block_number(&self) -> (r: BlockNumber)
        ensures
            r == self@.block_number,
    {
        self.block_number
    }

    /// Moves the logical clock to height `n`.
    pub fn set_block_number(&mut self, n: BlockNumber)
        requires
            old(self).wf(),
        ensures
            final(self).wf(),
            final(self)@ == old(self)@.with_block(n),
    {
        proof {
            self@.lemma_with_block_inv(n);
        }
        self.block_number = n;
        assert(self@ == old(self)@.with_block(n));
        assert(self.schedule@ == old(self).schedule@);
        assert(self.votes@ == old(self).votes@);
    }

    /// The identifier the next proposal will get.
    pub fn next_proposal_id(&self) -> (r: u32)
        ensures
            r == self@.next_proposal_id,
    {
        self.next_proposal_id
    }

    /// The proposal with identifier `id`, if one was created.
    pub fn proposals(&self, id: u32) -> (r: Option<&Proposal>)
        requires
            self.wf(),
        ensures
            match r {
                Some(p) => self@.proposal(id) == Some(p@),
                None => self@.proposal(id) is None,
            },
    {
        if id >= 1 && id as usize <= self.proposals.len() {
            Some(&self.proposals[(id - 1) as usize])
        } else {
            None
        }
    }

    /// The identifiers that expire at height `h`, in the order they were scheduled.
    pub fn proposals_to_finalize(&self, h: BlockNumber) -> (r: Vec<u32>)
        requires
            self.wf(),
        ensures
            r@ == self@.bucket(h),
    {
        match self.find_bucket(h) {
            Some(i) => {
                let r = self.schedule[i].proposal_ids.clone();
                assert(r@ =~= self.schedule@[i as int].proposal_ids@);
                r
            },
            None => Vec::new(),
        }
    }

    /// The event log, oldest first.
    pub fn events(&self) -> (r: &Vec<Event>)
        ensures
            r@.map_values(|e: Event| e@) == self@.events,
    {
        &self.events
    }
}

} // verus!
