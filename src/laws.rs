use vstd::prelude::*;
use crate::model::{finalized_count, Op, PalletView, saturating_add_spec};
use crate::types::{AccountId, BlockNumber, Error};

verus! {

/// One operation keeps the invariant and undoes nothing.
pub proof fn lemma_step(s: PalletView, op: Op)
    requires
        s.inv(),
    ensures
        s.step(op).inv(),
        s.evolves_to(s.step(op)),
{
    match op {
        Op::Create { creator, description, duration } => {
            s.lemma_create_inv(creator, description, duration);
            let t = s.step(op);
            assert forall|i: int| 0 <= i < s.proposals.len() implies {
                &&& #[trigger] t.proposals[i].end_block == s.proposals[i].end_block
                &&& (s.proposals[i].voting_ended ==> t.proposals[i].voting_ended)
            } by {
                if s.create_spec(creator, description, duration).1 is Ok {
                    assert(t.proposals[i] == s.proposals[i]);
                }
            };
        },
        Op::Vote { who, id, vote } => {
            s.lemma_vote_inv(who, id, vote);
        },
        Op::Advance { now } => {
            s.lemma_settle_inv(now);
            let ids = s.bucket(now);
            s.lemma_settle_prefix(ids, ids.len() as int);
        },
        Op::SetBlock { n } => {
            s.lemma_with_block_inv(n);
        },
    }
}

/// Any sequence of operations keeps the invariant and undoes nothing.
pub proof fn lemma_run(s: PalletView, ops: Seq<Op>)
    requires
        s.inv(),
    ensures
        s.run(ops).inv(),
        s.evolves_to(s.run(ops)),
    decreases ops.len(),
{
    if ops.len() > 0 {
        lemma_run(s, ops.drop_last());
        let t = s.run(ops.drop_last());
        lemma_step(t, ops.last());
        t.lemma_evolves_to_trans(s, t.step(ops.last()));
    }
}

/// Identifiers of successful creations strictly increase: whatever happens
/// between two successful `create_proposal` calls, the later one returns a
/// larger identifier, so no identifier is ever handed out twice.
pub proof fn lemma_ids_strictly_increase(
    s: PalletView,
    c1: AccountId,
    d1: Seq<u8>,
    u1: BlockNumber,
    ops: Seq<Op>,
    c2: AccountId,
    d2: Seq<u8>,
    u2: BlockNumber,
)
    requires
        s.inv(),
        s.create_spec(c1, d1, u1).1 is Ok,
        s.create_spec(c1, d1, u1).0.run(ops).create_spec(c2, d2, u2).1 is Ok,
    ensures
        s.create_spec(c1, d1, u1).1->Ok_0 < s.create_spec(c1, d1, u1).0.run(ops).create_spec(c2, d2, u2).1->Ok_0,
{
    s.lemma_create_inv(c1, d1, u1);
    lemma_run(s.create_spec(c1, d1, u1).0, ops);
}

/// A description longer than the configured maximum is rejected with
/// `DescriptionTooLong`, and the state, counter included, is unchanged.
pub proof fn lemma_long_description_rejected(s: PalletView, creator: AccountId, description: Seq<u8>, duration: BlockNumber)
    requires
        description.len() > s.config.max_description_length,
    ensures
        s.create_spec(creator, description, duration) == (s, Err::<u32, Error>(Error::DescriptionTooLong)),
{
}

/// Once `who` has voted on proposal `id`, every later vote of `who` on it
/// fails and changes nothing, whatever happened in between; while the
/// voting window is open the failure is `AlreadyVoted`.
pub proof fn lemma_one_vote_per_voter(
    s: PalletView,
    who: AccountId,
    id: u32,
    v1: bool,
    ops: Seq<Op>,
    v2: bool,
)
    requires
        s.inv(),
        s.vote_spec(who, id, v1).1 is Ok,
    ensures
        ({
            let t = s.vote_spec(who, id, v1).0.run(ops);
            &&& t.vote_spec(who, id, v2).1 is Err
            &&& t.vote_spec(who, id, v2).0 == t
            &&& t.block_number <= s.proposal(id)->Some_0.end_block ==> t.vote_spec(who, id, v2).1 == Err::<(), Error>(Error::AlreadyVoted)
        }),
{
    let s1 = s.vote_spec(who, id, v1).0;
    s.lemma_vote_inv(who, id, v1);
    lemma_run(s1, ops);
    let t = s1.run(ops);
    assert(s1.votes.contains_key((id, who)));
    assert(t.votes.contains_key((id, who)));
    assert(t.proposals[id - 1].end_block == s1.proposals[id - 1].end_block);
}

/// Voting is open up to and including the closing height: a first ballot
/// that fits the tally is accepted at `end_block`, and any ballot is
/// refused with `VotingPeriodEnded` one height later.
pub proof fn lemma_vote_height_boundary(s: PalletView, who: AccountId, id: u32, vote: bool)
    requires
        s.proposal(id) is Some,
    ensures
        ({
            let p = s.proposal(id)->Some_0;
            &&& (s.block_number == p.end_block && !s.votes.contains_key((id, who)) && (if vote {
                p.yes_votes < u32::MAX
            } else {
                p.no_votes < u32::MAX
            })) ==> s.vote_spec(who, id, vote).1 is Ok
            &&& s.block_number == p.end_block + 1 ==> s.vote_spec(who, id, vote).1 == Err::<(), Error>(Error::VotingPeriodEnded)
        }),
{
}

/// Running the height-advance pass twice for one height leaves the state
/// the first run left: the second run does nothing.
pub proof fn lemma_settlement_idempotent(s: PalletView, h: BlockNumber)
    ensures
        s.settle_spec(h).settle_spec(h) == s.settle_spec(h),
{
    let t = s.settle_spec(h);
    assert(t.bucket(h) =~= Seq::<u32>::empty());
    assert(t.schedule.remove(h) =~= t.schedule);
}

/// Every proposal is settled at most once and logged once: after any
/// sequence of operations, each proposal's `ProposalFinalized` count is one
/// if it is settled and zero if not, no other identifier has one, and a
/// settled proposal never reopens.
pub proof fn lemma_finalization_exactly_once(s: PalletView, ops: Seq<Op>)
    requires
        s.inv(),
    ensures
        ({
            let t = s.run(ops);
            &&& forall|i: int|
                0 <= i < t.proposals.len() ==> finalized_count(t.events, t.proposals[i].id) == if #[trigger] t.proposals[i].voting_ended {
                    1nat
                } else {
                    0nat
                }
            &&& forall|id: u32| #[trigger] finalized_count(t.events, id) <= 1
            &&& forall|i: int|
                0 <= i < s.proposals.len() && #[trigger] s.proposals[i].voting_ended ==> t.proposals[i].voting_ended
        }),
{
    lemma_run(s, ops);
    let t = s.run(ops);
    assert forall|id: u32| #[trigger] finalized_count(t.events, id) <= 1 by {
        if 1 <= id < t.next_proposal_id {
            assert(t.proposals[id - 1].id == id);
        }
    };
    assert forall|i: int| 0 <= i < s.proposals.len() && #[trigger] s.proposals[i].voting_ended implies t.proposals[i].voting_ended by {
        assert(t.proposals[i].end_block == s.proposals[i].end_block);
    };
}

/// A submission whose closing height already holds as many proposals as
/// the configured capacity is rejected with `TooManyProposalsInBlock`, and
/// leaves no proposal, counter step or bucket entry behind.
pub proof fn lemma_capacity_enforced(s: PalletView, creator: AccountId, description: Seq<u8>, duration: BlockNumber)
    requires
        description.len() <= s.config.max_description_length,
        s.next_proposal_id < u32::MAX,
        s.bucket(saturating_add_spec(s.block_number, duration)).len() >= s.config.max_proposals_per_block,
    ensures
        s.create_spec(creator, description, duration) == (s, Err::<u32, Error>(Error::TooManyProposalsInBlock)),
{
}

} // verus!
