//! What holds of the engine's answers.

use vstd::prelude::*;
use crate::consensus::{
    response, signed, super_majority_claim, values, with_vote, witnessed, witnesses_for,
    VoteResponseView,
};
use crate::error::Error;
use crate::tally::{
    lemma_tally_grows, split_vote, super_majorities, super_majority,
    super_majority_over_super_majorities, tally,
};
use crate::vote::{
    proposal_list_of, proposals_of, simplified, unpack_of, BallotView, Generation, NodeId,
    SignedVoteView, VoteView, WitnessView,
};
use crate::log_laws::{lemma_settled_log_stays, settled};
use crate::vote_laws::{
    lemma_simplified_keeps_meaning, lemma_unpack_of_finite, lemma_with_proposals_of,
};

verus! {

/// The log gives member `id` no cause to act: on a split vote its own vote already holds
/// what a merge would, no supermajority over supermajorities shows, on a supermajority it
/// has claimed one already, and otherwise it has voted.
pub open spec fn at_rest(
    secret: Seq<u8>,
    id: NodeId,
    n_elders: nat,
    threshold: nat,
    log: Map<NodeId, SignedVoteView>,
    gen: Generation,
) -> bool {
    let votes = values(log).to_set();
    if split_vote(votes, n_elders, threshold) {
        let merge = VoteView { gen, ballot: BallotView::Merge(simplified(values(log))) };
        signed(secret, id, merge) matches Ok(v) && log.contains_key(id) && log[id].proposals()
            == v.proposals()
    } else if super_majority_over_super_majorities(votes, threshold) {
        false
    } else if super_majority(votes, threshold) {
        log.contains_key(id) && log[id].vote.ballot is SuperMajority
    } else {
        log.contains_key(id)
    }
}

/// Delivering a vote again is idle: where the log is settled for the vote and gives the
/// member no cause to act, handling it leaves the log as it is and returns waiting.
pub proof fn lemma_redelivery_is_idle(
    secret: Seq<u8>,
    id: NodeId,
    n_elders: nat,
    threshold: nat,
    log: Map<NodeId, SignedVoteView>,
    incoming: SignedVoteView,
    gen: Generation,
)
    requires
        settled(log, incoming),
        at_rest(secret, id, n_elders, threshold, log, gen),
    ensures
        response(secret, id, n_elders, threshold, with_vote(log, incoming), incoming.vote, gen)
            == (Ok::<VoteResponseView, Error>(VoteResponseView::WaitingForMoreVotes), log),
{
    lemma_settled_log_stays(log, incoming);
}

/// The witnesses that are made for a list of propositions speak for these propositions,
/// one by one.
pub proof fn lemma_witnesses_for(
    secret: Seq<u8>,
    id: NodeId,
    propositions: Seq<Seq<u8>>,
    ws: Seq<WitnessView>,
)
    requires
        witnesses_for(secret, id, propositions) == Ok::<Seq<WitnessView>, Error>(ws),
    ensures
        ws.len() == propositions.len(),
        forall|i: int|
            0 <= i < ws.len() ==> (#[trigger] ws[i]).proposal == propositions[i] && ws[i].signer
                == id,
        witnessed(ws) == propositions.to_set(),
    decreases propositions.len(),
{
    if propositions.len() > 0 {
        let before = witnesses_for(secret, id, propositions.drop_last())->Ok_0;
        lemma_witnesses_for(secret, id, propositions.drop_last(), before);
    }
    assert forall|p: Seq<u8>| witnessed(ws).contains(p) == propositions.to_set().contains(p) by {
        if propositions.contains(p) {
            let i = choose|i: int| 0 <= i < propositions.len() && propositions[i] == p;
            assert(ws[i].proposal == p);
        }
    }
}

/// A supermajority claim that a member makes where its log shows a supermajority, or a
/// supermajority over supermajorities, is in order: it witnesses exactly the
/// propositions of its votes, and its votes unpacked hold a supermajority.
pub proof fn lemma_claim_is_substantiated(
    secret: Seq<u8>,
    id: NodeId,
    log: Map<NodeId, SignedVoteView>,
    gen: Generation,
    threshold: nat,
    v: SignedVoteView,
)
    requires
        super_majority_claim(secret, id, log, gen) == Ok::<SignedVoteView, Error>(v),
        super_majority(values(log).to_set(), threshold) || super_majority_over_super_majorities(
            values(log).to_set(),
            threshold,
        ),
    ensures
        v.voter == id,
        v.vote.gen == gen,
        v.vote.ballot matches BallotView::SuperMajority { votes, proposals } && witnessed(
            proposals,
        ) == proposals_of(votes) && super_majority(unpack_of(votes), threshold),
{
    let logged = values(log);
    let proposals = witnesses_for(secret, id, proposal_list_of(logged))->Ok_0;
    lemma_witnesses_for(secret, id, proposal_list_of(logged), proposals);
    lemma_with_proposals_of(Seq::empty(), logged);
    lemma_simplified_keeps_meaning(logged);
    lemma_unpack_of_finite(logged);
    assert forall|u: SignedVoteView| logged.to_set().contains(u) implies unpack_of(
        logged,
    ).contains(u) by {}
    if super_majority(logged.to_set(), threshold) {
        let p = choose|p: Set<Seq<u8>>| tally(logged.to_set(), p) > threshold;
        lemma_tally_grows(logged.to_set(), unpack_of(logged), p);
    } else {
        let claims = super_majorities(logged.to_set());
        let p = choose|p: Set<Seq<u8>>| tally(claims, p) > threshold;
        lemma_tally_grows(claims, unpack_of(logged), p);
    }
}

/// What a decision rests on: the log with the incoming vote shows a supermajority over
/// supermajorities and no split vote, the log is left as it is, and the deciding vote is
/// the member's supermajority claim, which holds the propositions of all logged votes.
pub proof fn lemma_decision(
    secret: Seq<u8>,
    id: NodeId,
    n_elders: nat,
    threshold: nat,
    log: Map<NodeId, SignedVoteView>,
    incoming: VoteView,
    gen: Generation,
    v: SignedVoteView,
)
    requires
        response(secret, id, n_elders, threshold, log, incoming, gen).0 == Ok::<
            VoteResponseView,
            Error,
        >(VoteResponseView::Decided(v)),
    ensures
        super_majority_over_super_majorities(values(log).to_set(), threshold),
        !split_vote(values(log).to_set(), n_elders, threshold),
        response(secret, id, n_elders, threshold, log, incoming, gen).1 == log,
        super_majority_claim(secret, id, log, gen) == Ok::<SignedVoteView, Error>(v),
        v.proposals() == proposals_of(values(log)),
{
    lemma_simplified_keeps_meaning(values(log));
}


/// Two members that decide over the same log decide on the same propositions, whatever
/// their keys and whatever vote reached them last.
pub proof fn lemma_decisions_over_one_log_agree(
    secret_a: Seq<u8>,
    id_a: NodeId,
    incoming_a: VoteView,
    a: SignedVoteView,
    secret_b: Seq<u8>,
    id_b: NodeId,
    incoming_b: VoteView,
    b: SignedVoteView,
    n_elders: nat,
    threshold: nat,
    log: Map<NodeId, SignedVoteView>,
    gen: Generation,
)
    requires
        response(secret_a, id_a, n_elders, threshold, log, incoming_a, gen).0 == Ok::<
            VoteResponseView,
            Error,
        >(VoteResponseView::Decided(a)),
        response(secret_b, id_b, n_elders, threshold, log, incoming_b, gen).0 == Ok::<
            VoteResponseView,
            Error,
        >(VoteResponseView::Decided(b)),
    ensures
        a.proposals() == b.proposals(),
{
    lemma_decision(secret_a, id_a, n_elders, threshold, log, incoming_a, gen, a);
    lemma_decision(secret_b, id_b, n_elders, threshold, log, incoming_b, gen, b);
}

} // verus!
