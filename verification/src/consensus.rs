//! The vote engine of one committee member, for one generation.

use std::collections::BTreeMap;
use vstd::prelude::*;
use crate::bytes::{add_unique, bytes_copy, distinct, items, listed, same_set};
use crate::encoding::{bincode_encoding, message};
use crate::error::Error;
use crate::keys::{
    member_key, member_key_bytes, share_signature, share_verifies, sign_share, verify_share,
    Committee,
};
use crate::tally::{
    count_voters, count_votes, counted, counts_match, lemma_listed_finite, lemma_most_votes,
    most_votes, only_super_majorities, split_vote, super_majority,
    super_majority_over_super_majorities, total, vote_counts, VoteCount,
};
use crate::vote::{
    add_proposals_of, listed_votes, proposal_list_of, proposals_of, simplified, simplify_votes,
    unpack_all, unpack_of, votes_view, witnesses_view, Ballot, BallotView, Generation, NodeId,
    SignedVote, SignedVoteView, Vote, VoteView, Witness, WitnessView,
};

verus! {

/// What one member knows of a generation.
pub struct Consensus {
    /// The committee's public key set and threshold.
    pub elders: Committee,
    /// The size of the committee.
    pub n_elders: usize,
    /// This member's identity and the bytes of its secret key share.
    pub secret_key: (NodeId, Vec<u8>),
    /// For each voter that has one, its most advanced vote so far.
    pub votes: BTreeMap<NodeId, SignedVote>,
}

/// What the transport is to do after a vote was handled.
#[derive(Debug)]
pub enum VoteResponse {
    /// Nothing: the log gives no cause to act.
    WaitingForMoreVotes,
    /// Send this member's new vote to every member.
    Broadcast(SignedVote),
    /// Send this vote to every member: it decides the generation.
    Decided(SignedVote),
}

/// A response with its votes as views.
pub enum VoteResponseView {
    WaitingForMoreVotes,
    Broadcast(SignedVoteView),
    Decided(SignedVoteView),
}

impl View for VoteResponse {
    type V = VoteResponseView;

    open spec fn view(&self) -> VoteResponseView {
        match self {
            VoteResponse::WaitingForMoreVotes => VoteResponseView::WaitingForMoreVotes,
            VoteResponse::Broadcast(v) => VoteResponseView::Broadcast(v@),
            VoteResponse::Decided(v) => VoteResponseView::Decided(v@),
        }
    }
}

/// A result of the engine, with the response as its view.
pub open spec fn outcome(r: Result<VoteResponse, Error>) -> Result<VoteResponseView, Error> {
    match r {
        Ok(response) => Ok(response@),
        Err(e) => Err(e),
    }
}

/// The signature share of the key share `secret` over a payload, or why there is none.
pub open spec fn signature_for(secret: Seq<u8>, payload: Seq<u8>) -> Result<Seq<u8>, Error> {
    match bincode_encoding(payload) {
        None => Err(Error::Encoding),
        Some(msg) => match share_signature(secret, msg) {
            None => Err(Error::Signing),
            Some(sig) => Ok(sig),
        },
    }
}

/// Whether `sig` is the signature share of member `elder` over a payload.
pub open spec fn signature_check(key_set: Seq<u8>, payload: Seq<u8>, elder: NodeId, sig: Seq<u8>)
    -> Result<(), Error> {
    match bincode_encoding(payload) {
        None => Err(Error::Encoding),
        Some(msg) => match member_key(key_set, elder as u64) {
            None => Err(Error::InvalidSignature),
            Some(key) => if share_verifies(key, sig, msg) {
                Ok(())
            } else {
                Err(Error::InvalidSignature)
            },
        },
    }
}

/// The vote as member `id` signs it with the key share `secret`.
pub open spec fn signed(secret: Seq<u8>, id: NodeId, vote: VoteView) -> Result<
    SignedVoteView,
    Error,
> {
    match signature_for(secret, vote.encoding()) {
        Ok(sig) => Ok(SignedVoteView { voter: id, sig, vote }),
        Err(e) => Err(e),
    }
}

/// The log once the vote itself is taken in: it becomes its voter's entry unless the
/// voter has an entry that the vote does not supersede.
pub open spec fn with_entry(log: Map<NodeId, SignedVoteView>, v: SignedVoteView) -> Map<
    NodeId,
    SignedVoteView,
> {
    if log.contains_key(v.voter) && !v.supersedes(log[v.voter]) {
        log
    } else {
        log.insert(v.voter, v)
    }
}

/// The log once the vote and then, in their order, the votes it carries are taken in.
pub open spec fn with_vote(log: Map<NodeId, SignedVoteView>, v: SignedVoteView) -> Map<
    NodeId,
    SignedVoteView,
>
    decreases v,
{
    match v.vote.ballot {
        BallotView::Propose(_) => with_entry(log, v),
        BallotView::Merge(votes) => with_votes(with_entry(log, v), votes),
        BallotView::SuperMajority { votes, .. } => with_votes(with_entry(log, v), votes),
    }
}

/// The log once the votes of the list are taken in, one after the other.
pub open spec fn with_votes(log: Map<NodeId, SignedVoteView>, votes: Seq<SignedVoteView>) -> Map<
    NodeId,
    SignedVoteView,
>
    decreases votes,
{
    if votes.len() == 0 {
        log
    } else {
        with_vote(with_votes(log, votes.drop_last()), votes.last())
    }
}

/// The entries of the members with an id below `k`, by id.
pub open spec fn values_below(log: Map<NodeId, SignedVoteView>, k: nat) -> Seq<SignedVoteView>
    decreases k,
{
    if k == 0 {
        Seq::empty()
    } else {
        let before = values_below(log, (k - 1) as nat);
        if k <= 256 && log.contains_key((k - 1) as u8) {
            before.push(log[(k - 1) as u8])
        } else {
            before
        }
    }
}

/// The logged votes, by voter.
pub open spec fn values(log: Map<NodeId, SignedVoteView>) -> Seq<SignedVoteView> {
    values_below(log, 256)
}

/// The propositions that the witnesses speak for.
pub open spec fn witnessed(ws: Seq<WitnessView>) -> Set<Seq<u8>> {
    Set::new(|p: Seq<u8>| exists|i: int| 0 <= i < ws.len() && (#[trigger] ws[i]).proposal == p)
}

/// Every witness holds its signer's signature share over its proposition.
pub open spec fn witnesses_verify(key_set: Seq<u8>, ws: Seq<WitnessView>) -> bool {
    forall|i: int|
        0 <= i < ws.len() ==> signature_check(
            key_set,
            (#[trigger] ws[i]).proposal,
            ws[i].signer,
            ws[i].sig,
        ) is Ok
}

/// The equivocation guard: a vote is refused where its voter has a logged vote and
/// neither supersedes the other.
pub open spec fn conflict_check(log: Map<NodeId, SignedVoteView>, v: SignedVoteView) -> Result<
    (),
    Error,
> {
    if log.contains_key(v.voter) && !v.supersedes(log[v.voter]) && !log[v.voter].supersedes(v) {
        Err(Error::ConflictingVote)
    } else {
        Ok(())
    }
}

/// The outcome of validating a signed vote against a committee and a log: `Ok`, or the
/// first violation in the order of the checks. The signature comes first, then the
/// ballot with the votes it carries, then the equivocation guard.
pub open spec fn validation(
    key_set: Seq<u8>,
    threshold: nat,
    log: Map<NodeId, SignedVoteView>,
    v: SignedVoteView,
) -> Result<(), Error>
    decreases v,
{
    match signature_check(key_set, v.vote.encoding(), v.voter, v.sig) {
        Err(e) => Err(e),
        Ok(_) => match vote_validation(key_set, threshold, log, v.vote) {
            Err(e) => Err(e),
            Ok(_) => conflict_check(log, v),
        },
    }
}

/// The outcome of validating a ballot. A proposal is always in order. The votes of a
/// merge are checked one by one. A supermajority must witness exactly the propositions
/// of its votes, these votes unpacked must hold a supermajority, every witness must
/// verify, and then its votes are checked one by one.
pub open spec fn vote_validation(
    key_set: Seq<u8>,
    threshold: nat,
    log: Map<NodeId, SignedVoteView>,
    vote: VoteView,
) -> Result<(), Error>
    decreases vote,
{
    match vote.ballot {
        BallotView::Propose(_) => Ok(()),
        BallotView::Merge(votes) => children_validation(key_set, threshold, log, vote.gen, votes),
        BallotView::SuperMajority { votes, proposals } => {
            if witnessed(proposals) != proposals_of(votes) {
                Err(Error::ProposalSetMismatch)
            } else if !super_majority(unpack_of(votes), threshold) {
                Err(Error::SuperMajorityClaimUnsubstantiated)
            } else if !witnesses_verify(key_set, proposals) {
                Err(Error::InvalidSignature)
            } else {
                children_validation(key_set, threshold, log, vote.gen, votes)
            }
        },
    }
}

/// The outcome of validating the votes that a ballot of generation `gen` carries, in
/// their order: each must be of that generation and valid itself.
pub open spec fn children_validation(
    key_set: Seq<u8>,
    threshold: nat,
    log: Map<NodeId, SignedVoteView>,
    gen: Generation,
    votes: Seq<SignedVoteView>,
) -> Result<(), Error>
    decreases votes,
{
    if votes.len() == 0 {
        Ok(())
    } else if votes[0].vote.gen != gen {
        Err(Error::GenerationMismatch { child_gen: votes[0].vote.gen, merge_gen: gen })
    } else {
        match validation(key_set, threshold, log, votes[0]) {
            Err(e) => Err(e),
            Ok(_) => children_validation(key_set, threshold, log, gen, votes.skip(1)),
        }
    }
}

/// Member `id`'s witnesses for the propositions, in their order: each proposition with
/// the signature share of the key share `secret` over it; or the first error of signing.
pub open spec fn witnesses_for(secret: Seq<u8>, id: NodeId, propositions: Seq<Seq<u8>>) -> Result<
    Seq<WitnessView>,
    Error,
>
    decreases propositions.len(),
{
    if propositions.len() == 0 {
        Ok(Seq::empty())
    } else {
        match witnesses_for(secret, id, propositions.drop_last()) {
            Err(e) => Err(e),
            Ok(ws) => match signature_for(secret, propositions.last()) {
                Err(e) => Err(e),
                Ok(sig) => Ok(
                    ws.push(WitnessView { proposal: propositions.last(), signer: id, sig }),
                ),
            },
        }
    }
}

/// Member `id`'s supermajority claim over a log, signed: it carries the logged votes in
/// their simplest form and a witness for each of their propositions; or the first error
/// of signing.
pub open spec fn super_majority_claim(
    secret: Seq<u8>,
    id: NodeId,
    log: Map<NodeId, SignedVoteView>,
    gen: Generation,
) -> Result<SignedVoteView, Error> {
    match witnesses_for(secret, id, proposal_list_of(values(log))) {
        Err(e) => Err(e),
        Ok(proposals) => signed(
            secret,
            id,
            VoteView {
                gen,
                ballot: BallotView::SuperMajority { votes: simplified(values(log)), proposals },
            },
        ),
    }
}

/// What becomes of a vote that the member wants to broadcast: it is logged and sent, or
/// the error of signing it is returned and the log stays.
pub open spec fn broadcast(log: Map<NodeId, SignedVoteView>, vote: Result<SignedVoteView, Error>)
    -> (Result<VoteResponseView, Error>, Map<NodeId, SignedVoteView>) {
    match vote {
        Ok(v) => (Ok(VoteResponseView::Broadcast(v)), with_vote(log, v)),
        Err(e) => (Err(e), log),
    }
}

/// What handling a vote comes to, for member `id` of a committee of `n_elders` with the
/// given threshold: the result, and the log that is left. `log` is the log with the
/// incoming vote taken in.
///
/// In this order: on a split vote the member merges all logged votes, and broadcasts the
/// merge unless its own logged vote already holds the same propositions. On a
/// supermajority over supermajorities its supermajority claim is the decision. On a
/// supermajority it broadcasts its supermajority claim unless it has logged one. Where it
/// has not voted, it adopts the incoming ballot. Otherwise it waits.
pub open spec fn response(
    secret: Seq<u8>,
    id: NodeId,
    n_elders: nat,
    threshold: nat,
    log: Map<NodeId, SignedVoteView>,
    incoming: VoteView,
    gen: Generation,
) -> (Result<VoteResponseView, Error>, Map<NodeId, SignedVoteView>) {
    let votes = values(log).to_set();
    if split_vote(votes, n_elders, threshold) {
        let merge = signed(
            secret,
            id,
            VoteView { gen, ballot: BallotView::Merge(simplified(values(log))) },
        );
        if merge matches Ok(v) && log.contains_key(id) && log[id].proposals() == v.proposals() {
            (Ok(VoteResponseView::WaitingForMoreVotes), log)
        } else {
            broadcast(log, merge)
        }
    } else if super_majority_over_super_majorities(votes, threshold) {
        match super_majority_claim(secret, id, log, gen) {
            Ok(v) => (Ok(VoteResponseView::Decided(v)), log),
            Err(e) => (Err(e), log),
        }
    } else if super_majority(votes, threshold) {
        if log.contains_key(id) && log[id].vote.ballot is SuperMajority {
            (Ok(VoteResponseView::WaitingForMoreVotes), log)
        } else {
            broadcast(log, super_majority_claim(secret, id, log, gen))
        }
    } else if !log.contains_key(id) {
        broadcast(log, signed(secret, id, VoteView { gen, ballot: incoming.ballot }))
    } else {
        (Ok(VoteResponseView::WaitingForMoreVotes), log)
    }
}

/// Where the witnesses for the first propositions cannot be made, neither can those for
/// all: the error is the same.
pub proof fn lemma_witnesses_error(
    secret: Seq<u8>,
    id: NodeId,
    propositions: Seq<Seq<u8>>,
    k: int,
)
    requires
        0 <= k <= propositions.len(),
        witnesses_for(secret, id, propositions.take(k)) is Err,
    ensures
        witnesses_for(secret, id, propositions) == witnesses_for(secret, id, propositions.take(k)),
    decreases propositions.len() - k,
{
    if k < propositions.len() {
        assert(propositions.take(k + 1).drop_last() =~= propositions.take(k));
        lemma_witnesses_error(secret, id, propositions, k + 1);
    } else {
        assert(propositions.take(k) =~= propositions);
    }
}

/// Every entry of the log is a vote of the voter it is filed under.
pub open spec fn filed(log: Map<NodeId, SignedVoteView>) -> bool {
    forall|k: NodeId| #[trigger] log.contains_key(k) ==> log[k].voter == k
}

/// Logging a vote files every entry under its voter.
pub proof fn lemma_log_keeps_filing(log: Map<NodeId, SignedVoteView>, v: SignedVoteView)
    requires
        filed(log),
    ensures
        filed(with_vote(log, v)),
    decreases v,
{
    match v.vote.ballot {
        BallotView::Propose(_) => {},
        BallotView::Merge(votes) => lemma_logs_keep_filing(with_entry(log, v), votes),
        BallotView::SuperMajority { votes, .. } => lemma_logs_keep_filing(
            with_entry(log, v),
            votes,
        ),
    }
}

/// Logging a list of votes files every entry under its voter.
pub proof fn lemma_logs_keep_filing(log: Map<NodeId, SignedVoteView>, votes: Seq<SignedVoteView>)
    requires
        filed(log),
    ensures
        filed(with_votes(log, votes)),
    decreases votes,
{
    if votes.len() > 0 {
        lemma_logs_keep_filing(log, votes.drop_last());
        lemma_log_keeps_filing(with_votes(log, votes.drop_last()), votes.last());
    }
}

/// A list holds what its views hold.
pub proof fn lemma_listed_is_set(list: Seq<SignedVote>)
    ensures
        listed_votes(list) == votes_view(list).to_set(),
{
    assert forall|u: SignedVoteView| listed_votes(list).contains(u) == votes_view(
        list,
    ).to_set().contains(u) by {
        if listed_votes(list).contains(u) {
            let i = choose|i: int| 0 <= i < list.len() && (#[trigger] list[i])@ == u;
            assert(votes_view(list)[i] == u);
        }
    }
}

/// The propositions that the witnesses speak for, each listed once.
pub fn witnessed_proposals(witnesses: &Vec<Witness>) -> (r: Vec<Vec<u8>>)
    ensures
        distinct(r@),
        listed(r@) == witnessed(witnesses_view(witnesses@)),
{
    let ghost all = witnesses_view(witnesses@);
    let mut r: Vec<Vec<u8>> = Vec::new();
    let mut i: usize = 0;
    while i < witnesses.len()
        invariant
            i <= witnesses.len(),
            all == witnesses_view(witnesses@),
            distinct(r@),
            listed(r@) == witnessed(all.take(i as int)),
        decreases witnesses.len() - i,
    {
        add_unique(&mut r, &witnesses[i].proposal);
        proof {
            let next = all.take(i + 1);
            let prev = all.take(i as int);
            assert forall|p: Seq<u8>| witnessed(next).contains(p) == witnessed(prev).insert(
                all[i as int].proposal,
            ).contains(p) by {
                if p == all[i as int].proposal {
                    assert(next[i as int].proposal == p);
                }
            }
        }
        i += 1;
    }
    assert(all.take(witnesses.len() as int) =~= all);
    r
}

impl Consensus {
    /// The logged votes: for each voter that has one, its most advanced vote so far.
    pub open spec fn logged(&self) -> Map<NodeId, SignedVoteView> {
        Map::new(|k: NodeId| self.votes@.contains_key(k), |k: NodeId| self.votes@[k]@)
    }

    /// Every entry of the log is a vote of the voter it is filed under.
    pub open spec fn wf(&self) -> bool {
        filed(self.logged())
    }

    /// An engine for a member of a committee of `n_elders`, with nothing logged.
    pub fn from(secret_key: (NodeId, Vec<u8>), elders: Committee, n_elders: usize) -> (r: Self)
        ensures
            r.secret_key == secret_key,
            r.elders == elders,
            r.n_elders == n_elders,
            r.logged() == Map::<NodeId, SignedVoteView>::empty(),
            r.wf(),
    {
        let r = Consensus { elders, n_elders, secret_key, votes: BTreeMap::new() };
        r
    }

    /// This member's identity.
    pub fn id(&self) -> (r: NodeId)
        ensures
            r == self.secret_key.0,
    {
        self.secret_key.0
    }

    /// Checks the signature share of member `elder` over a payload.
    pub fn verify_sig_share(&self, msg: &Vec<u8>, elder: NodeId, sig: &Vec<u8>) -> (r: Result<
        (),
        Error,
    >)
        ensures
            r == signature_check(self.elders.spec_key_set(), msg@, elder, sig@),
    {
        match message(msg) {
            None => Err(Error::Encoding),
            Some(framed) => match member_key_bytes(self.elders.key_set(), elder as u64) {
                None => Err(Error::InvalidSignature),
                Some(key) => if verify_share(&key, sig, &framed) {
                    Ok(())
                } else {
                    Err(Error::InvalidSignature)
                },
            },
        }
    }

    /// Signs a payload with this node's key share.
    pub fn sign(&self, msg: &Vec<u8>) -> (r: Result<Vec<u8>, Error>)
        ensures
            r matches Ok(sig) ==> signature_for(self.secret_key.1@, msg@) == Ok::<Seq<u8>, Error>(
                sig@,
            ),
            r matches Err(e) ==> signature_for(self.secret_key.1@, msg@) == Err::<Seq<u8>, Error>(
                e,
            ),
    {
        match message(msg) {
            None => Err(Error::Encoding),
            Some(framed) => match sign_share(&self.secret_key.1, &framed) {
                None => Err(Error::Signing),
                Some(sig) => Ok(sig),
            },
        }
    }

    /// Signs a vote as this node.
    pub fn sign_vote(&self, vote: Vote) -> (r: Result<SignedVote, Error>)
        ensures
            r matches Ok(sv) ==> signed(self.secret_key.1@, self.secret_key.0, vote@) == Ok::<
                SignedVoteView,
                Error,
            >(sv@),
            r matches Err(e) ==> signed(self.secret_key.1@, self.secret_key.0, vote@) == Err::<
                SignedVoteView,
                Error,
            >(e),
    {
        let payload = vote.to_bytes();
        match self.sign(&payload) {
            Ok(sig) => Ok(SignedVote { voter: self.secret_key.0, sig, vote }),
            Err(e) => Err(e),
        }
    }

    /// Logs the votes of the list, one after the other.
    pub fn log_signed_votes(&mut self, votes: &Vec<SignedVote>)
        ensures
            final(self).logged() == with_votes(old(self).logged(), votes_view(votes@)),
            final(self).elders == old(self).elders,
            final(self).n_elders == old(self).n_elders,
            final(self).secret_key == old(self).secret_key,
        decreases votes,
    {
        let ghost all = votes_view(votes@);
        let mut i: usize = 0;
        while i < votes.len()
            invariant
                i <= votes.len(),
                all == votes_view(votes@),
                self.logged() == with_votes(old(self).logged(), all.take(i as int)),
                self.elders == old(self).elders,
                self.n_elders == old(self).n_elders,
                self.secret_key == old(self).secret_key,
            decreases votes.len() - i,
        {
            self.log_signed_vote(&votes[i]);
            assert(all.take(i + 1).drop_last() =~= all.take(i as int));
            i += 1;
        }
        assert(all.take(votes.len() as int) =~= all);
    }

    /// Logs a vote and the votes it carries: each becomes its voter's entry unless the
    /// voter has an entry that it does not supersede.
    pub fn log_signed_vote(&mut self, signed_vote: &SignedVote)
        ensures
            final(self).logged() == with_vote(old(self).logged(), signed_vote@),
            old(self).wf() ==> final(self).wf(),
            final(self).elders == old(self).elders,
            final(self).n_elders == old(self).n_elders,
            final(self).secret_key == old(self).secret_key,
        decreases signed_vote,
    {
        let advance = match self.votes.get(&signed_vote.voter) {
            Some(existing) => signed_vote.supersedes(existing),
            None => true,
        };
        if advance {
            self.votes.insert(signed_vote.voter, signed_vote.duplicate());
        }
        assert(self.logged() =~= with_entry(old(self).logged(), signed_vote@));
        match &signed_vote.vote.ballot {
            Ballot::Propose(_) => {},
            Ballot::Merge(votes) => self.log_signed_votes(votes),
            Ballot::SuperMajority { votes, .. } => self.log_signed_votes(votes),
        }
        proof {
            if old(self).wf() {
                lemma_log_keeps_filing(old(self).logged(), signed_vote@);
            }
        }
    }

    /// Logs a vote of this node and hands it back for broadcast.
    pub fn cast_vote(&mut self, signed_vote: SignedVote) -> (r: SignedVote)
        ensures
            r == signed_vote,
            final(self).logged() == with_vote(old(self).logged(), signed_vote@),
            old(self).wf() ==> final(self).wf(),
            final(self).elders == old(self).elders,
            final(self).n_elders == old(self).n_elders,
            final(self).secret_key == old(self).secret_key,
    {
        self.log_signed_vote(&signed_vote);
        signed_vote
    }

    /// Copies of the logged votes, by voter.
    pub fn logged_votes(&self) -> (r: Vec<SignedVote>)
        ensures
            votes_view(r@) == values(self.logged()),
    {
        let mut r: Vec<SignedVote> = Vec::new();
        let mut k: usize = 0;
        while k < 256
            invariant
                k <= 256,
                votes_view(r@) == values_below(self.logged(), k as nat),
            decreases 256 - k,
        {
            let id = k as u8;
            match self.votes.get(&id) {
                Some(v) => {
                    r.push(v.duplicate());
                },
                None => {},
            }
            k += 1;
        }
        r
    }

    /// Groups the votes by the propositions they stand for and counts each group. A vote
    /// that is listed more than once counts once.
    pub fn count_votes(&self, votes: &Vec<SignedVote>) -> (r: Vec<VoteCount>)
        ensures
            counts_match(r@, listed_votes(votes@)),
            counted(r@) == vote_counts(listed_votes(votes@)),
            total(r@) == listed_votes(votes@).len(),
    {
        count_votes(votes)
    }

    /// Every proposition reachable from the votes, each listed once.
    pub fn proposals(&self, votes: &Vec<SignedVote>) -> (r: Vec<Vec<u8>>)
        ensures
            items(r@) == proposal_list_of(votes_view(votes@)),
            listed(r@) == proposals_of(votes_view(votes@)),
            distinct(r@),
    {
        let mut acc: Vec<Vec<u8>> = Vec::new();
        assert(items(acc@) =~= Seq::<Seq<u8>>::empty());
        add_proposals_of(votes, &mut acc);
        acc
    }

    /// Whether more than the threshold of the votes stand for the same propositions.
    pub fn is_super_majority(&self, votes: &Vec<SignedVote>) -> (r: bool)
        ensures
            r == super_majority(listed_votes(votes@), self.elders.threshold() as nat),
    {
        let counts = count_votes(votes);
        let most = most_votes(&counts);
        proof {
            lemma_listed_finite(votes@);
            lemma_most_votes(counts@, listed_votes(votes@), most);
        }
        most > self.elders.threshold()
    }

    /// Whether the round is stuck: more members voted than the threshold, and the largest
    /// group cannot reach a supermajority even with every member that has not voted.
    pub fn is_split_vote(&self, votes: &Vec<SignedVote>) -> (r: bool)
        ensures
            r == split_vote(
                listed_votes(votes@),
                self.n_elders as nat,
                self.elders.threshold() as nat,
            ),
    {
        let counts = count_votes(votes);
        let most = most_votes(&counts);
        let voters = count_voters(votes);
        let remaining = if self.n_elders >= voters {
            self.n_elders - voters
        } else {
            0
        };
        let threshold = self.elders.threshold();
        proof {
            lemma_listed_finite(votes@);
            lemma_most_votes(counts@, listed_votes(votes@), most);
        }
        voters > threshold && most <= threshold && remaining <= threshold - most
    }

    /// Whether more than the threshold of the supermajority claims among the votes stand
    /// for the same propositions.
    pub fn is_super_majority_over_super_majorities(&self, votes: &Vec<SignedVote>) -> (r: bool)
        ensures
            r == super_majority_over_super_majorities(
                listed_votes(votes@),
                self.elders.threshold() as nat,
            ),
    {
        let claims = only_super_majorities(votes);
        self.is_super_majority(&claims)
    }

    /// Whether every witness holds its signer's signature share over its proposition.
    pub fn verify_witnesses(&self, witnesses: &Vec<Witness>) -> (r: bool)
        ensures
            r == witnesses_verify(self.elders.spec_key_set(), witnesses_view(witnesses@)),
    {
        let mut i: usize = 0;
        while i < witnesses.len()
            invariant
                i <= witnesses.len(),
                forall|j: int|
                    0 <= j < i ==> signature_check(
                        self.elders.spec_key_set(),
                        (#[trigger] witnesses_view(witnesses@)[j]).proposal,
                        witnesses_view(witnesses@)[j].signer,
                        witnesses_view(witnesses@)[j].sig,
                    ) is Ok,
            decreases witnesses.len() - i,
        {
            let w = &witnesses[i];
            if self.verify_sig_share(&w.proposal, w.signer, &w.sig).is_err() {
                assert(witnesses_view(witnesses@)[i as int] == w@);
                return false;
            }
            i += 1;
        }
        true
    }

    /// The equivocation guard: refuses a vote whose voter has a logged vote that neither
    /// supersedes it nor is superseded by it.
    pub fn validate_vote_supersedes_existing_vote(&self, signed_vote: &SignedVote) -> (r: Result<
        (),
        Error,
    >)
        ensures
            r == conflict_check(self.logged(), signed_vote@),
    {
        match self.votes.get(&signed_vote.voter) {
            Some(existing) => {
                if !signed_vote.supersedes(existing) && !existing.supersedes(signed_vote) {
                    Err(Error::ConflictingVote)
                } else {
                    Ok(())
                }
            },
            None => Ok(()),
        }
    }

    /// Validates the votes that a ballot of generation `gen` carries, in their order.
    pub fn validate_children(&self, gen: Generation, votes: &Vec<SignedVote>) -> (r: Result<
        (),
        Error,
    >)
        ensures
            r == children_validation(
                self.elders.spec_key_set(),
                self.elders.threshold() as nat,
                self.logged(),
                gen,
                votes_view(votes@),
            ),
        decreases votes,
    {
        let ghost all = votes_view(votes@);
        let ghost key_set = self.elders.spec_key_set();
        let ghost threshold = self.elders.threshold() as nat;
        let mut i: usize = 0;
        assert(all.skip(0) =~= all);
        while i < votes.len()
            invariant
                i <= votes.len(),
                all == votes_view(votes@),
                key_set == self.elders.spec_key_set(),
                threshold == self.elders.threshold() as nat,
                children_validation(key_set, threshold, self.logged(), gen, all)
                    == children_validation(
                    key_set,
                    threshold,
                    self.logged(),
                    gen,
                    all.skip(i as int),
                ),
            decreases votes.len() - i,
        {
            let child = &votes[i];
            assert(all.skip(i as int).skip(1) =~= all.skip(i + 1));
            if child.vote.gen != gen {
                return Err(Error::GenerationMismatch { child_gen: child.vote.gen, merge_gen: gen });
            }
            match self.validate_signed_vote(child) {
                Err(e) => {
                    return Err(e);
                },
                Ok(_) => {},
            }
            i += 1;
        }
        Ok(())
    }

    /// Validates a vote: its ballot and, down to the proposals, the votes it carries.
    pub fn validate_vote(&self, vote: &Vote) -> (r: Result<(), Error>)
        ensures
            r == vote_validation(
                self.elders.spec_key_set(),
                self.elders.threshold() as nat,
                self.logged(),
                vote@,
            ),
        decreases vote,
    {
        match &vote.ballot {
            Ballot::Propose(_) => Ok(()),
            Ballot::Merge(votes) => self.validate_children(vote.gen, votes),
            Ballot::SuperMajority { votes, proposals } => {
                let held = self.proposals(votes);
                let claimed = witnessed_proposals(proposals);
                if !same_set(&claimed, &held) {
                    return Err(Error::ProposalSetMismatch);
                }
                let unpacked = unpack_all(votes);
                if !self.is_super_majority(&unpacked) {
                    return Err(Error::SuperMajorityClaimUnsubstantiated);
                }
                if !self.verify_witnesses(proposals) {
                    return Err(Error::InvalidSignature);
                }
                self.validate_children(vote.gen, votes)
            },
        }
    }

    /// Validates a signed vote against the committee and the log, down to the proposals:
    /// `Ok`, or the first violation found. Nothing is logged.
    pub fn validate_signed_vote(&self, signed_vote: &SignedVote) -> (r: Result<(), Error>)
        ensures
            r == validation(
                self.elders.spec_key_set(),
                self.elders.threshold() as nat,
                self.logged(),
                signed_vote@,
            ),
        decreases signed_vote,
    {
        let payload = signed_vote.vote.to_bytes();
        match self.verify_sig_share(&payload, signed_vote.voter, &signed_vote.sig) {
            Err(e) => {
                return Err(e);
            },
            Ok(_) => {},
        }
        match self.validate_vote(&signed_vote.vote) {
            Err(e) => {
                return Err(e);
            },
            Ok(_) => {},
        }
        self.validate_vote_supersedes_existing_vote(signed_vote)
    }

    /// This node's witnesses for the propositions, in their order: each signed with its
    /// key share.
    pub fn witness_all(&self, propositions: &Vec<Vec<u8>>) -> (r: Result<Vec<Witness>, Error>)
        ensures
            r matches Ok(ws) ==> witnesses_for(
                self.secret_key.1@,
                self.secret_key.0,
                items(propositions@),
            ) == Ok::<Seq<WitnessView>, Error>(witnesses_view(ws@)),
            r matches Err(e) ==> witnesses_for(
                self.secret_key.1@,
                self.secret_key.0,
                items(propositions@),
            ) == Err::<Seq<WitnessView>, Error>(e),
    {
        let ghost all = items(propositions@);
        let mut ws: Vec<Witness> = Vec::new();
        let mut i: usize = 0;
        assert(witnesses_view(ws@) =~= Seq::<WitnessView>::empty());
        while i < propositions.len()
            invariant
                i <= propositions.len(),
                all == items(propositions@),
                witnesses_for(self.secret_key.1@, self.secret_key.0, all.take(i as int)) == Ok::<
                    Seq<WitnessView>,
                    Error,
                >(witnesses_view(ws@)),
            decreases propositions.len() - i,
        {
            let p = &propositions[i];
            let ghost before = witnesses_view(ws@);
            assert(all.take(i + 1).drop_last() =~= all.take(i as int));
            match self.sign(p) {
                Err(e) => {
                    proof {
                        lemma_witnesses_error(
                            self.secret_key.1@,
                            self.secret_key.0,
                            all,
                            i + 1,
                        );
                    }
                    return Err(e);
                },
                Ok(sig) => {
                    let w = Witness { proposal: bytes_copy(p), signer: self.secret_key.0, sig };
                    ws.push(w);
                    assert(witnesses_view(ws@) =~= before.push(w@));
                },
            }
            i += 1;
        }
        assert(all.take(propositions.len() as int) =~= all);
        Ok(ws)
    }

    /// This node's supermajority claim over the logged votes, signed: it carries the
    /// logged votes in their simplest form and a witness for each of their propositions.
    pub fn build_super_majority_vote(&self, gen: Generation) -> (r: Result<SignedVote, Error>)
        ensures
            r matches Ok(v) ==> super_majority_claim(
                self.secret_key.1@,
                self.secret_key.0,
                self.logged(),
                gen,
            ) == Ok::<SignedVoteView, Error>(v@),
            r matches Err(e) ==> super_majority_claim(
                self.secret_key.1@,
                self.secret_key.0,
                self.logged(),
                gen,
            ) == Err::<SignedVoteView, Error>(e),
    {
        let votes = self.logged_votes();
        let propositions = self.proposals(&votes);
        let proposals = match self.witness_all(&propositions) {
            Ok(ws) => ws,
            Err(e) => {
                return Err(e);
            },
        };
        let ballot = Ballot::SuperMajority { votes: simplify_votes(&votes), proposals };
        self.sign_vote(Vote { gen, ballot })
    }

    /// Takes a vote from another member: validates it against the log and, only if it is
    /// in order, handles it. A vote that is refused leaves the log as it is.
    pub fn receive_signed_vote(&mut self, signed_vote: SignedVote, gen: Generation) -> (r: Result<
        VoteResponse,
        Error,
    >)
        ensures
            match validation(
                old(self).elders.spec_key_set(),
                old(self).elders.threshold() as nat,
                old(self).logged(),
                signed_vote@,
            ) {
                Err(e) => outcome(r) == Err::<VoteResponseView, Error>(e) && final(self).logged()
                    == old(self).logged(),
                Ok(_) => (outcome(r), final(self).logged()) == response(
                    old(self).secret_key.1@,
                    old(self).secret_key.0,
                    old(self).n_elders as nat,
                    old(self).elders.threshold() as nat,
                    with_vote(old(self).logged(), signed_vote@),
                    signed_vote@.vote,
                    gen,
                ),
            },
            old(self).wf() ==> final(self).wf(),
            final(self).elders == old(self).elders,
            final(self).n_elders == old(self).n_elders,
            final(self).secret_key == old(self).secret_key,
    {
        match self.validate_signed_vote(&signed_vote) {
            Err(e) => Err(e),
            Ok(_) => self.handle_signed_vote(signed_vote, gen),
        }
    }

    /// Logs the vote with the votes it carries, then acts on what the log holds: merges on
    /// a split vote, decides on a supermajority over supermajorities, claims a
    /// supermajority, adopts the incoming ballot where this node has not voted, or waits.
    /// A vote that is broadcast is logged first; where signing fails, the error is
    /// returned and nothing more is logged. The vote must have been validated.
    pub fn handle_signed_vote(&mut self, signed_vote: SignedVote, gen: Generation) -> (r: Result<
        VoteResponse,
        Error,
    >)
        ensures
            (outcome(r), final(self).logged()) == response(
                old(self).secret_key.1@,
                old(self).secret_key.0,
                old(self).n_elders as nat,
                old(self).elders.threshold() as nat,
                with_vote(old(self).logged(), signed_vote@),
                signed_vote@.vote,
                gen,
            ),
            old(self).wf() ==> final(self).wf(),
            final(self).elders == old(self).elders,
            final(self).n_elders == old(self).n_elders,
            final(self).secret_key == old(self).secret_key,
    {
        self.log_signed_vote(&signed_vote);
        let votes = self.logged_votes();
        proof {
            lemma_listed_is_set(votes@);
        }
        if self.is_split_vote(&votes) {
            let merge_vote = Vote { gen, ballot: Ballot::Merge(simplify_votes(&votes)) };
            let signed_merge_vote = match self.sign_vote(merge_vote) {
                Ok(v) => v,
                Err(e) => {
                    return Err(e);
                },
            };
            let id = self.id();
            match self.votes.get(&id) {
                Some(our_vote) => {
                    let proposals_we_voted_for = our_vote.proposals();
                    let proposals_we_would_vote_for = signed_merge_vote.proposals();
                    if same_set(&proposals_we_voted_for, &proposals_we_would_vote_for) {
                        return Ok(VoteResponse::WaitingForMoreVotes);
                    }
                },
                None => {},
            }
            return Ok(VoteResponse::Broadcast(self.cast_vote(signed_merge_vote)));
        }
        if self.is_super_majority_over_super_majorities(&votes) {
            return match self.build_super_majority_vote(gen) {
                Ok(v) => Ok(VoteResponse::Decided(v)),
                Err(e) => Err(e),
            };
        }
        if self.is_super_majority(&votes) {
            let id = self.id();
            let claimed = match self.votes.get(&id) {
                Some(our_vote) => our_vote.vote.is_super_majority_ballot(),
                None => false,
            };
            if claimed {
                return Ok(VoteResponse::WaitingForMoreVotes);
            }
            return match self.build_super_majority_vote(gen) {
                Ok(v) => Ok(VoteResponse::Broadcast(self.cast_vote(v))),
                Err(e) => Err(e),
            };
        }
        let id = self.id();
        if !self.votes.contains_key(&id) {
            let vote = Vote { gen, ballot: signed_vote.vote.ballot };
            return match self.sign_vote(vote) {
                Ok(v) => Ok(VoteResponse::Broadcast(self.cast_vote(v))),
                Err(e) => Err(e),
            };
        }
        Ok(VoteResponse::WaitingForMoreVotes)
    }
}

} // verus!
