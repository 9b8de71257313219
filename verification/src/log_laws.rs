//! What holds of the log: it only advances, and logging a vote again changes nothing.

use vstd::prelude::*;
use crate::consensus::{conflict_check, validation, with_entry, with_vote, with_votes};
use crate::vote::{unpack_of, BallotView, NodeId, SignedVoteView};
use crate::vote_laws::{
    carries_claim_over, lemma_supersedes_antisymmetric, lemma_supersedes_transitive,
    lemma_unpack_of_last,
};

verus! {

/// A vote that passes validation is comparable with its voter's logged vote: no voter
/// gets two votes logged of which neither supersedes the other.
pub proof fn lemma_valid_vote_is_comparable(
    key_set: Seq<u8>,
    threshold: nat,
    log: Map<NodeId, SignedVoteView>,
    v: SignedVoteView,
)
    requires
        validation(key_set, threshold, log, v) is Ok,
        log.contains_key(v.voter),
    ensures
        v.supersedes(log[v.voter]) || log[v.voter].supersedes(v),
        with_entry(log, v)[v.voter].supersedes(v),
        with_entry(log, v)[v.voter].supersedes(log[v.voter]),
{
}

/// The log has nothing to learn from the vote: its voter has an entry, and the vote
/// supersedes that entry only if it is that entry.
pub open spec fn settled_for(log: Map<NodeId, SignedVoteView>, u: SignedVoteView) -> bool {
    log.contains_key(u.voter) && (u.supersedes(log[u.voter]) ==> log[u.voter] == u)
}

/// The log has nothing to learn from the vote nor from any vote that it carries.
pub open spec fn settled(log: Map<NodeId, SignedVoteView>, v: SignedVoteView) -> bool {
    forall|u: SignedVoteView| #[trigger] v.unpack().contains(u) ==> settled_for(log, u)
}

/// Among these votes, two of one voter that supersede one another are the same vote.
pub open spec fn antisymmetric_on(votes: Set<SignedVoteView>) -> bool {
    forall|a: SignedVoteView, b: SignedVoteView|
        votes.contains(a) && votes.contains(b) && a.voter == b.voter && #[trigger] a.supersedes(b)
            && b.supersedes(a) ==> a == b
}

/// Superseding is antisymmetric among votes of which none carries a supermajority claim
/// over exactly its own propositions.
pub proof fn lemma_antisymmetric_without_such_claims(votes: Set<SignedVoteView>)
    requires
        forall|a: SignedVoteView| #[trigger]
            votes.contains(a) ==> !carries_claim_over(a, a.proposals()),
    ensures
        antisymmetric_on(votes),
{
    assert forall|a: SignedVoteView, b: SignedVoteView|
        votes.contains(a) && votes.contains(b) && a.voter == b.voter && #[trigger] a.supersedes(b)
            && b.supersedes(a) implies a == b by {
        lemma_supersedes_antisymmetric(a, b);
    }
}

/// Taking a vote in leaves a log settled for another vote, unless the two are of one
/// voter, supersede one another and differ.
pub proof fn lemma_entry_keeps_settled(
    log: Map<NodeId, SignedVoteView>,
    x: SignedVoteView,
    u: SignedVoteView,
)
    requires
        settled_for(log, u),
        u.voter == x.voter && u.supersedes(x) && x.supersedes(u) ==> u == x,
    ensures
        settled_for(with_entry(log, x), u),
{
    if x.voter == u.voter && with_entry(log, x) != log {
        if u.supersedes(x) {
            lemma_supersedes_transitive(u, x, log[u.voter]);
        }
    }
}

/// Logging a vote leaves a log settled for another vote, unless that vote and one that is
/// logged supersede one another and differ.
pub proof fn lemma_vote_keeps_settled(
    log: Map<NodeId, SignedVoteView>,
    z: SignedVoteView,
    u: SignedVoteView,
)
    requires
        settled_for(log, u),
        forall|x: SignedVoteView|
            #[trigger] z.unpack().contains(x) && u.voter == x.voter && u.supersedes(x) && x.supersedes(u) ==> u == x,
    ensures
        settled_for(with_vote(log, z), u),
    decreases z,
{
    assert(z.unpack().contains(z));
    lemma_entry_keeps_settled(log, z, u);
    match z.vote.ballot {
        BallotView::Propose(_) => {},
        BallotView::Merge(votes) => {
            assert forall|x: SignedVoteView| #[trigger]
                unpack_of(votes).contains(x) && u.voter == x.voter && u.supersedes(x)
                    && x.supersedes(u) implies u == x by {
                assert(z.unpack().contains(x));
            }
            lemma_votes_keep_settled(with_entry(log, z), votes, u);
        },
        BallotView::SuperMajority { votes, .. } => {
            assert forall|x: SignedVoteView| #[trigger]
                unpack_of(votes).contains(x) && u.voter == x.voter && u.supersedes(x)
                    && x.supersedes(u) implies u == x by {
                assert(z.unpack().contains(x));
            }
            lemma_votes_keep_settled(with_entry(log, z), votes, u);
        },
    }
}

/// Logging a list of votes leaves a log settled for another vote, unless that vote and one
/// that is logged supersede one another and differ.
pub proof fn lemma_votes_keep_settled(
    log: Map<NodeId, SignedVoteView>,
    zs: Seq<SignedVoteView>,
    u: SignedVoteView,
)
    requires
        settled_for(log, u),
        forall|x: SignedVoteView|
            #[trigger] unpack_of(zs).contains(x) && u.voter == x.voter && u.supersedes(x) && x.supersedes(u) ==> u == x,
    ensures
        settled_for(with_votes(log, zs), u),
    decreases zs,
{
    if zs.len() > 0 {
        assert forall|x: SignedVoteView| #[trigger]
            unpack_of(zs.drop_last()).contains(x) && u.voter == x.voter && u.supersedes(x)
                && x.supersedes(u) implies u == x by {
            lemma_unpack_of_last(zs, x);
        }
        lemma_votes_keep_settled(log, zs.drop_last(), u);
        assert forall|x: SignedVoteView| #[trigger]
            zs.last().unpack().contains(x) && u.voter == x.voter && u.supersedes(x)
                && x.supersedes(u) implies u == x by {
            lemma_unpack_of_last(zs, x);
        }
        lemma_vote_keeps_settled(with_votes(log, zs.drop_last()), zs.last(), u);
    }
}

/// Once a vote is logged, the log is settled for it and for every vote that it carries,
/// where superseding is antisymmetric among these votes.
pub proof fn lemma_vote_settles(
    log: Map<NodeId, SignedVoteView>,
    v: SignedVoteView,
    among: Set<SignedVoteView>,
)
    requires
        v.unpack().subset_of(among),
        antisymmetric_on(among),
    ensures
        settled(with_vote(log, v), v),
    decreases v,
{
    let entered = with_entry(log, v);
    match v.vote.ballot {
        BallotView::Propose(_) => {},
        BallotView::Merge(votes) => {
            assert(unpack_of(votes).subset_of(among));
            lemma_votes_keep_settled(entered, votes, v);
            lemma_votes_settle(entered, votes, among);
        },
        BallotView::SuperMajority { votes, .. } => {
            lemma_votes_keep_settled(entered, votes, v);
            lemma_votes_settle(entered, votes, among);
        },
    }
}

/// Once the votes of a list are logged, the log is settled for every vote that they
/// unpack to, where superseding is antisymmetric among these votes.
pub proof fn lemma_votes_settle(
    log: Map<NodeId, SignedVoteView>,
    votes: Seq<SignedVoteView>,
    among: Set<SignedVoteView>,
)
    requires
        unpack_of(votes).subset_of(among),
        antisymmetric_on(among),
    ensures
        forall|u: SignedVoteView| #[trigger]
            unpack_of(votes).contains(u) ==> settled_for(with_votes(log, votes), u),
    decreases votes,
{
    if votes.len() > 0 {
        let prev = votes.drop_last();
        let last = votes.last();
        let before = with_votes(log, prev);
        assert forall|u: SignedVoteView| #[trigger] unpack_of(prev).contains(u) implies among.contains(
            u,
        ) by {
            lemma_unpack_of_last(votes, u);
        }
        assert forall|u: SignedVoteView| #[trigger] last.unpack().contains(u) implies among.contains(
            u,
        ) by {
            lemma_unpack_of_last(votes, u);
        }
        lemma_votes_settle(log, prev, among);
        lemma_vote_settles(before, last, among);
        assert forall|u: SignedVoteView| #[trigger] unpack_of(votes).contains(u) implies settled_for(
            with_votes(log, votes),
            u,
        ) by {
            lemma_unpack_of_last(votes, u);
            if !last.unpack().contains(u) {
                lemma_vote_keeps_settled(before, last, u);
            }
        }
    }
}

/// Logging a vote changes nothing in a log that is settled for it.
pub proof fn lemma_settled_log_stays(log: Map<NodeId, SignedVoteView>, v: SignedVoteView)
    requires
        settled(log, v),
    ensures
        with_vote(log, v) == log,
    decreases v,
{
    assert(v.unpack().contains(v));
    assert(with_entry(log, v) =~= log);
    match v.vote.ballot {
        BallotView::Propose(_) => {},
        BallotView::Merge(votes) => {
            assert forall|u: SignedVoteView| #[trigger]
                unpack_of(votes).contains(u) implies settled_for(log, u) by {
                assert(v.unpack().contains(u));
            }
            lemma_settled_log_stays_all(log, votes);
        },
        BallotView::SuperMajority { votes, .. } => {
            assert forall|u: SignedVoteView| #[trigger]
                unpack_of(votes).contains(u) implies settled_for(log, u) by {
                assert(v.unpack().contains(u));
            }
            lemma_settled_log_stays_all(log, votes);
        },
    }
}

/// Logging a list of votes changes nothing in a log that is settled for all they unpack to.
pub proof fn lemma_settled_log_stays_all(
    log: Map<NodeId, SignedVoteView>,
    votes: Seq<SignedVoteView>,
)
    requires
        forall|u: SignedVoteView| #[trigger] unpack_of(votes).contains(u) ==> settled_for(log, u),
    ensures
        with_votes(log, votes) == log,
    decreases votes,
{
    if votes.len() > 0 {
        assert forall|u: SignedVoteView| #[trigger]
            unpack_of(votes.drop_last()).contains(u) implies settled_for(log, u) by {
            lemma_unpack_of_last(votes, u);
        }
        lemma_settled_log_stays_all(log, votes.drop_last());
        assert forall|u: SignedVoteView| #[trigger]
            votes.last().unpack().contains(u) implies settled_for(log, u) by {
            lemma_unpack_of_last(votes, u);
        }
        lemma_settled_log_stays(log, votes.last());
    }
}

/// Logging is idempotent: a vote that was logged changes nothing when it is logged again,
/// where superseding is antisymmetric among the votes of each voter that it carries.
pub proof fn lemma_logging_again_changes_nothing(
    log: Map<NodeId, SignedVoteView>,
    v: SignedVoteView,
)
    requires
        antisymmetric_on(v.unpack()),
    ensures
        with_vote(with_vote(log, v), v) == with_vote(log, v),
{
    lemma_vote_settles(log, v, v.unpack());
    lemma_settled_log_stays(with_vote(log, v), v);
}

/// A vote that was logged changes nothing when it is logged again, whatever votes were
/// logged in between, where superseding is antisymmetric among all these votes and the
/// votes that they carry.
pub proof fn lemma_logging_again_later_changes_nothing(
    log: Map<NodeId, SignedVoteView>,
    v: SignedVoteView,
    between: Seq<SignedVoteView>,
)
    requires
        antisymmetric_on(v.unpack().union(unpack_of(between))),
    ensures
        with_vote(with_votes(with_vote(log, v), between), v) == with_votes(
            with_vote(log, v),
            between,
        ),
{
    let among = v.unpack().union(unpack_of(between));
    let first = with_vote(log, v);
    let later = with_votes(first, between);
    lemma_vote_settles(log, v, among);
    assert forall|u: SignedVoteView| #[trigger] v.unpack().contains(u) implies settled_for(
        later,
        u,
    ) by {
        lemma_votes_keep_settled(first, between, u);
    }
    lemma_settled_log_stays(later, v);
}

/// Logging only advances the log: every voter keeps an entry, and the entry after
/// supersedes the entry before.
pub proof fn lemma_log_advances(log: Map<NodeId, SignedVoteView>, v: SignedVoteView)
    ensures
        with_vote(log, v).contains_key(v.voter),
        forall|k: NodeId| #[trigger]
            log.contains_key(k) ==> with_vote(log, v).contains_key(k) && with_vote(
                log,
                v,
            )[k].supersedes(log[k]),
        forall|k: NodeId| #[trigger]
            with_entry(log, v).contains_key(k) ==> with_vote(log, v).contains_key(k) && with_vote(
                log,
                v,
            )[k].supersedes(with_entry(log, v)[k]),
    decreases v,
{
    let entered = with_entry(log, v);
    match v.vote.ballot {
        BallotView::Propose(_) => {},
        BallotView::Merge(votes) => lemma_logs_advance(entered, votes),
        BallotView::SuperMajority { votes, .. } => lemma_logs_advance(entered, votes),
    }
    assert(entered.contains_key(v.voter));
    assert forall|k: NodeId| #[trigger] log.contains_key(k) implies with_vote(
        log,
        v,
    ).contains_key(k) && with_vote(log, v)[k].supersedes(log[k]) by {
        assert(entered.contains_key(k));
        lemma_supersedes_transitive(with_vote(log, v)[k], entered[k], log[k]);
    }
}

/// Logging a list of votes only advances the log.
pub proof fn lemma_logs_advance(log: Map<NodeId, SignedVoteView>, votes: Seq<SignedVoteView>)
    ensures
        forall|k: NodeId| #[trigger]
            log.contains_key(k) ==> with_votes(log, votes).contains_key(k) && with_votes(
                log,
                votes,
            )[k].supersedes(log[k]),
    decreases votes,
{
    if votes.len() > 0 {
        let before = with_votes(log, votes.drop_last());
        lemma_logs_advance(log, votes.drop_last());
        lemma_log_advances(before, votes.last());
        assert forall|k: NodeId| #[trigger] log.contains_key(k) implies with_votes(
            log,
            votes,
        ).contains_key(k) && with_votes(log, votes)[k].supersedes(log[k]) by {
            lemma_supersedes_transitive(with_votes(log, votes)[k], before[k], log[k]);
        }
    }
}

/// Once a vote that does not conflict with the log is logged, its voter's entry
/// supersedes both the vote and the entry before: the log keeps the most advanced vote.
pub proof fn lemma_logged_entry_is_most_advanced(
    log: Map<NodeId, SignedVoteView>,
    v: SignedVoteView,
)
    requires
        conflict_check(log, v) is Ok,
    ensures
        with_vote(log, v).contains_key(v.voter),
        with_vote(log, v)[v.voter].supersedes(v),
        log.contains_key(v.voter) ==> with_vote(log, v)[v.voter].supersedes(log[v.voter]),
{
    lemma_log_advances(log, v);
    let entered = with_entry(log, v);
    assert(entered.contains_key(v.voter));
    lemma_supersedes_transitive(with_vote(log, v)[v.voter], entered[v.voter], v);
}

} // verus!
