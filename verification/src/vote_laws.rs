//! What holds of votes: how superseding, carrying, listing and simplifying behave.

use vstd::prelude::*;
use crate::vote::{
    carried_by_another, kept_below, proposals_of, simplified, unpack_of, with_proposals,
    with_proposals_of, BallotView, SignedVoteView,
};

verus! {

/// Every vote supersedes itself.
pub proof fn lemma_supersedes_reflexive(a: SignedVoteView)
    ensures
        a.supersedes(a),
{
}

/// A vote holds every proposition of a vote that it supersedes.
pub proof fn lemma_supersedes_holds_proposals(a: SignedVoteView, b: SignedVoteView)
    requires
        a.supersedes(b),
    ensures
        b.proposals().subset_of(a.proposals()),
    decreases a,
{
    if a != b {
        match a.vote.ballot {
            BallotView::Propose(_) => {},
            BallotView::Merge(votes) => {
                let i = choose|i: int| 0 <= i < votes.len() && (#[trigger] votes[i]).supersedes(b);
                lemma_supersedes_holds_proposals(votes[i], b);
                assert forall|p: Seq<u8>| b.proposals().contains(p) implies a.proposals().contains(
                    p,
                ) by {}
            },
            BallotView::SuperMajority { .. } => {},
        }
    }
}

/// Superseding is transitive.
pub proof fn lemma_supersedes_transitive(a: SignedVoteView, b: SignedVoteView, c: SignedVoteView)
    requires
        a.supersedes(b),
        b.supersedes(c),
    ensures
        a.supersedes(c),
    decreases a,
{
    if a != b {
        match a.vote.ballot {
            BallotView::Propose(_) => {},
            BallotView::Merge(votes) => {
                let i = choose|i: int| 0 <= i < votes.len() && (#[trigger] votes[i]).supersedes(b);
                lemma_supersedes_transitive(votes[i], b, c);
            },
            BallotView::SuperMajority { .. } => {
                lemma_supersedes_holds_proposals(b, c);
            },
        }
    }
}

/// How deep the votes nest: a proposal is one deep, another vote one deeper than the
/// deepest vote it carries.
pub open spec fn depth(v: SignedVoteView) -> nat
    decreases v,
{
    match v.vote.ballot {
        BallotView::Propose(_) => 1,
        BallotView::Merge(votes) => 1 + max_depth(votes),
        BallotView::SuperMajority { votes, .. } => 1 + max_depth(votes),
    }
}

/// The depth of the deepest vote of the list.
pub open spec fn max_depth(votes: Seq<SignedVoteView>) -> nat
    decreases votes,
{
    if votes.len() == 0 {
        0
    } else {
        let before = max_depth(votes.drop_last());
        if depth(votes.last()) > before {
            depth(votes.last())
        } else {
            before
        }
    }
}

/// No vote of a list is deeper than the deepest.
pub proof fn lemma_max_depth(votes: Seq<SignedVoteView>, i: int)
    requires
        0 <= i < votes.len(),
    ensures
        depth(votes[i]) <= max_depth(votes),
    decreases votes.len(),
{
    if i < votes.len() - 1 {
        lemma_max_depth(votes.drop_last(), i);
    }
}

/// A vote nests deeper than every other vote that it carries.
pub proof fn lemma_carried_is_shallower(v: SignedVoteView, u: SignedVoteView)
    requires
        v.unpack().contains(u),
    ensures
        u == v || depth(u) < depth(v),
    decreases v,
{
    if u != v {
        let votes = v.children();
        let i = choose|i: int| 0 <= i < votes.len() && (#[trigger] votes[i]).unpack().contains(u);
        lemma_carried_is_shallower(votes[i], u);
        lemma_max_depth(votes, i);
    }
}

/// A vote holds every proposition of a vote that it carries.
pub proof fn lemma_carried_proposals(v: SignedVoteView, u: SignedVoteView)
    requires
        v.unpack().contains(u),
    ensures
        u.proposals().subset_of(v.proposals()),
    decreases v,
{
    if u != v {
        let votes = v.children();
        let i = choose|i: int| 0 <= i < votes.len() && (#[trigger] votes[i]).unpack().contains(u);
        lemma_carried_proposals(votes[i], u);
        assert forall|p: Seq<u8>| u.proposals().contains(p) implies v.proposals().contains(p) by {}
    }
}

/// A vote carries whatever a vote that it carries does.
pub proof fn lemma_carries_transitive(v: SignedVoteView, u: SignedVoteView, w: SignedVoteView)
    requires
        v.unpack().contains(u),
        u.unpack().contains(w),
    ensures
        v.unpack().contains(w),
    decreases v,
{
    if u != v {
        let votes = v.children();
        let i = choose|i: int| 0 <= i < votes.len() && (#[trigger] votes[i]).unpack().contains(u);
        lemma_carries_transitive(votes[i], u, w);
    }
}

/// The vote carries a supermajority claim that holds exactly the propositions `p`.
pub open spec fn carries_claim_over(v: SignedVoteView, p: Set<Seq<u8>>) -> bool {
    exists|c: SignedVoteView|
        #[trigger] v.unpack().contains(c) && c.vote.ballot is SuperMajority && c.proposals() == p
}

/// A vote supersedes another only if it carries it, or carries a supermajority claim
/// over all its propositions.
pub proof fn lemma_supersedes_by(a: SignedVoteView, b: SignedVoteView)
    requires
        a.supersedes(b),
    ensures
        a.unpack().contains(b) || exists|c: SignedVoteView|
            #[trigger] a.unpack().contains(c) && c.vote.ballot is SuperMajority
                && b.proposals().subset_of(c.proposals()),
    decreases a,
{
    if a != b {
        match a.vote.ballot {
            BallotView::Propose(_) => {},
            BallotView::Merge(votes) => {
                let i = choose|i: int| 0 <= i < votes.len() && (#[trigger] votes[i]).supersedes(b);
                lemma_supersedes_by(votes[i], b);
                if !votes[i].unpack().contains(b) {
                    let c = choose|c: SignedVoteView|
                        #[trigger] votes[i].unpack().contains(c) && c.vote.ballot is SuperMajority
                            && b.proposals().subset_of(c.proposals());
                    assert(a.unpack().contains(c));
                }
            },
            BallotView::SuperMajority { .. } => {
                assert(a.unpack().contains(a));
            },
        }
    }
}

/// Superseding is antisymmetric, but for supermajority claims: two votes that supersede
/// one another are the same vote, unless one of them carries a supermajority claim over
/// exactly the propositions that both hold.
pub proof fn lemma_supersedes_antisymmetric(a: SignedVoteView, b: SignedVoteView)
    requires
        a.supersedes(b),
        b.supersedes(a),
        !carries_claim_over(a, a.proposals()),
        !carries_claim_over(b, b.proposals()),
    ensures
        a == b,
{
    lemma_supersedes_holds_proposals(a, b);
    lemma_supersedes_holds_proposals(b, a);
    lemma_supersedes_by(a, b);
    lemma_supersedes_by(b, a);
    if !a.unpack().contains(b) {
        let c = choose|c: SignedVoteView|
            #[trigger] a.unpack().contains(c) && c.vote.ballot is SuperMajority
                && b.proposals().subset_of(c.proposals());
        lemma_carried_proposals(a, c);
        assert(c.proposals() =~= a.proposals());
    }
    if !b.unpack().contains(a) {
        let c = choose|c: SignedVoteView|
            #[trigger] b.unpack().contains(c) && c.vote.ballot is SuperMajority
                && a.proposals().subset_of(c.proposals());
        lemma_carried_proposals(b, c);
        assert(c.proposals() =~= b.proposals());
    }
    lemma_carried_is_shallower(a, b);
    lemma_carried_is_shallower(b, a);
}

/// Two different votes that supersede one another hold the same propositions.
pub proof fn lemma_mutual_supersession(a: SignedVoteView, b: SignedVoteView)
    requires
        a.supersedes(b),
        b.supersedes(a),
    ensures
        a.proposals() == b.proposals(),
{
    lemma_supersedes_holds_proposals(a, b);
    lemma_supersedes_holds_proposals(b, a);
}

/// What the votes of a longer list unpack to.
pub proof fn lemma_unpack_of_last(votes: Seq<SignedVoteView>, u: SignedVoteView)
    requires
        votes.len() > 0,
    ensures
        unpack_of(votes).contains(u) == (unpack_of(votes.drop_last()).contains(u)
            || votes.last().unpack().contains(u)),
{
    let prev = votes.drop_last();
    if unpack_of(votes).contains(u) {
        let i = choose|i: int| 0 <= i < votes.len() && (#[trigger] votes[i]).unpack().contains(u);
        if i < prev.len() {
            assert(prev[i].unpack().contains(u));
        }
    }
}

/// What a simplified list keeps: the votes that no other vote of the list carries.
pub proof fn lemma_kept_below(votes: Seq<SignedVoteView>, k: nat, x: SignedVoteView)
    requires
        k <= votes.len(),
    ensures
        kept_below(votes, k).contains(x) <==> exists|i: int|
            0 <= i < k && #[trigger] votes[i] == x && !carried_by_another(votes, i),
    decreases k,
{
    if k > 0 {
        lemma_kept_below(votes, (k - 1) as nat, x);
        let before = kept_below(votes, (k - 1) as nat);
        if exists|i: int| 0 <= i < k && #[trigger] votes[i] == x && !carried_by_another(votes, i) {
            let i = choose|i: int|
                0 <= i < k && #[trigger] votes[i] == x && !carried_by_another(votes, i);
            if i < k - 1 {
                let j = choose|j: int| 0 <= j < before.len() && before[j] == x;
                if !carried_by_another(votes, k - 1) {
                    assert(before.push(votes[k - 1])[j] == x);
                }
            } else {
                assert(before.push(votes[k - 1])[before.len() as int] == x);
            }
        }
    }
}

/// Every vote of a list is carried by a vote of the list that no other vote of it carries.
pub proof fn lemma_carried_by_kept(votes: Seq<SignedVoteView>, i: int) -> (j: int)
    requires
        0 <= i < votes.len(),
    ensures
        0 <= j < votes.len(),
        !carried_by_another(votes, j),
        votes[j].unpack().contains(votes[i]),
    decreases max_depth(votes) - depth(votes[i]),
{
    lemma_max_depth(votes, i);
    if carried_by_another(votes, i) {
        let k = choose|k: int|
            0 <= k < votes.len() && (#[trigger] votes[k]) != votes[i] && votes[k].unpack().contains(
                votes[i],
            );
        lemma_carried_is_shallower(votes[k], votes[i]);
        lemma_max_depth(votes, k);
        let j = lemma_carried_by_kept(votes, k);
        lemma_carries_transitive(votes[j], votes[k], votes[i]);
        j
    } else {
        i
    }
}

/// Simplifying keeps the meaning of a list of votes: the same propositions, and the same
/// votes once unpacked.
pub proof fn lemma_simplified_keeps_meaning(votes: Seq<SignedVoteView>)
    ensures
        proposals_of(simplified(votes)) == proposals_of(votes),
        unpack_of(simplified(votes)) == unpack_of(votes),
{
    let simple = simplified(votes);
    assert forall|p: Seq<u8>| proposals_of(simple).contains(p) == proposals_of(votes).contains(
        p,
    ) by {
        if proposals_of(simple).contains(p) {
            let j = choose|j: int|
                0 <= j < simple.len() && (#[trigger] simple[j]).proposals().contains(p);
            lemma_kept_below(votes, votes.len(), simple[j]);
        }
        if proposals_of(votes).contains(p) {
            let i = choose|i: int|
                0 <= i < votes.len() && (#[trigger] votes[i]).proposals().contains(p);
            let j = lemma_carried_by_kept(votes, i);
            lemma_carried_proposals(votes[j], votes[i]);
            lemma_kept_below(votes, votes.len(), votes[j]);
        }
    }
    assert forall|u: SignedVoteView| unpack_of(simple).contains(u) == unpack_of(votes).contains(
        u,
    ) by {
        if unpack_of(simple).contains(u) {
            let j = choose|j: int|
                0 <= j < simple.len() && (#[trigger] simple[j]).unpack().contains(u);
            lemma_kept_below(votes, votes.len(), simple[j]);
        }
        if unpack_of(votes).contains(u) {
            let i = choose|i: int| 0 <= i < votes.len() && (#[trigger] votes[i]).unpack().contains(u);
            let j = lemma_carried_by_kept(votes, i);
            lemma_carries_transitive(votes[j], votes[i], u);
            lemma_kept_below(votes, votes.len(), votes[j]);
        }
    }
}

/// What the votes of a longer list propose.
pub proof fn lemma_proposals_of_last(votes: Seq<SignedVoteView>, p: Seq<u8>)
    requires
        votes.len() > 0,
    ensures
        proposals_of(votes).contains(p) == (proposals_of(votes.drop_last()).contains(p)
            || votes.last().proposals().contains(p)),
{
    let prev = votes.drop_last();
    if proposals_of(votes).contains(p) {
        let i = choose|i: int| 0 <= i < votes.len() && (#[trigger] votes[i]).proposals().contains(p);
        if i < prev.len() {
            assert(prev[i].proposals().contains(p));
        }
    }
}

/// Listing the propositions of a vote behind a list without duplicates gives a list
/// without duplicates that holds what the list held and what the vote proposes.
pub proof fn lemma_with_proposals(list: Seq<Seq<u8>>, v: SignedVoteView)
    requires
        list.no_duplicates(),
    ensures
        with_proposals(list, v).no_duplicates(),
        with_proposals(list, v).to_set() == list.to_set().union(v.proposals()),
    decreases v,
{
    match v.vote.ballot {
        BallotView::Propose(p) => {
            if !list.contains(p) {
                assert forall|q: Seq<u8>| list.push(p).to_set().contains(q) == list.to_set().union(
                    v.proposals(),
                ).contains(q) by {
                    if list.contains(q) {
                        let i = choose|i: int| 0 <= i < list.len() && list[i] == q;
                        assert(list.push(p)[i] == q);
                    }
                    if q == p {
                        assert(list.push(p)[list.len() as int] == q);
                    }
                }
            }
        },
        BallotView::Merge(votes) => lemma_with_proposals_of(list, votes),
        BallotView::SuperMajority { votes, .. } => lemma_with_proposals_of(list, votes),
    }
}

/// Listing the propositions of votes behind a list without duplicates gives a list
/// without duplicates that holds what the list held and what the votes propose.
pub proof fn lemma_with_proposals_of(list: Seq<Seq<u8>>, votes: Seq<SignedVoteView>)
    requires
        list.no_duplicates(),
    ensures
        with_proposals_of(list, votes).no_duplicates(),
        with_proposals_of(list, votes).to_set() == list.to_set().union(proposals_of(votes)),
    decreases votes,
{
    if votes.len() > 0 {
        let before = with_proposals_of(list, votes.drop_last());
        lemma_with_proposals_of(list, votes.drop_last());
        lemma_with_proposals(before, votes.last());
        assert forall|p: Seq<u8>| with_proposals_of(list, votes).to_set().contains(p)
            == list.to_set().union(proposals_of(votes)).contains(p) by {
            lemma_proposals_of_last(votes, p);
        }
        assert(with_proposals_of(list, votes).to_set() =~= list.to_set().union(
            proposals_of(votes),
        ));
    }
}

/// The list of a vote's propositions names each proposition of the vote once: which
/// propositions a vote holds does not depend on the order in which it carries its votes.
pub proof fn lemma_proposal_list(v: SignedVoteView)
    ensures
        v.proposal_list().no_duplicates(),
        v.proposal_list().to_set() == v.proposals(),
{
    lemma_with_proposals(Seq::empty(), v);
}

/// A vote unpacks to finitely many votes.
pub proof fn lemma_unpack_finite(v: SignedVoteView)
    ensures
        v.unpack().finite(),
    decreases v,
{
    match v.vote.ballot {
        BallotView::Propose(_) => {},
        BallotView::Merge(votes) => lemma_unpack_of_finite(votes),
        BallotView::SuperMajority { votes, .. } => lemma_unpack_of_finite(votes),
    }
}

/// The votes of a list unpack to finitely many votes.
pub proof fn lemma_unpack_of_finite(votes: Seq<SignedVoteView>)
    ensures
        unpack_of(votes).finite(),
    decreases votes,
{
    if votes.len() == 0 {
        assert(unpack_of(votes) =~= Set::<SignedVoteView>::empty());
    } else {
        lemma_unpack_of_finite(votes.drop_last());
        lemma_unpack_finite(votes.last());
        assert forall|u: SignedVoteView| unpack_of(votes).contains(u) == unpack_of(
            votes.drop_last(),
        ).union(votes.last().unpack()).contains(u) by {
            lemma_unpack_of_last(votes, u);
        }
        assert(unpack_of(votes) =~= unpack_of(votes.drop_last()).union(votes.last().unpack()));
    }
}

} // verus!
