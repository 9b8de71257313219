//! Counting votes by the propositions they stand for.

use vstd::prelude::*;
use vstd::set_lib::{lemma_len_subset, lemma_set_disjoint_lens};
use crate::bytes::{distinct, listed, same_set};
use crate::vote::{listed_votes, NodeId, SignedVote, SignedVoteView};

verus! {

/// The votes of the set that stand for exactly the propositions `p`.
pub open spec fn voting_for(votes: Set<SignedVoteView>, p: Set<Seq<u8>>) -> Set<SignedVoteView> {
    Set::new(|v: SignedVoteView| votes.contains(v) && v.proposals() == p)
}

/// How many votes of the set stand for exactly the propositions `p`.
pub open spec fn tally(votes: Set<SignedVoteView>, p: Set<Seq<u8>>) -> nat {
    voting_for(votes, p).len()
}

/// For every set of propositions that some vote stands for, the number of votes that do.
pub open spec fn vote_counts(votes: Set<SignedVoteView>) -> Map<Set<Seq<u8>>, nat> {
    Map::new(|p: Set<Seq<u8>>| tally(votes, p) > 0, |p: Set<Seq<u8>>| tally(votes, p))
}

/// Whether some member with an id below `k` signed a vote of the set.
pub open spec fn has_voter(votes: Set<SignedVoteView>, w: NodeId) -> bool {
    exists|v: SignedVoteView| votes.contains(v) && v.voter == w
}

/// How many members with an id below `k` signed a vote of the set.
pub open spec fn voters_below(votes: Set<SignedVoteView>, k: nat) -> nat
    decreases k,
{
    if k == 0 {
        0
    } else {
        voters_below(votes, (k - 1) as nat) + if k <= 256 && has_voter(votes, (k - 1) as u8) {
            1nat
        } else {
            0nat
        }
    }
}

/// How many members signed a vote of the set.
pub open spec fn voter_count(votes: Set<SignedVoteView>) -> nat {
    voters_below(votes, 256)
}

/// The members that have not voted, of a committee of `n_elders`.
pub open spec fn remaining_voters(votes: Set<SignedVoteView>, n_elders: nat) -> nat {
    if n_elders >= voter_count(votes) {
        (n_elders - voter_count(votes)) as nat
    } else {
        0
    }
}

/// More than `threshold` votes stand for the same propositions.
pub open spec fn super_majority(votes: Set<SignedVoteView>, threshold: nat) -> bool {
    exists|p: Set<Seq<u8>>| tally(votes, p) > threshold
}

/// More than `threshold` members voted, and no set of propositions can reach a
/// supermajority any more, even if every member that has not voted joins it.
pub open spec fn split_vote(votes: Set<SignedVoteView>, n_elders: nat, threshold: nat) -> bool {
    &&& voter_count(votes) > threshold
    &&& forall|p: Set<Seq<u8>>| #[trigger]
        tally(votes, p) + remaining_voters(votes, n_elders) <= threshold
}

/// The votes of the set that claim a supermajority.
pub open spec fn super_majorities(votes: Set<SignedVoteView>) -> Set<SignedVoteView> {
    Set::new(|v: SignedVoteView| votes.contains(v) && v.vote.ballot is SuperMajority)
}

/// More than `threshold` supermajority claims stand for the same propositions.
pub open spec fn super_majority_over_super_majorities(
    votes: Set<SignedVoteView>,
    threshold: nat,
) -> bool {
    super_majority(super_majorities(votes), threshold)
}

/// One group of a count: a set of propositions and the number of votes that stand for it.
#[derive(Debug)]
pub struct VoteCount {
    pub proposals: Vec<Vec<u8>>,
    pub count: usize,
}

/// The sum of the groups' counts.
pub open spec fn total(counts: Seq<VoteCount>) -> nat
    decreases counts.len(),
{
    if counts.len() == 0 {
        0
    } else {
        total(counts.drop_last()) + counts.last().count as nat
    }
}

/// The groups are the count of the votes: one group for each set of propositions that
/// some vote stands for, holding the number of votes that do.
pub open spec fn counts_match(counts: Seq<VoteCount>, votes: Set<SignedVoteView>) -> bool {
    &&& forall|i: int|
        0 <= i < counts.len() ==> {
            &&& distinct((#[trigger] counts[i]).proposals@)
            &&& counts[i].count >= 1
            &&& counts[i].count == tally(votes, listed(counts[i].proposals@))
        }
    &&& forall|i: int, j: int|
        0 <= i < j < counts.len() ==> listed((#[trigger] counts[i]).proposals@) != listed(
            (#[trigger] counts[j]).proposals@,
        )
    &&& forall|v: SignedVoteView| #[trigger]
        votes.contains(v) ==> exists|i: int|
            0 <= i < counts.len() && listed((#[trigger] counts[i]).proposals@) == v.proposals()
}

/// The groups as a map from sets of propositions to counts.
pub open spec fn counted(counts: Seq<VoteCount>) -> Map<Set<Seq<u8>>, nat> {
    Map::new(
        |p: Set<Seq<u8>>|
            exists|i: int| 0 <= i < counts.len() && listed((#[trigger] counts[i]).proposals@) == p,
        |p: Set<Seq<u8>>|
            counts[choose|i: int|
                0 <= i < counts.len() && listed((#[trigger] counts[i]).proposals@) == p].count as nat,
    )
}

/// A vote that is new to a finite set adds one to the tally of its own propositions and
/// nothing to any other.
pub proof fn lemma_tally_insert(votes: Set<SignedVoteView>, v: SignedVoteView, p: Set<Seq<u8>>)
    requires
        votes.finite(),
        !votes.contains(v),
    ensures
        voting_for(votes, p).finite(),
        tally(votes, p) <= votes.len(),
        tally(votes.insert(v), p) == tally(votes, p) + if v.proposals() == p {
            1nat
        } else {
            0nat
        },
{
    lemma_len_subset(voting_for(votes, p), votes);
    if v.proposals() == p {
        assert(voting_for(votes.insert(v), p) =~= voting_for(votes, p).insert(v));
    } else {
        assert(voting_for(votes.insert(v), p) =~= voting_for(votes, p));
    }
}

/// The tally of a finite set is finite and at most its size; it is positive exactly if
/// some vote of the set stands for the propositions.
pub proof fn lemma_tally_bounds(votes: Set<SignedVoteView>, p: Set<Seq<u8>>)
    requires
        votes.finite(),
    ensures
        voting_for(votes, p).finite(),
        tally(votes, p) <= votes.len(),
        tally(votes, p) > 0 <==> exists|v: SignedVoteView| votes.contains(v) && v.proposals() == p,
{
    lemma_len_subset(voting_for(votes, p), votes);
    if tally(votes, p) > 0 {
        let v = voting_for(votes, p).choose();
        assert(voting_for(votes, p).contains(v));
    }
    if exists|v: SignedVoteView| votes.contains(v) && v.proposals() == p {
        let v = choose|v: SignedVoteView| votes.contains(v) && v.proposals() == p;
        assert(voting_for(votes, p).contains(v));
    }
}

/// What a list holds once one more of its votes is taken in.
pub proof fn lemma_listed_step(list: Seq<SignedVote>, i: int)
    requires
        0 <= i < list.len(),
    ensures
        listed_votes(list.take(i + 1)) == listed_votes(list.take(i)).insert(list[i]@),
{
    let next = list.take(i + 1);
    let prev = list.take(i);
    assert forall|u: SignedVoteView|
        listed_votes(next).contains(u) == listed_votes(prev).insert(list[i]@).contains(u) by {
        if u == list[i]@ {
            assert(next[i]@ == u);
        }
    }
}

/// A list holds finitely many votes, no more than it is long.
pub proof fn lemma_listed_finite(list: Seq<SignedVote>)
    ensures
        listed_votes(list).finite(),
        listed_votes(list).len() <= list.len(),
    decreases list.len(),
{
    if list.len() == 0 {
        assert(listed_votes(list) =~= Set::<SignedVoteView>::empty());
    } else {
        let i = list.len() - 1;
        lemma_listed_finite(list.take(i));
        lemma_listed_step(list, i);
        assert(list.take(i + 1) =~= list);
    }
}

/// Adding a group adds its count to the total.
pub proof fn lemma_total_push(counts: Seq<VoteCount>, group: VoteCount)
    ensures
        total(counts.push(group)) == total(counts) + group.count,
{
    assert(counts.push(group).drop_last() =~= counts);
}

/// Replacing a group changes the total by the difference of the counts.
pub proof fn lemma_total_update(counts: Seq<VoteCount>, g: int, group: VoteCount)
    requires
        0 <= g < counts.len(),
    ensures
        total(counts.update(g, group)) == total(counts) - counts[g].count + group.count,
    decreases counts.len(),
{
    let updated = counts.update(g, group);
    if g == counts.len() - 1 {
        assert(updated.drop_last() =~= counts.drop_last());
    } else {
        lemma_total_update(counts.drop_last(), g, group);
        assert(updated.drop_last() =~= counts.drop_last().update(g, group));
    }
}

/// Groups that match a finite set of votes are its count as a map.
pub proof fn lemma_counted(counts: Seq<VoteCount>, votes: Set<SignedVoteView>)
    requires
        votes.finite(),
        counts_match(counts, votes),
    ensures
        counted(counts) == vote_counts(votes),
{
    assert forall|p: Set<Seq<u8>>| counted(counts).dom().contains(p) == vote_counts(
        votes,
    ).dom().contains(p) by {
        lemma_tally_bounds(votes, p);
    }
}

/// Whether the vote at `i` also stands earlier in the list.
pub fn seen_before(votes: &Vec<SignedVote>, i: usize) -> (r: bool)
    requires
        i < votes.len(),
    ensures
        r == listed_votes(votes@.take(i as int)).contains(votes@[i as int]@),
{
    let ghost prev = votes@.take(i as int);
    let mut j: usize = 0;
    while j < i
        invariant
            j <= i < votes.len(),
            prev == votes@.take(i as int),
            forall|k: int| 0 <= k < j ==> (#[trigger] prev[k])@ != votes@[i as int]@,
        decreases i - j,
    {
        if votes[j].same(&votes[i]) {
            assert(prev[j as int]@ == votes@[i as int]@);
            return true;
        }
        j += 1;
    }
    false
}

/// The index of the group for the propositions, if there is one.
pub fn find_group(counts: &Vec<VoteCount>, proposals: &Vec<Vec<u8>>) -> (r: Option<usize>)
    ensures
        match r {
            Some(g) => g < counts.len() && listed(counts@[g as int].proposals@) == listed(
                proposals@,
            ),
            None => forall|j: int|
                0 <= j < counts.len() ==> listed((#[trigger] counts@[j]).proposals@) != listed(
                    proposals@,
                ),
        },
{
    let mut g: usize = 0;
    while g < counts.len()
        invariant
            g <= counts.len(),
            forall|j: int|
                0 <= j < g ==> listed((#[trigger] counts@[j]).proposals@) != listed(proposals@),
        decreases counts.len() - g,
    {
        if same_set(&counts[g].proposals, proposals) {
            return Some(g);
        }
        g += 1;
    }
    None
}

/// Groups the votes by the propositions they stand for and counts each group. A vote that
/// is listed more than once counts once.
pub fn count_votes(votes: &Vec<SignedVote>) -> (r: Vec<VoteCount>)
    ensures
        counts_match(r@, listed_votes(votes@)),
        counted(r@) == vote_counts(listed_votes(votes@)),
        total(r@) == listed_votes(votes@).len(),
{
    let mut counts: Vec<VoteCount> = Vec::new();
    let mut i: usize = 0;
    proof {
        lemma_listed_finite(votes@.take(0));
    }
    while i < votes.len()
        invariant
            i <= votes.len(),
            listed_votes(votes@.take(i as int)).finite(),
            listed_votes(votes@.take(i as int)).len() <= i,
            counts_match(counts@, listed_votes(votes@.take(i as int))),
            total(counts@) == listed_votes(votes@.take(i as int)).len(),
        decreases votes.len() - i,
    {
        let ghost seen = listed_votes(votes@.take(i as int));
        let ghost x = votes@[i as int]@;
        let ghost before = counts@;
        proof {
            lemma_listed_step(votes@, i as int);
        }
        if !seen_before(votes, i) {
            let proposals = votes[i].proposals();
            let ghost p = listed(proposals@);
            proof {
                lemma_tally_bounds(seen, p);
                lemma_tally_insert(seen, x, p);
                assert forall|j: int| 0 <= j < before.len() implies tally(
                    seen.insert(x),
                    listed((#[trigger] before[j]).proposals@),
                ) == before[j].count + if listed(before[j].proposals@) == p {
                    1nat
                } else {
                    0nat
                } by {
                    lemma_tally_insert(seen, x, listed(before[j].proposals@));
                }
            }
            match find_group(&counts, &proposals) {
                Some(g) => {
                    let group = counts.remove(g);
                    let more = VoteCount { proposals: group.proposals, count: group.count + 1 };
                    counts.insert(g, more);
                    proof {
                        assert(counts@ =~= before.update(g as int, more));
                        lemma_total_update(before, g as int, more);
                        assert forall|v: SignedVoteView| #[trigger]
                            seen.insert(x).contains(v) implies exists|j: int|
                            0 <= j < counts@.len() && listed((#[trigger] counts@[j]).proposals@)
                                == v.proposals() by {
                            if v == x {
                                assert(listed(counts@[g as int].proposals@) == v.proposals());
                            } else {
                                let j = choose|j: int|
                                    0 <= j < before.len() && listed(
                                        (#[trigger] before[j]).proposals@,
                                    ) == v.proposals();
                                assert(listed(counts@[j].proposals@) == v.proposals());
                            }
                        }
                        assert forall|j: int, k: int| 0 <= j < k < counts@.len() implies listed(
                            (#[trigger] counts@[j]).proposals@,
                        ) != listed((#[trigger] counts@[k]).proposals@) by {}
                        assert forall|j: int| 0 <= j < counts@.len() implies {
                            &&& distinct((#[trigger] counts@[j]).proposals@)
                            &&& counts@[j].count >= 1
                            &&& counts@[j].count == tally(
                                seen.insert(x),
                                listed(counts@[j].proposals@),
                            )
                        } by {}
                    }
                },
                None => {
                    let fresh = VoteCount { proposals, count: 1 };
                    counts.push(fresh);
                    proof {
                        lemma_total_push(before, fresh);
                        assert forall|v: SignedVoteView| #[trigger]
                            seen.insert(x).contains(v) implies exists|j: int|
                            0 <= j < counts@.len() && listed((#[trigger] counts@[j]).proposals@)
                                == v.proposals() by {
                            if v == x {
                                assert(listed(counts@[before.len() as int].proposals@)
                                    == v.proposals());
                            } else {
                                let j = choose|j: int|
                                    0 <= j < before.len() && listed(
                                        (#[trigger] before[j]).proposals@,
                                    ) == v.proposals();
                                assert(listed(counts@[j].proposals@) == v.proposals());
                            }
                        }
                        assert forall|j: int| 0 <= j < counts@.len() implies {
                            &&& distinct((#[trigger] counts@[j]).proposals@)
                            &&& counts@[j].count >= 1
                            &&& counts@[j].count == tally(
                                seen.insert(x),
                                listed(counts@[j].proposals@),
                            )
                        } by {}
                    }
                },
            }
        } else {
            assert(seen.insert(x) =~= seen);
        }
        i += 1;
    }
    proof {
        assert(votes@.take(votes.len() as int) =~= votes@);
        lemma_counted(counts@, listed_votes(votes@));
    }
    counts
}

/// The count of the largest group; zero where there is none.
pub fn most_votes(counts: &Vec<VoteCount>) -> (m: usize)
    ensures
        forall|i: int| 0 <= i < counts.len() ==> (#[trigger] counts@[i]).count <= m,
        counts.len() == 0 ==> m == 0,
        counts.len() > 0 ==> exists|i: int| 0 <= i < counts.len() && (#[trigger] counts@[i]).count == m,
{
    let mut m: usize = 0;
    let mut i: usize = 0;
    while i < counts.len()
        invariant
            i <= counts.len(),
            forall|j: int| 0 <= j < i ==> (#[trigger] counts@[j]).count <= m,
            i == 0 ==> m == 0,
            i > 0 ==> exists|j: int| 0 <= j < i && (#[trigger] counts@[j]).count == m,
        decreases counts.len() - i,
    {
        if i == 0 || counts[i].count > m {
            m = counts[i].count;
        }
        i += 1;
    }
    m
}

/// Whether the member signed a vote of the list.
pub fn has_vote_of(votes: &Vec<SignedVote>, w: NodeId) -> (r: bool)
    ensures
        r == has_voter(listed_votes(votes@), w),
{
    let mut i: usize = 0;
    while i < votes.len()
        invariant
            i <= votes.len(),
            forall|j: int| 0 <= j < i ==> (#[trigger] votes@[j]).voter != w,
        decreases votes.len() - i,
    {
        if votes[i].voter == w {
            assert(listed_votes(votes@).contains(votes@[i as int]@));
            return true;
        }
        i += 1;
    }
    false
}

/// How many members signed a vote of the list.
pub fn count_voters(votes: &Vec<SignedVote>) -> (r: usize)
    ensures
        r == voter_count(listed_votes(votes@)),
        r <= 256,
{
    let mut n: usize = 0;
    let mut k: usize = 0;
    while k < 256
        invariant
            k <= 256,
            n <= k,
            n == voters_below(listed_votes(votes@), k as nat),
        decreases 256 - k,
    {
        if has_vote_of(votes, k as u8) {
            n += 1;
        }
        k += 1;
    }
    n
}

/// The largest count of the groups is the largest tally, and some set of propositions
/// has it.
pub proof fn lemma_most_votes(counts: Seq<VoteCount>, votes: Set<SignedVoteView>, m: usize)
    requires
        votes.finite(),
        counts_match(counts, votes),
        forall|i: int| 0 <= i < counts.len() ==> (#[trigger] counts[i]).count <= m,
        counts.len() == 0 ==> m == 0,
        counts.len() > 0 ==> exists|i: int| 0 <= i < counts.len() && (#[trigger] counts[i]).count == m,
    ensures
        forall|p: Set<Seq<u8>>| #[trigger] tally(votes, p) <= m,
        exists|p: Set<Seq<u8>>| tally(votes, p) == m,
{
    assert forall|p: Set<Seq<u8>>| #[trigger] tally(votes, p) <= m by {
        lemma_tally_bounds(votes, p);
    }
    if counts.len() == 0 {
        let p = Set::<Seq<u8>>::empty();
        lemma_tally_bounds(votes, p);
    }
}

/// Copies of the votes of the list that claim a supermajority.
pub fn only_super_majorities(votes: &Vec<SignedVote>) -> (r: Vec<SignedVote>)
    ensures
        listed_votes(r@) == super_majorities(listed_votes(votes@)),
{
    let mut r: Vec<SignedVote> = Vec::new();
    let mut i: usize = 0;
    while i < votes.len()
        invariant
            i <= votes.len(),
            forall|j: int| 0 <= j < r.len() ==> (#[trigger] r@[j])@.vote.ballot is SuperMajority,
            forall|j: int|
                0 <= j < r.len() ==> listed_votes(votes@).contains((#[trigger] r@[j])@),
            forall|j: int|
                0 <= j < i && (#[trigger] votes@[j])@.vote.ballot is SuperMajority ==> listed_votes(
                    r@,
                ).contains(votes@[j]@),
        decreases votes.len() - i,
    {
        if votes[i].vote.is_super_majority_ballot() {
            let ghost before = r@;
            r.push(votes[i].duplicate());
            proof {
                assert(r@[before.len() as int]@ == votes@[i as int]@);
                assert forall|j: int|
                    0 <= j <= i && (#[trigger] votes@[j])@.vote.ballot is SuperMajority implies listed_votes(
                    r@,
                ).contains(votes@[j]@) by {
                    if j < i {
                        let k = choose|k: int|
                            0 <= k < before.len() && (#[trigger] before[k])@ == votes@[j]@;
                        assert(r@[k]@ == votes@[j]@);
                    }
                }
            }
        }
        i += 1;
    }
    proof {
        assert forall|u: SignedVoteView| listed_votes(r@).contains(u) == super_majorities(
            listed_votes(votes@),
        ).contains(u) by {}
    }
    r
}

/// The counts of the groups sum to the number of votes counted.
pub proof fn lemma_counts_sum(counts: Seq<VoteCount>, votes: Set<SignedVoteView>)
    requires
        votes.finite(),
        counts_match(counts, votes),
    ensures
        total(counts) == votes.len(),
    decreases counts.len(),
{
    if counts.len() == 0 {
        if votes.len() > 0 {
            let v = votes.choose();
            assert(votes.contains(v));
        }
    } else {
        let k = counts.len() - 1;
        let key = listed(counts[k].proposals@);
        let group = voting_for(votes, key);
        let rest = votes.difference(group);
        let fewer = counts.drop_last();
        lemma_len_subset(group, votes);
        lemma_len_subset(rest, votes);
        assert forall|i: int| 0 <= i < fewer.len() implies (#[trigger] fewer[i]).count == tally(
            rest,
            listed(fewer[i].proposals@),
        ) by {
            assert(voting_for(rest, listed(fewer[i].proposals@)) =~= voting_for(
                votes,
                listed(fewer[i].proposals@),
            ));
        }
        assert forall|v: SignedVoteView| #[trigger] rest.contains(v) implies exists|i: int|
            0 <= i < fewer.len() && listed((#[trigger] fewer[i]).proposals@) == v.proposals() by {
            let i = choose|i: int|
                0 <= i < counts.len() && listed((#[trigger] counts[i]).proposals@) == v.proposals();
            assert(listed(fewer[i].proposals@) == v.proposals());
        }
        assert(counts_match(fewer, rest)) by {
            assert forall|i: int, j: int| 0 <= i < j < fewer.len() implies listed(
                (#[trigger] fewer[i]).proposals@,
            ) != listed((#[trigger] fewer[j]).proposals@) by {}
            assert forall|i: int| 0 <= i < fewer.len() implies {
                &&& distinct((#[trigger] fewer[i]).proposals@)
                &&& fewer[i].count >= 1
            } by {}
        }
        lemma_counts_sum(fewer, rest);
        lemma_set_disjoint_lens(rest, group);
        assert(rest + group =~= votes);
    }
}

/// A split vote and a supermajority exclude one another.
pub proof fn lemma_split_vote_excludes_super_majority(
    votes: Set<SignedVoteView>,
    n_elders: nat,
    threshold: nat,
)
    ensures
        !(split_vote(votes, n_elders, threshold) && super_majority(votes, threshold)),
{
}

/// Among more votes, no fewer stand for a set of propositions.
pub proof fn lemma_tally_grows(
    fewer: Set<SignedVoteView>,
    more: Set<SignedVoteView>,
    p: Set<Seq<u8>>,
)
    requires
        fewer.subset_of(more),
        more.finite(),
    ensures
        tally(fewer, p) <= tally(more, p),
{
    lemma_len_subset(voting_for(more, p), more);
    lemma_len_subset(voting_for(fewer, p), voting_for(more, p));
}

} // verus!
