//! Votes, ballots and the operations derived from them.

use vstd::prelude::*;
use crate::bytes::{
    add_unique, bytes_copy, bytes_eq, distinct, is_subset, items, listed, with_item,
};

verus! {

/// Identity of a committee member.
pub type NodeId = u8;

/// Round counter.
pub type Generation = u64;

/// A witness as a value: see [`Witness`].
pub struct WitnessView {
    pub proposal: Seq<u8>,
    pub signer: NodeId,
    pub sig: Seq<u8>,
}

/// A ballot as a value: see [`Ballot`].
pub enum BallotView {
    Propose(Seq<u8>),
    Merge(Seq<SignedVoteView>),
    SuperMajority { votes: Seq<SignedVoteView>, proposals: Seq<WitnessView> },
}

/// A vote as a value: see [`Vote`].
pub struct VoteView {
    pub gen: Generation,
    pub ballot: BallotView,
}

/// A signed vote as a value: see [`SignedVote`].
pub struct SignedVoteView {
    pub voter: NodeId,
    pub sig: Seq<u8>,
    pub vote: VoteView,
}

/// A member's signature share over one proposition.
#[derive(Debug)]
pub struct Witness {
    /// The proposition, as its bytes.
    pub proposal: Vec<u8>,
    /// The member that signed.
    pub signer: NodeId,
    /// The bytes of the signature share.
    pub sig: Vec<u8>,
}

/// What a vote says.
#[derive(Debug)]
pub enum Ballot {
    /// One proposition, as its bytes.
    Propose(Vec<u8>),
    /// Votes of the same generation, brought together to reconcile diverging views.
    Merge(Vec<SignedVote>),
    /// The claim that the votes hold a supermajority, with a witness for each proposition.
    SuperMajority { votes: Vec<SignedVote>, proposals: Vec<Witness> },
}

/// A ballot for a generation.
#[derive(Debug)]
pub struct Vote {
    pub gen: Generation,
    pub ballot: Ballot,
}

/// A vote with the member that cast it and that member's signature share over it.
#[derive(Debug)]
pub struct SignedVote {
    pub voter: NodeId,
    /// The bytes of the signature share over the vote's encoding.
    pub sig: Vec<u8>,
    pub vote: Vote,
}

impl View for Witness {
    type V = WitnessView;

    open spec fn view(&self) -> WitnessView {
        WitnessView { proposal: self.proposal@, signer: self.signer, sig: self.sig@ }
    }
}

/// The votes of a list as values.
pub open spec fn votes_view(votes: Seq<SignedVote>) -> Seq<SignedVoteView>
    decreases votes,
{
    Seq::new(votes.len(), |i: int| if 0 <= i < votes.len() { votes[i]@ } else { arbitrary() })
}

impl View for Ballot {
    type V = BallotView;

    open spec fn view(&self) -> BallotView
        decreases self,
    {
        match self {
            Ballot::Propose(p) => BallotView::Propose(p@),
            Ballot::Merge(votes) => BallotView::Merge(votes_view(votes@)),
            Ballot::SuperMajority { votes, proposals } => BallotView::SuperMajority {
                votes: votes_view(votes@),
                proposals: witnesses_view(proposals@),
            },
        }
    }
}

impl View for Vote {
    type V = VoteView;

    open spec fn view(&self) -> VoteView
        decreases self,
    {
        VoteView { gen: self.gen, ballot: self.ballot@ }
    }
}

impl View for SignedVote {
    type V = SignedVoteView;

    open spec fn view(&self) -> SignedVoteView
        decreases self,
    {
        SignedVoteView { voter: self.voter, sig: self.sig@, vote: self.vote@ }
    }
}

impl BallotView {
    /// The votes a ballot carries: none for a proposal.
    pub open spec fn children(self) -> Seq<SignedVoteView> {
        match self {
            BallotView::Propose(_) => Seq::empty(),
            BallotView::Merge(votes) => votes,
            BallotView::SuperMajority { votes, .. } => votes,
        }
    }
}

impl SignedVoteView {
    /// The votes that the vote carries directly.
    pub open spec fn children(self) -> Seq<SignedVoteView> {
        self.vote.ballot.children()
    }

    /// The propositions of the vote, each once, in the order in which the vote reaches
    /// them.
    pub open spec fn proposal_list(self) -> Seq<Seq<u8>> {
        with_proposals(Seq::empty(), self)
    }

    /// Every proposition reachable from this vote, down to its leaves.
    pub open spec fn proposals(self) -> Set<Seq<u8>>
        decreases self,
    {
        match self.vote.ballot {
            BallotView::Propose(p) => set![p],
            BallotView::Merge(votes) => proposals_of(votes),
            BallotView::SuperMajority { votes, .. } => proposals_of(votes),
        }
    }

    /// This vote together with every vote it carries, at any depth.
    pub open spec fn unpack(self) -> Set<SignedVoteView>
        decreases self,
    {
        match self.vote.ballot {
            BallotView::Propose(_) => set![self],
            BallotView::Merge(votes) => unpack_of(votes).insert(self),
            BallotView::SuperMajority { votes, .. } => unpack_of(votes).insert(self),
        }
    }

    /// Whether this vote is at least as advanced as `other`: it is `other`, it merges a
    /// vote that is, or it claims a supermajority over every proposition `other` knows.
    pub open spec fn supersedes(self, other: SignedVoteView) -> bool
        decreases self,
    {
        self == other || match self.vote.ballot {
            BallotView::Propose(_) => false,
            BallotView::Merge(votes) => any_supersedes(votes, other),
            BallotView::SuperMajority { .. } => other.proposals().subset_of(self.proposals()),
        }
    }
}

/// The list with the propositions of the vote that it does not hold yet, in the order in
/// which the vote reaches them.
pub open spec fn with_proposals(list: Seq<Seq<u8>>, v: SignedVoteView) -> Seq<Seq<u8>>
    decreases v,
{
    match v.vote.ballot {
        BallotView::Propose(p) => with_item(list, p),
        BallotView::Merge(votes) => with_proposals_of(list, votes),
        BallotView::SuperMajority { votes, .. } => with_proposals_of(list, votes),
    }
}

/// The list with the propositions of the votes that it does not hold yet, vote by vote.
pub open spec fn with_proposals_of(list: Seq<Seq<u8>>, votes: Seq<SignedVoteView>) -> Seq<
    Seq<u8>,
>
    decreases votes,
{
    if votes.len() == 0 {
        list
    } else {
        with_proposals(with_proposals_of(list, votes.drop_last()), votes.last())
    }
}

/// The propositions of the votes, each once, in the order in which the votes reach them.
pub open spec fn proposal_list_of(votes: Seq<SignedVoteView>) -> Seq<Seq<u8>> {
    with_proposals_of(Seq::empty(), votes)
}

/// Propositions of a list of votes, taken together.
pub open spec fn proposals_of(votes: Seq<SignedVoteView>) -> Set<Seq<u8>>
    decreases votes,
{
    Set::new(
        |p: Seq<u8>|
            exists|i: int| 0 <= i < votes.len() && (#[trigger] votes[i]).proposals().contains(p),
    )
}

/// Whether one vote of the list supersedes `other`.
pub open spec fn any_supersedes(votes: Seq<SignedVoteView>, other: SignedVoteView) -> bool
    decreases votes,
{
    exists|i: int| 0 <= i < votes.len() && (#[trigger] votes[i]).supersedes(other)
}

/// Everything a list of votes unpacks to.
pub open spec fn unpack_of(votes: Seq<SignedVoteView>) -> Set<SignedVoteView>
    decreases votes,
{
    Set::new(
        |u: SignedVoteView|
            exists|i: int| 0 <= i < votes.len() && (#[trigger] votes[i]).unpack().contains(u),
    )
}

/// The votes that a list holds, as a set.
pub open spec fn listed_votes(list: Seq<SignedVote>) -> Set<SignedVoteView> {
    Set::new(|u: SignedVoteView| exists|i: int| 0 <= i < list.len() && (#[trigger] list[i])@ == u)
}

/// No vote occurs twice in the list.
pub open spec fn distinct_votes(list: Seq<SignedVote>) -> bool {
    forall|i: int, j: int| 0 <= i < j < list.len() ==> (#[trigger] list[i])@ != (#[trigger] list[j])@
}

/// Whether another, different vote of the list carries the vote at `i`.
pub open spec fn carried_by_another(votes: Seq<SignedVoteView>, i: int) -> bool {
    exists|j: int|
        0 <= j < votes.len() && (#[trigger] votes[j]) != votes[i] && votes[j].unpack().contains(
            votes[i],
        )
}

/// The first `k` votes of the list without those that another vote of the list carries.
pub open spec fn kept_below(votes: Seq<SignedVoteView>, k: nat) -> Seq<SignedVoteView>
    decreases k,
{
    if k == 0 {
        Seq::empty()
    } else {
        let before = kept_below(votes, (k - 1) as nat);
        if carried_by_another(votes, k - 1) {
            before
        } else {
            before.push(votes[k - 1])
        }
    }
}

/// The list without the votes that another vote of the list carries.
pub open spec fn simplified(votes: Seq<SignedVoteView>) -> Seq<SignedVoteView> {
    kept_below(votes, votes.len())
}

impl BallotView {
    /// The ballot in its simplest form: no vote of it is carried by another.
    pub open spec fn simplify(self) -> BallotView {
        match self {
            BallotView::Propose(p) => self,
            BallotView::Merge(votes) => BallotView::Merge(simplified(votes)),
            BallotView::SuperMajority { votes, proposals } => BallotView::SuperMajority {
                votes: simplified(votes),
                proposals,
            },
        }
    }
}

/// The witnesses of a list as values.
pub open spec fn witnesses_view(ws: Seq<Witness>) -> Seq<WitnessView> {
    Seq::new(ws.len(), |i: int| ws[i]@)
}

impl Witness {
    /// Whether the two witnesses are equal, field by field.
    pub fn same(&self, other: &Witness) -> (r: bool)
        ensures
            r == (self@ == other@),
    {
        self.signer == other.signer && bytes_eq(&self.proposal, &other.proposal) && bytes_eq(
            &self.sig,
            &other.sig,
        )
    }
}

/// Whether the two lists hold equal witnesses in the same order.
pub fn witnesses_same(a: &Vec<Witness>, b: &Vec<Witness>) -> (r: bool)
    ensures
        r == (witnesses_view(a@) == witnesses_view(b@)),
{
    if a.len() != b.len() {
        assert(witnesses_view(a@).len() != witnesses_view(b@).len());
        return false;
    }
    let mut i: usize = 0;
    while i < a.len()
        invariant
            i <= a.len(),
            a.len() == b.len(),
            forall|j: int| 0 <= j < i ==> a@[j]@ == b@[j]@,
        decreases a.len() - i,
    {
        if !a[i].same(&b[i]) {
            assert(witnesses_view(a@)[i as int] != witnesses_view(b@)[i as int]);
            return false;
        }
        i += 1;
    }
    assert(witnesses_view(a@) =~= witnesses_view(b@));
    true
}

/// Whether the two lists hold equal votes in the same order.
pub fn votes_same(a: &Vec<SignedVote>, b: &Vec<SignedVote>) -> (r: bool)
    ensures
        r == (votes_view(a@) == votes_view(b@)),
    decreases a,
{
    if a.len() != b.len() {
        assert(votes_view(a@).len() != votes_view(b@).len());
        return false;
    }
    let mut i: usize = 0;
    while i < a.len()
        invariant
            i <= a.len(),
            a.len() == b.len(),
            forall|j: int| 0 <= j < i ==> a@[j]@ == b@[j]@,
        decreases a.len() - i,
    {
        if !a[i].same(&b[i]) {
            assert(votes_view(a@)[i as int] != votes_view(b@)[i as int]);
            return false;
        }
        i += 1;
    }
    assert(votes_view(a@) =~= votes_view(b@));
    true
}

impl Ballot {
    /// Whether the two ballots are equal: same kind, same contents in the same order.
    pub fn same(&self, other: &Ballot) -> (r: bool)
        ensures
            r == (self@ == other@),
        decreases self,
    {
        match (self, other) {
            (Ballot::Propose(a), Ballot::Propose(b)) => bytes_eq(a, b),
            (Ballot::Merge(a), Ballot::Merge(b)) => votes_same(a, b),
            (
                Ballot::SuperMajority { votes: a, proposals: pa },
                Ballot::SuperMajority { votes: b, proposals: pb },
            ) => {
                let r = votes_same(a, b) && witnesses_same(pa, pb);
                r
            },
            _ => false,
        }
    }
}

impl Vote {
    /// Whether the two votes are equal: same generation, same ballot.
    pub fn same(&self, other: &Vote) -> (r: bool)
        ensures
            r == (self@ == other@),
        decreases self,
    {
        self.gen == other.gen && self.ballot.same(&other.ballot)
    }
}

impl SignedVote {
    /// Structural equality: same voter, same signature bytes, same vote.
    pub fn same(&self, other: &SignedVote) -> (r: bool)
        ensures
            r == (self@ == other@),
        decreases self,
    {
        self.voter == other.voter && bytes_eq(&self.sig, &other.sig) && self.vote.same(&other.vote)
    }
}

impl Witness {
    /// A deep copy.
    pub fn duplicate(&self) -> (r: Witness)
        ensures
            r@ == self@,
    {
        Witness {
            proposal: bytes_copy(&self.proposal),
            signer: self.signer,
            sig: bytes_copy(&self.sig),
        }
    }
}

/// A deep copy of the list.
pub fn witnesses_copy(a: &Vec<Witness>) -> (r: Vec<Witness>)
    ensures
        witnesses_view(r@) == witnesses_view(a@),
{
    let mut r: Vec<Witness> = Vec::new();
    let mut i: usize = 0;
    while i < a.len()
        invariant
            i <= a.len(),
            r@.len() == i,
            forall|j: int| 0 <= j < i ==> r@[j]@ == a@[j]@,
        decreases a.len() - i,
    {
        r.push(a[i].duplicate());
        i += 1;
    }
    r
}

/// A deep copy of the list.
pub fn votes_copy(a: &Vec<SignedVote>) -> (r: Vec<SignedVote>)
    ensures
        votes_view(r@) == votes_view(a@),
    decreases a,
{
    let mut r: Vec<SignedVote> = Vec::new();
    let mut i: usize = 0;
    while i < a.len()
        invariant
            i <= a.len(),
            r@.len() == i,
            forall|j: int| 0 <= j < i ==> r@[j]@ == a@[j]@,
        decreases a.len() - i,
    {
        r.push(a[i].duplicate());
        i += 1;
    }
    r
}

impl Ballot {
    /// A deep copy.
    pub fn duplicate(&self) -> (r: Ballot)
        ensures
            r@ == self@,
        decreases self,
    {
        match self {
            Ballot::Propose(p) => Ballot::Propose(bytes_copy(p)),
            Ballot::Merge(votes) => Ballot::Merge(votes_copy(votes)),
            Ballot::SuperMajority { votes, proposals } => Ballot::SuperMajority {
                votes: votes_copy(votes),
                proposals: witnesses_copy(proposals),
            },
        }
    }
}

impl Vote {
    /// A deep copy.
    pub fn duplicate(&self) -> (r: Vote)
        ensures
            r@ == self@,
        decreases self,
    {
        Vote { gen: self.gen, ballot: self.ballot.duplicate() }
    }

    /// Whether the vote claims a supermajority.
    pub fn is_super_majority_ballot(&self) -> (r: bool)
        ensures
            r == (self@.ballot is SuperMajority),
    {
        match &self.ballot {
            Ballot::SuperMajority { .. } => true,
            _ => false,
        }
    }
}

impl SignedVote {
    /// A deep copy.
    pub fn duplicate(&self) -> (r: SignedVote)
        ensures
            r@ == self@,
        decreases self,
    {
        SignedVote { voter: self.voter, sig: bytes_copy(&self.sig), vote: self.vote.duplicate() }
    }

    /// The propositions reachable from this vote, each listed once.
    pub fn proposals(&self) -> (r: Vec<Vec<u8>>)
        ensures
            items(r@) == self@.proposal_list(),
            listed(r@) == self@.proposals(),
            distinct(r@),
    {
        let mut acc: Vec<Vec<u8>> = Vec::new();
        assert(items(acc@) =~= Seq::<Seq<u8>>::empty());
        self.add_proposals(&mut acc);
        acc
    }

    /// Adds the propositions reachable from this vote to `acc`.
    pub fn add_proposals(&self, acc: &mut Vec<Vec<u8>>)
        ensures
            distinct(old(acc)@) ==> distinct(final(acc)@),
            listed(final(acc)@) == listed(old(acc)@).union(self@.proposals()),
            items(final(acc)@) == with_proposals(items(old(acc)@), self@),
        decreases self,
    {
        match &self.vote.ballot {
            Ballot::Propose(p) => {
                add_unique(acc, p);
            },
            Ballot::Merge(votes) => add_proposals_of(votes, acc),
            Ballot::SuperMajority { votes, .. } => add_proposals_of(votes, acc),
        }
    }

    /// Whether this vote is at least as advanced as `other`.
    pub fn supersedes(&self, other: &SignedVote) -> (r: bool)
        ensures
            r == self@.supersedes(other@),
        decreases self,
    {
        if self.same(other) {
            return true;
        }
        match &self.vote.ballot {
            Ballot::Propose(_) => false,
            Ballot::Merge(votes) => any_vote_supersedes(votes, other),
            Ballot::SuperMajority { .. } => {
                let mine = self.proposals();
                let theirs = other.proposals();
                is_subset(&theirs, &mine)
            },
        }
    }
}

/// Adds the propositions reachable from each vote of the list to `acc`.
pub fn add_proposals_of(votes: &Vec<SignedVote>, acc: &mut Vec<Vec<u8>>)
    ensures
        distinct(old(acc)@) ==> distinct(final(acc)@),
        listed(final(acc)@) == listed(old(acc)@).union(proposals_of(votes_view(votes@))),
        items(final(acc)@) == with_proposals_of(items(old(acc)@), votes_view(votes@)),
    decreases votes,
{
    let ghost all = votes_view(votes@);
    let mut i: usize = 0;
    while i < votes.len()
        invariant
            i <= votes.len(),
            all == votes_view(votes@),
            distinct(old(acc)@) ==> distinct(acc@),
            listed(acc@) == listed(old(acc)@).union(proposals_of(all.take(i as int))),
            items(acc@) == with_proposals_of(items(old(acc)@), all.take(i as int)),
        decreases votes.len() - i,
    {
        votes[i].add_proposals(acc);
        proof {
            let next = all.take(i + 1);
            let prev = all.take(i as int);
            assert(next.drop_last() =~= prev);
            assert forall|p: Seq<u8>|
                proposals_of(next).contains(p) == (proposals_of(prev).contains(p)
                    || all[i as int].proposals().contains(p)) by {
                if all[i as int].proposals().contains(p) {
                    assert(next[i as int].proposals().contains(p));
                }
            }
        }
        i += 1;
    }
    assert(all.take(votes.len() as int) =~= all);
}

/// Whether one vote of the list supersedes `other`.
pub fn any_vote_supersedes(votes: &Vec<SignedVote>, other: &SignedVote) -> (r: bool)
    ensures
        r == any_supersedes(votes_view(votes@), other@),
    decreases votes,
{
    let mut i: usize = 0;
    while i < votes.len()
        invariant
            i <= votes.len(),
            forall|j: int| 0 <= j < i ==> !(#[trigger] votes_view(votes@)[j]).supersedes(other@),
        decreases votes.len() - i,
    {
        if votes[i].supersedes(other) {
            assert(votes_view(votes@)[i as int].supersedes(other@));
            return true;
        }
        i += 1;
    }
    false
}

/// Whether the list holds the vote.
pub fn holds_vote(list: &Vec<SignedVote>, x: &SignedVote) -> (r: bool)
    ensures
        r == listed_votes(list@).contains(x@),
{
    let mut i: usize = 0;
    while i < list.len()
        invariant
            i <= list.len(),
            forall|j: int| 0 <= j < i ==> (#[trigger] list@[j])@ != x@,
        decreases list.len() - i,
    {
        if list[i].same(x) {
            return true;
        }
        i += 1;
    }
    false
}

/// Adds a copy of the vote unless the list holds it already.
pub fn add_unique_vote(list: &mut Vec<SignedVote>, x: &SignedVote)
    ensures
        distinct_votes(old(list)@) ==> distinct_votes(final(list)@),
        listed_votes(final(list)@) == listed_votes(old(list)@).insert(x@),
{
    if !holds_vote(list, x) {
        let ghost before = list@;
        list.push(x.duplicate());
        assert forall|u: SignedVoteView|
            listed_votes(list@).contains(u) == listed_votes(before).insert(x@).contains(u) by {
            if listed_votes(before).contains(u) {
                let i = choose|i: int| 0 <= i < before.len() && (#[trigger] before[i])@ == u;
                assert(list@[i]@ == u);
            }
            if u == x@ {
                assert(list@[before.len() as int]@ == u);
            }
        }
    }
}

/// What unpacking a longer prefix of a list adds.
pub proof fn lemma_unpack_of_step(all: Seq<SignedVoteView>, i: int)
    requires
        0 <= i < all.len(),
    ensures
        unpack_of(all.take(i + 1)) == unpack_of(all.take(i)).union(all[i].unpack()),
{
    let next = all.take(i + 1);
    let prev = all.take(i);
    assert forall|u: SignedVoteView|
        unpack_of(next).contains(u) == (unpack_of(prev).contains(u) || all[i].unpack().contains(
            u,
        )) by {
        if all[i].unpack().contains(u) {
            assert(next[i].unpack().contains(u));
        }
    }
}

/// Adds every vote that the votes of the list unpack to.
pub fn add_unpacked_of(votes: &Vec<SignedVote>, acc: &mut Vec<SignedVote>)
    ensures
        distinct_votes(old(acc)@) ==> distinct_votes(final(acc)@),
        listed_votes(final(acc)@) == listed_votes(old(acc)@).union(
            unpack_of(votes_view(votes@)),
        ),
    decreases votes,
{
    let ghost all = votes_view(votes@);
    let mut i: usize = 0;
    while i < votes.len()
        invariant
            i <= votes.len(),
            all == votes_view(votes@),
            distinct_votes(old(acc)@) ==> distinct_votes(acc@),
            listed_votes(acc@) == listed_votes(old(acc)@).union(unpack_of(all.take(i as int))),
        decreases votes.len() - i,
    {
        votes[i].add_unpacked(acc);
        proof {
            lemma_unpack_of_step(all, i as int);
            assert(listed_votes(acc@) =~= listed_votes(old(acc)@).union(
                unpack_of(all.take(i + 1)),
            ));
        }
        i += 1;
    }
    assert(all.take(votes.len() as int) =~= all);
}

/// Every vote that the votes of the list unpack to, each listed once.
pub fn unpack_all(votes: &Vec<SignedVote>) -> (r: Vec<SignedVote>)
    ensures
        distinct_votes(r@),
        listed_votes(r@) == unpack_of(votes_view(votes@)),
{
    let mut acc: Vec<SignedVote> = Vec::new();
    add_unpacked_of(votes, &mut acc);
    acc
}

/// Whether one vote of the list carries `other`.
pub fn any_vote_carries(votes: &Vec<SignedVote>, other: &SignedVote) -> (r: bool)
    ensures
        r == unpack_of(votes_view(votes@)).contains(other@),
    decreases votes,
{
    let mut i: usize = 0;
    while i < votes.len()
        invariant
            i <= votes.len(),
            forall|j: int|
                0 <= j < i ==> !(#[trigger] votes_view(votes@)[j]).unpack().contains(other@),
        decreases votes.len() - i,
    {
        if votes[i].carries(other) {
            assert(votes_view(votes@)[i as int].unpack().contains(other@));
            return true;
        }
        i += 1;
    }
    false
}

impl SignedVote {
    /// Adds this vote and every vote it carries to `acc`.
    pub fn add_unpacked(&self, acc: &mut Vec<SignedVote>)
        ensures
            distinct_votes(old(acc)@) ==> distinct_votes(final(acc)@),
            listed_votes(final(acc)@) == listed_votes(old(acc)@).union(self@.unpack()),
        decreases self,
    {
        add_unique_vote(acc, self);
        match &self.vote.ballot {
            Ballot::Propose(_) => {},
            Ballot::Merge(votes) => add_unpacked_of(votes, acc),
            Ballot::SuperMajority { votes, .. } => add_unpacked_of(votes, acc),
        }
    }

    /// This vote and every vote it carries, at any depth, each listed once.
    pub fn unpack_votes(&self) -> (r: Vec<SignedVote>)
        ensures
            distinct_votes(r@),
            listed_votes(r@) == self@.unpack(),
    {
        let mut acc: Vec<SignedVote> = Vec::new();
        self.add_unpacked(&mut acc);
        acc
    }

    /// Whether `other` is this vote or a vote that it carries, at any depth.
    pub fn carries(&self, other: &SignedVote) -> (r: bool)
        ensures
            r == self@.unpack().contains(other@),
        decreases self,
    {
        if self.same(other) {
            return true;
        }
        match &self.vote.ballot {
            Ballot::Propose(_) => false,
            Ballot::Merge(votes) => any_vote_carries(votes, other),
            Ballot::SuperMajority { votes, .. } => any_vote_carries(votes, other),
        }
    }
}

/// Whether another, different vote of the list carries the vote at `i`.
pub fn is_carried_by_another(votes: &Vec<SignedVote>, i: usize) -> (r: bool)
    requires
        i < votes.len(),
    ensures
        r == carried_by_another(votes_view(votes@), i as int),
{
    let ghost all = votes_view(votes@);
    let mut j: usize = 0;
    while j < votes.len()
        invariant
            j <= votes.len(),
            i < votes.len(),
            all == votes_view(votes@),
            forall|k: int|
                0 <= k < j ==> !((#[trigger] all[k]) != all[i as int] && all[k].unpack().contains(
                    all[i as int],
                )),
        decreases votes.len() - j,
    {
        if !votes[j].same(&votes[i]) && votes[j].carries(&votes[i]) {
            assert(all[j as int] != all[i as int] && all[j as int].unpack().contains(
                all[i as int],
            ));
            return true;
        }
        j += 1;
    }
    false
}

/// The list without the votes that another vote of the list carries.
pub fn simplify_votes(votes: &Vec<SignedVote>) -> (r: Vec<SignedVote>)
    ensures
        votes_view(r@) == simplified(votes_view(votes@)),
{
    let ghost all = votes_view(votes@);
    let mut kept: Vec<SignedVote> = Vec::new();
    let mut i: usize = 0;
    while i < votes.len()
        invariant
            i <= votes.len(),
            all == votes_view(votes@),
            votes_view(kept@) == kept_below(all, i as nat),
        decreases votes.len() - i,
    {
        if !is_carried_by_another(votes, i) {
            kept.push(votes[i].duplicate());
        }
        i += 1;
    }
    kept
}

impl Ballot {
    /// The ballot in its simplest form: no vote of it is carried by another.
    pub fn simplify(&self) -> (r: Ballot)
        ensures
            r@ == self@.simplify(),
    {
        match self {
            Ballot::Propose(p) => Ballot::Propose(bytes_copy(p)),
            Ballot::Merge(votes) => Ballot::Merge(simplify_votes(votes)),
            Ballot::SuperMajority { votes, proposals } => Ballot::SuperMajority {
                votes: simplify_votes(votes),
                proposals: witnesses_copy(proposals),
            },
        }
    }
}

impl Clone for Witness {
    fn clone(&self) -> (r: Self)
        ensures
            r@ == self@,
    {
        self.duplicate()
    }
}

impl Clone for Ballot {
    fn clone(&self) -> (r: Self)
        ensures
            r@ == self@,
    {
        self.duplicate()
    }
}

impl Clone for Vote {
    fn clone(&self) -> (r: Self)
        ensures
            r@ == self@,
    {
        self.duplicate()
    }
}

impl Clone for SignedVote {
    fn clone(&self) -> (r: Self)
        ensures
            r@ == self@,
    {
        self.duplicate()
    }
}

} // verus!
