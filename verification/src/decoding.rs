//! Why the bytes of a vote stand for one vote only.
//!
//! Every field is written behind its length or has a fixed width, so the bytes of a vote
//! can be read back in one way at most. A signature over them is a signature over the vote.

use vstd::prelude::*;
use vstd::bytes::{lemma_auto_spec_u64_to_from_le_bytes, spec_u64_to_le_bytes};
use crate::encoding::{framed, votes_encoding, witnesses_encoding};
use crate::vote::{
    votes_view, witnesses_view, Ballot, BallotView, SignedVote, SignedVoteView, Vote, VoteView,
    WitnessView,
};

verus! {

/// The length can be written in eight bytes.
pub open spec fn fits(len: nat) -> bool {
    len <= u64::MAX
}

impl WitnessView {
    /// Every length in the witness can be written.
    pub open spec fn encodable(self) -> bool {
        fits(self.proposal.len()) && fits(self.sig.len())
    }
}

/// Every length in the witnesses can be written.
pub open spec fn witnesses_encodable(ws: Seq<WitnessView>) -> bool {
    forall|i: int| 0 <= i < ws.len() ==> (#[trigger] ws[i]).encodable()
}

/// Every length in the votes can be written.
pub open spec fn votes_encodable(votes: Seq<SignedVoteView>) -> bool
    decreases votes,
{
    forall|i: int| 0 <= i < votes.len() ==> (#[trigger] votes[i]).encodable()
}

impl VoteView {
    /// Every length in the vote can be written.
    pub open spec fn encodable(self) -> bool
        decreases self,
    {
        match self.ballot {
            BallotView::Propose(p) => fits(p.len()),
            BallotView::Merge(votes) => fits(votes.len()) && votes_encodable(votes),
            BallotView::SuperMajority { votes, proposals } => {
                &&& fits(votes.len())
                &&& votes_encodable(votes)
                &&& fits(proposals.len())
                &&& witnesses_encodable(proposals)
            },
        }
    }
}

impl SignedVoteView {
    /// Every length in the vote can be written.
    pub open spec fn encodable(self) -> bool
        decreases self,
    {
        fits(self.sig.len()) && self.vote.encodable()
    }
}

/// A number can be read back from its eight bytes, whatever follows them.
pub proof fn lemma_read_u64(m: u64, n: u64, x: Seq<u8>, y: Seq<u8>)
    requires
        spec_u64_to_le_bytes(m) + x == spec_u64_to_le_bytes(n) + y,
    ensures
        m == n,
        x == y,
{
    lemma_auto_spec_u64_to_from_le_bytes();
    let s = spec_u64_to_le_bytes(m) + x;
    assert(s.subrange(0, 8) =~= spec_u64_to_le_bytes(m));
    assert(s.subrange(0, 8) =~= spec_u64_to_le_bytes(n));
    assert(s.subrange(8, s.len() as int) =~= y);
}

/// A byte can be read back, whatever follows it.
pub proof fn lemma_read_byte(a: u8, b: u8, x: Seq<u8>, y: Seq<u8>)
    requires
        seq![a] + x == seq![b] + y,
    ensures
        a == b,
        x == y,
{
    let s = seq![a] + x;
    assert(s[0] == a);
    assert(s[0] == b);
    assert(s.subrange(1, s.len() as int) =~= x);
    assert(s.subrange(1, s.len() as int) =~= y);
}

/// A byte string can be read back from behind its length, whatever follows it.
pub proof fn lemma_read_framed(p: Seq<u8>, q: Seq<u8>, x: Seq<u8>, y: Seq<u8>)
    requires
        fits(p.len()),
        fits(q.len()),
        framed(p) + x == framed(q) + y,
    ensures
        p == q,
        x == y,
{
    assert(framed(p) + x =~= spec_u64_to_le_bytes(p.len() as u64) + (p + x));
    assert(framed(q) + y =~= spec_u64_to_le_bytes(q.len() as u64) + (q + y));
    lemma_read_u64(p.len() as u64, q.len() as u64, p + x, q + y);
    let s = p + x;
    assert(s.subrange(0, q.len() as int) =~= q);
    assert(s.subrange(q.len() as int, s.len() as int) =~= y);
}

/// A witness can be read back, whatever follows it.
pub proof fn lemma_read_witness(a: WitnessView, b: WitnessView, x: Seq<u8>, y: Seq<u8>)
    requires
        a.encodable(),
        b.encodable(),
        a.encoding() + x == b.encoding() + y,
    ensures
        a == b,
        x == y,
{
    let rest_a = seq![a.signer] + (framed(a.sig) + x);
    let rest_b = seq![b.signer] + (framed(b.sig) + y);
    assert(a.encoding() + x =~= framed(a.proposal) + rest_a);
    assert(b.encoding() + y =~= framed(b.proposal) + rest_b);
    lemma_read_framed(a.proposal, b.proposal, rest_a, rest_b);
    lemma_read_byte(a.signer, b.signer, framed(a.sig) + x, framed(b.sig) + y);
    lemma_read_framed(a.sig, b.sig, x, y);
}

/// The encodings of witnesses start with the encoding of the first.
pub proof fn lemma_witnesses_encoding_front(ws: Seq<WitnessView>)
    requires
        ws.len() > 0,
    ensures
        witnesses_encoding(ws) == ws[0].encoding() + witnesses_encoding(ws.skip(1)),
    decreases ws.len(),
{
    if ws.len() == 1 {
        assert(ws.drop_last() =~= Seq::<WitnessView>::empty());
        assert(ws.skip(1) =~= Seq::<WitnessView>::empty());
        assert(witnesses_encoding(ws) =~= ws[0].encoding() + witnesses_encoding(ws.skip(1)));
    } else {
        lemma_witnesses_encoding_front(ws.drop_last());
        assert(ws.skip(1).drop_last() =~= ws.drop_last().skip(1));
        assert(witnesses_encoding(ws) =~= ws[0].encoding() + witnesses_encoding(ws.skip(1)));
    }
}

/// As many witnesses as were written can be read back, whatever follows them.
pub proof fn lemma_read_witnesses(
    a: Seq<WitnessView>,
    b: Seq<WitnessView>,
    x: Seq<u8>,
    y: Seq<u8>,
)
    requires
        witnesses_encodable(a),
        witnesses_encodable(b),
        a.len() == b.len(),
        witnesses_encoding(a) + x == witnesses_encoding(b) + y,
    ensures
        a == b,
        x == y,
    decreases a.len(),
{
    if a.len() == 0 {
        assert(witnesses_encoding(a) + x =~= x);
        assert(a =~= b);
    } else {
        lemma_witnesses_encoding_front(a);
        lemma_witnesses_encoding_front(b);
        let rest_a = witnesses_encoding(a.skip(1)) + x;
        let rest_b = witnesses_encoding(b.skip(1)) + y;
        assert(witnesses_encoding(a) + x =~= a[0].encoding() + rest_a);
        assert(witnesses_encoding(b) + y =~= b[0].encoding() + rest_b);
        lemma_read_witness(a[0], b[0], rest_a, rest_b);
        assert forall|i: int| 0 <= i < a.skip(1).len() implies (#[trigger] a.skip(1)[i]).encodable() by {
            assert(a.skip(1)[i] == a[i + 1]);
        }
        assert forall|i: int| 0 <= i < b.skip(1).len() implies (#[trigger] b.skip(1)[i]).encodable() by {
            assert(b.skip(1)[i] == b[i + 1]);
        }
        lemma_read_witnesses(a.skip(1), b.skip(1), x, y);
        assert forall|i: int| 0 <= i < a.len() implies a[i] == b[i] by {
            if i > 0 {
                assert(a.skip(1)[i - 1] == a[i]);
            }
        }
        assert(a =~= b);
    }
}

/// The encodings of votes start with the encoding of the first.
pub proof fn lemma_votes_encoding_front(votes: Seq<SignedVoteView>)
    requires
        votes.len() > 0,
    ensures
        votes_encoding(votes) == votes[0].encoding() + votes_encoding(votes.skip(1)),
    decreases votes.len(),
{
    if votes.len() == 1 {
        assert(votes.drop_last() =~= Seq::<SignedVoteView>::empty());
        assert(votes.skip(1) =~= Seq::<SignedVoteView>::empty());
    } else {
        lemma_votes_encoding_front(votes.drop_last());
        assert(votes.skip(1).drop_last() =~= votes.drop_last().skip(1));
        assert(votes_encoding(votes) =~= votes[0].encoding() + votes_encoding(votes.skip(1)));
    }
}

/// The byte that names the kind of a ballot.
pub open spec fn kind(ballot: BallotView) -> u8 {
    match ballot {
        BallotView::Propose(_) => 0,
        BallotView::Merge(_) => 1,
        BallotView::SuperMajority { .. } => 2,
    }
}

/// What follows the kind in the encoding of a ballot.
pub open spec fn contents(ballot: BallotView) -> Seq<u8> {
    match ballot {
        BallotView::Propose(p) => framed(p),
        BallotView::Merge(votes) => counted_votes(votes, Seq::empty()),
        BallotView::SuperMajority { votes, proposals } => counted_votes(
            votes,
            counted_witnesses(proposals, Seq::empty()),
        ),
    }
}

/// The number of the votes, the votes, and what follows them.
pub open spec fn counted_votes(votes: Seq<SignedVoteView>, then: Seq<u8>) -> Seq<u8> {
    spec_u64_to_le_bytes(votes.len() as u64) + (votes_encoding(votes) + then)
}

/// The number of the witnesses, the witnesses, and what follows them.
pub open spec fn counted_witnesses(ws: Seq<WitnessView>, then: Seq<u8>) -> Seq<u8> {
    spec_u64_to_le_bytes(ws.len() as u64) + (witnesses_encoding(ws) + then)
}

/// The encoding of a ballot is its kind and then its contents.
pub proof fn lemma_ballot_encoding(ballot: BallotView, x: Seq<u8>)
    ensures
        ballot.encoding() + x == seq![kind(ballot)] + (contents(ballot) + x),
        ballot matches BallotView::Merge(votes) ==> contents(ballot) + x == counted_votes(
            votes,
            x,
        ),
        ballot matches BallotView::SuperMajority { votes, proposals } ==> contents(ballot) + x
            == counted_votes(votes, counted_witnesses(proposals, x)),
{
    match ballot {
        BallotView::Propose(p) => {
            assert(ballot.encoding() + x =~= seq![kind(ballot)] + (contents(ballot) + x));
        },
        BallotView::Merge(votes) => {
            assert(contents(ballot) + x =~= counted_votes(votes, x));
            assert(ballot.encoding() + x =~= seq![kind(ballot)] + counted_votes(votes, x));
        },
        BallotView::SuperMajority { votes, proposals } => {
            let then = counted_witnesses(proposals, x);
            assert(contents(ballot) + x =~= counted_votes(votes, then));
            assert(ballot.encoding() + x =~= seq![kind(ballot)] + counted_votes(votes, then));
        },
    }
}

/// Witnesses can be read back from behind their number, whatever follows them.
pub proof fn lemma_read_counted_witnesses(
    a: Seq<WitnessView>,
    b: Seq<WitnessView>,
    x: Seq<u8>,
    y: Seq<u8>,
)
    requires
        fits(a.len()),
        fits(b.len()),
        witnesses_encodable(a),
        witnesses_encodable(b),
        counted_witnesses(a, x) == counted_witnesses(b, y),
    ensures
        a == b,
        x == y,
{
    lemma_read_u64(
        a.len() as u64,
        b.len() as u64,
        witnesses_encoding(a) + x,
        witnesses_encoding(b) + y,
    );
    lemma_read_witnesses(a, b, x, y);
}

/// Votes can be read back from behind their number, whatever follows them.
pub proof fn lemma_read_counted_votes(
    a: Seq<SignedVoteView>,
    b: Seq<SignedVoteView>,
    x: Seq<u8>,
    y: Seq<u8>,
)
    requires
        fits(a.len()),
        fits(b.len()),
        votes_encodable(a),
        votes_encodable(b),
        counted_votes(a, x) == counted_votes(b, y),
    ensures
        a == b,
        x == y,
    decreases a, 1nat,
{
    lemma_read_u64(a.len() as u64, b.len() as u64, votes_encoding(a) + x, votes_encoding(b) + y);
    lemma_read_votes(a, b, x, y);
}

/// A vote can be read back, whatever follows it.
pub proof fn lemma_read_vote(a: VoteView, b: VoteView, x: Seq<u8>, y: Seq<u8>)
    requires
        a.encodable(),
        b.encodable(),
        a.encoding() + x == b.encoding() + y,
    ensures
        a == b,
        x == y,
    decreases a, 0nat,
{
    let ca = contents(a.ballot) + x;
    let cb = contents(b.ballot) + y;
    lemma_ballot_encoding(a.ballot, x);
    lemma_ballot_encoding(b.ballot, y);
    assert(a.encoding() + x =~= spec_u64_to_le_bytes(a.gen) + (a.ballot.encoding() + x));
    assert(b.encoding() + y =~= spec_u64_to_le_bytes(b.gen) + (b.ballot.encoding() + y));
    lemma_read_u64(a.gen, b.gen, a.ballot.encoding() + x, b.ballot.encoding() + y);
    lemma_read_byte(kind(a.ballot), kind(b.ballot), ca, cb);
    match a.ballot {
        BallotView::Propose(p) => {
            let q = b.ballot->Propose_0;
            lemma_read_framed(p, q, x, y);
        },
        BallotView::Merge(va) => {
            let vb = b.ballot->Merge_0;
            lemma_read_counted_votes(va, vb, x, y);
        },
        BallotView::SuperMajority { votes: va, proposals: wa } => {
            let vb = b.ballot->SuperMajority_votes;
            let wb = b.ballot->SuperMajority_proposals;
            lemma_read_counted_votes(
                va,
                vb,
                counted_witnesses(wa, x),
                counted_witnesses(wb, y),
            );
            lemma_read_counted_witnesses(wa, wb, x, y);
        },
    }
}

/// A signed vote can be read back, whatever follows it.
pub proof fn lemma_read_signed_vote(a: SignedVoteView, b: SignedVoteView, x: Seq<u8>, y: Seq<u8>)
    requires
        a.encodable(),
        b.encodable(),
        a.encoding() + x == b.encoding() + y,
    ensures
        a == b,
        x == y,
    decreases a, 0nat,
{
    let ra = framed(a.sig) + (a.vote.encoding() + x);
    let rb = framed(b.sig) + (b.vote.encoding() + y);
    assert(a.encoding() + x =~= seq![a.voter] + ra);
    assert(b.encoding() + y =~= seq![b.voter] + rb);
    lemma_read_byte(a.voter, b.voter, ra, rb);
    lemma_read_framed(a.sig, b.sig, a.vote.encoding() + x, b.vote.encoding() + y);
    lemma_read_vote(a.vote, b.vote, x, y);
}

/// As many votes as were written can be read back, whatever follows them.
pub proof fn lemma_read_votes(
    a: Seq<SignedVoteView>,
    b: Seq<SignedVoteView>,
    x: Seq<u8>,
    y: Seq<u8>,
)
    requires
        votes_encodable(a),
        votes_encodable(b),
        a.len() == b.len(),
        votes_encoding(a) + x == votes_encoding(b) + y,
    ensures
        a == b,
        x == y,
    decreases a, 0nat,
{
    if a.len() == 0 {
        assert(votes_encoding(a) + x =~= x);
        assert(votes_encoding(b) + y =~= y);
        assert(a =~= b);
    } else {
        lemma_votes_encoding_front(a);
        lemma_votes_encoding_front(b);
        let rest_a = votes_encoding(a.skip(1)) + x;
        let rest_b = votes_encoding(b.skip(1)) + y;
        assert(votes_encoding(a) + x =~= a[0].encoding() + rest_a);
        assert(votes_encoding(b) + y =~= b[0].encoding() + rest_b);
        lemma_read_signed_vote(a[0], b[0], rest_a, rest_b);
        assert forall|i: int| 0 <= i < a.skip(1).len() implies (#[trigger] a.skip(1)[i]).encodable() by {
            assert(a.skip(1)[i] == a[i + 1]);
        }
        assert forall|i: int| 0 <= i < b.skip(1).len() implies (#[trigger] b.skip(1)[i]).encodable() by {
            assert(b.skip(1)[i] == b[i + 1]);
        }
        lemma_read_votes(a.skip(1), b.skip(1), x, y);
        assert forall|i: int| 0 <= i < a.len() implies a[i] == b[i] by {
            if i > 0 {
                assert(a.skip(1)[i - 1] == a[i]);
                assert(b.skip(1)[i - 1] == b[i]);
            }
        }
        assert(a =~= b);
    }
}

/// Two votes with the same bytes are the same vote.
pub proof fn lemma_encoding_is_injective(a: VoteView, b: VoteView)
    requires
        a.encodable(),
        b.encodable(),
        a.encoding() == b.encoding(),
    ensures
        a == b,
{
    lemma_read_vote(a, b, Seq::empty(), Seq::empty());
}

/// A byte string that is held in memory has a length that can be written.
pub proof fn lemma_held_bytes_fit(bytes: Vec<u8>)
    ensures
        fits(bytes@.len()),
{
    assert(bytes@.len() == bytes.len());
}

/// Every length in a list of votes that is held in memory can be written.
pub proof fn lemma_held_votes_are_encodable(votes: Vec<SignedVote>)
    ensures
        votes_encodable(votes_view(votes@)),
        fits(votes_view(votes@).len()),
    decreases votes,
{
    assert(votes@.len() == votes.len());
    assert forall|i: int| 0 <= i < votes_view(votes@).len() implies (#[trigger] votes_view(
        votes@,
    )[i]).encodable() by {
        lemma_held_signed_vote_is_encodable(votes@[i]);
    }
}

/// Every length in a signed vote that is held in memory can be written.
pub proof fn lemma_held_signed_vote_is_encodable(v: SignedVote)
    ensures
        v@.encodable(),
    decreases v,
{
    lemma_held_bytes_fit(v.sig);
    lemma_held_vote_is_encodable(v.vote);
}

/// Every length in a vote that is held in memory can be written.
pub proof fn lemma_held_vote_is_encodable(v: Vote)
    ensures
        v@.encodable(),
    decreases v,
{
    match v.ballot {
        Ballot::Propose(p) => {
            lemma_held_bytes_fit(p);
        },
        Ballot::Merge(votes) => lemma_held_votes_are_encodable(votes),
        Ballot::SuperMajority { votes, proposals } => {
            lemma_held_votes_are_encodable(votes);
            assert(proposals@.len() == proposals.len());
            assert forall|i: int| 0 <= i < witnesses_view(proposals@).len() implies (
            #[trigger] witnesses_view(proposals@)[i]).encodable() by {
                lemma_held_bytes_fit(proposals@[i].proposal);
                lemma_held_bytes_fit(proposals@[i].sig);
            }
        },
    }
}

/// Two votes that are held in memory and have the same bytes are the same vote.
pub proof fn lemma_held_votes_differ_in_their_bytes(a: Vote, b: Vote)
    requires
        a@.encoding() == b@.encoding(),
    ensures
        a@ == b@,
{
    lemma_held_vote_is_encodable(a);
    lemma_held_vote_is_encodable(b);
    lemma_encoding_is_injective(a@, b@);
}

} // verus!
