//! The bytes that a signature covers.
//!
//! A vote is first written as a self-delimiting byte string, field by field; that string,
//! like a bare proposition, is then framed by `bincode` into the message that is signed.

use vstd::prelude::*;
use vstd::bytes::{spec_u64_to_le_bytes, u64_to_le_bytes};
use crate::vote::{
    votes_view, witnesses_view, Ballot, BallotView, SignedVote, SignedVoteView, Vote, VoteView,
    Witness, WitnessView,
};

verus! {

/// A byte string behind its length, the length as eight little-endian bytes.
pub open spec fn framed(bytes: Seq<u8>) -> Seq<u8> {
    spec_u64_to_le_bytes(bytes.len() as u64) + bytes
}

impl WitnessView {
    /// The proposition behind its length, the signer, the signature behind its length.
    pub open spec fn encoding(self) -> Seq<u8> {
        framed(self.proposal) + seq![self.signer] + framed(self.sig)
    }
}

/// The encodings of the witnesses, one after the other.
pub open spec fn witnesses_encoding(ws: Seq<WitnessView>) -> Seq<u8>
    decreases ws.len(),
{
    if ws.len() == 0 {
        Seq::empty()
    } else {
        witnesses_encoding(ws.drop_last()) + ws.last().encoding()
    }
}

/// The encodings of the votes, one after the other.
pub open spec fn votes_encoding(votes: Seq<SignedVoteView>) -> Seq<u8>
    decreases votes, 0nat,
{
    if votes.len() == 0 {
        Seq::empty()
    } else {
        votes_encoding(votes.drop_last()) + votes.last().encoding()
    }
}

impl BallotView {
    /// A byte for the kind of ballot, then its contents: a proposition behind its length;
    /// or the number of votes and the votes; or these and then the number of witnesses
    /// and the witnesses. Numbers take eight bytes, the lowest first.
    pub open spec fn encoding(self) -> Seq<u8>
        decreases self, 0nat,
    {
        match self {
            BallotView::Propose(p) => seq![0u8] + framed(p),
            BallotView::Merge(votes) => seq![1u8] + spec_u64_to_le_bytes(votes.len() as u64)
                + votes_encoding(votes),
            BallotView::SuperMajority { votes, proposals } => seq![2u8] + spec_u64_to_le_bytes(
                votes.len() as u64,
            ) + votes_encoding(votes) + spec_u64_to_le_bytes(proposals.len() as u64)
                + witnesses_encoding(proposals),
        }
    }
}

impl VoteView {
    /// The byte string that stands for the vote when it is signed: the generation in
    /// eight bytes, then the ballot.
    pub open spec fn encoding(self) -> Seq<u8>
        decreases self, 0nat,
    {
        spec_u64_to_le_bytes(self.gen) + self.ballot.encoding()
    }
}

impl SignedVoteView {
    /// The voter, the signature behind its length, the vote.
    pub open spec fn encoding(self) -> Seq<u8>
        decreases self, 0nat,
    {
        seq![self.voter] + framed(self.sig) + self.vote.encoding()
    }
}

/// Appends the bytes of `src` to `out`.
pub fn append(out: &mut Vec<u8>, src: &Vec<u8>)
    ensures
        final(out)@ == old(out)@ + src@,
{
    let mut i: usize = 0;
    while i < src.len()
        invariant
            i <= src.len(),
            out@ == old(out)@ + src@.take(i as int),
        decreases src.len() - i,
    {
        out.push(src[i]);
        i += 1;
    }
}

/// Appends a number as eight little-endian bytes.
pub fn append_u64(out: &mut Vec<u8>, x: u64)
    ensures
        final(out)@ == old(out)@ + spec_u64_to_le_bytes(x),
{
    let bytes = u64_to_le_bytes(x);
    append(out, &bytes);
}

/// Appends a byte string behind its length.
pub fn append_framed(out: &mut Vec<u8>, src: &Vec<u8>)
    ensures
        final(out)@ == old(out)@ + framed(src@),
{
    append_u64(out, src.len() as u64);
    append(out, src);
}

impl Witness {
    /// Appends the witness's encoding.
    pub fn write(&self, out: &mut Vec<u8>)
        ensures
            final(out)@ == old(out)@ + self@.encoding(),
    {
        append_framed(out, &self.proposal);
        out.push(self.signer);
        append_framed(out, &self.sig);
    }
}

/// Appends the encodings of the witnesses, one after the other.
pub fn write_witnesses(ws: &Vec<Witness>, out: &mut Vec<u8>)
    ensures
        final(out)@ == old(out)@ + witnesses_encoding(witnesses_view(ws@)),
{
    let ghost all = witnesses_view(ws@);
    let mut i: usize = 0;
    while i < ws.len()
        invariant
            i <= ws.len(),
            all == witnesses_view(ws@),
            out@ == old(out)@ + witnesses_encoding(all.take(i as int)),
        decreases ws.len() - i,
    {
        ws[i].write(out);
        proof {
            assert(all.take(i + 1).drop_last() =~= all.take(i as int));
        }
        i += 1;
    }
    assert(all.take(ws.len() as int) =~= all);
}

/// Appends the encodings of the votes, one after the other.
pub fn write_votes(votes: &Vec<SignedVote>, out: &mut Vec<u8>)
    ensures
        final(out)@ == old(out)@ + votes_encoding(votes_view(votes@)),
    decreases votes,
{
    let ghost all = votes_view(votes@);
    let mut i: usize = 0;
    while i < votes.len()
        invariant
            i <= votes.len(),
            all == votes_view(votes@),
            out@ == old(out)@ + votes_encoding(all.take(i as int)),
        decreases votes.len() - i,
    {
        votes[i].write(out);
        proof {
            assert(all.take(i + 1).drop_last() =~= all.take(i as int));
        }
        i += 1;
    }
    assert(all.take(votes.len() as int) =~= all);
}

impl Ballot {
    /// Appends the ballot's encoding.
    pub fn write(&self, out: &mut Vec<u8>)
        ensures
            final(out)@ == old(out)@ + self@.encoding(),
        decreases self,
    {
        match self {
            Ballot::Propose(p) => {
                out.push(0u8);
                append_framed(out, p);
            },
            Ballot::Merge(votes) => {
                out.push(1u8);
                append_u64(out, votes.len() as u64);
                write_votes(votes, out);
            },
            Ballot::SuperMajority { votes, proposals } => {
                out.push(2u8);
                append_u64(out, votes.len() as u64);
                write_votes(votes, out);
                append_u64(out, proposals.len() as u64);
                write_witnesses(proposals, out);
            },
        }
    }
}

impl Vote {
    /// Appends the vote's encoding.
    pub fn write(&self, out: &mut Vec<u8>)
        ensures
            final(out)@ == old(out)@ + self@.encoding(),
        decreases self,
    {
        append_u64(out, self.gen);
        self.ballot.write(out);
    }

    /// The byte string that stands for the vote when it is signed.
    pub fn to_bytes(&self) -> (r: Vec<u8>)
        ensures
            r@ == self@.encoding(),
    {
        let mut out: Vec<u8> = Vec::new();
        self.write(&mut out);
        out
    }
}

impl SignedVote {
    /// Appends the signed vote's encoding.
    pub fn write(&self, out: &mut Vec<u8>)
        ensures
            final(out)@ == old(out)@ + self@.encoding(),
        decreases self,
    {
        out.push(self.voter);
        append_framed(out, &self.sig);
        self.vote.write(out);
    }
}

/// `bincode::ErrorKind`, of which nothing is read here.
#[verifier::external_type_specification]
#[verifier::external_body]
pub struct ExBincodeErrorKind(bincode::ErrorKind);

/// The bytes that `bincode::serialize` gives for a byte string; `None` where it fails.
pub uninterp spec fn bincode_encoding(payload: Seq<u8>) -> Option<Seq<u8>>;

/// Calls `bincode::serialize` on a byte string. The claims: the outcome is a function of
/// the bytes alone, and what it writes is the length as eight little-endian bytes, then
/// the bytes themselves.
#[verifier::external_body]
pub(crate) fn serialize_bytes(payload: &Vec<u8>) -> (r: Result<Vec<u8>, bincode::Error>)
    ensures
        (r is Ok) == (bincode_encoding(payload@) is Some),
        r matches Ok(b) ==> bincode_encoding(payload@) == Some(b@) && b@ == framed(payload@),
{
    bincode::serialize(payload)
}

/// The message that a signature over the payload covers; `None` where the payload cannot
/// be framed.
pub fn message(payload: &Vec<u8>) -> (r: Option<Vec<u8>>)
    ensures
        (r is Some) == (bincode_encoding(payload@) is Some),
        r matches Some(m) ==> bincode_encoding(payload@) == Some(m@) && m@ == framed(payload@),
{
    match serialize_bytes(payload) {
        Ok(m) => Some(m),
        Err(_) => None,
    }
}

} // verus!
