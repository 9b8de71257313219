//! What can go wrong while validating or producing a vote.

use vstd::prelude::*;

verus! {

#[derive(Debug, Clone, Copy, PartialEq, Eq, Structural)]
pub enum Error {
    /// A payload could not be framed for signing.
    Encoding,
    /// This node's key share could not produce a signature.
    Signing,
    /// A signature share does not verify against its claimed signer and content.
    InvalidSignature,
    /// A vote inside a merge or a supermajority belongs to another generation than its parent.
    GenerationMismatch { child_gen: u64, merge_gen: u64 },
    /// The votes inside a supermajority ballot do not amount to a supermajority.
    SuperMajorityClaimUnsubstantiated,
    /// The propositions a supermajority ballot witnesses are not the ones its votes hold.
    ProposalSetMismatch,
    /// A voter's new vote and its logged vote do not supersede one another.
    ConflictingVote,
}

} // verus!
