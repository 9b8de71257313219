//! Decision core of a leaderless Byzantine-fault-tolerant agreement protocol.
//!
//! A fixed committee agrees, once per generation, on a set of propositions. Each member
//! runs one [`consensus::Consensus`] per generation: it validates the signed votes that
//! reach it, logs them, and answers with a vote to broadcast, with the decision, or by
//! waiting. Signatures are threshold-signature shares; the engine holds keys, shares and
//! propositions as bytes.
//!
//! - [`vote`]: votes and ballots, what they propose, unpack to and supersede.
//! - [`encoding`], [`decoding`]: the bytes that are signed, and why they name one vote.
//! - [`keys`]: the committee and the signature scheme.
//! - [`tally`]: counting votes by their propositions.
//! - [`consensus`]: the engine: log, validator and reducer.
//! - [`vote_laws`], [`log_laws`], [`engine_laws`]: what holds of all this, whatever the
//!   votes.

pub mod bytes;
pub mod consensus;
pub mod decoding;
pub mod encoding;
pub mod engine_laws;
pub mod error;
pub mod keys;
pub mod log_laws;
pub mod tally;
pub mod vote;
pub mod vote_laws;
