//! The threshold-signature scheme, as far as the vote engine needs it.
//!
//! Keys and signature shares are held as the byte strings that `blsttc` reads and writes.
//! What the scheme computes is not proved here: each call is named, and the contracts of
//! the engine are stated over those names.

use vstd::prelude::*;

verus! {

/// Length in bytes of one coefficient of a serialized public key set.
pub const KEY_SIZE: usize = 48;

/// The signature share that `blsttc::SecretKeyShare::sign` gives for a message under the
/// key share with these bytes; `None` where the bytes are no key share.
pub uninterp spec fn share_signature(secret: Seq<u8>, msg: Seq<u8>) -> Option<Seq<u8>>;

/// The public key share that `blsttc::PublicKeySet::public_key_share` gives for a member
/// index; `None` where the bytes are no public key set.
pub uninterp spec fn member_key(key_set: Seq<u8>, index: u64) -> Option<Seq<u8>>;

/// Whether `blsttc::PublicKeyShare::verify` accepts the signature share for the message
/// under the public key share; `false` where key or signature bytes are malformed.
pub uninterp spec fn share_verifies(key: Seq<u8>, sig: Seq<u8>, msg: Seq<u8>) -> bool;

/// The threshold that `blsttc::PublicKeySet::threshold` reports; `None` where the bytes
/// are no public key set.
pub uninterp spec fn key_set_threshold(key_set: Seq<u8>) -> Option<usize>;

/// Calls `blsttc::SecretKeyShare::sign` on the message, with the key share read from its
/// 32 bytes by `SecretKeyShare::from_bytes`, and returns the share's 96 bytes. The claim:
/// the result is a function of the key bytes and the message alone.
#[verifier::external_body]
pub(crate) fn sign_share(secret: &Vec<u8>, msg: &Vec<u8>) -> (r: Option<Vec<u8>>)
    ensures
        (r is Some) == (share_signature(secret@, msg@) is Some),
        r matches Some(s) ==> share_signature(secret@, msg@) == Some(s@),
{
    let bytes: [u8; 32] = secret.as_slice().try_into().ok()?;
    let key = blsttc::SecretKeyShare::from_bytes(bytes).ok()?;
    Some(key.sign(msg).to_bytes().to_vec())
}

/// Calls `blsttc::PublicKeySet::public_key_share` for a member index, on the key set read
/// by `PublicKeySet::from_bytes`, and returns the share's 48 bytes. The claim: the result
/// is a function of the key set bytes and the index alone.
#[verifier::external_body]
pub(crate) fn member_key_bytes(key_set: &Vec<u8>, index: u64) -> (r: Option<Vec<u8>>)
    ensures
        (r is Some) == (member_key(key_set@, index) is Some),
        r matches Some(k) ==> member_key(key_set@, index) == Some(k@),
{
    let set = blsttc::PublicKeySet::from_bytes(key_set.clone()).ok()?;
    Some(set.public_key_share(index).to_bytes().to_vec())
}

/// Calls `blsttc::PublicKeyShare::verify` with key and signature share read from their
/// bytes. The claim: the answer is a function of the three byte strings alone.
#[verifier::external_body]
pub(crate) fn verify_share(key: &Vec<u8>, sig: &Vec<u8>, msg: &Vec<u8>) -> (r: bool)
    ensures
        r == share_verifies(key@, sig@, msg@),
{
    let key: Option<[u8; 48]> = key.as_slice().try_into().ok();
    let sig: Option<[u8; 96]> = sig.as_slice().try_into().ok();
    let key = key.map(blsttc::PublicKeyShare::from_bytes);
    let sig = sig.map(blsttc::SignatureShare::from_bytes);
    match (key, sig) {
        (Some(Ok(key)), Some(Ok(sig))) => key.verify(&sig, msg),
        _ => false,
    }
}

/// Calls `blsttc::PublicKeySet::threshold` on the key set read by
/// `PublicKeySet::from_bytes`. The claims: the result is a function of the bytes alone,
/// and it is one less than the number of 48-byte coefficients. A key set without any
/// coefficient is left out: `threshold` subtracts one from their number.
#[verifier::external_body]
pub(crate) fn parse_threshold(key_set: &Vec<u8>) -> (r: Option<usize>)
    requires
        key_set@.len() >= KEY_SIZE,
    ensures
        r == key_set_threshold(key_set@),
        r matches Some(t) ==> t + 1 == key_set@.len() / (KEY_SIZE as nat),
{
    let set = blsttc::PublicKeySet::from_bytes(key_set.clone()).ok()?;
    Some(set.threshold())
}

/// The committee: its public key set and the threshold derived from it.
#[derive(Debug)]
pub struct Committee {
    key_set: Vec<u8>,
    threshold: usize,
}

impl Committee {
    /// The serialized public key set.
    pub closed spec fn spec_key_set(&self) -> Seq<u8> {
        self.key_set@
    }

    /// The most faulty or absent members that the committee tolerates.
    pub closed spec fn spec_threshold(&self) -> usize {
        self.threshold
    }

    /// The threshold is the one that the key set gives.
    pub open spec fn wf(&self) -> bool {
        &&& self.spec_key_set().len() >= KEY_SIZE
        &&& key_set_threshold(self.spec_key_set()) == Some(self.spec_threshold())
    }

    /// Reads a committee from a serialized public key set; `None` where the bytes hold no
    /// coefficient or are no key set.
    pub fn from_key_set_bytes(key_set: Vec<u8>) -> (r: Option<Committee>)
        ensures
            (r is Some) == (key_set@.len() >= KEY_SIZE && key_set_threshold(key_set@) is Some),
            r matches Some(c) ==> c.wf() && c.spec_key_set() == key_set@,
    {
        if key_set.len() < KEY_SIZE {
            return None;
        }
        match parse_threshold(&key_set) {
            Some(threshold) => Some(Committee { key_set, threshold }),
            None => None,
        }
    }

    /// The most faulty or absent members that the committee tolerates.
    #[verifier::when_used_as_spec(spec_threshold)]
    pub fn threshold(&self) -> (r: usize)
        ensures
            r == self.spec_threshold(),
    {
        self.threshold
    }

    /// The serialized public key set.
    pub fn key_set(&self) -> (r: &Vec<u8>)
        ensures
            r@ == self.spec_key_set(),
    {
        &self.key_set
    }
}

} // verus!
