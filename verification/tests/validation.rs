use blsttc::SecretKeySet;
use rand::rngs::StdRng;
use rand::SeedableRng;
use vote_engine::consensus::{witnessed_proposals, Consensus};
use vote_engine::error::Error;
use vote_engine::keys::Committee;
use vote_engine::vote::{Ballot, SignedVote, Vote, Witness};

fn engines(n: usize, threshold: usize) -> Vec<Consensus> {
    let mut rng = StdRng::seed_from_u64(23);
    let keys = SecretKeySet::random(threshold, &mut rng);
    let key_set = keys.public_keys().to_bytes();
    (0..n)
        .map(|i| {
            let elders = Committee::from_key_set_bytes(key_set.clone()).expect("a key set");
            let secret = keys.secret_key_share(i as u64).to_bytes().to_vec();
            Consensus::from((i as u8, secret), elders, n)
        })
        .collect()
}

fn propose(node: &Consensus, value: &[u8], gen: u64) -> SignedVote {
    node.sign_vote(Vote { gen, ballot: Ballot::Propose(value.to_vec()) }).expect("a signed vote")
}

fn merge(node: &Consensus, votes: Vec<SignedVote>, gen: u64) -> SignedVote {
    node.sign_vote(Vote { gen, ballot: Ballot::Merge(votes) }).expect("a signed vote")
}

fn witness(node: &Consensus, value: &[u8]) -> Witness {
    Witness {
        proposal: value.to_vec(),
        signer: node.id(),
        sig: node.sign(&value.to_vec()).expect("a signature"),
    }
}

fn claim(node: &Consensus, votes: Vec<SignedVote>, proposals: Vec<Witness>, gen: u64) -> SignedVote {
    node.sign_vote(Vote { gen, ballot: Ballot::SuperMajority { votes, proposals } })
        .expect("a signed vote")
}

#[test]
fn a_signed_proposal_is_valid() {
    let nodes = engines(4, 1);
    let vote = propose(&nodes[1], b"A", 1);
    assert_eq!(nodes[0].validate_signed_vote(&vote), Ok(()));
    assert_eq!(nodes[0].validate_vote(&vote.vote), Ok(()));
    assert_eq!(nodes[0].validate_vote_supersedes_existing_vote(&vote), Ok(()));
    assert!(nodes[0].votes.is_empty());
}

#[test]
fn a_changed_payload_breaks_the_signature() {
    let nodes = engines(4, 1);
    let vote = propose(&nodes[1], b"AB", 1);
    let mut other_value = vote.clone();
    other_value.vote.ballot = Ballot::Propose(b"AC".to_vec());
    assert_eq!(nodes[0].validate_signed_vote(&other_value), Err(Error::InvalidSignature));
    let mut longer = vote.clone();
    longer.vote.ballot = Ballot::Propose(b"ABC".to_vec());
    assert_eq!(nodes[0].validate_signed_vote(&longer), Err(Error::InvalidSignature));
    let mut other_gen = vote.clone();
    other_gen.vote.gen = 2;
    assert_eq!(nodes[0].validate_signed_vote(&other_gen), Err(Error::InvalidSignature));
    let mut other_kind = vote.clone();
    other_kind.vote.ballot = Ballot::Merge(vec![]);
    assert_eq!(nodes[0].validate_signed_vote(&other_kind), Err(Error::InvalidSignature));
    let mut other_voter = vote.clone();
    other_voter.voter = 2;
    assert_eq!(nodes[0].validate_signed_vote(&other_voter), Err(Error::InvalidSignature));
}

#[test]
fn every_changed_byte_of_the_payload_breaks_the_signature() {
    let nodes = engines(4, 1);
    let payload = Vote { gen: 1, ballot: Ballot::Propose(b"AB".to_vec()) }.to_bytes();
    let sig = nodes[1].sign(&payload).expect("a signature");
    assert_eq!(nodes[0].verify_sig_share(&payload, 1, &sig), Ok(()));
    for at in 0..payload.len() {
        for bit in 0..8 {
            let mut changed = payload.clone();
            changed[at] ^= 1 << bit;
            assert_eq!(nodes[0].verify_sig_share(&changed, 1, &sig), Err(Error::InvalidSignature));
        }
    }
}

#[test]
fn a_changed_signature_is_refused() {
    let nodes = engines(4, 1);
    let mut vote = propose(&nodes[1], b"A", 1);
    vote.sig[5] ^= 0x10;
    assert_eq!(nodes[0].validate_signed_vote(&vote), Err(Error::InvalidSignature));
    vote.sig = vec![];
    assert_eq!(nodes[0].validate_signed_vote(&vote), Err(Error::InvalidSignature));
}

#[test]
fn a_merge_of_valid_votes_is_valid() {
    let nodes = engines(4, 1);
    let a = propose(&nodes[1], b"A", 1);
    let b = propose(&nodes[2], b"B", 1);
    let inner = merge(&nodes[3], vec![a.clone(), b.clone()], 1);
    let outer = merge(&nodes[1], vec![inner, a], 1);
    assert_eq!(nodes[0].validate_signed_vote(&outer), Ok(()));
    assert_eq!(nodes[0].validate_children(1, &vec![b.clone()]), Ok(()));
    assert_eq!(nodes[0].validate_signed_vote(&merge(&nodes[1], vec![], 1)), Ok(()));
}

#[test]
fn a_merged_vote_of_another_generation_is_refused() {
    let nodes = engines(4, 1);
    let old = propose(&nodes[1], b"A", 1);
    let new = propose(&nodes[2], b"A", 2);
    let vote = merge(&nodes[3], vec![new, old], 2);
    assert_eq!(
        nodes[0].validate_signed_vote(&vote),
        Err(Error::GenerationMismatch { child_gen: 1, merge_gen: 2 })
    );
    let deep = merge(&nodes[1], vec![vote], 2);
    assert_eq!(
        nodes[0].validate_signed_vote(&deep),
        Err(Error::GenerationMismatch { child_gen: 1, merge_gen: 2 })
    );
}

#[test]
fn a_merged_vote_with_a_broken_signature_is_refused() {
    let nodes = engines(4, 1);
    let good = propose(&nodes[1], b"A", 1);
    let mut bad = propose(&nodes[2], b"B", 1);
    bad.vote.ballot = Ballot::Propose(b"C".to_vec());
    let vote = merge(&nodes[3], vec![good, bad], 1);
    assert_eq!(nodes[0].validate_signed_vote(&vote), Err(Error::InvalidSignature));
}

#[test]
fn the_first_violation_among_merged_votes_is_reported() {
    let nodes = engines(4, 1);
    let other_gen = propose(&nodes[1], b"A", 7);
    let mut bad = propose(&nodes[2], b"B", 1);
    bad.sig[0] ^= 1;
    let first_gen = merge(&nodes[3], vec![other_gen.clone(), bad.clone()], 1);
    assert_eq!(
        nodes[0].validate_signed_vote(&first_gen),
        Err(Error::GenerationMismatch { child_gen: 7, merge_gen: 1 })
    );
    let first_sig = merge(&nodes[3], vec![bad, other_gen], 1);
    assert_eq!(nodes[0].validate_signed_vote(&first_sig), Err(Error::InvalidSignature));
}

#[test]
fn a_substantiated_super_majority_is_valid() {
    let nodes = engines(4, 1);
    let votes = vec![propose(&nodes[1], b"A", 1), propose(&nodes[2], b"A", 1)];
    let vote = claim(&nodes[3], votes, vec![witness(&nodes[3], b"A")], 1);
    assert_eq!(nodes[0].validate_signed_vote(&vote), Ok(()));
}

#[test]
fn a_super_majority_must_witness_the_propositions_of_its_votes() {
    let nodes = engines(4, 1);
    let votes = vec![propose(&nodes[1], b"A", 1), propose(&nodes[2], b"A", 1)];
    let wrong = claim(&nodes[3], votes.clone(), vec![witness(&nodes[3], b"B")], 1);
    assert_eq!(nodes[0].validate_signed_vote(&wrong), Err(Error::ProposalSetMismatch));
    let none = claim(&nodes[3], votes.clone(), vec![], 1);
    assert_eq!(nodes[0].validate_signed_vote(&none), Err(Error::ProposalSetMismatch));
    let more =
        claim(&nodes[3], votes, vec![witness(&nodes[3], b"A"), witness(&nodes[3], b"B")], 1);
    assert_eq!(nodes[0].validate_signed_vote(&more), Err(Error::ProposalSetMismatch));
}

#[test]
fn a_super_majority_must_hold_when_counted_again() {
    let nodes = engines(4, 1);
    let one = claim(&nodes[3], vec![propose(&nodes[1], b"A", 1)], vec![witness(&nodes[3], b"A")], 1);
    assert_eq!(nodes[0].validate_signed_vote(&one), Err(Error::SuperMajorityClaimUnsubstantiated));
    let split = claim(
        &nodes[3],
        vec![propose(&nodes[1], b"A", 1), propose(&nodes[2], b"B", 1)],
        vec![witness(&nodes[3], b"A"), witness(&nodes[3], b"B")],
        1,
    );
    assert_eq!(
        nodes[0].validate_signed_vote(&split),
        Err(Error::SuperMajorityClaimUnsubstantiated)
    );
    let empty = claim(&nodes[3], vec![], vec![], 1);
    assert_eq!(
        nodes[0].validate_signed_vote(&empty),
        Err(Error::SuperMajorityClaimUnsubstantiated)
    );
}

#[test]
fn a_super_majority_counts_the_votes_that_its_votes_carry() {
    let nodes = engines(4, 1);
    let a1 = propose(&nodes[1], b"A", 1);
    let a2 = propose(&nodes[2], b"A", 1);
    let carried = merge(&nodes[1], vec![a1, a2], 1);
    let vote = claim(&nodes[3], vec![carried], vec![witness(&nodes[3], b"A")], 1);
    assert_eq!(nodes[0].validate_signed_vote(&vote), Ok(()));
}

#[test]
fn the_witnesses_of_a_super_majority_must_verify() {
    let nodes = engines(4, 1);
    let votes = vec![propose(&nodes[1], b"A", 1), propose(&nodes[2], b"A", 1)];
    let mut forged = witness(&nodes[3], b"A");
    forged.signer = 2;
    let vote = claim(&nodes[3], votes.clone(), vec![forged], 1);
    assert_eq!(nodes[0].validate_signed_vote(&vote), Err(Error::InvalidSignature));
    let mut broken = witness(&nodes[3], b"A");
    broken.sig = vec![1, 2, 3];
    let good = witness(&nodes[2], b"A");
    assert!(nodes[0].verify_witnesses(&vec![good.clone()]));
    assert!(!nodes[0].verify_witnesses(&vec![good.clone(), broken.clone()]));
    assert!(nodes[0].verify_witnesses(&vec![]));
    let vote = claim(&nodes[3], votes, vec![good, broken], 1);
    assert_eq!(nodes[0].validate_signed_vote(&vote), Err(Error::InvalidSignature));
}

#[test]
fn the_votes_of_a_super_majority_are_validated_too() {
    let nodes = engines(4, 1);
    let votes = vec![propose(&nodes[1], b"A", 1), propose(&nodes[2], b"A", 2)];
    let vote = claim(&nodes[3], votes, vec![witness(&nodes[3], b"A")], 1);
    assert_eq!(
        nodes[0].validate_signed_vote(&vote),
        Err(Error::GenerationMismatch { child_gen: 2, merge_gen: 1 })
    );
}

#[test]
fn the_checks_of_a_super_majority_come_in_order() {
    let nodes = engines(4, 1);
    let mut forged = witness(&nodes[3], b"B");
    forged.sig[1] ^= 1;
    let lone = vec![propose(&nodes[1], b"A", 2)];
    let all_wrong = claim(&nodes[3], lone.clone(), vec![forged], 1);
    assert_eq!(nodes[0].validate_signed_vote(&all_wrong), Err(Error::ProposalSetMismatch));
    let mut forged = witness(&nodes[3], b"A");
    forged.sig[1] ^= 1;
    let unsubstantiated = claim(&nodes[3], lone, vec![forged.clone()], 1);
    assert_eq!(
        nodes[0].validate_signed_vote(&unsubstantiated),
        Err(Error::SuperMajorityClaimUnsubstantiated)
    );
    let two = vec![propose(&nodes[1], b"A", 2), propose(&nodes[2], b"A", 2)];
    let bad_witness = claim(&nodes[3], two, vec![forged], 1);
    assert_eq!(nodes[0].validate_signed_vote(&bad_witness), Err(Error::InvalidSignature));
}

#[test]
fn a_vote_that_conflicts_with_the_logged_vote_is_refused() {
    let mut nodes = engines(4, 1);
    let a = propose(&nodes[1], b"A", 1);
    let b = propose(&nodes[1], b"B", 1);
    nodes[0].log_signed_vote(&a);
    assert_eq!(nodes[0].validate_signed_vote(&a), Ok(()));
    assert_eq!(nodes[0].validate_signed_vote(&b), Err(Error::ConflictingVote));
    assert_eq!(
        nodes[0].validate_vote_supersedes_existing_vote(&b),
        Err(Error::ConflictingVote)
    );
    let advanced = merge(&nodes[1], vec![a.clone(), propose(&nodes[2], b"B", 1)], 1);
    assert_eq!(nodes[0].validate_signed_vote(&advanced), Ok(()));
    nodes[0].log_signed_vote(&advanced);
    assert_eq!(nodes[0].validate_signed_vote(&a), Ok(()));
    assert_eq!(nodes[0].validate_signed_vote(&b), Err(Error::ConflictingVote));
    let carrying = merge(&nodes[3], vec![b], 1);
    assert_eq!(nodes[0].validate_signed_vote(&carrying), Err(Error::ConflictingVote));
}

#[test]
fn validation_logs_nothing() {
    let mut nodes = engines(4, 1);
    let a = propose(&nodes[1], b"A", 1);
    nodes[0].log_signed_vote(&a);
    let vote = merge(&nodes[2], vec![a.clone(), propose(&nodes[3], b"B", 1)], 1);
    assert_eq!(nodes[0].validate_signed_vote(&vote), Ok(()));
    assert_eq!(nodes[0].votes.len(), 1);
    assert!(nodes[0].votes[&1].same(&a));
}

#[test]
fn witnessed_proposals_lists_each_proposition_once() {
    let nodes = engines(4, 1);
    let witnesses =
        vec![witness(&nodes[1], b"A"), witness(&nodes[2], b"B"), witness(&nodes[3], b"A")];
    assert_eq!(witnessed_proposals(&witnesses), vec![b"A".to_vec(), b"B".to_vec()]);
    let votes = vec![propose(&nodes[1], b"B", 1), propose(&nodes[2], b"A", 1)];
    assert_eq!(nodes[0].proposals(&votes), vec![b"B".to_vec(), b"A".to_vec()]);
}
