use blsttc::SecretKeySet;
use rand::rngs::StdRng;
use rand::SeedableRng;
use std::collections::VecDeque;
use vote_engine::bytes::same_set;
use vote_engine::consensus::{Consensus, VoteResponse};
use vote_engine::error::Error;
use vote_engine::keys::Committee;
use vote_engine::vote::{Ballot, SignedVote, Vote};

fn engines(n: usize, threshold: usize) -> Vec<Consensus> {
    let mut rng = StdRng::seed_from_u64(11);
    let keys = SecretKeySet::random(threshold, &mut rng);
    let key_set = keys.public_keys().to_bytes();
    (0..n)
        .map(|i| {
            let elders = Committee::from_key_set_bytes(key_set.clone()).expect("a key set");
            let secret = keys.secret_key_share(i as u64).to_bytes().to_vec();
            Consensus::from((i as u8, secret), elders, n)
        })
        .collect()
}

fn propose(node: &Consensus, value: &[u8], gen: u64) -> SignedVote {
    node.sign_vote(Vote { gen, ballot: Ballot::Propose(value.to_vec()) }).expect("a signed vote")
}

fn sorted(mut list: Vec<Vec<u8>>) -> Vec<Vec<u8>> {
    list.sort();
    list
}

fn logged(node: &Consensus) -> Vec<SignedVote> {
    node.votes.values().cloned().collect()
}

fn same_log(a: &[SignedVote], b: &[SignedVote]) -> bool {
    a.len() == b.len() && a.iter().zip(b).all(|(x, y)| x.same(y))
}

/// Delivers every broadcast to every other node until nothing is under way; a node that
/// has decided takes no more votes.
fn run(nodes: &mut Vec<Consensus>, values: &[&[u8]], order: u64, gen: u64) -> Vec<Option<SignedVote>> {
    let n = nodes.len();
    let mut decided: Vec<Option<SignedVote>> = vec![None; n];
    let mut queue: VecDeque<(usize, SignedVote)> = VecDeque::new();
    for i in 0..values.len() {
        let own = propose(&nodes[i], values[i], gen);
        let own = nodes[i].cast_vote(own);
        for j in (0..n).filter(|j| *j != i) {
            queue.push_back((j, own.clone()));
        }
    }
    let mut step = order;
    while !queue.is_empty() {
        step = step.wrapping_mul(6364136223846793005).wrapping_add(1442695040888963407);
        let at = ((step >> 33) as usize) % queue.len();
        let (to, vote) = queue.remove(at).expect("a vote under way");
        if decided[to].is_some() {
            continue;
        }
        assert_eq!(nodes[to].validate_signed_vote(&vote), Ok(()));
        match nodes[to].handle_signed_vote(vote, gen).expect("a response") {
            VoteResponse::WaitingForMoreVotes => {},
            VoteResponse::Broadcast(v) => {
                for j in (0..n).filter(|j| *j != to) {
                    queue.push_back((j, v.clone()));
                }
            },
            VoteResponse::Decided(v) => {
                for j in (0..n).filter(|j| *j != to) {
                    queue.push_back((j, v.clone()));
                }
                decided[to] = Some(v);
            },
        }
    }
    decided
}

#[test]
fn a_new_engine_has_logged_nothing() {
    let nodes = engines(4, 1);
    assert_eq!(nodes[2].id(), 2);
    assert_eq!(nodes[2].n_elders, 4);
    assert_eq!(nodes[2].elders.threshold(), 1);
    assert!(nodes[2].votes.is_empty());
    assert!(nodes[2].logged_votes().is_empty());
}

#[test]
fn a_committee_reads_its_threshold_from_the_key_set() {
    for threshold in [0usize, 1, 2, 5] {
        let mut rng = StdRng::seed_from_u64(3);
        let keys = SecretKeySet::random(threshold, &mut rng);
        let bytes = keys.public_keys().to_bytes();
        assert_eq!(bytes.len(), 48 * (threshold + 1));
        let committee = Committee::from_key_set_bytes(bytes.clone()).expect("a key set");
        assert_eq!(committee.threshold(), threshold);
        assert_eq!(committee.key_set(), &bytes);
    }
}

#[test]
fn a_committee_is_not_read_from_other_bytes() {
    assert!(Committee::from_key_set_bytes(vec![]).is_none());
    assert!(Committee::from_key_set_bytes(vec![0; 47]).is_none());
    assert!(Committee::from_key_set_bytes(vec![0xFF; 48]).is_none());
}

#[test]
fn a_signature_verifies_for_its_signer_only() {
    let nodes = engines(4, 1);
    let payload = b"payload".to_vec();
    let sig = nodes[1].sign(&payload).expect("a signature");
    assert_eq!(sig.len(), 96);
    assert_ne!(sig, payload);
    assert_eq!(nodes[0].verify_sig_share(&payload, 1, &sig), Ok(()));
    assert_eq!(nodes[0].verify_sig_share(&payload, 2, &sig), Err(Error::InvalidSignature));
    assert_eq!(
        nodes[0].verify_sig_share(&b"other".to_vec(), 1, &sig),
        Err(Error::InvalidSignature)
    );
    assert_eq!(
        nodes[0].verify_sig_share(&payload, 1, &vec![0; 96]),
        Err(Error::InvalidSignature)
    );
    assert_eq!(nodes[0].verify_sig_share(&payload, 1, &vec![]), Err(Error::InvalidSignature));
}

#[test]
fn signing_is_a_function_of_key_and_payload() {
    let nodes = engines(4, 1);
    let payload = b"payload".to_vec();
    assert_eq!(nodes[1].sign(&payload), nodes[1].sign(&payload));
    assert_ne!(nodes[1].sign(&payload), nodes[2].sign(&payload));
    assert_ne!(nodes[1].sign(&payload), nodes[1].sign(&b"other".to_vec()));
}

#[test]
fn signing_fails_without_a_key_share() {
    let mut nodes = engines(4, 1);
    let elders = Committee::from_key_set_bytes(nodes[0].elders.key_set().clone()).expect("a key set");
    let keyless = Consensus::from((0, vec![1, 2, 3]), elders, 4);
    assert_eq!(keyless.sign(&b"payload".to_vec()), Err(Error::Signing));
    let vote = Vote { gen: 1, ballot: Ballot::Propose(b"A".to_vec()) };
    assert!(matches!(keyless.sign_vote(vote), Err(Error::Signing)));
    nodes[0].secret_key.1 = vec![0xFF; 32];
    assert_eq!(nodes[0].sign(&b"payload".to_vec()), Err(Error::Signing));
    let incoming = propose(&nodes[1], b"A", 1);
    assert!(matches!(nodes[0].handle_signed_vote(incoming, 1), Err(Error::Signing)));
    assert_eq!(nodes[0].votes.len(), 1);
}

#[test]
fn sign_vote_binds_voter_vote_and_signature() {
    let nodes = engines(4, 1);
    let vote = Vote { gen: 3, ballot: Ballot::Propose(b"A".to_vec()) };
    let signed = nodes[2].sign_vote(vote.clone()).expect("a signed vote");
    assert_eq!(signed.voter, 2);
    assert!(signed.vote.same(&vote));
    assert_eq!(signed.sig, nodes[2].sign(&vote.to_bytes()).expect("a signature"));
    assert_eq!(nodes[0].validate_signed_vote(&signed), Ok(()));
}

#[test]
fn log_keeps_the_most_advanced_vote_of_each_voter() {
    let mut nodes = engines(4, 1);
    let a1 = propose(&nodes[1], b"A", 1);
    let a2 = propose(&nodes[2], b"A", 1);
    let merge = nodes[1]
        .sign_vote(Vote { gen: 1, ballot: Ballot::Merge(vec![a1.clone(), a2.clone()]) })
        .expect("a signed vote");
    nodes[0].log_signed_vote(&a1);
    assert!(same_log(&logged(&nodes[0]), &[a1.clone()]));
    nodes[0].log_signed_vote(&merge);
    assert!(same_log(&logged(&nodes[0]), &[merge.clone(), a2.clone()]));
    nodes[0].log_signed_vote(&a1);
    assert!(same_log(&logged(&nodes[0]), &[merge.clone(), a2.clone()]));
    assert!(same_log(&nodes[0].logged_votes(), &[merge.clone(), a2.clone()]));
    let other = propose(&nodes[1], b"B", 1);
    nodes[0].log_signed_vote(&other);
    assert!(same_log(&logged(&nodes[0]), &[merge, a2]));
}

#[test]
fn cast_vote_logs_and_returns_the_vote() {
    let mut nodes = engines(4, 1);
    let own = propose(&nodes[0], b"A", 1);
    let cast = nodes[0].cast_vote(own.clone());
    assert!(cast.same(&own));
    assert!(same_log(&logged(&nodes[0]), &[own]));
}

#[test]
fn logging_a_vote_again_changes_nothing() {
    let mut nodes = engines(4, 1);
    let a1 = propose(&nodes[1], b"A", 1);
    let b2 = propose(&nodes[2], b"B", 1);
    let merge = nodes[3]
        .sign_vote(Vote { gen: 1, ballot: Ballot::Merge(vec![a1.clone(), b2.clone()]) })
        .expect("a signed vote");
    nodes[0].log_signed_vote(&merge);
    let once = logged(&nodes[0]);
    nodes[0].log_signed_vote(&merge);
    assert!(same_log(&logged(&nodes[0]), &once));
    let later = propose(&nodes[0], b"C", 1);
    nodes[0].log_signed_vote(&later);
    let between = logged(&nodes[0]);
    nodes[0].log_signed_vote(&merge);
    assert!(same_log(&logged(&nodes[0]), &between));
}

#[test]
fn the_first_vote_is_adopted_and_a_second_delivery_is_idle() {
    let mut nodes = engines(7, 2);
    let a1 = propose(&nodes[1], b"A", 1);
    match nodes[0].handle_signed_vote(a1.clone(), 1).expect("a response") {
        VoteResponse::Broadcast(v) => {
            assert_eq!(v.voter, 0);
            assert_eq!(v.vote.gen, 1);
            assert!(v.vote.ballot.same(&Ballot::Propose(b"A".to_vec())));
            assert_eq!(nodes[1].validate_signed_vote(&v), Ok(()));
        },
        other => panic!("not a broadcast: {:?}", other),
    }
    let before = logged(&nodes[0]);
    assert_eq!(before.len(), 2);
    assert!(matches!(
        nodes[0].handle_signed_vote(a1, 1),
        Ok(VoteResponse::WaitingForMoreVotes)
    ));
    assert!(same_log(&logged(&nodes[0]), &before));
}

#[test]
fn a_second_delivery_may_find_cause_to_act() {
    let mut nodes = engines(4, 1);
    let a1 = propose(&nodes[1], b"A", 1);
    assert!(matches!(nodes[0].handle_signed_vote(a1.clone(), 1), Ok(VoteResponse::Broadcast(_))));
    match nodes[0].handle_signed_vote(a1, 1).expect("a response") {
        VoteResponse::Broadcast(v) => assert!(v.vote.is_super_majority_ballot()),
        other => panic!("not a broadcast: {:?}", other),
    }
}

#[test]
fn supermajority_of_three_proposals_for_one_value() {
    let mut nodes = engines(4, 1);
    let a0 = propose(&nodes[0], b"A", 1);
    let a1 = propose(&nodes[1], b"A", 1);
    let a2 = propose(&nodes[2], b"A", 1);
    nodes[0].cast_vote(a0);
    assert_eq!(nodes[0].validate_signed_vote(&a1), Ok(()));
    nodes[0].log_signed_vote(&a1);
    assert_eq!(nodes[0].validate_signed_vote(&a2), Ok(()));
    nodes[0].log_signed_vote(&a2);
    let votes = nodes[0].logged_votes();
    assert_eq!(votes.len(), 3);
    assert!(nodes[0].is_super_majority(&votes));
    assert!(!nodes[0].is_split_vote(&votes));
    assert!(!nodes[0].is_super_majority_over_super_majorities(&votes));
    match nodes[0].handle_signed_vote(a2, 1).expect("a response") {
        VoteResponse::Broadcast(v) => {
            assert_eq!(v.voter, 0);
            assert!(v.vote.is_super_majority_ballot());
            assert_eq!(v.proposals(), vec![b"A".to_vec()]);
            match &v.vote.ballot {
                Ballot::SuperMajority { votes, proposals } => {
                    assert_eq!(votes.len(), 3);
                    assert_eq!(proposals.len(), 1);
                    assert_eq!(proposals[0].proposal, b"A".to_vec());
                    assert_eq!(proposals[0].signer, 0);
                    assert_eq!(
                        nodes[1].verify_sig_share(&proposals[0].proposal, 0, &proposals[0].sig),
                        Ok(())
                    );
                },
                other => panic!("not a supermajority: {:?}", other),
            }
            assert_eq!(nodes[1].validate_signed_vote(&v), Ok(()));
            assert!(nodes[0].votes[&0].same(&v));
        },
        other => panic!("not a broadcast: {:?}", other),
    }
    let again = propose(&nodes[2], b"A", 1);
    assert!(matches!(
        nodes[0].handle_signed_vote(again, 1),
        Ok(VoteResponse::WaitingForMoreVotes)
    ));
}

#[test]
fn split_vote_among_seven_is_merged() {
    let mut nodes = engines(7, 2);
    let values: [&[u8]; 7] = [b"A", b"A", b"B", b"B", b"C", b"C", b"D"];
    let votes: Vec<SignedVote> = (0..7).map(|i| propose(&nodes[i], values[i], 1)).collect();
    nodes[0].cast_vote(votes[0].clone());
    for v in &votes[1..6] {
        assert_eq!(nodes[0].validate_signed_vote(v), Ok(()));
        nodes[0].log_signed_vote(v);
    }
    let six = nodes[0].logged_votes();
    assert!(!nodes[0].is_split_vote(&six));
    assert!(!nodes[0].is_super_majority(&six));
    assert_eq!(nodes[0].validate_signed_vote(&votes[6]), Ok(()));
    match nodes[0].handle_signed_vote(votes[6].clone(), 1).expect("a response") {
        VoteResponse::Broadcast(v) => {
            assert_eq!(v.voter, 0);
            match &v.vote.ballot {
                Ballot::Merge(merged) => {
                    assert_eq!(merged.len(), 7);
                    for (m, v) in merged.iter().zip(&votes) {
                        assert!(m.same(v));
                    }
                },
                other => panic!("not a merge: {:?}", other),
            }
            assert_eq!(
                sorted(v.proposals()),
                vec![b"A".to_vec(), b"B".to_vec(), b"C".to_vec(), b"D".to_vec()]
            );
            assert_eq!(nodes[1].validate_signed_vote(&v), Ok(()));
            assert!(nodes[0].votes[&0].same(&v));
        },
        other => panic!("not a broadcast: {:?}", other),
    }
    let mut seven = votes.clone();
    assert!(nodes[0].is_split_vote(&seven));
    assert!(!nodes[0].is_super_majority(&seven));
    let counts = nodes[0].count_votes(&seven);
    assert_eq!(counts.iter().map(|c| c.count).collect::<Vec<usize>>(), vec![2, 2, 2, 1]);
    seven.pop();
    seven.push(propose(&nodes[6], b"A", 1));
    assert!(!nodes[0].is_split_vote(&seven));
    assert!(nodes[0].is_super_majority(&seven));
}

#[test]
fn a_split_vote_needs_more_voters_than_the_threshold() {
    let nodes = engines(7, 2);
    let two = vec![propose(&nodes[0], b"A", 1), propose(&nodes[1], b"B", 1)];
    assert!(!nodes[0].is_split_vote(&two));
    let all: Vec<SignedVote> = (0..7).map(|i| propose(&nodes[i], &[i as u8], 1)).collect();
    assert!(nodes[0].is_split_vote(&all));
    assert!(!nodes[0].is_split_vote(&all[..5].to_vec()));
    assert!(nodes[0].is_split_vote(&all[..6].to_vec()));
    assert!(!nodes[0].is_split_vote(&vec![]));
    assert!(!nodes[0].is_super_majority(&vec![]));
}

#[test]
fn a_merge_that_adds_nothing_is_not_sent() {
    let mut nodes = engines(7, 2);
    let values: [&[u8]; 7] = [b"A", b"A", b"B", b"B", b"C", b"C", b"D"];
    let votes: Vec<SignedVote> = (0..7).map(|i| propose(&nodes[i], values[i], 1)).collect();
    nodes[0].cast_vote(votes[0].clone());
    for v in &votes[1..6] {
        nodes[0].log_signed_vote(v);
    }
    assert!(matches!(
        nodes[0].handle_signed_vote(votes[6].clone(), 1),
        Ok(VoteResponse::Broadcast(_))
    ));
    let before = logged(&nodes[0]);
    assert!(matches!(
        nodes[0].handle_signed_vote(votes[6].clone(), 1),
        Ok(VoteResponse::WaitingForMoreVotes)
    ));
    assert!(same_log(&logged(&nodes[0]), &before));
}

#[test]
fn agreeing_supermajorities_decide() {
    let mut nodes = engines(4, 1);
    let proposals: Vec<SignedVote> = (0..3).map(|i| propose(&nodes[i], b"A", 1)).collect();
    let mut claims = Vec::new();
    for i in 0..3 {
        for v in &proposals {
            nodes[i].log_signed_vote(v);
        }
        let claim = nodes[i].build_super_majority_vote(1).expect("a claim");
        assert!(claim.vote.is_super_majority_ballot());
        claims.push(nodes[i].cast_vote(claim));
    }
    assert_eq!(nodes[0].validate_signed_vote(&claims[1]), Ok(()));
    nodes[0].log_signed_vote(&claims[1]);
    assert_eq!(nodes[0].validate_signed_vote(&claims[2]), Ok(()));
    match nodes[0].handle_signed_vote(claims[2].clone(), 1).expect("a response") {
        VoteResponse::Decided(v) => {
            assert_eq!(v.voter, 0);
            assert!(v.vote.is_super_majority_ballot());
            assert_eq!(v.proposals(), vec![b"A".to_vec()]);
            assert_eq!(nodes[3].validate_signed_vote(&v), Ok(()));
        },
        other => panic!("not decided: {:?}", other),
    }
    let votes = nodes[0].logged_votes();
    assert!(nodes[0].is_super_majority_over_super_majorities(&votes));
    assert!(nodes[0].is_super_majority(&votes));
    assert_eq!(nodes[0].count_votes(&votes).len(), 1);
}

#[test]
fn an_absent_elder_decides_on_the_claims_of_the_others() {
    let mut nodes = engines(4, 1);
    let proposals: Vec<SignedVote> = (0..3).map(|i| propose(&nodes[i], b"A", 1)).collect();
    let mut claims = Vec::new();
    for i in 0..3 {
        for v in &proposals {
            nodes[i].log_signed_vote(v);
        }
        let claim = nodes[i].build_super_majority_vote(1).expect("a claim");
        claims.push(nodes[i].cast_vote(claim));
    }
    assert_eq!(nodes[3].validate_signed_vote(&claims[0]), Ok(()));
    match nodes[3].handle_signed_vote(claims[0].clone(), 1).expect("a response") {
        VoteResponse::Broadcast(v) => assert!(v.vote.is_super_majority_ballot()),
        other => panic!("not a broadcast: {:?}", other),
    }
    assert_eq!(nodes[3].validate_signed_vote(&claims[1]), Ok(()));
    match nodes[3].handle_signed_vote(claims[1].clone(), 1).expect("a response") {
        VoteResponse::Decided(v) => assert_eq!(v.proposals(), vec![b"A".to_vec()]),
        other => panic!("not decided: {:?}", other),
    }
}

#[test]
fn honest_elders_agree_on_one_value() {
    for order in 0..6 {
        let mut nodes = engines(4, 1);
        let decided = run(&mut nodes, &[b"A", b"A", b"A", b"A"], order, 1);
        for d in &decided {
            let v = d.as_ref().expect("a decision");
            assert_eq!(v.proposals(), vec![b"A".to_vec()]);
        }
    }
}

#[test]
fn honest_elders_agree_after_a_split_vote() {
    for order in 0..6 {
        let mut nodes = engines(4, 1);
        let decided = run(&mut nodes, &[b"A", b"B", b"C", b"D"], order, 1);
        let first = decided[0].as_ref().expect("a decision").proposals();
        assert_eq!(
            sorted(first.clone()),
            vec![b"A".to_vec(), b"B".to_vec(), b"C".to_vec(), b"D".to_vec()]
        );
        for d in &decided {
            assert!(same_set(&d.as_ref().expect("a decision").proposals(), &first));
        }
    }
}

#[test]
fn honest_elders_agree_with_one_elder_absent() {
    for order in 0..6 {
        let mut nodes = engines(7, 2);
        let decided = run(&mut nodes, &[b"A", b"B", b"A", b"B", b"A", b"C"], order, 4);
        let first = decided[0].as_ref().expect("a decision").proposals();
        for d in &decided {
            assert!(same_set(&d.as_ref().expect("a decision").proposals(), &first));
        }
    }
}

#[test]
fn a_received_vote_is_validated_before_it_is_handled() {
    let mut nodes = engines(4, 1);
    let a1 = propose(&nodes[1], b"A", 1);
    let mut forged = propose(&nodes[2], b"A", 1);
    forged.voter = 3;
    assert!(matches!(nodes[0].receive_signed_vote(forged, 1), Err(Error::InvalidSignature)));
    assert!(nodes[0].votes.is_empty());
    match nodes[0].receive_signed_vote(a1.clone(), 1).expect("a response") {
        VoteResponse::Broadcast(v) => assert_eq!(v.voter, 0),
        other => panic!("not a broadcast: {:?}", other),
    }
    assert_eq!(nodes[0].votes.len(), 2);
    let b1 = propose(&nodes[1], b"B", 1);
    let before = logged(&nodes[0]);
    assert!(matches!(nodes[0].receive_signed_vote(b1, 1), Err(Error::ConflictingVote)));
    assert!(same_log(&logged(&nodes[0]), &before));
}

#[test]
fn the_engine_keeps_every_entry_under_its_voter() {
    let mut nodes = engines(7, 2);
    let values: [&[u8]; 7] = [b"A", b"A", b"B", b"B", b"C", b"C", b"D"];
    let votes: Vec<SignedVote> = (0..7).map(|i| propose(&nodes[i], values[i], 1)).collect();
    for v in &votes[1..] {
        nodes[0].receive_signed_vote(v.clone(), 1).expect("a response");
    }
    assert_eq!(nodes[0].votes.len(), 7);
    for (voter, vote) in nodes[0].votes.iter() {
        assert_eq!(*voter, vote.voter);
    }
}

#[test]
fn witnesses_are_made_in_the_order_of_the_propositions() {
    let nodes = engines(4, 1);
    let propositions = vec![b"B".to_vec(), b"A".to_vec()];
    let witnesses = nodes[2].witness_all(&propositions).expect("witnesses");
    assert_eq!(witnesses.len(), 2);
    for (w, p) in witnesses.iter().zip(&propositions) {
        assert_eq!(&w.proposal, p);
        assert_eq!(w.signer, 2);
        assert_eq!(w.sig, nodes[2].sign(p).expect("a signature"));
    }
    assert!(nodes[0].verify_witnesses(&witnesses));
    assert!(nodes[2].witness_all(&vec![]).expect("witnesses").is_empty());
}

#[test]
fn a_claim_carries_the_log_and_a_witness_for_each_proposition() {
    let mut nodes = engines(4, 1);
    let a1 = propose(&nodes[1], b"B", 1);
    let a2 = propose(&nodes[2], b"A", 1);
    let merge = nodes[3]
        .sign_vote(Vote { gen: 1, ballot: Ballot::Merge(vec![a1.clone(), a2.clone()]) })
        .expect("a signed vote");
    nodes[0].log_signed_vote(&merge);
    let claim = nodes[0].build_super_majority_vote(5).expect("a claim");
    assert_eq!(claim.voter, 0);
    assert_eq!(claim.vote.gen, 5);
    match &claim.vote.ballot {
        Ballot::SuperMajority { votes, proposals } => {
            assert_eq!(votes.len(), 1);
            assert!(votes[0].same(&merge));
            let witnessed: Vec<Vec<u8>> = proposals.iter().map(|w| w.proposal.clone()).collect();
            assert_eq!(witnessed, vec![b"B".to_vec(), b"A".to_vec()]);
        },
        other => panic!("not a supermajority: {:?}", other),
    }
    assert_eq!(nodes[0].verify_sig_share(&claim.vote.to_bytes(), 0, &claim.sig), Ok(()));
    assert_eq!(nodes[0].votes.len(), 3);
}
