use std::collections::VecDeque;

use hotstuff_consensus::aggregator::Aggregator;
use hotstuff_consensus::consensus::ConsensusState;
use hotstuff_consensus::hotstuff_message::{
    AuthorityList, ConsensusMessage, HotstuffError, Payload, Proposal, Timeout, Vote, QC, TC,
};
use hotstuff_consensus::worker::{
    empty_payload_hash, message_expired, note_finalized_block, note_imported_block, BlockInfo,
    BlockStatus, ConsensusWorker, ProposalCheck, ProposalHandling,
};
use std::cell::RefCell;
use parity_scale_codec::Encode;
use sp_core::Pair;

fn key(seed: u8) -> sp_core::ed25519::Pair {
    sp_core::ed25519::Pair::from_seed(&[seed; 32])
}

fn id(pair: &sp_core::ed25519::Pair) -> [u8; 32] {
    pair.public().0
}

fn sign(pair: &sp_core::ed25519::Pair, digest: &[u8; 32]) -> [u8; 64] {
    pair.sign(&digest[..]).0
}

fn blake2(data: &[u8]) -> [u8; 32] {
    <sp_core::Blake2Hasher as sp_core::Hasher>::hash(data).0
}

fn authorities(pairs: &[sp_core::ed25519::Pair]) -> AuthorityList {
    pairs.iter().map(|p| (id(p), 1u64)).collect()
}

#[test]
fn qc_digest_is_hash_of_encoded_hash_and_view() {
    let qc = QC { proposal_hash: [5u8; 32], view: 7, votes: vec![] };
    let mut data = [5u8; 32].to_vec();
    data.extend_from_slice(&7u64.to_le_bytes());
    assert_eq!(qc.digest(), blake2(&data.encode()));
    let vote = Vote::new([5u8; 32], 7, [1u8; 32]);
    assert_eq!(vote.digest(), qc.digest());
}

#[test]
fn proposal_digest_is_hash_of_encoded_fields() {
    let qc = QC { proposal_hash: [9u8; 32], view: 3, votes: vec![] };
    let payload = Payload { block_hash: [4u8; 32], block_number: 12 };
    let proposal = Proposal::new(qc, None, payload, 4, [2u8; 32], None);
    let mut data = [2u8; 32].to_vec();
    data.extend_from_slice(&[4u8; 32]);
    data.extend_from_slice(&12u64.to_le_bytes());
    data.extend_from_slice(&4u64.to_le_bytes());
    data.extend_from_slice(&[9u8; 32]);
    assert_eq!(proposal.digest(), blake2(&data.encode()));
    assert_eq!(proposal.parent_hash(), [9u8; 32]);
}

#[test]
fn genesis_qc_lacks_quorum() {
    let pairs = [key(1), key(2), key(3)];
    let qc = QC::genesis();
    assert!(qc.is_genesis());
    assert_eq!(qc.verify(&authorities(&pairs)), Err(HotstuffError::InsufficientQuorum));
}

#[test]
fn qc_with_every_signature_verifies() {
    let pairs = [key(1), key(2), key(3)];
    let auths = authorities(&pairs);
    let mut qc = QC { proposal_hash: [1u8; 32], view: 2, votes: vec![] };
    let digest = qc.digest();
    for p in &pairs {
        qc.add_votes(id(p), sign(p, &digest));
    }
    assert_eq!(qc.verify(&auths), Ok(()));
    let other = QC { proposal_hash: [1u8; 32], view: 2, votes: vec![] };
    assert!(qc.same_as(&other));
}

#[test]
fn qc_errors() {
    let pairs = [key(1), key(2), key(3)];
    let auths = authorities(&pairs);
    let mut qc = QC { proposal_hash: [1u8; 32], view: 2, votes: vec![] };
    let digest = qc.digest();
    qc.add_votes(id(&pairs[0]), sign(&pairs[0], &digest));
    qc.add_votes(id(&pairs[1]), sign(&pairs[1], &digest));
    assert_eq!(qc.verify(&auths), Err(HotstuffError::InsufficientQuorum));
    let mut reused = qc.clone();
    reused.add_votes(id(&pairs[0]), sign(&pairs[0], &digest));
    assert_eq!(reused.verify(&auths), Err(HotstuffError::AuthorityReuse(id(&pairs[0]))));
    let mut forged = qc.clone();
    forged.add_votes(id(&pairs[2]), sign(&pairs[2], &[0u8; 32]));
    assert_eq!(forged.verify(&auths), Err(HotstuffError::InvalidSignature(id(&pairs[2]))));
}

#[test]
fn vote_errors() {
    let pairs = [key(1), key(2)];
    let auths = authorities(&pairs);
    let mut vote = Vote::new([3u8; 32], 5, id(&pairs[0]));
    assert_eq!(vote.verify(&auths), Err(HotstuffError::NullSignature));
    vote.signature = Some(sign(&pairs[0], &vote.digest()));
    assert_eq!(vote.verify(&auths), Ok(()));
    let stranger = key(9);
    let mut other = Vote::new([3u8; 32], 5, id(&stranger));
    other.signature = Some(sign(&stranger, &other.digest()));
    assert_eq!(other.verify(&auths), Err(HotstuffError::UnknownAuthority(id(&stranger))));
    let mut wrong = Vote::new([3u8; 32], 5, id(&pairs[1]));
    wrong.signature = Some(sign(&pairs[0], &wrong.digest()));
    assert_eq!(wrong.verify(&auths), Err(HotstuffError::InvalidSignature(id(&pairs[1]))));
}

#[test]
fn timeout_verifies_with_genesis_certificate() {
    let pairs = [key(1)];
    let auths = authorities(&pairs);
    let mut timeout = Timeout { high_qc: QC::genesis(), view: 3, voter: id(&pairs[0]), signature: None };
    timeout.signature = Some(sign(&pairs[0], &timeout.digest()));
    assert_eq!(timeout.verify(&auths), Ok(()));
}

#[test]
fn aggregator_forms_a_certificate_at_the_threshold() {
    let pairs = [key(1), key(2), key(3)];
    let auths = authorities(&pairs);
    let mut agg = Aggregator::new();
    let signed = |p: &sp_core::ed25519::Pair| {
        let mut v = Vote::new([8u8; 32], 4, id(p));
        v.signature = Some(sign(p, &v.digest()));
        v
    };
    assert!(matches!(agg.add_vote(signed(&pairs[0]), &auths), Ok(None)));
    assert_eq!(
        agg.add_vote(signed(&pairs[0]), &auths).err(),
        Some(HotstuffError::AuthorityReuse(id(&pairs[0])))
    );
    let unsigned = Vote::new([8u8; 32], 4, id(&pairs[1]));
    assert_eq!(agg.add_vote(unsigned, &auths).err(), Some(HotstuffError::NullSignature));
    assert!(matches!(agg.add_vote(signed(&pairs[1]), &auths), Ok(None)));
    let qc = agg.add_vote(signed(&pairs[2]), &auths).unwrap().unwrap();
    assert_eq!(qc.view, 4);
    assert_eq!(qc.proposal_hash, [8u8; 32]);
    assert_eq!(qc.votes.len(), 3);
    assert_eq!(qc.verify(&auths), Ok(()));
}

#[test]
fn replica_votes_once_per_view() {
    let pairs = [key(1), key(2), key(3)];
    let mut state = ConsensusState::new(authorities(&pairs), vec![id(&pairs[0])]);
    assert_eq!(state.local_authority_id(), Some(id(&pairs[0])));
    assert_eq!(state.view(), 0);
    assert!(state.is_leader());
    assert_eq!(state.view_leader(1), id(&pairs[1]));
    let payload = Payload { block_hash: [1u8; 32], block_number: 1 };
    let proposal = Proposal::new(QC::genesis(), None, payload, 1, id(&pairs[1]), None);
    let vote = state.make_vote(&proposal).unwrap();
    assert_eq!(vote.view, 1);
    assert_eq!(vote.voter, id(&pairs[0]));
    assert_eq!(vote.proposal_hash, proposal.digest());
    assert_eq!(state.last_voted_view(), 1);
    assert!(state.make_vote(&proposal).is_none());
}

#[test]
fn replica_without_key_is_no_authority() {
    let pairs = [key(1)];
    let state = ConsensusState::new(authorities(&pairs), vec![]);
    assert_eq!(state.local_authority_id(), None);
    assert_eq!(state.make_timeout().err(), Some(HotstuffError::NotAuthority));
}

#[test]
fn timed_out_replica_does_not_vote_in_that_view() {
    let pairs = [key(1)];
    let mut state = ConsensusState::new(authorities(&pairs), vec![id(&pairs[0])]);
    state.advance_view_from_target(0);
    assert_eq!(state.view(), 1);
    state.increase_last_voted_view();
    assert_eq!(state.last_voted_view(), 1);
    let payload = Payload { block_hash: [1u8; 32], block_number: 1 };
    let proposal = Proposal::new(QC::genesis(), None, payload, 1, id(&pairs[0]), None);
    assert!(state.make_vote(&proposal).is_none());
}

#[test]
fn empty_payload_and_topic_hashes() {
    assert_eq!(empty_payload_hash(), blake2(b"hotstuff/empty_payload"));
    assert_eq!(ConsensusMessage::gossip_topic(), blake2(b"hotstuff/consensus"));
}

#[test]
fn single_voter_round_trip() {
    let me = key(1);
    let auths = authorities(&[key(1)]);
    let state = ConsensusState::new(auths, vec![id(&me)]);
    let mut worker = ConsensusWorker::new(state, None);
    let block = BlockInfo { hash: Some([7u8; 32]), number: 1 };
    let mut queue = VecDeque::new();
    queue.push_back(block);

    // the local timer fires: a timeout of view 0
    let mut timeout = worker.handle_local_timer().unwrap();
    assert_eq!(timeout.view, 0);
    timeout.signature = Some(sign(&me, &timeout.digest()));

    // alone, the timeout forms a certificate and the node leads view 1
    let outcome = worker.handle_timeout(&timeout, 0, Some(&queue)).unwrap();
    assert!(outcome.reset_timer);
    assert_eq!(worker.view(), 1);
    let tc: TC = outcome.gossip_tc.unwrap();
    assert_eq!(tc.view, 0);
    let mut proposal = outcome.propose.unwrap();
    assert_eq!(proposal.view, 1);
    assert_eq!(proposal.payload.block_hash, [7u8; 32]);
    assert_eq!(proposal.payload.block_number, 1);
    assert_eq!(worker.processing_block(), Some(block));
    proposal.signature = Some(sign(&me, &proposal.digest()));

    // the proposal is accepted, then voted for locally
    let check = worker.check_proposal(&proposal, Ok(BlockStatus::InChain)).unwrap();
    assert!(matches!(check, ProposalCheck::Accepted { reset_timer: false }));
    let follow = worker.after_proposal_saved(&proposal, None, [0u8; 32]);
    assert_eq!(follow.finalize, None);
    assert!(follow.vote_locally);
    let mut vote = follow.vote.unwrap();
    vote.signature = Some(sign(&me, &vote.digest()));

    // the vote forms a certificate: view 2, with an empty payload since the
    // block is not finalized yet
    let outcome = worker.handle_vote(&vote, 0, Some(&queue)).unwrap();
    assert!(outcome.reset_timer);
    assert_eq!(worker.view(), 2);
    let next = outcome.propose.unwrap();
    assert_eq!(next.view, 2);
    assert_eq!(next.qc.view, 1);
    assert_eq!(next.payload.block_hash, empty_payload_hash());
    assert_eq!(next.payload.block_number, 1);
}

#[test]
fn unknown_payload_asks_for_the_block() {
    let me = key(1);
    let state = ConsensusState::new(authorities(&[key(1)]), vec![id(&me)]);
    let mut worker = ConsensusWorker::new(state, None);
    let payload = Payload { block_hash: [3u8; 32], block_number: 5 };
    let proposal = Proposal::new(QC::genesis(), None, payload, 0, id(&me), None);
    let check = worker.check_proposal(&proposal, Ok(BlockStatus::Unknown)).unwrap();
    assert!(matches!(check, ProposalCheck::SyncRequest(p) if p.block_number == 5));
    let err = worker.check_proposal(&proposal, Err("lookup failed".to_string())).err();
    assert_eq!(err, Some(HotstuffError::ClientError("lookup failed".to_string())));
    let unsigned = worker.check_proposal(&proposal, Ok(BlockStatus::InChain)).err();
    assert_eq!(unsigned, Some(HotstuffError::NullSignature));
}

#[test]
fn grandparent_of_consecutive_views_is_finalized() {
    let me = key(1);
    let state = ConsensusState::new(authorities(&[key(1)]), vec![id(&me)]);
    let mut worker = ConsensusWorker::new(state, None);
    let payload = Payload { block_hash: [3u8; 32], block_number: 5 };
    let proposal = Proposal::new(QC::genesis(), None, payload, 9, id(&me), None);
    let follow = worker.after_proposal_saved(&proposal, Some((4, 3, [6u8; 32])), [0u8; 32]);
    assert_eq!(follow.finalize, Some([6u8; 32]));
    assert!(follow.vote.is_none());
    let follow = worker.after_proposal_saved(&proposal, Some((5, 3, [6u8; 32])), [0u8; 32]);
    assert_eq!(follow.finalize, None);
    let follow = worker.after_proposal_saved(&proposal, Some((4, 3, [6u8; 32])), [6u8; 32]);
    assert_eq!(follow.finalize, None);
    let follow =
        worker.after_proposal_saved(&proposal, Some((4, 3, empty_payload_hash())), [0u8; 32]);
    assert_eq!(follow.finalize, None);
}

#[test]
fn pending_queue_tracks_best_blocks() {
    let mut queue = VecDeque::new();
    note_imported_block(&mut queue, true, [1u8; 32], 1);
    note_imported_block(&mut queue, false, [9u8; 32], 1);
    note_imported_block(&mut queue, true, [2u8; 32], 2);
    note_imported_block(&mut queue, true, [3u8; 32], 3);
    assert_eq!(queue.len(), 3);
    note_finalized_block(&mut queue, 2);
    assert_eq!(queue.len(), 1);
    assert_eq!(queue[0], BlockInfo { hash: Some([3u8; 32]), number: 3 });
    note_finalized_block(&mut queue, 2);
    assert_eq!(queue.len(), 1);
}

#[test]
fn old_consensus_messages_expire() {
    let vote = |view| ConsensusMessage::Vote(Vote::new([0u8; 32], view, [0u8; 32]));
    assert!(message_expired(&vote(5), 10));
    assert!(!message_expired(&vote(9), 10));
    assert!(!message_expired(&vote(2), 10));
    assert!(!message_expired(&ConsensusMessage::SyncRequest([0u8; 32], [0u8; 32]), 0));
}

#[test]
fn proposal_handling_saves_and_finalizes_the_grandparent() {
    let me = key(1);
    let state = ConsensusState::new(authorities(&[key(1)]), vec![id(&me)]);
    let mut worker = ConsensusWorker::new(state, None);
    let payload = Payload { block_hash: [3u8; 32], block_number: 5 };
    let mut proposal = Proposal::new(QC::genesis(), None, payload, 0, id(&me), None);
    proposal.signature = Some(sign(&me, &proposal.digest()));
    let saved = RefCell::new(Vec::new());
    let save = |p: &Proposal| -> Result<(), HotstuffError> {
        saved.borrow_mut().push(p.digest());
        Ok(())
    };
    let ancestors = |_: &Proposal| Some((4u64, 3u64, [6u8; 32]));
    let handling = worker
        .handle_proposal(&proposal, Ok(BlockStatus::InChain), &save, &ancestors, [0u8; 32])
        .unwrap();
    assert_eq!(saved.borrow().as_slice(), &[proposal.digest()]);
    match handling {
        ProposalHandling::Handled { reset_timer, follow_up } => {
            // the genesis certificate moves the replica to view 1, past the
            // proposal's view: no vote
            assert!(reset_timer);
            assert_eq!(follow_up.finalize, Some([6u8; 32]));
            assert!(follow_up.vote.is_none());
            assert_eq!(worker.view(), 1);
        },
        ProposalHandling::SyncRequest(_) => panic!("known block asked for"),
    }

    let failing = |_: &Proposal| -> Result<(), HotstuffError> { Err(HotstuffError::SaveProposal("full".to_string())) };
    let mut worker = ConsensusWorker::new(ConsensusState::new(authorities(&[key(1)]), vec![id(&me)]), None);
    let r = worker.handle_proposal(&proposal, Ok(BlockStatus::InChain), &failing, &ancestors, [0u8; 32]);
    assert_eq!(r.err(), Some(HotstuffError::SaveProposal("full".to_string())));
    let unknown = worker.handle_proposal(&proposal, Ok(BlockStatus::Unknown), &save, &ancestors, [0u8; 32]);
    assert!(matches!(unknown, Ok(ProposalHandling::SyncRequest(p)) if p.block_number == 5));
}

#[test]
fn single_voter_get_proposal_block() {
    let me = key(1);
    let state = ConsensusState::new(authorities(&[key(1)]), vec![id(&me)]);
    let mut worker = ConsensusWorker::new(state, None);
    let mut queue = VecDeque::new();

    // no block imported: the empty payload
    let payload = worker.get_proposal_payload(0, Some(&queue)).unwrap();
    assert_eq!(payload.block_hash, empty_payload_hash());

    // two blocks imported: first the first block, then the empty payload
    note_imported_block(&mut queue, true, [1u8; 32], 1);
    note_imported_block(&mut queue, true, [2u8; 32], 2);
    assert_eq!(worker.get_proposal_payload(0, Some(&queue)).unwrap().block_hash, [1u8; 32]);
    assert_eq!(worker.get_proposal_payload(0, Some(&queue)).unwrap().block_hash, empty_payload_hash());

    // once block 1 is final, block 2
    note_finalized_block(&mut queue, 1);
    assert_eq!(worker.get_proposal_payload(1, Some(&queue)).unwrap().block_hash, [2u8; 32]);

    // once block 2 is final, the empty payload again
    note_finalized_block(&mut queue, 2);
    assert_eq!(worker.get_proposal_payload(2, Some(&queue)).unwrap().block_hash, empty_payload_hash());

    // a queue that cannot be read gives nothing
    assert!(worker.get_proposal_payload(2, None).is_none());
}
