use hotstuff_consensus::authority_changes::{
    AuthoritySetChangeId, AuthoritySetChanges, DelayKind, PendingChange,
};
use hotstuff_consensus::dummy_chain::{DummyChain, GENESIS_HASH, NULL_HASH};
use hotstuff_consensus::persistent::{schema_decision, SchemaDecision, State};
use hotstuff_consensus::routing::{Rule, RoutingRule, VoterState};
use hotstuff_consensus::tendermint_messages::{
    outgoing_message,
    BadCommit, Commit, CommitProcessingOutcome, CommitValidationResult, CompactCommit,
    FinalizedCommit, GoodCommit, Message, Precommit, Prevote, Proposal, SignedCommit,
    SignedMessage,
};
use hotstuff_consensus::voter_set::VoterSet;

#[test]
fn voter_set_new_rejects_empty() {
    assert!(VoterSet::<u64>::new(vec![]).is_none());
}

#[test]
fn voter_set_thresholds_are_supermajorities() {
    for (n, t) in [(1usize, 1usize), (2, 2), (3, 3), (4, 3), (5, 4), (6, 5), (7, 5), (10, 7)] {
        let voters: Vec<u64> = (0..n as u64).collect();
        let set = VoterSet::new(voters).unwrap();
        assert_eq!(set.threshold(), t);
        assert!(3 * t > 2 * n);
        assert!(t <= n);
        assert_eq!(set.len(), n);
        assert!(set.is_full());
        assert!(!set.is_empty());
    }
}

#[test]
fn voter_set_add_and_remove() {
    let mut set = VoterSet::new(vec![1u64, 2, 3, 2]).unwrap();
    assert_eq!(set.threshold(), 3);
    set.remove(&2);
    assert_eq!(set.voters(), &[1u64, 3][..]);
    assert!(!set.is_member(&2));
    assert!(set.is_member(&3));
    assert_eq!(set.threshold(), 3);
    assert!(!set.is_full());
    set.add(5);
    assert_eq!(set.voters(), &[1u64, 3, 5][..]);
    assert!(set.is_full());
    set.remove(&1);
    set.remove(&3);
    set.remove(&5);
    assert!(set.is_empty());
}

#[test]
fn voter_set_proposer_rotates() {
    let set = VoterSet::new(vec![10u64, 20, 30]).unwrap();
    assert_eq!(set.get_proposer(0), 10);
    assert_eq!(set.get_proposer(1), 20);
    assert_eq!(set.get_proposer(4), 20);
    assert_eq!(set.get_proposer(5), 30);
}

#[test]
fn voter_set_lookups() {
    let set = VoterSet::new(vec![10u64, 20, 30]).unwrap();
    assert_eq!(set.nth(1), Some(&20));
    assert_eq!(set.nth(3), None);
    assert_eq!(set.get(&30), Some(&30));
    assert_eq!(set.get(&40), None);
    assert!(set.contains(&10));
    assert!(!set.contains(&11));
    let all: Vec<u64> = set.iter().copied().collect();
    assert_eq!(all, vec![10, 20, 30]);
}

#[test]
fn voter_set_of_public_keys() {
    let a = [1u8; 32];
    let b = [2u8; 32];
    let mut set = VoterSet::new(vec![a, b]).unwrap();
    assert!(set.contains(&b));
    set.remove(&a);
    assert!(!set.contains(&a));
    assert_eq!(set.get_proposer(7), b);
}

#[test]
fn genesis_state_is_finalized_and_completable() {
    let state = State::genesis((5u64, 7u32));
    assert_eq!(state.finalized, Some((5, 7)));
    assert!(state.completable);
}

#[test]
fn message_round_and_target() {
    let prevote: Message<u64, u64> =
        Message::Prevote(Prevote { round: 3, target_height: 10, target_hash: Some(7) });
    assert_eq!(prevote.round(), 3);
    assert_eq!(prevote.target(), (Some(7), 10));
    let proposal: Message<u64, u64> = Message::Proposal(Proposal {
        round: 4,
        target_height: 11,
        target_hash: 8,
        valid_round: None,
    });
    assert_eq!(proposal.round(), 4);
    assert_eq!(proposal.target(), (Some(8), 11));
    let precommit: Message<u64, u64> =
        Message::Precommit(Precommit { round: 9, target_height: 12, target_hash: None });
    assert_eq!(precommit.round(), 9);
    assert_eq!(precommit.target(), (None, 12));
}

fn signed_commit(round: u64, height: u64, hash: u64, sig: u32, id: u32) -> SignedCommit<u64, u64, u32, u32> {
    SignedCommit {
        commit: Precommit { round, target_height: height, target_hash: Some(hash) },
        signature: sig,
        id,
    }
}

#[test]
fn signed_commit_becomes_signed_precommit() {
    let message: SignedMessage<u64, u64, u32, u32> = SignedMessage::from(signed_commit(2, 5, 9, 77, 3));
    assert_eq!(message.id, 3);
    assert_eq!(message.signature, 77);
    assert_eq!(message.round(), 2);
    assert_eq!(message.target(), (Some(9), 5));
}

#[test]
fn finalized_commit_compact_round_trip() {
    let finalized = FinalizedCommit {
        target_hash: 1u64,
        target_number: 2u64,
        commits: vec![signed_commit(1, 2, 1, 10, 100), signed_commit(1, 3, 4, 11, 101)],
    };
    let compact: CompactCommit<u64, u64, u32, u32> = CompactCommit::from(finalized.clone());
    assert_eq!(compact.target_hash, 1);
    assert_eq!(compact.target_number, 2);
    assert_eq!(
        compact.commits,
        vec![
            Precommit { round: 1, target_height: 2, target_hash: Some(1) },
            Precommit { round: 1, target_height: 3, target_hash: Some(4) },
        ]
    );
    assert_eq!(compact.auth_data, vec![(10, 100), (11, 101)]);
    let back: FinalizedCommit<u64, u64, u32, u32> = FinalizedCommit::from(compact);
    assert_eq!(back, finalized);
}

#[test]
fn compact_commit_pairs_as_far_as_both_go() {
    let compact: CompactCommit<u64, u64, u32, u32> = CompactCommit {
        target_hash: 1,
        target_number: 2,
        commits: vec![Precommit { round: 1, target_height: 2, target_hash: Some(1) }],
        auth_data: vec![(10, 100), (11, 101)],
    };
    let finalized: FinalizedCommit<u64, u64, u32, u32> = FinalizedCommit::from(compact);
    assert_eq!(finalized.commits, vec![signed_commit(1, 2, 1, 10, 100)]);
}

#[test]
fn commit_new_keeps_fields() {
    let commit = Commit::new(1, 2, 3u64, 4u64);
    assert_eq!(commit, Commit { view: 1, seq: 2, target_number: 3, target_hash: 4 });
}

#[test]
fn commit_validation_result_defaults_to_nothing() {
    let result = CommitValidationResult::<u64, u64>::default();
    assert_eq!(result.target(), None);
    assert_eq!(result.num_commits(), 0);
    assert_eq!(result.num_duplicated_commits(), 0);
    assert_eq!(result.num_invalid_voters(), 0);
}

#[test]
fn commit_processing_outcomes() {
    assert_eq!(CommitProcessingOutcome::good(), CommitProcessingOutcome::Good(GoodCommit::new()));
    match CommitProcessingOutcome::bad() {
        CommitProcessingOutcome::Bad(bad) => {
            assert_eq!(bad.num_commits(), 0);
            assert_eq!(bad.num_duplicated(), 0);
            assert_eq!(bad.num_invalid_voters(), 0);
        },
        _ => panic!("a bad outcome is expected"),
    }
    let bad = BadCommit::from(CommitValidationResult::<u64, u64>::default());
    assert_eq!(bad.num_commits(), 0);
}

#[test]
fn dummy_chain_starts_at_genesis() {
    let chain = DummyChain::new();
    assert_eq!(chain.last_finalized(), (0, GENESIS_HASH));
    assert_eq!(chain.next_to_be_finalized(), Err(()));
    assert_ne!(GENESIS_HASH, NULL_HASH);
}

#[test]
fn dummy_chain_next_block_is_the_greatest_at_the_next_height() {
    let mut chain = DummyChain::new();
    chain.push_blocks(GENESIS_HASH, &[10, 11, 12]);
    chain.push_block(GENESIS_HASH, 20);
    assert_eq!(chain.next_to_be_finalized(), Ok((1, 20)));
    assert!(chain.finalize_block(10));
    assert_eq!(chain.last_finalized(), (1, 10));
    assert_eq!(chain.next_to_be_finalized(), Ok((2, 11)));
    assert!(!chain.finalize_block(99));
    assert_eq!(chain.last_finalized(), (1, 10));
    assert!(chain.finalize_block(12));
    assert_eq!(chain.last_finalized(), (3, 12));
    assert_eq!(chain.next_to_be_finalized(), Err(()));
}

#[test]
fn voter_state_new_is_zero() {
    assert_eq!(VoterState::new(), VoterState { last_finalized: 0, view_number: 0 });
}

#[test]
fn routing_without_rules_delivers_everything() {
    let mut rule = RoutingRule::new();
    assert!(rule.valid_route(&1, &2));
    assert!(rule.valid_route(&2, &2));
}

#[test]
fn routing_isolated_node_neither_sends_nor_receives() {
    let mut rule = RoutingRule::new();
    rule.isolate(3);
    assert!(!rule.valid_route(&1, &3));
    assert!(!rule.valid_route(&3, &1));
    assert!(rule.valid_route(&1, &2));
}

#[test]
fn routing_isolate_after_a_height() {
    let mut rule = RoutingRule::new();
    rule.isolate_after(2, 5);
    assert!(rule.valid_route(&1, &2));
    rule.update_state(2, VoterState { last_finalized: 5, view_number: 1 });
    assert!(!rule.valid_route(&1, &2));
    assert!(!rule.valid_route(&2, &1));
    rule.update_state(2, VoterState { last_finalized: 4, view_number: 1 });
    assert!(rule.valid_route(&2, &1));
    rule.add_rule(Rule::Isolate(1));
    assert!(!rule.valid_route(&2, &1));
}

#[test]
fn authority_set_changes_for_complete_data() {
    let mut changes = AuthoritySetChanges::empty();
    changes.append(0, 41);
    changes.append(1, 81);
    changes.append(2, 121);
    assert_eq!(changes.get_set_id(20), AuthoritySetChangeId::SetAt(0, 41));
    assert_eq!(changes.get_set_id(40), AuthoritySetChangeId::SetAt(0, 41));
    assert_eq!(changes.get_set_id(41), AuthoritySetChangeId::SetAt(0, 41));
    assert_eq!(changes.get_set_id(42), AuthoritySetChangeId::SetAt(1, 81));
    assert_eq!(changes.get_set_id(141), AuthoritySetChangeId::Latest);
}

#[test]
fn authority_set_changes_for_incomplete_data() {
    let changes = AuthoritySetChanges::from(vec![(2u64, 41u64), (3, 81), (4, 121)]);
    assert_eq!(changes.get_set_id(20), AuthoritySetChangeId::Unknown);
    assert_eq!(changes.get_set_id(41), AuthoritySetChangeId::Unknown);
    assert_eq!(changes.get_set_id(42), AuthoritySetChangeId::SetAt(3, 81));
    assert_eq!(changes.get_set_id(141), AuthoritySetChangeId::Latest);
}

#[test]
fn authority_set_changes_insert_in_place() {
    let mut changes = AuthoritySetChanges::empty();
    changes.append(0, 41);
    changes.append(1, 81);
    changes.append(3, 121);
    changes.insert(101);
    assert_eq!(changes.get_set_id(100), AuthoritySetChangeId::SetAt(2, 101));
    assert_eq!(changes.get_set_id(101), AuthoritySetChangeId::SetAt(2, 101));
    assert_eq!(changes.get_set_id(102), AuthoritySetChangeId::SetAt(3, 121));
    let mut front = AuthoritySetChanges::empty();
    front.insert(7);
    assert_eq!(front.get_set_id(3), AuthoritySetChangeId::SetAt(0, 7));
}

#[test]
fn authority_set_changes_iter_from() {
    let mut changes = AuthoritySetChanges::empty();
    changes.append(0, 41);
    changes.append(1, 81);
    changes.append(2, 121);
    changes.append(3, 201);
    assert_eq!(changes.iter_from(40), Some(vec![(0, 41), (1, 81), (2, 121), (3, 201)]));
    assert_eq!(changes.iter_from(41), Some(vec![(1, 81), (2, 121), (3, 201)]));
    assert_eq!(changes.iter_from(121), Some(vec![(3, 201)]));
    assert_eq!(changes.iter_from(202), Some(vec![]));
    let missing = AuthoritySetChanges::from(vec![(2u64, 41u64), (3, 81)]);
    assert_eq!(missing.iter_from(40), None);
    assert_eq!(missing.iter_from(41), Some(vec![(3, 81)]));
}

#[test]
fn pending_change_effective_number() {
    let change = PendingChange {
        next_authorities: vec![[1u8; 32]],
        delay: 5,
        canon_height: 10,
        canon_hash: 1u64,
        delay_kind: DelayKind::Finalized,
    };
    assert_eq!(change.effective_number(), 15);
    let forced = DelayKind::Best { median_last_finalized: 3u64 };
    assert_eq!(forced, DelayKind::Best { median_last_finalized: 3 });
}

#[test]
fn pushing_no_blocks_needs_no_known_parent() {
    let mut chain = DummyChain::new();
    chain.push_blocks(42, &[]);
    assert_eq!(chain.last_finalized(), (0, GENESIS_HASH));
    assert_eq!(chain.next_to_be_finalized(), Err(()));
}

#[test]
fn only_the_current_schema_is_loaded() {
    assert_eq!(schema_decision(None), SchemaDecision::Load);
    assert_eq!(schema_decision(Some(3)), SchemaDecision::Load);
    assert_eq!(schema_decision(Some(2)), SchemaDecision::Unsupported(2));
}

#[test]
fn a_vote_already_cast_is_sent_again() {
    let fresh = Prevote { round: 1, target_height: 5u64, target_hash: Some(7u64) };
    let cast = Prevote { round: 1, target_height: 4u64, target_hash: Some(6u64) };
    let sent = outgoing_message(Message::Prevote(fresh.clone()), None, Some(cast.clone()), None);
    assert!(matches!(sent, Message::Prevote(p) if p == cast));
    let sent = outgoing_message(Message::Prevote(fresh.clone()), None, None, None);
    assert!(matches!(sent, Message::Prevote(p) if p == fresh));
    let precommit = Precommit { round: 1, target_height: 5u64, target_hash: Some(7u64) };
    let sent = outgoing_message(Message::Precommit(precommit.clone()), None, Some(cast), None);
    assert!(matches!(sent, Message::Precommit(p) if p == precommit));
}
