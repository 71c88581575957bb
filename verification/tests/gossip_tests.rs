use hotstuff_consensus::gossip::{
    neighbor_topics, Action, CatchUpConfig, Consider, DecodedGossip, Inner, KeepTopics,
    MessageIntent, Misbehavior, NeighborPacket, PeerRound, Peers, Role, Round, SetId,
};
use hotstuff_consensus::topics::{global_topic, push_decimal, round_topic};

fn blake2(data: &[u8]) -> [u8; 32] {
    <sp_core::Blake2Hasher as sp_core::Hasher>::hash(data).0
}

#[test]
fn decimal_texts() {
    for n in [0u64, 7, 10, 1234, u64::MAX] {
        let mut out = Vec::new();
        push_decimal(&mut out, n);
        assert_eq!(out, format!("{}", n).into_bytes());
    }
}

#[test]
fn topics_hash_their_names() {
    assert_eq!(round_topic(3, 7), blake2(b"7-3"));
    assert_eq!(global_topic(7), blake2(b"7-GLOBAL"));
    assert_ne!(round_topic(3, 7), round_topic(7, 3));
}

#[test]
fn votes_are_considered_in_neighbouring_rounds_of_the_set() {
    let at = PeerRound { round: Round(5), set_id: SetId(2), last_commit: None };
    assert_eq!(at.consider_vote(Round(5), SetId(2)), Consider::Accept);
    assert_eq!(at.consider_vote(Round(4), SetId(2)), Consider::Accept);
    assert_eq!(at.consider_vote(Round(6), SetId(2)), Consider::Accept);
    assert_eq!(at.consider_vote(Round(7), SetId(2)), Consider::RejectFuture);
    assert_eq!(at.consider_vote(Round(3), SetId(2)), Consider::RejectPast);
    assert_eq!(at.consider_vote(Round(5), SetId(1)), Consider::RejectPast);
    assert_eq!(at.consider_vote(Round(5), SetId(3)), Consider::RejectFuture);
    let first = PeerRound { round: Round(0), set_id: SetId(0), last_commit: None };
    assert_eq!(first.consider_vote(Round(0), SetId(0)), Consider::Accept);
    let last = PeerRound { round: Round(u64::MAX), set_id: SetId(0), last_commit: None };
    assert_eq!(last.consider_vote(Round(u64::MAX), SetId(0)), Consider::Accept);
}

#[test]
fn global_messages_must_finalize_a_higher_block() {
    let at = PeerRound { round: Round(5), set_id: SetId(2), last_commit: Some(10) };
    assert_eq!(at.consider_global(SetId(2), 11), Consider::Accept);
    assert_eq!(at.consider_global(SetId(2), 10), Consider::RejectPast);
    assert_eq!(at.consider_global(SetId(1), 11), Consider::RejectPast);
    assert_eq!(at.consider_global(SetId(3), 11), Consider::RejectFuture);
    let fresh = PeerRound::default_round();
    assert_eq!(fresh.consider_global(SetId(0), 0), Consider::Accept);
}

#[test]
fn misbehavior_costs() {
    assert_eq!(Misbehavior::UndecodablePacket(10).cost().value, -50);
    assert_eq!(Misbehavior::UndecodablePacket(i32::MAX).cost().value, i32::MIN);
    let bad = Misbehavior::BadCommitMessage {
        signatures_checked: 2,
        blocks_loaded: 1,
        equivocations_caught: 3,
    };
    assert_eq!(bad.cost().value, -30);
    assert_eq!(Misbehavior::FutureMessage.cost().value, -500);
    assert_eq!(Misbehavior::InvalidRoundChange.cost().value, -500);
    assert_eq!(Misbehavior::OutOfScopeMessage.cost().reason, "Grandpa: Out-of-scope message");
}

#[test]
fn catch_up_requests_by_role() {
    assert!(!CatchUpConfig::enabled(true).request_allowed(Role::Full));
    assert!(CatchUpConfig::enabled(false).request_allowed(Role::Full));
    assert!(CatchUpConfig::enabled(true).request_allowed(Role::Authority));
    assert!(!CatchUpConfig::enabled(false).request_allowed(Role::Light));
    assert!(!CatchUpConfig::disabled().request_allowed(Role::Authority));
}

#[test]
fn neighbor_topics_of_a_round() {
    let at = PeerRound { round: Round(0), set_id: SetId(4), last_commit: None };
    assert_eq!(neighbor_topics(&at), vec![global_topic(4), round_topic(0, 4)]);
    let later = PeerRound { round: Round(3), set_id: SetId(4), last_commit: None };
    assert_eq!(
        neighbor_topics(&later),
        vec![global_topic(4), round_topic(3, 4), round_topic(2, 4)]
    );
}

#[test]
fn kept_topics_follow_the_last_rounds() {
    let mut topics = KeepTopics::new();
    topics.push(Round(1), SetId(0));
    assert_eq!(topics.topic_info(&round_topic(1, 0)), Some((Some(Round(1)), SetId(0))));
    assert_eq!(topics.topic_info(&round_topic(2, 0)), Some((Some(Round(2)), SetId(0))));
    assert_eq!(topics.topic_info(&global_topic(0)), Some((None, SetId(0))));
    for r in 2..6 {
        topics.push(Round(r), SetId(0));
    }
    assert_eq!(topics.topic_info(&round_topic(1, 0)), None);
    assert_eq!(topics.topic_info(&round_topic(2, 0)), Some((Some(Round(2)), SetId(0))));
    assert_eq!(topics.topic_info(&round_topic(6, 0)), Some((Some(Round(6)), SetId(0))));
    topics.push(Round(1), SetId(1));
    assert_eq!(topics.topic_info(&global_topic(1)), Some((None, SetId(1))));
    assert_eq!(topics.topic_info(&global_topic(0)), None);
}

#[test]
fn peers_fill_the_stages_as_they_connect() {
    let mut peers = Peers::new();
    for who in 1..=5u64 {
        peers.new_peer(who, Role::Authority);
    }
    peers.new_peer(6, Role::Light);
    peers.new_peer(7, Role::Full);
    assert_eq!(peers.first_stage_len(), 4);
    assert!(peers.in_first_stage(&1));
    assert!(peers.in_second_stage(&5));
    assert!(peers.in_lucky_light(&6));
    assert!(!peers.in_first_stage(&7) && !peers.in_second_stage(&7));
    assert_eq!(peers.peer(&7).unwrap().roles, Role::Full);
    peers.peer_disconnected(&1);
    assert!(!peers.in_first_stage(&1));
    assert!(peers.peer(&1).is_none());
    let mut others = peers.non_light_peers();
    others.sort();
    assert_eq!(others, vec![2, 3, 4, 5, 7]);
}

#[test]
fn neighbor_packets_may_not_go_back() {
    let mut peers = Peers::new();
    let packet = |round, set, height| NeighborPacket {
        round: Round(round),
        set_id: SetId(set),
        commit_finalized_height: height,
    };
    assert_eq!(peers.update_peer_state(&1, packet(1, 0, 0)), Ok(None));
    peers.new_peer(1, Role::Authority);
    let updated = peers.update_peer_state(&1, packet(3, 1, 5)).unwrap().unwrap();
    assert_eq!(updated, PeerRound { round: Round(3), set_id: SetId(1), last_commit: Some(5) });
    assert_eq!(peers.update_peer_state(&1, packet(4, 0, 5)), Err(Misbehavior::InvalidRoundChange));
    assert_eq!(peers.update_peer_state(&1, packet(2, 1, 5)), Err(Misbehavior::InvalidRoundChange));
    assert_eq!(peers.update_peer_state(&1, packet(3, 1, 4)), Err(Misbehavior::InvalidRoundChange));
    assert_eq!(peers.update_commit_height(&1, 4), Err(Misbehavior::InvalidRoundChange));
    assert_eq!(peers.update_commit_height(&1, 6), Ok(()));
    assert_eq!(peers.peer(&1).unwrap().round.last_commit, Some(6));
}

#[test]
fn reshuffled_stages_have_their_sizes() {
    let mut peers = Peers::new();
    for who in 1..=10u64 {
        peers.new_peer(who, Role::Authority);
    }
    for who in 11..=16u64 {
        peers.new_peer(who, Role::Light);
    }
    peers.reshuffle(3);
    assert_eq!(peers.first_stage_len(), 4);
    let second: Vec<u64> = (1..=16).filter(|w| peers.in_second_stage(w)).collect();
    assert_eq!(second.len(), 4);
    for w in &second {
        assert!(!peers.in_first_stage(w));
        assert!(*w <= 10);
    }
    let light: Vec<u64> = (1..=16).filter(|w| peers.in_lucky_light(w)).collect();
    assert_eq!(light.len(), 4);
    assert!(light.iter().all(|w| *w > 10));
}

fn action_value(action: &Action) -> i32 {
    match action {
        Action::Keep(_, c) | Action::ProcessAndDiscard(_, c) | Action::Discard(c) => c.value,
    }
}

#[test]
fn round_messages_are_checked_against_the_local_round() {
    let a = [1u8; 32];
    let b = [2u8; 32];
    let mut inner = Inner::new(false);
    assert!(matches!(
        inner.validate_round_message(Round(1), SetId(1), &a, true),
        Action::Discard(c) if c.value == -500
    ));
    let (to, packet) = inner.note_set(SetId(1), vec![a, b]).unwrap();
    assert!(to.is_empty());
    assert_eq!(packet, NeighborPacket { round: Round(1), set_id: SetId(1), commit_finalized_height: 0 });
    assert!(matches!(
        inner.validate_round_message(Round(1), SetId(1), &a, true),
        Action::Keep(t, c) if t == round_topic(1, 1) && c.value == 100
    ));
    let stranger = [3u8; 32];
    assert_eq!(action_value(&inner.validate_round_message(Round(1), SetId(1), &stranger, true)), -150);
    assert_eq!(action_value(&inner.validate_round_message(Round(1), SetId(1), &a, false)), -100);
    assert_eq!(action_value(&inner.validate_round_message(Round(5), SetId(1), &a, true)), -500);
    assert_eq!(action_value(&inner.validate_round_message(Round(1), SetId(0), &a, true)), -50);
    assert!(inner.note_set(SetId(1), vec![b, a]).is_none());
}

#[test]
fn commits_and_neighbors_are_validated() {
    let mut inner = Inner::new(false);
    inner.note_set(SetId(1), vec![[1u8; 32]]);
    let commit = |len, auth| DecodedGossip::Commit {
        round: Round(1),
        set_id: SetId(1),
        target_number: 5,
        commits_len: len,
        auth_data_len: auth,
    };
    let (action, topics) = inner.do_validate(&9, commit(0, 0));
    assert_eq!(action_value(&action), -1000);
    assert!(topics.is_empty());
    let (action, _) = inner.do_validate(&9, commit(2, 2));
    assert!(matches!(action, Action::ProcessAndDiscard(t, c) if t == global_topic(1) && c.value == 100));
    let (action, _) = inner.do_validate(&9, DecodedGossip::Undecodable { len: 10 });
    assert_eq!(action_value(&action), -50);
    let packet = NeighborPacket { round: Round(2), set_id: SetId(1), commit_finalized_height: 0 };
    let (action, topics) = inner.do_validate(&9, DecodedGossip::Neighbor(packet));
    assert_eq!(action_value(&action), 100);
    assert!(topics.is_empty());
    let next = inner.note_commit_finalized(Round(1), SetId(1), 5).unwrap();
    assert_eq!(next.1.commit_finalized_height, 5);
    assert!(inner.note_commit_finalized(Round(1), SetId(1), 4).is_none());
    assert!(inner.message_expired(&[0u8; 32], commit(1, 1)));
    assert!(!inner.message_expired(&global_topic(1), DecodedGossip::Commit {
        round: Round(1),
        set_id: SetId(1),
        target_number: 5,
        commits_len: 1,
        auth_data_len: 1,
    }));
    assert!(!inner.message_expired(&round_topic(1, 1), commit(1, 1)));
    assert!(inner.message_allowed(
        true,
        &9,
        MessageIntent::PeriodicRebroadcast,
        &[0u8; 32],
        commit(1, 1),
        0,
        1,
        2
    ));
    assert!(!inner.message_allowed(false, &9, MessageIntent::Broadcast, &global_topic(1), commit(1, 1), 0, 1, 2));
}

#[test]
fn new_peers_get_the_local_neighbor_packet() {
    let mut inner = Inner::new(false);
    assert!(inner.new_peer(1, Role::Full).is_none());
    assert_eq!(inner.peers().peer_count(), 1);
    inner.note_set(SetId(2), vec![[1u8; 32]]);
    let packet = inner.new_peer(2, Role::Authority).unwrap();
    assert_eq!(packet, NeighborPacket { round: Round(1), set_id: SetId(2), commit_finalized_height: 0 });
    assert_eq!(inner.peers().peer_count(), 2);
    inner.peer_disconnected(&1);
    assert_eq!(inner.peers().peer_count(), 1);
    assert!(inner.peers().peer(&1).is_none());
    assert!(inner.peers().peer(&2).is_some());
}
