use hotstuff_consensus::authority_changes::AuthoritySetChanges;
use hotstuff_consensus::authority_set::AuthoritySetHardFork;
use hotstuff_consensus::commit_checks::{JustificationError, TendermintJustification};
use hotstuff_consensus::tendermint_messages::{FinalizedCommit, Precommit, SignedCommit};
use hotstuff_consensus::warp_sync::{
    check_start_hash, check_start_number, set_changes_from, Error, FragmentDecision,
    FragmentHeader, ProofCollector, WarpSyncFragment, WarpSyncProof, MAX_WARP_SYNC_PROOF_SIZE,
};

fn h(n: u8) -> [u8; 32] {
    [n; 32]
}

fn justification(target: u8, number: u64, signer: u8) -> TendermintJustification {
    let commits = vec![SignedCommit {
        commit: Precommit { round: 1, target_height: number, target_hash: Some(h(target)) },
        signature: [0u8; 64],
        id: h(signer),
    }];
    TendermintJustification::from_commit(
        1,
        FinalizedCommit { target_hash: h(target), target_number: number, commits },
    )
}

fn fragment(block: u8, change: Option<Vec<[u8; 32]>>, signer: u8) -> WarpSyncFragment {
    WarpSyncFragment {
        header: FragmentHeader { hash: h(block), number: block as u64, scheduled_change: change },
        justification: justification(block, block as u64, signer),
    }
}

#[test]
fn start_block_must_be_known_and_finalized() {
    match check_start_number(None, 10) {
        Err(Error::InvalidRequest(m)) => assert_eq!(m, "Missing start block"),
        _ => panic!("unknown start block accepted"),
    }
    match check_start_number(Some(11), 10) {
        Err(Error::InvalidRequest(m)) => assert_eq!(m, "Start block is not finalized"),
        _ => panic!("unfinalized start block accepted"),
    }
    assert_eq!(check_start_number(Some(10), 10).unwrap(), 10);
    assert!(check_start_hash(&h(1), &h(1)).is_ok());
    match check_start_hash(&h(1), &h(2)) {
        Err(Error::InvalidRequest(m)) => assert_eq!(m, "Start block is not in the finalized chain"),
        _ => panic!("start block off the finalized chain accepted"),
    }
}

#[test]
fn set_changes_after_the_start_block() {
    let changes = AuthoritySetChanges::from(vec![(0, 10), (1, 20), (2, 30)]);
    assert_eq!(set_changes_from(&changes, 10).unwrap(), vec![(1, 20), (2, 30)]);
    assert_eq!(set_changes_from(&changes, 5).unwrap(), vec![(0, 10), (1, 20), (2, 30)]);
    assert!(set_changes_from(&changes, 30).unwrap().is_empty());
    let partial = AuthoritySetChanges::from(vec![(3, 10), (4, 20)]);
    assert!(matches!(set_changes_from(&partial, 5), Err(Error::MissingData)));
}

#[test]
fn collector_takes_fragments_under_the_limit() {
    let mut c = ProofCollector::new(5);
    assert!(c.accepts_latest(5));
    assert!(!c.accepts_latest(4));
    assert_eq!(c.offer(true, 1000, 10), FragmentDecision::Take);
    assert!(!c.accepts_latest(10));
    assert!(c.accepts_latest(11));
    let room = MAX_WARP_SYNC_PROOF_SIZE - 50 - 1000;
    assert_eq!(c.offer(true, room, 20), FragmentDecision::LimitReached);
    assert!(!c.is_finished());
    assert_eq!(c.offer(true, room - 1, 20), FragmentDecision::Take);
}

#[test]
fn collector_stops_at_forced_change() {
    let mut c = ProofCollector::new(0);
    assert_eq!(c.offer(false, 10, 10), FragmentDecision::Stop);
    assert!(c.is_finished());
    assert!(c.accepts_latest(0));
}

#[test]
fn fragments_lead_from_set_to_set() {
    let proof = WarpSyncProof {
        proofs: vec![fragment(10, Some(vec![h(2)]), 1), fragment(20, None, 2)],
        is_finished: true,
    };
    let (id, list) = proof.verify_fragment(0, 0, &vec![h(1)], &vec![], &vec![true]).unwrap();
    assert_eq!((id, list.clone()), (1, vec![h(2)]));
    let (id, list) = proof.verify_fragment(1, id, &list, &vec![], &vec![true]).unwrap();
    assert_eq!((id, list), (1, vec![h(2)]));
}

#[test]
fn unfinished_proof_needs_change_digests() {
    let proof = WarpSyncProof { proofs: vec![fragment(20, None, 1)], is_finished: false };
    match proof.verify_fragment(0, 0, &vec![h(1)], &vec![], &vec![true]) {
        Err(Error::InvalidProof(m)) => assert_eq!(m, "Header is missing authority set change digest"),
        _ => panic!("fragment without digest accepted"),
    }
}

#[test]
fn fragment_checks_its_justification() {
    let proof = WarpSyncProof { proofs: vec![fragment(10, Some(vec![h(2)]), 1)], is_finished: true };
    assert!(matches!(
        proof.verify_fragment(0, 0, &vec![h(1)], &vec![], &vec![false]),
        Err(Error::InvalidJustification(JustificationError::InvalidSignature))
    ));
    assert!(matches!(
        proof.verify_fragment(0, 0, &vec![], &vec![], &vec![true]),
        Err(Error::InvalidJustification(JustificationError::InvalidAuthoritiesSet))
    ));
    let wrong_set = proof.verify_fragment(0, 0, &vec![h(3)], &vec![], &vec![true]);
    assert!(matches!(wrong_set, Err(Error::InvalidJustification(JustificationError::UnknownSigner))));
    let mut bad = fragment(10, Some(vec![h(2)]), 1);
    bad.justification = justification(11, 10, 1);
    let proof = WarpSyncProof { proofs: vec![bad], is_finished: true };
    match proof.verify_fragment(0, 0, &vec![h(1)], &vec![], &vec![true]) {
        Err(Error::InvalidProof(m)) => assert_eq!(m, "Mismatch between header and justification"),
        _ => panic!("justification of another block accepted"),
    }
}

#[test]
fn hard_fork_gives_its_set() {
    let proof = WarpSyncProof { proofs: vec![fragment(10, None, 1)], is_finished: false };
    let forks = vec![
        AuthoritySetHardFork { set_id: 7, block: (h(10), 10), authorities: vec![h(7)], last_finalized: None },
        AuthoritySetHardFork { set_id: 8, block: (h(10), 10), authorities: vec![h(8)], last_finalized: None },
    ];
    let (id, list) = proof.verify_fragment(0, 0, &vec![h(1)], &forks, &vec![false]).unwrap();
    assert_eq!((id, list), (8, vec![h(8)]));
}
