use hotstuff_consensus::commit_checks::{
    commit_follow_up, CommitFollowUp, check_compact_precommit, JustificationError, TendermintJustification,
    TendermintJustificationsTracingKey,
};
use hotstuff_consensus::tendermint_messages::{CommitProcessingOutcome, CompactCommit, FinalizedCommit, Precommit, SignedCommit};
use hotstuff_consensus::voter_set::VoterSet;

fn id(n: u8) -> [u8; 32] {
    [n; 32]
}

fn precommit(target: Option<u8>) -> Precommit<u64, [u8; 32]> {
    Precommit { round: 1, target_height: 10, target_hash: target.map(id) }
}

fn compact(signers: &[u8]) -> CompactCommit<[u8; 32], u64, [u8; 64], [u8; 32]> {
    CompactCommit {
        target_hash: id(9),
        target_number: 10,
        commits: signers.iter().map(|_| precommit(Some(9))).collect(),
        auth_data: signers.iter().map(|s| ([0u8; 64], id(*s))).collect(),
    }
}

fn voters() -> VoterSet<[u8; 32]> {
    VoterSet::new(vec![id(1), id(2), id(3), id(4)]).unwrap()
}

#[test]
fn compact_commit_with_threshold_of_valid_signatures_passes() {
    let commit = compact(&[1, 2, 3]);
    assert!(check_compact_precommit(&commit, &voters(), &vec![true, true, true]).is_ok());
}

#[test]
fn compact_commit_from_outsider_is_malformed() {
    let commit = compact(&[1, 2, 7]);
    let r = check_compact_precommit(&commit, &voters(), &vec![true, true, true]).unwrap_err();
    assert_eq!(r.value, -1000);
    assert_eq!(r.reason, "Grandpa: Malformed precommit");
}

#[test]
fn compact_commit_below_threshold_is_malformed() {
    let commit = compact(&[1, 2]);
    let r = check_compact_precommit(&commit, &voters(), &vec![true, true]).unwrap_err();
    assert_eq!(r.value, -1000);
}

#[test]
fn compact_commit_with_too_many_signers_is_malformed() {
    let commit = compact(&[1, 2, 3, 4, 1]);
    let r = check_compact_precommit(&commit, &voters(), &vec![true; 5]).unwrap_err();
    assert_eq!(r.value, -1000);
}

#[test]
fn compact_commit_with_bad_signature_costs_per_signature_checked() {
    let commit = compact(&[1, 2, 3]);
    let r = check_compact_precommit(&commit, &voters(), &vec![true, true, false]).unwrap_err();
    assert_eq!(r.value, -50);
    assert_eq!(r.reason, "Grandpa: Bad commit");
}

fn justification(targets: &[Option<u8>]) -> TendermintJustification {
    let commits = targets
        .iter()
        .enumerate()
        .map(|(i, t)| SignedCommit { commit: precommit(*t), signature: [0u8; 64], id: id(i as u8 + 1) })
        .collect();
    TendermintJustification::from_commit(
        3,
        FinalizedCommit { target_hash: id(9), target_number: 10, commits },
    )
}

#[test]
fn justification_checks_each_precommit() {
    let v = voters();
    let j = justification(&[Some(9), Some(9), Some(9)]);
    assert_eq!(j.target(), (10, id(9)));
    assert_eq!(j.verify_with_voter_set(&v, &vec![true, true, true]), Ok(()));
    assert_eq!(j.verify_with_voter_set(&v, &vec![true, false, true]), Err(JustificationError::InvalidSignature));
    let j = justification(&[Some(9), None, Some(9)]);
    assert_eq!(j.verify_with_voter_set(&v, &vec![true, true, true]), Err(JustificationError::MissingTargetHash));
    let j = justification(&[Some(8), Some(9), Some(9)]);
    assert_eq!(j.verify_with_voter_set(&v, &vec![true, true, true]), Err(JustificationError::InvalidAncestry));
}

#[test]
fn justification_needs_distinct_voters_up_to_the_threshold() {
    let v = voters();
    // no precommit at all does not reach the threshold
    let empty = justification(&[]);
    assert_eq!(empty.verify_with_voter_set(&v, &vec![]), Err(JustificationError::NotEnoughSigners));
    let two = justification(&[Some(9), Some(9)]);
    assert_eq!(two.verify_with_voter_set(&v, &vec![true, true]), Err(JustificationError::NotEnoughSigners));
    // a signer outside the set
    let mut outsider = justification(&[Some(9), Some(9), Some(9)]);
    outsider.f_commit.commits[2].id = id(7);
    assert_eq!(outsider.verify_with_voter_set(&v, &vec![true, true, true]), Err(JustificationError::UnknownSigner));
    // the same signer twice
    let mut twice = justification(&[Some(9), Some(9), Some(9)]);
    twice.f_commit.commits[2].id = id(1);
    assert_eq!(twice.verify_with_voter_set(&v, &vec![true, true, true]), Err(JustificationError::DuplicateSigner));
}

#[test]
fn justification_must_finalize_the_target() {
    let v = voters();
    let j = justification(&[Some(9), Some(9), Some(9)]);
    let valid = vec![true, true, true];
    assert_eq!(j.verify_finalizes((id(9), 10), &v, &valid), Ok(()));
    assert_eq!(j.verify_finalizes((id(9), 11), &v, &valid), Err(JustificationError::InvalidTarget));
    assert_eq!(j.verify_finalizes((id(8), 10), &v, &valid), Err(JustificationError::InvalidTarget));
}

#[test]
fn justification_needs_authorities() {
    let j = justification(&[Some(9)]);
    assert_eq!(j.verify(&vec![], &vec![true]), Err(JustificationError::InvalidAuthoritiesSet));
    assert_eq!(j.verify(&vec![id(1)], &vec![true]), Ok(()));
    assert_eq!(j.verify(&vec![id(2)], &vec![true]), Err(JustificationError::UnknownSigner));
    assert_eq!(
        JustificationError::InvalidTarget.message(),
        "invalid commit target in tendermint justification"
    );
}

#[test]
fn tracing_key_names_the_stream() {
    let _key = TendermintJustificationsTracingKey;
    assert_eq!(
        TendermintJustificationsTracingKey::TRACING_KEY,
        "mpsc_pbft_justification_notification_stream"
    );
}

#[test]
fn commit_outcomes_are_followed_up() {
    match commit_follow_up(&CommitProcessingOutcome::good(), 3, 1, 10) {
        CommitFollowUp::Propagate { round, set_id, finalized_number } => {
            assert_eq!((round, set_id, finalized_number), (3, 1, 10))
        },
        CommitFollowUp::Report(_) => panic!("good commit reported"),
    }
    match commit_follow_up(&CommitProcessingOutcome::bad(), 3, 1, 10) {
        CommitFollowUp::Report(change) => assert_eq!(change.value, -5000),
        CommitFollowUp::Propagate { .. } => panic!("bad commit propagated"),
    }
}
