use hotstuff_consensus::authority_changes::{AuthoritySetChangeId, DelayKind, PendingChange};
use hotstuff_consensus::authority_set::{
    hard_fork_changes, AuthoritySet, AuthoritySetHardFork, Error, FinalizationResult, TreeError,
};

type LookupError = std::fmt::Error;

fn h(n: u8) -> [u8; 32] {
    [n; 32]
}

/// A single chain: block `h(n)` is at height `n`, and each block descends
/// from every lower one.
fn on_chain(base: &[u8; 32], target: &[u8; 32]) -> Result<bool, LookupError> {
    Ok(base[0] < target[0])
}

/// Two forks from block 1: blocks 2..=49 on one, 50..=99 on the other.
fn two_forks(base: &[u8; 32], target: &[u8; 32]) -> Result<bool, LookupError> {
    let (b, t) = (base[0], target[0]);
    if b >= t {
        return Ok(false);
    }
    if b <= 1 {
        return Ok(true);
    }
    Ok((b < 50) == (t < 50))
}

fn failing(_: &[u8; 32], _: &[u8; 32]) -> Result<bool, LookupError> {
    Err(std::fmt::Error)
}

fn change(authority: u8, height: u8, delay: u64, kind: DelayKind<u64>) -> PendingChange<[u8; 32]> {
    PendingChange {
        next_authorities: vec![h(authority)],
        delay,
        canon_height: height as u64,
        canon_hash: h(height),
        delay_kind: kind,
    }
}

fn genesis() -> AuthoritySet {
    AuthoritySet::genesis(vec![h(200)]).unwrap()
}

#[test]
fn genesis_needs_authorities() {
    assert!(AuthoritySet::genesis(vec![]).is_none());
    let set = genesis();
    let (id, authorities) = set.current();
    assert_eq!(id, 0);
    assert_eq!(authorities, &[h(200)][..]);
    assert_eq!(set.current_limit(0), None);
}

#[test]
fn new_needs_authorities() {
    let parts = genesis();
    assert!(AuthoritySet::new(
        vec![],
        3,
        parts.pending_standard_changes,
        vec![],
        parts.authority_set_changes
    )
    .is_none());
    let parts = genesis();
    let set = AuthoritySet::new(
        vec![h(7)],
        3,
        parts.pending_standard_changes,
        vec![],
        parts.authority_set_changes,
    )
    .unwrap();
    assert_eq!(set.current().0, 3);
}

#[test]
fn empty_change_is_refused() {
    let mut set = genesis();
    let mut c = change(1, 10, 5, DelayKind::Finalized);
    c.next_authorities = vec![];
    let r = set.add_pending_change(c, &on_chain);
    assert!(matches!(r, Err(Error::InvalidAuthoritySet)));
    assert_eq!(set.current_limit(0), None);
}

#[test]
fn standard_changes_give_the_current_limit() {
    let mut set = genesis();
    set.add_pending_change(change(1, 10, 5, DelayKind::Finalized), &two_forks).unwrap();
    set.add_pending_change(change(2, 60, 2, DelayKind::Finalized), &two_forks).unwrap();
    assert_eq!(set.current_limit(0), Some(15));
    assert_eq!(set.current_limit(16), Some(62));
    assert_eq!(set.current_limit(63), None);
}

#[test]
fn duplicate_standard_change_is_refused() {
    let mut set = genesis();
    set.add_pending_change(change(1, 10, 5, DelayKind::Finalized), &on_chain).unwrap();
    let r = set.add_pending_change(change(2, 10, 5, DelayKind::Finalized), &on_chain);
    assert!(matches!(r, Err(Error::DuplicateAuthoritySetChange)));
}

#[test]
fn next_change_takes_the_earliest_on_the_chain() {
    let mut set = genesis();
    set.add_pending_change(change(1, 10, 5, DelayKind::Finalized), &two_forks).unwrap();
    set.add_pending_change(change(2, 60, 5, DelayKind::Finalized), &two_forks).unwrap();
    set.add_pending_change(
        change(3, 8, 5, DelayKind::Best { median_last_finalized: 1 }),
        &two_forks,
    )
    .unwrap();
    assert_eq!(set.next_change(&h(20), &two_forks).unwrap(), Some((h(8), 8)));
    assert_eq!(set.next_change(&h(70), &two_forks).unwrap(), Some((h(60), 60)));
    assert_eq!(set.next_change(&h(5), &two_forks).unwrap(), None);
    assert!(matches!(set.next_change(&h(20), &failing), Err(Error::Client(_))));
}

#[test]
fn forced_changes_one_per_fork() {
    let mut set = genesis();
    set.add_pending_change(change(1, 10, 5, DelayKind::Best { median_last_finalized: 0 }), &two_forks)
        .unwrap();
    let dup = set.add_pending_change(
        change(2, 10, 3, DelayKind::Best { median_last_finalized: 0 }),
        &two_forks,
    );
    assert!(matches!(dup, Err(Error::DuplicateAuthoritySetChange)));
    let same_fork = set.add_pending_change(
        change(2, 20, 3, DelayKind::Best { median_last_finalized: 0 }),
        &two_forks,
    );
    assert!(matches!(same_fork, Err(Error::MultiplePendingForcedAuthoritySetChanges)));
    set.add_pending_change(change(3, 60, 1, DelayKind::Best { median_last_finalized: 0 }), &two_forks)
        .unwrap();
    assert_eq!(set.pending_forced_changes.len(), 2);
    // ordered by effective number: 60 + 1 after 10 + 5
    assert_eq!(set.pending_forced_changes[0].canon_height, 10);
    assert_eq!(set.pending_forced_changes[1].canon_height, 60);
    let failed = set.add_pending_change(
        change(4, 70, 1, DelayKind::Best { median_last_finalized: 0 }),
        &failing,
    );
    assert!(matches!(failed, Err(Error::Client(_))));
}

#[test]
fn forced_changes_are_ordered_by_effective_number() {
    let mut set = genesis();
    set.add_pending_change(change(1, 10, 20, DelayKind::Best { median_last_finalized: 0 }), &two_forks)
        .unwrap();
    set.add_pending_change(change(2, 60, 1, DelayKind::Best { median_last_finalized: 0 }), &two_forks)
        .unwrap();
    assert_eq!(set.pending_forced_changes[0].canon_height, 10);
    assert_eq!(set.pending_forced_changes[1].canon_height, 60);
    let mut set = genesis();
    set.add_pending_change(change(1, 10, 60, DelayKind::Best { median_last_finalized: 0 }), &two_forks)
        .unwrap();
    set.add_pending_change(change(2, 60, 1, DelayKind::Best { median_last_finalized: 0 }), &two_forks)
        .unwrap();
    assert_eq!(set.pending_forced_changes[0].canon_height, 60);
    assert_eq!(set.pending_forced_changes[1].canon_height, 10);
}

#[test]
fn forced_change_applies_at_its_effective_block() {
    let mut set = genesis();
    set.add_pending_change(change(9, 10, 5, DelayKind::Best { median_last_finalized: 4 }), &on_chain)
        .unwrap();
    assert!(set.apply_forced_changes(h(14), 14, &on_chain).unwrap().is_none());
    let (median, new_set) = set.apply_forced_changes(h(15), 15, &on_chain).unwrap().unwrap();
    assert_eq!(median, 4);
    assert_eq!(new_set.set_id, 1);
    assert_eq!(new_set.current_authorities, vec![h(9)]);
    assert!(new_set.pending_forced_changes.is_empty());
    assert_eq!(new_set.current_limit(0), None);
    assert_eq!(new_set.authority_set_changes.get_set_id(3), AuthoritySetChangeId::SetAt(0, 4));
    assert_eq!(new_set.authority_set_changes.get_set_id(5), AuthoritySetChangeId::Latest);
    // the set itself is unchanged
    assert_eq!(set.set_id, 0);
    assert_eq!(set.pending_forced_changes.len(), 1);
}

#[test]
fn forced_change_waits_for_standard_change_it_depends_on() {
    let mut set = genesis();
    set.add_pending_change(change(1, 2, 1, DelayKind::Finalized), &on_chain).unwrap();
    set.add_pending_change(change(9, 10, 5, DelayKind::Best { median_last_finalized: 4 }), &on_chain)
        .unwrap();
    let r = set.apply_forced_changes(h(15), 15, &on_chain);
    assert!(matches!(r, Err(Error::ForcedAuthoritySetChangeDependencyUnsatisfied(3))));
    let r = set.apply_forced_changes(h(15), 15, &failing);
    assert!(matches!(r, Err(Error::Client(_))));
}

#[test]
fn finality_enacts_standard_changes_in_order() {
    let mut set = genesis();
    set.add_pending_change(change(1, 10, 5, DelayKind::Finalized), &on_chain).unwrap();
    set.add_pending_change(change(2, 20, 5, DelayKind::Finalized), &on_chain).unwrap();
    assert_eq!(set.enacts_standard_change(h(15), 15, &on_chain).unwrap(), Some(true));
    assert_eq!(set.enacts_standard_change(h(12), 12, &on_chain).unwrap(), None);
    // finalizing past both changes at once is refused
    let r = set.apply_standard_changes(h(30), 30, &on_chain);
    assert!(matches!(r, Err(Error::ForkTree(TreeError::UnfinalizedAncestor))));
    assert_eq!(set.set_id, 0);

    let status = set.apply_standard_changes(h(15), 15, &on_chain).unwrap();
    assert!(status.changed);
    assert_eq!(status.new_set_block, Some((h(15), 15)));
    assert_eq!(set.set_id, 1);
    assert_eq!(set.current_authorities, vec![h(1)]);
    assert_eq!(set.authority_set_changes.get_set_id(15), AuthoritySetChangeId::SetAt(0, 15));
    assert_eq!(set.current_limit(0), Some(25));

    let status = set.apply_standard_changes(h(25), 25, &on_chain).unwrap();
    assert_eq!(status.new_set_block, Some((h(25), 25)));
    assert_eq!(set.set_id, 2);
    assert_eq!(set.current_authorities, vec![h(2)]);
    // finalizing an older block is a revert
    let r = set.apply_standard_changes(h(20), 20, &on_chain);
    assert!(matches!(r, Err(Error::ForkTree(TreeError::Revert))));
    let r = set.enacts_standard_change(h(20), 20, &on_chain);
    assert!(matches!(r, Err(Error::ForkTree(TreeError::Revert))));
}

#[test]
fn finality_prunes_forced_changes_of_other_forks() {
    let mut set = genesis();
    set.add_pending_change(change(1, 10, 5, DelayKind::Finalized), &two_forks).unwrap();
    set.add_pending_change(change(2, 20, 50, DelayKind::Best { median_last_finalized: 0 }), &two_forks)
        .unwrap();
    set.add_pending_change(change(3, 60, 50, DelayKind::Best { median_last_finalized: 0 }), &two_forks)
        .unwrap();
    let status = set.apply_standard_changes(h(15), 15, &two_forks).unwrap();
    assert!(status.changed);
    assert_eq!(set.pending_forced_changes.len(), 1);
    assert_eq!(set.pending_forced_changes[0].canon_height, 20);
}

#[test]
fn finality_without_changes_leaves_the_set() {
    let mut set = genesis();
    let status = set.apply_standard_changes(h(15), 15, &on_chain).unwrap();
    assert!(!status.changed);
    assert_eq!(status.new_set_block, None);
    assert_eq!(set.set_id, 0);
}

#[test]
fn finalization_outcome_applies_the_change() {
    let mut set = genesis();
    set.add_pending_change(change(3, 30, 1, DelayKind::Best { median_last_finalized: 0 }), &on_chain)
        .unwrap();
    let outcome = FinalizationResult::Changed(Some(change(7, 10, 0, DelayKind::Finalized)));
    let status = set.apply_finalization(outcome, h(10), 10, &on_chain).unwrap();
    assert!(status.changed);
    assert_eq!(status.new_set_block, Some((h(10), 10)));
    assert_eq!(set.set_id, 1);
    assert_eq!(set.current_authorities, vec![h(7)]);
    assert_eq!(set.pending_forced_changes.len(), 1);
    let status = set.apply_finalization(FinalizationResult::Unchanged, h(11), 11, &on_chain).unwrap();
    assert!(!status.changed);
    let r = set.apply_finalization(FinalizationResult::Changed(None), h(12), 12, &failing);
    assert!(matches!(r, Err(Error::Client(_))));
    assert!(set.pending_forced_changes.is_empty());
    assert_eq!(set.set_id, 1);
}

#[test]
fn hard_forks_become_changes_without_delay() {
    let forks = vec![
        AuthoritySetHardFork { set_id: 4, block: (h(9), 9), authorities: vec![h(1)], last_finalized: None },
        AuthoritySetHardFork { set_id: 5, block: (h(12), 12), authorities: vec![h(2)], last_finalized: Some(7) },
    ];
    let changes = hard_fork_changes(forks);
    assert_eq!(changes.len(), 2);
    assert_eq!(changes[0].0, 4);
    assert_eq!(changes[0].1.delay, 0);
    assert_eq!(changes[0].1.canon_hash, h(9));
    assert_eq!(changes[0].1.canon_height, 9);
    assert_eq!(changes[0].1.delay_kind, DelayKind::Finalized);
    assert_eq!(changes[1].0, 5);
    assert_eq!(changes[1].1.next_authorities, vec![h(2)]);
    assert_eq!(changes[1].1.delay_kind, DelayKind::Best { median_last_finalized: 7 });
}
