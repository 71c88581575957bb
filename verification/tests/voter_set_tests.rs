use hotstuff_consensus::voter_set::VoterSet;

#[test]
fn voter_set_threshold_is_supermajority() {
    let set = VoterSet::new(vec![1u64, 2, 3, 4]).unwrap();
    assert_eq!(set.threshold(), 3);
    assert!(set.is_full());
    assert!(set.contains(&3));
    assert!(!set.contains(&5));
}
