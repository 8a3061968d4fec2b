use pos_chain::consensus::{Consensus, EPOCH_DURATION_SECS};

fn registry(stakes: &[(&str, u64)]) -> Consensus {
    let mut consensus = Consensus::new_at(1_000);
    for (address, stake) in stakes {
        consensus.register_validator(address.to_string(), *stake);
    }
    consensus
}

fn addresses(consensus: &Consensus) -> Vec<String> {
    consensus.get_validators().into_iter().map(|v| v.address).collect()
}

#[test]
fn validators_are_kept_in_address_order() {
    let consensus = registry(&[("V2", 200), ("V3", 300), ("V1", 100), ("A", 1), ("V10", 5)]);
    assert_eq!(addresses(&consensus), vec!["A", "V1", "V10", "V2", "V3"]);
    assert_eq!(consensus.len(), 5);
    assert_eq!(consensus.total_stake(), 606);
    assert!(consensus.get_validators().iter().all(|v| v.active));
}

#[test]
fn registering_again_replaces_the_stake() {
    let mut consensus = registry(&[("V1", 100), ("V2", 200)]);
    consensus.register_validator("V1".to_string(), 50);
    assert_eq!(consensus.len(), 2);
    assert_eq!(consensus.total_stake(), 250);
    assert_eq!(consensus.get_validators()[0].stake, 50);
}

#[test]
fn producer_is_weighted_by_stake() {
    let consensus = registry(&[("V3", 300), ("V1", 100), ("V2", 200)]);
    assert_eq!(consensus.select_producer(0), Some("V1".to_string()));
    assert_eq!(consensus.select_producer(99), Some("V1".to_string()));
    assert_eq!(consensus.select_producer(100), Some("V2".to_string()));
    assert_eq!(consensus.select_producer(299), Some("V2".to_string()));
    assert_eq!(consensus.select_producer(300), Some("V3".to_string()));
    assert_eq!(consensus.select_producer(599), Some("V3".to_string()));
    assert_eq!(consensus.select_producer(600), Some("V1".to_string()));
}

#[test]
fn producer_does_not_depend_on_registration_order() {
    let a = registry(&[("V1", 100), ("V2", 200), ("V3", 300)]);
    let b = registry(&[("V3", 300), ("V2", 200), ("V1", 100)]);
    for slot in 0..700 {
        assert_eq!(a.select_producer(slot), b.select_producer(slot));
    }
}

#[test]
fn producer_seed_mixes_in_the_epoch() {
    let mut consensus = registry(&[("V1", 100), ("V2", 200), ("V3", 300)]);
    consensus.rotate_epoch_at(30_000);
    assert_eq!(consensus.current_epoch(), 1);
    assert_eq!(consensus.epoch_start(), 30_000);
    assert_eq!(consensus.select_producer(100), Some("V2".to_string()));
    assert_eq!(consensus.select_producer(101), Some("V2".to_string()));
    assert_eq!(consensus.select_producer(98), Some("V1".to_string()));
    assert_eq!(consensus.select_producer(99 ^ 1), Some("V1".to_string()));
    assert_eq!(consensus.select_producer(300), Some("V3".to_string()));
    assert_eq!(consensus.select_producer(301), Some("V3".to_string()));
    assert_eq!(consensus.select_producer(600 ^ 1), Some("V1".to_string()));
}

#[test]
fn no_producer_without_validators_or_stake() {
    assert_eq!(Consensus::new_at(0).select_producer(5), None);
    assert_eq!(registry(&[("V1", 0), ("V2", 0)]).select_producer(5), None);
    assert_eq!(registry(&[("V1", 0), ("V2", 1)]).select_producer(5), Some("V2".to_string()));
}

#[test]
fn very_large_stakes_do_not_overflow() {
    let consensus = registry(&[("V1", u64::MAX), ("V2", u64::MAX)]);
    assert_eq!(consensus.total_stake(), 2 * (u64::MAX as u128));
    assert_eq!(consensus.select_producer(u64::MAX - 1), Some("V1".to_string()));
    assert_eq!(consensus.select_producer(u64::MAX), Some("V2".to_string()));
}

#[test]
fn epoch_lasts_six_hours() {
    let mut consensus = Consensus::new_at(1_000);
    assert_eq!(EPOCH_DURATION_SECS, 21_600);
    assert_eq!(consensus.current_epoch(), 0);
    assert_eq!(consensus.epoch_start(), 1_000);
    assert!(!consensus.rotation_due(0));
    assert!(!consensus.rotation_due(1_000 + 21_599));
    assert!(consensus.rotation_due(1_000 + 21_600));
    consensus.rotate_epoch_at(22_600);
    assert_eq!(consensus.current_epoch(), 1);
    assert!(!consensus.rotation_due(22_600 + 21_599));
    assert!(consensus.rotation_due(u64::MAX));
    assert!(!Consensus::new_at(u64::MAX - 5).rotation_due(u64::MAX));
}

#[test]
fn clock_driven_rotation() {
    let mut consensus = Consensus::new();
    assert!(consensus.epoch_start() > 1_600_000_000);
    assert!(!consensus.should_rotate_epoch());
    consensus.rotate_epoch();
    assert_eq!(consensus.current_epoch(), 1);
    assert!(!consensus.should_rotate_epoch());
    let old = Consensus::new_at(1_000);
    assert!(old.should_rotate_epoch());
}
