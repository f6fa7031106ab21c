use lau_reputation::endorsement::{weights_equal, UNIT_WEIGHT_BITS};
use lau_reputation::{Endorsement, EndorsementLog};

#[test]
fn endorsement_basic() {
    let mut log = EndorsementLog::new();
    log.endorse("bob", "alice", "helpfulness", 100);
    log.endorse("carol", "alice", "creativity", 101);
    assert_eq!(log.endorsement_count("alice"), 2);
    assert_eq!(log.endorsement_count("bob"), 0);
}

#[test]
fn most_endorsed_trait() {
    let mut log = EndorsementLog::new();
    log.endorse("bob", "alice", "helpfulness", 100);
    log.endorse("carol", "alice", "helpfulness", 101);
    log.endorse("dave", "alice", "creativity", 102);
    assert_eq!(log.most_endorsed_trait("alice"), Some("helpfulness".to_string()));
}

#[test]
fn most_endorsed_trait_none() {
    let log = EndorsementLog::new();
    assert_eq!(log.most_endorsed_trait("alice"), None);
}

#[test]
fn endorsements_for_player() {
    let mut log = EndorsementLog::new();
    log.endorse("bob", "alice", "helpfulness", 100);
    log.endorse("carol", "dave", "reliability", 101);
    let a = log.endorsements_for("alice");
    assert_eq!(a.len(), 1);
    assert_eq!(a[0].from, "bob");
}

#[test]
fn endorse_records_every_field_in_order() {
    let mut log = EndorsementLog::new();
    log.endorse("bob", "alice", "teaching", 42);
    log.endorse("eve", "alice", "creativity", 43);
    assert_eq!(log.endorsements.len(), 2);
    let e = &log.endorsements[1];
    assert_eq!(e.from, "eve");
    assert_eq!(e.to, "alice");
    assert_eq!(e.trait_name, "creativity");
    assert_eq!(e.tick, 43);
    assert_eq!(f64::from_bits(e.weight_bits), 1.0);
    assert_eq!(e.weight_bits, UNIT_WEIGHT_BITS);
    let a = log.endorsements_for("alice");
    assert_eq!(a.len(), 2);
    assert_eq!(a[0].trait_name, "teaching");
    assert_eq!(a[1].trait_name, "creativity");
}

#[test]
fn endorsing_one_player_leaves_others_unchanged() {
    let mut log = EndorsementLog::new();
    log.endorse("bob", "alice", "helpfulness", 1);
    log.endorse("alice", "bob", "generosity", 2);
    let before_bob = log.endorsement_count("bob");
    log.endorse("carol", "alice", "teaching", 3);
    assert_eq!(log.endorsement_count("alice"), 2);
    assert_eq!(log.endorsement_count("bob"), before_bob);
    assert_eq!(log.endorsement_count("carol"), 0);
}

#[test]
fn endorsement_count_matches_endorsements_for() {
    let mut log = EndorsementLog::new();
    log.endorse("a", "x", "t", 1);
    log.endorse("b", "y", "t", 2);
    log.endorse("c", "x", "u", 3);
    for p in ["x", "y", "z"] {
        assert_eq!(log.endorsement_count(p), log.endorsements_for(p).len());
    }
}

#[test]
fn most_endorsed_trait_counts_only_the_target() {
    let mut log = EndorsementLog::new();
    log.endorse("a", "bob", "creativity", 1);
    log.endorse("b", "bob", "creativity", 2);
    log.endorse("c", "bob", "creativity", 3);
    log.endorse("d", "alice", "teaching", 4);
    log.endorse("e", "alice", "generosity", 5);
    log.endorse("f", "alice", "generosity", 6);
    assert_eq!(log.most_endorsed_trait("alice"), Some("generosity".to_string()));
    assert_eq!(log.most_endorsed_trait("bob"), Some("creativity".to_string()));
    assert_eq!(log.most_endorsed_trait("carol"), None);
}

#[test]
fn most_endorsed_trait_tie_goes_to_first_endorsed() {
    let mut log = EndorsementLog::new();
    log.endorse("a", "alice", "teaching", 1);
    log.endorse("b", "alice", "creativity", 2);
    log.endorse("c", "alice", "creativity", 3);
    log.endorse("d", "alice", "teaching", 4);
    assert_eq!(log.most_endorsed_trait("alice"), Some("teaching".to_string()));
}

#[test]
fn cloned_log_keeps_endorsements() {
    let mut log = EndorsementLog::new();
    log.endorse("bob", "alice", "helpfulness", 7);
    let copy = log.clone();
    assert_eq!(copy.endorsements, log.endorsements);
    assert_eq!(copy.endorsement_count("alice"), 1);
}

#[test]
fn default_log_is_empty() {
    let log = EndorsementLog::default();
    assert_eq!(log.endorsements.len(), 0);
    assert_eq!(log.endorsement_count("anyone"), 0);
}

#[test]
fn weights_compare_as_floats() {
    let one = 1.0f64.to_bits();
    assert!(weights_equal(one, UNIT_WEIGHT_BITS));
    assert!(!weights_equal(one, 2.0f64.to_bits()));
    assert!(weights_equal(0.0f64.to_bits(), (-0.0f64).to_bits()));
    assert!(!weights_equal(f64::NAN.to_bits(), f64::NAN.to_bits()));
    assert!(weights_equal(0.5f64.to_bits(), 0.5f64.to_bits()));
}

#[test]
fn endorsement_equality_reads_every_field() {
    let e = Endorsement {
        from: "bob".to_string(),
        to: "alice".to_string(),
        trait_name: "teaching".to_string(),
        tick: 42,
        weight_bits: 0.5f64.to_bits(),
    };
    assert_eq!(e.clone(), e);
    let mut heavier = e.clone();
    heavier.weight_bits = 2.0f64.to_bits();
    assert_ne!(heavier, e);
    let mut later = e.clone();
    later.tick = 43;
    assert_ne!(later, e);
    let mut nan = e.clone();
    nan.weight_bits = f64::NAN.to_bits();
    assert_ne!(nan.clone(), nan);
}
