use wireguard_vanity_lib::curve::CurvePoint;
use wireguard_vanity_lib::error::ConfigError;
use wireguard_vanity_lib::predicate::{make_predicate, MatchPredicate};
use wireguard_vanity_lib::scalar::Scalar;

const INSIDE: &str = "xxABxxxxxxxxxxxxxxxxxxxxxxxxxxxxxxxxxxxxxxx=";
const OUTSIDE: &str = "xxxxxxxxxxABxxxxxxxxxxxxxxxxxxxxxxxxxxxxxxx=";

#[test]
fn target_inside_the_window_matches() {
    let p = make_predicate("AB", 0, 10, false).unwrap();
    assert!(p.matches_encoding(INSIDE));
}

#[test]
fn target_past_the_window_does_not_match() {
    let p = make_predicate("AB", 0, 10, false).unwrap();
    assert!(!p.matches_encoding(OUTSIDE));
}

#[test]
fn target_across_the_end_of_the_window_does_not_match() {
    let p = make_predicate("AB", 0, 10, false).unwrap();
    assert!(!p.matches_encoding("xxxxxxxxxABxxxxxxxxxxxxxxxxxxxxxxxxxxxxxxxx="));
    assert!(p.matches_encoding("xxxxxxxxABxxxxxxxxxxxxxxxxxxxxxxxxxxxxxxxxx="));
}

#[test]
fn target_before_the_window_does_not_match() {
    let p = make_predicate("AB", 3, 10, false).unwrap();
    assert!(!p.matches_encoding(INSIDE));
    assert!(!make_predicate("AB", 1, 10, true).unwrap().matches_encoding("ABxxxxxxxxxxxxxxxxxxxxxxxxxxxxxxxxxxxxxxxxx="));
    assert!(make_predicate("AB", 2, 10, false).unwrap().matches_encoding(INSIDE));
}

#[test]
fn case_insensitive_targets_match_alike() {
    for target in ["ab", "Ab", "aB", "AB"] {
        let p = make_predicate(target, 0, 10, false).unwrap();
        assert!(p.matches_encoding(INSIDE), "target {}", target);
        assert!(p.matches_encoding("xxabxxxxxxxxxxxxxxxxxxxxxxxxxxxxxxxxxxxxxxx="));
        assert!(p.matches_encoding("xxaBxxxxxxxxxxxxxxxxxxxxxxxxxxxxxxxxxxxxxxx="));
        assert!(!p.matches_encoding(OUTSIDE), "target {}", target);
    }
}

#[test]
fn case_sensitive_targets_match_exactly() {
    let p = make_predicate("AB", 0, 10, true).unwrap();
    assert!(p.matches_encoding(INSIDE));
    assert!(!p.matches_encoding("xxabxxxxxxxxxxxxxxxxxxxxxxxxxxxxxxxxxxxxxxx="));
    assert!(!p.matches_encoding("xxAbxxxxxxxxxxxxxxxxxxxxxxxxxxxxxxxxxxxxxxx="));
    assert!(!make_predicate("ab", 0, 10, true).unwrap().matches_encoding(INSIDE));
}

#[test]
fn only_letters_are_folded() {
    let p = make_predicate("@[", 0, 44, false).unwrap();
    assert!(!p.matches_encoding("xx`{xxxxxxxxxxxxxxxxxxxxxxxxxxxxxxxxxxxxxxx="));
    assert!(p.matches_encoding("xx@[xxxxxxxxxxxxxxxxxxxxxxxxxxxxxxxxxxxxxxx="));
}

#[test]
fn a_substring_is_enough() {
    let p = make_predicate("BxA", 0, 44, true).unwrap();
    assert!(p.matches_encoding("AAABxBxAxxxxxxxxxxxxxxxxxxxxxxxxxxxxxxxxxxx="));
    assert!(!p.matches_encoding("AAABxBxBxxxxxxxxxxxxxxxxxxxxxxxxxxxxxxxxxxx="));
}

#[test]
fn the_empty_target_always_matches() {
    assert!(make_predicate("", 0, 10, true).unwrap().matches_encoding(OUTSIDE));
    assert!(make_predicate("", 7, 7, false).unwrap().matches_encoding(OUTSIDE));
}

#[test]
fn the_whole_encoding_can_be_the_window() {
    let p = make_predicate("x=", 0, 44, true).unwrap();
    assert!(p.matches_encoding(INSIDE));
    assert!(!make_predicate("x=", 0, 43, true).unwrap().matches_encoding(INSIDE));
}

#[test]
fn matches_bytes_agrees_with_matches_encoding() {
    let p = make_predicate("AB", 0, 10, false).unwrap();
    assert!(p.matches_bytes(INSIDE.as_bytes()));
    assert!(!p.matches_bytes(OUTSIDE.as_bytes()));
}

#[test]
fn window_too_short_is_rejected() {
    assert_eq!(make_predicate("abcdefgh", 0, 5, false).err(), Some(ConfigError::WindowTooShort));
    assert_eq!(make_predicate("abc", 4, 6, true).err(), Some(ConfigError::WindowTooShort));
    assert!(make_predicate("abc", 4, 7, true).is_ok());
}

#[test]
fn window_past_the_encoding_is_rejected() {
    assert_eq!(make_predicate("a", 0, 45, false).err(), Some(ConfigError::WindowPastEncoding));
    assert!(make_predicate("a", 0, 44, false).is_ok());
}

#[test]
fn reversed_window_is_rejected() {
    assert_eq!(make_predicate("a", 6, 5, false).err(), Some(ConfigError::WindowReversed));
    assert_eq!(make_predicate("a", 50, 45, false).err(), Some(ConfigError::WindowReversed));
}

#[test]
fn a_window_within_the_encoding_may_be_shorter_than_the_target() {
    let p = MatchPredicate::within("abcdefgh", 0, 5, false);
    assert!(!p.matches_encoding("abcdefghxxxxxxxxxxxxxxxxxxxxxxxxxxxxxxxxxxx="));
}

#[test]
fn matches_point_reads_the_encoded_public_key() {
    // The public key of the base point is nine: "CQAAAA...".
    let g = CurvePoint::of_scalar(&Scalar::from_u64(1));
    assert!(make_predicate("CQAA", 0, 4, true).unwrap().matches_point(&g));
    assert!(make_predicate("cqaa", 0, 4, false).unwrap().matches_point(&g));
    assert!(!make_predicate("cqaa", 0, 4, true).unwrap().matches_point(&g));
    assert!(!make_predicate("CQ", 1, 10, true).unwrap().matches_point(&g));
    assert!(make_predicate("A=", 0, 44, true).unwrap().matches_point(&g));
}
