//! Caveat resolution.

use mint::caveat::{name, Caveat, EffectiveCaveats, Resolved};

fn cv(pairs: &[(&str, &str)]) -> Vec<Caveat> {
    pairs.iter().map(|(n, v)| Caveat::scalar(n, v)).collect()
}

#[test]
fn absent_when_no_occurrence() {
    let c = cv(&[("Audience", "mint")]);
    assert_eq!(
        EffectiveCaveats::new(&c).resolve("elide:Volume"),
        Resolved::Absent
    );
}

#[test]
fn single_and_agreeing_occurrences_resolve_to_value() {
    let c = cv(&[("elide:Volume", "V1"), ("elide:Volume", "V1")]);
    assert_eq!(
        EffectiveCaveats::new(&c).resolve("elide:Volume"),
        Resolved::Value("V1".into())
    );
}

#[test]
fn disagreeing_occurrences_are_unsatisfiable_not_absent() {
    let c = cv(&[
        ("elide:CoordKey", "ed25519:A"),
        ("elide:CoordKey", "ed25519:B"),
    ]);
    assert_eq!(
        EffectiveCaveats::new(&c).resolve("elide:CoordKey"),
        Resolved::Unsatisfiable
    );
}

#[test]
fn min_bound_takes_the_minimum() {
    let c = cv(&[("exp", "5000"), ("exp", "3000"), ("exp", "9000")]);
    assert_eq!(EffectiveCaveats::new(&c).min_bound("exp"), Some(3000));
}

#[test]
fn min_bound_skips_what_is_no_number() {
    let c = cv(&[("exp", "x"), ("exp", "18446744073709551616"), ("exp", "+7")]);
    assert_eq!(EffectiveCaveats::new(&c).min_bound("exp"), Some(7));
    assert_eq!(EffectiveCaveats::new(&cv(&[("exp", "x")])).min_bound("exp"), None);
}

#[test]
fn appending_only_narrows() {
    let mut c = cv(&[("a", "x")]);
    c.push(Caveat::scalar("a", "x"));
    assert_eq!(
        EffectiveCaveats::new(&c).resolve("a"),
        Resolved::Value("x".into())
    );
    c.push(Caveat::scalar("a", "y"));
    assert_eq!(EffectiveCaveats::new(&c).resolve("a"), Resolved::Unsatisfiable);
    c.push(Caveat::scalar("a", "x"));
    assert_eq!(EffectiveCaveats::new(&c).resolve("a"), Resolved::Unsatisfiable);
}

#[test]
fn third_party_caveats_are_inert() {
    let plain = cv(&[("a", "x"), ("exp", "5")]);
    let mut mixed = cv(&[("a", "x")]);
    mixed.push(Caveat::third_party("auth", vec![1, 2], vec![3]));
    mixed.push(Caveat::scalar("exp", "5"));
    for n in ["a", "b", "exp"] {
        assert_eq!(
            EffectiveCaveats::new(&plain).resolve(n),
            EffectiveCaveats::new(&mixed).resolve(n)
        );
        assert_eq!(
            EffectiveCaveats::new(&plain).min_bound(n),
            EffectiveCaveats::new(&mixed).min_bound(n)
        );
    }
    assert_eq!(
        EffectiveCaveats::new(&plain).names(),
        EffectiveCaveats::new(&mixed).names()
    );
}

#[test]
fn names_are_distinct_first_occurrence() {
    let c = cv(&[("b", "1"), ("a", "1"), ("b", "2"), ("c", "3"), ("a", "1")]);
    assert_eq!(EffectiveCaveats::new(&c).names(), vec!["b", "a", "c"]);
}

#[test]
fn accessors_tell_the_two_kinds_apart() {
    let f = Caveat::scalar("a", "x");
    assert_eq!(f.first_party_name(), Some("a"));
    assert_eq!(f.first_party_value(), Some("x"));
    let t = Caveat::third_party("loc", vec![1], vec![2]);
    assert_eq!(t.first_party_name(), None);
    assert_eq!(t.first_party_value(), None);
}

#[test]
fn standard_names_are_reserved() {
    assert!(name::is_reserved("sub"));
    assert!(name::is_reserved("cnf"));
    assert!(!name::is_reserved("volume"));
}
