//! Tests of the matching algebra: equality, intersection, inclusion, and
//! their behaviour on absent operands.

use key_expr::wrapper::z_keyexpr;
use key_expr::wrapper::z_keyexpr_equals;
use key_expr::wrapper::z_keyexpr_includes;
use key_expr::wrapper::z_keyexpr_intersects;
use key_expr::wrapper::z_keyexpr_t;

#[test]
fn equals_scenarios() {
    let ab = z_keyexpr("a/b");
    let ab2 = z_keyexpr("a/b");
    let ac = z_keyexpr("a/c");
    assert!(z_keyexpr_equals(&ab, &ab2));
    assert!(!z_keyexpr_equals(&ab, &ac));
}

#[test]
fn equals_reflexive_and_symmetric() {
    for s in ["a/b", "a/*", "**", "a/*/**"] {
        let k = z_keyexpr(s);
        let k2 = z_keyexpr(s);
        assert!(z_keyexpr_equals(&k, &k));
        assert_eq!(z_keyexpr_equals(&k, &k2), z_keyexpr_equals(&k2, &k));
    }
    let a = z_keyexpr("a/b");
    let b = z_keyexpr("a/*");
    assert_eq!(z_keyexpr_equals(&a, &b), z_keyexpr_equals(&b, &a));
}

#[test]
fn equals_matches_canonical_string_equality() {
    // different spellings of the same pattern canonicalize alike and are equal
    let a = z_keyexpr("a/**/**/b");
    let b = z_keyexpr("a/**/b");
    assert!(z_keyexpr_equals(&a, &b));
    let c = z_keyexpr("**/*");
    let d = z_keyexpr("*/**");
    assert!(z_keyexpr_equals(&c, &d));
}

#[test]
fn intersects_scenarios() {
    let astar = z_keyexpr("a/*");
    let ab = z_keyexpr("a/b");
    let bc = z_keyexpr("b/c");
    assert!(z_keyexpr_intersects(&astar, &ab));
    assert!(!z_keyexpr_intersects(&astar, &bc));
}

#[test]
fn intersects_symmetric() {
    let pairs = [
        ("a/*", "a/b"),
        ("a/**", "a/b/c"),
        ("**/c", "a/b/c"),
        ("a/b", "b/c"),
        ("*/b/**", "a/**"),
    ];
    for (l, r) in pairs {
        let lk = z_keyexpr(l);
        let rk = z_keyexpr(r);
        assert_eq!(z_keyexpr_intersects(&lk, &rk), z_keyexpr_intersects(&rk, &lk));
    }
}

#[test]
fn intersects_backtracks_through_double_star() {
    let a = z_keyexpr("**/b/c");
    let b = z_keyexpr("a/**/c");
    assert!(z_keyexpr_intersects(&a, &b));
    let c = z_keyexpr("**/x");
    assert!(!z_keyexpr_intersects(&a, &c));
}

#[test]
fn includes_scenarios() {
    let a_any = z_keyexpr("a/**");
    let abc = z_keyexpr("a/b/c");
    let ab = z_keyexpr("a/b");
    assert!(z_keyexpr_includes(&a_any, &abc));
    assert!(!z_keyexpr_includes(&ab, &a_any));
}

#[test]
fn includes_reflexive() {
    for s in ["a/b", "a/*", "**", "a/*/**/c"] {
        let k = z_keyexpr(s);
        assert!(z_keyexpr_includes(&k, &k));
    }
}

#[test]
fn includes_transitive_sample() {
    let coarse = z_keyexpr("**");
    let mid = z_keyexpr("a/**");
    let fine = z_keyexpr("a/b/**");
    assert!(z_keyexpr_includes(&coarse, &mid));
    assert!(z_keyexpr_includes(&mid, &fine));
    assert!(z_keyexpr_includes(&coarse, &fine));
}

#[test]
fn mutual_inclusion_is_equality() {
    let a = z_keyexpr("a/*/**");
    let b = z_keyexpr("a/**/*");
    // both canonicalize to a/*/**
    assert!(z_keyexpr_includes(&a, &b));
    assert!(z_keyexpr_includes(&b, &a));
    assert!(z_keyexpr_equals(&a, &b));
    let c = z_keyexpr("a/**");
    assert!(z_keyexpr_includes(&c, &a));
    assert!(!z_keyexpr_includes(&a, &c));
    assert!(!z_keyexpr_equals(&a, &c));
}

#[test]
fn star_matches_exactly_one_chunk() {
    let star = z_keyexpr("a/*");
    let deep = z_keyexpr("a/b/c");
    assert!(!z_keyexpr_intersects(&star, &deep));
    assert!(!z_keyexpr_includes(&star, &deep));
    let one = z_keyexpr("a/anything");
    assert!(z_keyexpr_includes(&star, &one));
}

#[test]
fn absent_operands_match_nothing() {
    let null = z_keyexpr_t::null();
    let null2 = z_keyexpr_t::null();
    let any = z_keyexpr("**");
    assert!(!z_keyexpr_intersects(&null, &any));
    assert!(!z_keyexpr_intersects(&any, &null));
    assert!(!z_keyexpr_includes(&null, &any));
    assert!(!z_keyexpr_includes(&any, &null));
    assert!(!z_keyexpr_intersects(&null, &null2));
    assert!(!z_keyexpr_includes(&null, &null2));
    // two null views are equal, a null and a valid view are not
    assert!(z_keyexpr_equals(&null, &null2));
    assert!(!z_keyexpr_equals(&null, &any));
}
