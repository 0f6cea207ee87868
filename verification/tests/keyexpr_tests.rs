//! Tests of construction, canonicalization and the string form.

use key_expr::grammar::GrammarError;
use key_expr::keyexpr::KeyExpr;
use key_expr::wrapper::z_keyexpr;
use key_expr::wrapper::z_keyexpr_check;
use key_expr::wrapper::z_keyexpr_loan;
use key_expr::wrapper::z_keyexpr_new;
use key_expr::wrapper::z_keyexpr_to_string;
use key_expr::wrapper::z_keyexpr_t;
use key_expr::wrapper::z_keyexpr_unchecked;
use key_expr::wrapper::z_loaned_keyexpr_check;
use key_expr::wrapper::zc_keyexpr_as_bytes;

fn text_of(k: &KeyExpr) -> String {
    k.to_text()
}

#[test]
fn construct_plain() {
    let k = KeyExpr::new("key/expression").unwrap();
    assert_eq!(text_of(&k), "key/expression");
    assert!(k.alias_id().is_none());
}

#[test]
fn construct_with_wildcards() {
    let k = KeyExpr::new("a/*/b/**").unwrap();
    assert_eq!(text_of(&k), "a/*/b/**");
}

#[test]
fn grammar_rejects_empty_chunks() {
    assert_eq!(KeyExpr::new("a//b").unwrap_err(), GrammarError::EmptyChunk);
    assert_eq!(KeyExpr::new("/a/b").unwrap_err(), GrammarError::EmptyChunk);
    assert_eq!(KeyExpr::new("a/b/").unwrap_err(), GrammarError::EmptyChunk);
    assert_eq!(KeyExpr::new("").unwrap_err(), GrammarError::EmptyChunk);
}

#[test]
fn grammar_rejects_forbidden_characters() {
    assert_eq!(KeyExpr::new("a#b").unwrap_err(), GrammarError::ForbiddenChar);
    assert_eq!(KeyExpr::new("a/b?c").unwrap_err(), GrammarError::ForbiddenChar);
    assert_eq!(KeyExpr::new("$money").unwrap_err(), GrammarError::ForbiddenChar);
}

#[test]
fn grammar_rejects_embedded_double_star() {
    assert_eq!(KeyExpr::new("a/**b").unwrap_err(), GrammarError::MisplacedDoubleStar);
    assert_eq!(KeyExpr::new("a/b**").unwrap_err(), GrammarError::MisplacedDoubleStar);
    assert_eq!(KeyExpr::new("***").unwrap_err(), GrammarError::MisplacedDoubleStar);
}

#[test]
fn canonicalization_collapses_wildcard_runs() {
    assert_eq!(text_of(&KeyExpr::new("a/**/**/b").unwrap()), "a/**/b");
    assert_eq!(text_of(&KeyExpr::new("**/**").unwrap()), "**");
    assert_eq!(text_of(&KeyExpr::new("**/*").unwrap()), "*/**");
    assert_eq!(text_of(&KeyExpr::new("**/*/**").unwrap()), "*/**");
    assert_eq!(text_of(&KeyExpr::new("a/**/*/*/b").unwrap()), "a/*/*/**/b");
}

#[test]
fn canonicalization_idempotent_on_samples() {
    for s in ["a/b/c", "**/*/**", "a/**/**/b", "*/*", "**", "a/**/*"] {
        let once = text_of(&KeyExpr::new(s).unwrap());
        let twice = text_of(&KeyExpr::new(&once).unwrap());
        assert_eq!(once, twice);
    }
}

#[test]
fn owned_constructor_and_string_round_trip() {
    let owned = z_keyexpr_new("demo/example/*");
    assert!(z_keyexpr_check(&owned));
    let view = z_keyexpr_loan(&owned);
    assert!(z_loaned_keyexpr_check(&view));
    assert_eq!(z_keyexpr_to_string(&view).unwrap(), "demo/example/*");
}

#[test]
fn owned_constructor_rejects_bad_strings() {
    assert!(!z_keyexpr_check(&z_keyexpr_new("a//b")));
    assert!(!z_keyexpr_check(&z_keyexpr_new("a#b")));
}

#[test]
fn loaned_constructor() {
    let view = z_keyexpr("demo/**");
    assert!(z_loaned_keyexpr_check(&view));
    assert_eq!(z_keyexpr_to_string(&view).unwrap(), "demo/**");
    let bad = z_keyexpr("demo//x");
    assert!(!z_loaned_keyexpr_check(&bad));
    assert!(z_keyexpr_to_string(&bad).is_none());
}

#[test]
fn as_bytes_exposes_utf8_text() {
    let view = z_keyexpr("a/b/*");
    assert_eq!(zc_keyexpr_as_bytes(&view).unwrap(), b"a/b/*".to_vec());
    assert!(zc_keyexpr_as_bytes(&z_keyexpr_t::null()).is_none());
}

#[test]
fn unchecked_constructor_trusts_caller() {
    let view = z_keyexpr_unchecked("already/canon/*");
    assert!(z_loaned_keyexpr_check(&view));
    assert_eq!(z_keyexpr_to_string(&view).unwrap(), "already/canon/*");
}
