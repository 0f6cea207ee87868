//! Tests of the ownership wrapper lifecycle, composition, and the
//! declaration registry shim.

use key_expr::compose::keyexpr_concat;
use key_expr::compose::z_keyexpr_concat;
use key_expr::compose::z_keyexpr_join;
use key_expr::compose::ComposeError;
use key_expr::keyexpr::KeyExpr;
use key_expr::registry::declare_response;
use key_expr::registry::z_declare_keyexpr;
use key_expr::registry::z_declare_keyexpr_request;
use key_expr::registry::z_undeclare_keyexpr;
use key_expr::registry::z_undeclare_keyexpr_request;
use key_expr::registry::DeclareError;
use key_expr::registry::UndeclareError;
use key_expr::wrapper::z_keyexpr;
use key_expr::wrapper::z_keyexpr_check;
use key_expr::wrapper::z_keyexpr_drop;
use key_expr::wrapper::z_keyexpr_loan;
use key_expr::wrapper::z_keyexpr_new;
use key_expr::wrapper::z_keyexpr_t;
use key_expr::wrapper::z_keyexpr_to_string;
use key_expr::wrapper::z_owned_keyexpr_t;

#[test]
fn null_wrapper_is_invalid() {
    let owned = z_owned_keyexpr_t::null();
    assert!(!z_keyexpr_check(&owned));
    let view = z_keyexpr_loan(&owned);
    assert!(z_keyexpr_to_string(&view).is_none());
}

#[test]
fn double_drop_is_safe() {
    let mut owned = z_keyexpr_new("demo/drop");
    assert!(z_keyexpr_check(&owned));
    z_keyexpr_drop(&mut owned);
    assert!(!z_keyexpr_check(&owned));
    // the second drop is a no-op, not a double free
    z_keyexpr_drop(&mut owned);
    assert!(!z_keyexpr_check(&owned));
}

#[test]
fn take_moves_the_value_out_once() {
    let mut owned = z_keyexpr_new("demo/take");
    let first = owned.take();
    assert!(first.is_some());
    assert!(!z_keyexpr_check(&owned));
    assert!(owned.take().is_none());
}

#[test]
fn join_inserts_separator() {
    let ab = z_keyexpr("a/b");
    let joined = z_keyexpr_join(&ab, "c");
    assert!(z_keyexpr_check(&joined));
    let view = z_keyexpr_loan(&joined);
    assert_eq!(z_keyexpr_to_string(&view).unwrap(), "a/b/c");
}

#[test]
fn concat_appends_raw_text() {
    let ab = z_keyexpr("a/b");
    let glued = z_keyexpr_concat(&ab, "/c");
    assert!(z_keyexpr_check(&glued));
    let view = z_keyexpr_loan(&glued);
    assert_eq!(z_keyexpr_to_string(&view).unwrap(), "a/b/c");
    // without a separator the chunks merge
    let merged = z_keyexpr_concat(&ab, "c");
    let view = z_keyexpr_loan(&merged);
    assert_eq!(z_keyexpr_to_string(&view).unwrap(), "a/bc");
}

#[test]
fn concat_rejects_wildcard_adjacency() {
    let astar = z_keyexpr("a/*");
    let glued = z_keyexpr_concat(&astar, "*");
    assert!(!z_keyexpr_check(&glued));
    let k = KeyExpr::new("a/*").unwrap();
    assert_eq!(keyexpr_concat(&k, "*").unwrap_err(), ComposeError::ForbiddenWildcardAdjacency);
}

#[test]
fn compose_rejects_invalid_results_and_absent_operands() {
    let ab = z_keyexpr("a/b");
    assert!(!z_keyexpr_check(&z_keyexpr_concat(&ab, "#")));
    assert!(!z_keyexpr_check(&z_keyexpr_join(&ab, "/c")));
    let null = z_keyexpr_t::null();
    assert!(!z_keyexpr_check(&z_keyexpr_concat(&null, "c")));
    assert!(!z_keyexpr_check(&z_keyexpr_join(&null, "c")));
}

#[test]
fn compose_recanonicalizes() {
    let a = z_keyexpr("a/**");
    let joined = z_keyexpr_join(&a, "**/b");
    let view = z_keyexpr_loan(&joined);
    assert_eq!(z_keyexpr_to_string(&view).unwrap(), "a/**/b");
}

#[test]
fn declare_submits_canonical_text() {
    let k = z_keyexpr("demo/declared");
    let req = z_declare_keyexpr_request(&k).unwrap();
    assert_eq!(req, "demo/declared");
    let null = z_keyexpr_t::null();
    assert_eq!(
        z_declare_keyexpr_request(&null).unwrap_err(),
        DeclareError::UninitializedKeyExpression
    );
}

#[test]
fn declare_folds_session_reply() {
    let k = z_keyexpr("demo/declared");
    let declared = declare_response(&k, Some(42)).unwrap();
    assert_eq!(declared.alias_id(), Some(42));
    assert_eq!(declared.to_text(), "demo/declared");
    assert_eq!(declare_response(&k, None).unwrap_err(), DeclareError::SessionRejected);

    let owned = z_declare_keyexpr(&k, Some(7));
    assert!(z_keyexpr_check(&owned));
    let rejected = z_declare_keyexpr(&k, None);
    assert!(!z_keyexpr_check(&rejected));
}

#[test]
fn undeclare_requires_a_declared_alias() {
    let k = z_keyexpr("demo/declared");
    let mut owned = z_declare_keyexpr(&k, Some(9));
    assert_eq!(z_undeclare_keyexpr_request(&owned).unwrap(), 9);

    // an owned key expression that was never declared cannot be undeclared
    let undeclared = z_keyexpr_new("demo/plain");
    assert_eq!(
        z_undeclare_keyexpr_request(&undeclared).unwrap_err(),
        UndeclareError::UninitializedKeyExpression
    );

    // a rejected retirement leaves the wrapper untouched
    assert_eq!(z_undeclare_keyexpr(&mut owned, false).unwrap_err(), UndeclareError::SessionRejected);
    assert!(z_keyexpr_check(&owned));

    // an accepted retirement invalidates it
    assert!(z_undeclare_keyexpr(&mut owned, true).is_ok());
    assert!(!z_keyexpr_check(&owned));

    // retiring an absent wrapper is a reported logic error, not a crash
    assert_eq!(
        z_undeclare_keyexpr(&mut owned, true).unwrap_err(),
        UndeclareError::UninitializedKeyExpression
    );
}
