//! The declaration registry client: a thin request/response shim through
//! which a session maps a key expression to a compact numeric alias.
//!
//! The session itself performs network I/O and lives outside this crate, so
//! each operation is split in two: a request step that decides, before any
//! session interaction, what may be submitted (only canonical, grammar-valid
//! strings ever cross that boundary), and a response step that folds the
//! session's reply back into the wrapper state.

use crate::grammar::join_chunks;
use crate::keyexpr::KeyExpr;
use crate::wrapper::z_keyexpr_check;
use crate::wrapper::z_keyexpr_loan;
use crate::wrapper::z_keyexpr_t;
use crate::wrapper::z_owned_keyexpr_t;
use vstd::prelude::*;

verus! {

/// An operation needed a valid key expression but was handed an absent one.
#[derive(Clone, Copy, Debug, PartialEq, Eq, Structural)]
pub struct UninitializedKeyExprError {
}

/// Why a declaration failed.
#[derive(Clone, Copy, Debug, PartialEq, Eq, Structural)]
pub enum DeclareError {
    /// The operand was absent; the session was never consulted.
    UninitializedKeyExpression,
    /// The session reported a transport or protocol failure, propagated
    /// opaquely.
    SessionRejected,
}

/// Why retiring a declaration failed.
#[derive(Clone, Copy, Debug, PartialEq, Eq, Structural)]
pub enum UndeclareError {
    /// The wrapper held no declared alias, so there was nothing to retire;
    /// unlike dropping a value this has a network side effect, so it is
    /// reported rather than ignored.
    UninitializedKeyExpression,
    /// The session reported a transport or protocol failure.
    SessionRejected,
}

/// The first half of a declaration: checked before any session interaction.
/// A valid operand yields the canonical string to submit to the session; an
/// absent operand is rejected without touching the session.
pub fn z_declare_keyexpr_request(keyexpr: &z_keyexpr_t) -> (r: Result<String, DeclareError>)
    ensures
        r is Ok <==> keyexpr.is_valid(),
        match r {
            Ok(s) => s@ == join_chunks(keyexpr.chunks()),
            Err(e) => e == DeclareError::UninitializedKeyExpression,
        },
{
    match keyexpr.try_key() {
        Ok(k) => Ok(k.to_text()),
        Err(_) => Err(DeclareError::UninitializedKeyExpression),
    }
}

/// The second half of a declaration: folds the session's reply — the
/// assigned numeric alias, or nothing on rejection — into a result.
pub fn declare_response(keyexpr: &z_keyexpr_t, reply: Option<u64>) -> (r: Result<
    KeyExpr,
    DeclareError,
>)
    ensures
        r is Ok <==> keyexpr.is_valid() && reply is Some,
        match r {
            Ok(k) => k@ == keyexpr.chunks() && k.spec_alias() == reply && (k.wf()
                <==> keyexpr.wf()),
            Err(e) => if keyexpr.is_valid() {
                e == DeclareError::SessionRejected
            } else {
                e == DeclareError::UninitializedKeyExpression
            },
        },
{
    match keyexpr.try_key() {
        Ok(k) => match reply {
            Some(id) => Ok(k.with_alias(id)),
            None => Err(DeclareError::SessionRejected),
        },
        Err(_) => Err(DeclareError::UninitializedKeyExpression),
    }
}

/// Declares a key expression with the session's reply already in hand: the
/// owned handle carrying the assigned alias, or the absent wrapper when the
/// operand was absent or the session rejected the declaration.
pub fn z_declare_keyexpr(keyexpr: &z_keyexpr_t, reply: Option<u64>) -> (r: z_owned_keyexpr_t)
    ensures
        r.wf() <==> (r.is_valid() ==> keyexpr.wf()),
        r.is_valid() <==> keyexpr.is_valid() && reply is Some,
        r.is_valid() ==> r.chunks() == keyexpr.chunks() && r.alias() == reply,
{
    match declare_response(keyexpr, reply) {
        Ok(k) => z_owned_keyexpr_t::from_key(k),
        Err(_) => z_owned_keyexpr_t::null(),
    }
}

/// The first half of retiring a declaration: the alias to submit to the
/// session, or the error when the wrapper holds no declared alias (checked
/// before any session interaction).
pub fn z_undeclare_keyexpr_request(keyexpr: &z_owned_keyexpr_t) -> (r: Result<u64, UndeclareError>)
    ensures
        r is Ok <==> keyexpr.is_valid() && keyexpr.alias() is Some,
        match r {
            Ok(id) => keyexpr.alias() == Some(id),
            Err(e) => e == UndeclareError::UninitializedKeyExpression,
        },
{
    if z_keyexpr_check(keyexpr) {
        match z_keyexpr_loan(keyexpr).try_key() {
            Ok(k) => match k.alias_id() {
                Some(id) => Ok(id),
                None => Err(UndeclareError::UninitializedKeyExpression),
            },
            Err(_) => Err(UndeclareError::UninitializedKeyExpression),
        }
    } else {
        Err(UndeclareError::UninitializedKeyExpression)
    }
}

/// The second half of retiring a declaration: on acceptance the wrapper is
/// dropped to absent; on rejection, and on an absent or undeclared operand,
/// the prior state is left untouched.
pub fn z_undeclare_keyexpr(keyexpr: &mut z_owned_keyexpr_t, accepted: bool) -> (r: Result<
    (),
    UndeclareError,
>)
    ensures
        r is Ok <==> old(keyexpr).is_valid() && old(keyexpr).alias() is Some && accepted,
        r is Ok ==> !final(keyexpr).is_valid() && final(keyexpr).wf(),
        r is Err ==> final(keyexpr).is_valid() == old(keyexpr).is_valid()
            && final(keyexpr).chunks() == old(keyexpr).chunks()
            && final(keyexpr).alias() == old(keyexpr).alias()
            && (final(keyexpr).wf() <==> old(keyexpr).wf()),
        match r {
            Ok(_) => true,
            Err(e) => if old(keyexpr).is_valid() && old(keyexpr).alias() is Some {
                e == UndeclareError::SessionRejected
            } else {
                e == UndeclareError::UninitializedKeyExpression
            },
        },
{
    match z_undeclare_keyexpr_request(keyexpr) {
        Ok(_) => {
            if accepted {
                crate::wrapper::z_keyexpr_drop(keyexpr);
                Ok(())
            } else {
                Err(UndeclareError::SessionRejected)
            }
        },
        Err(e) => Err(e),
    }
}

} // verus!
