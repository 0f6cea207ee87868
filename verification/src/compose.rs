//! Composition of a key expression with a raw string suffix.
//!
//! `keyexpr_concat` appends the suffix to the canonical string form;
//! `keyexpr_join` inserts exactly one `/` separator first, so callers never
//! manage separators themselves.  Both re-validate and re-canonicalize the
//! composed string, and both fail without producing a partial result.
//! Concatenation additionally rejects putting a suffix that begins with `*`
//! directly after a pattern that ends with `*`, an adjacency that is almost
//! always a caller mistake.

use crate::grammar::all_chunks_ok;
use crate::grammar::canon;
use crate::grammar::first_err;
use crate::grammar::GrammarError;
use crate::grammar::join_chunks;
use crate::grammar::split_slash;
use crate::keyexpr::KeyExpr;
use crate::wrapper::z_keyexpr_t;
use crate::wrapper::z_owned_keyexpr_t;
use vstd::prelude::*;
use vstd::string::StrSliceExecFns;
use vstd::string::StringExecFns;

verus! {

/// Why a composition failed.
#[derive(Clone, Copy, Debug, PartialEq, Eq, Structural)]
pub enum ComposeError {
    /// The pattern ends with `*` and the suffix begins with `*`.
    ForbiddenWildcardAdjacency,
    /// The composed string does not satisfy the grammar.
    InvalidResult(GrammarError),
}

/// The composed string of plain concatenation.
pub open spec fn concat_text(l: Seq<Seq<char>>, right: Seq<char>) -> Seq<char> {
    join_chunks(l) + right
}

/// The composed string of hierarchical join.
pub open spec fn join_text(l: Seq<Seq<char>>, right: Seq<char>) -> Seq<char> {
    join_chunks(l) + seq!['/'] + right
}

/// The rejected adjacency: `*` at the seam on both sides.
pub open spec fn wildcard_adjacency(l: Seq<Seq<char>>, right: Seq<char>) -> bool {
    &&& join_chunks(l).len() > 0
    &&& join_chunks(l).last() == '*'
    &&& right.len() > 0
    &&& right[0] == '*'
}

/// Plain string concatenation followed by re-validation and
/// re-canonicalization.
pub fn keyexpr_concat(left: &KeyExpr, right: &str) -> (r: Result<KeyExpr, ComposeError>)
    ensures
        match r {
            Ok(k) => !wildcard_adjacency(left@, right@) && all_chunks_ok(
                split_slash(concat_text(left@, right@)),
            ) && k@ == canon(split_slash(concat_text(left@, right@))) && k.wf() && k.spec_alias()
                is None,
            Err(ComposeError::ForbiddenWildcardAdjacency) => wildcard_adjacency(left@, right@),
            Err(ComposeError::InvalidResult(e)) => !wildcard_adjacency(left@, right@)
                && !all_chunks_ok(split_slash(concat_text(left@, right@))) && e == first_err(
                split_slash(concat_text(left@, right@)),
            ),
        },
{
    let ls = left.to_text();
    let n = ls.as_str().unicode_len();
    let m = right.unicode_len();
    if n > 0 && m > 0 {
        if ls.as_str().get_char(n - 1) == '*' && right.get_char(0) == '*' {
            return Err(ComposeError::ForbiddenWildcardAdjacency);
        }
    }
    let fulls = ls.concat(right);
    match KeyExpr::new(fulls.as_str()) {
        Ok(k) => Ok(k),
        Err(e) => Err(ComposeError::InvalidResult(e)),
    }
}

/// Hierarchical join: one `/` is inserted between the pattern and the
/// suffix, then the result is re-validated and re-canonicalized.
pub fn keyexpr_join(left: &KeyExpr, right: &str) -> (r: Result<KeyExpr, ComposeError>)
    ensures
        match r {
            Ok(k) => all_chunks_ok(split_slash(join_text(left@, right@))) && k@ == canon(
                split_slash(join_text(left@, right@)),
            ) && k.wf() && k.spec_alias() is None,
            Err(ComposeError::InvalidResult(e)) => !all_chunks_ok(
                split_slash(join_text(left@, right@)),
            ) && e == first_err(split_slash(join_text(left@, right@))),
            Err(ComposeError::ForbiddenWildcardAdjacency) => false,
        },
{
    let mut ls = left.to_text();
    proof {
        reveal_strlit("/");
        assert("/"@ =~= seq!['/']);
    }
    ls.append("/");
    let fulls = ls.concat(right);
    proof {
        assert(fulls@ =~= join_text(left@, right@));
    }
    match KeyExpr::new(fulls.as_str()) {
        Ok(k) => Ok(k),
        Err(e) => Err(ComposeError::InvalidResult(e)),
    }
}

/// Concatenation on loaned views; failure of any kind, including an absent
/// operand, yields the absent wrapper and leaves no partial result.
pub fn z_keyexpr_concat(left: &z_keyexpr_t, right: &str) -> (r: z_owned_keyexpr_t)
    ensures
        r.wf(),
        !left.is_valid() ==> !r.is_valid(),
        left.is_valid() ==> r.is_valid() == (!wildcard_adjacency(left.chunks(), right@)
            && all_chunks_ok(split_slash(concat_text(left.chunks(), right@)))),
        r.is_valid() ==> r.chunks() == canon(split_slash(concat_text(left.chunks(), right@)))
            && r.alias() is None,
{
    match left.try_key() {
        Ok(k) => match keyexpr_concat(&k, right) {
            Ok(res) => z_owned_keyexpr_t::from_key(res),
            Err(_) => z_owned_keyexpr_t::null(),
        },
        Err(_) => z_owned_keyexpr_t::null(),
    }
}

/// Hierarchical join on loaned views; failure of any kind, including an
/// absent operand, yields the absent wrapper and leaves no partial result.
pub fn z_keyexpr_join(left: &z_keyexpr_t, right: &str) -> (r: z_owned_keyexpr_t)
    ensures
        r.wf(),
        !left.is_valid() ==> !r.is_valid(),
        left.is_valid() ==> r.is_valid() == all_chunks_ok(
            split_slash(join_text(left.chunks(), right@)),
        ),
        r.is_valid() ==> r.chunks() == canon(split_slash(join_text(left.chunks(), right@)))
            && r.alias() is None,
{
    match left.try_key() {
        Ok(k) => match keyexpr_join(&k, right) {
            Ok(res) => z_owned_keyexpr_t::from_key(res),
            Err(_) => z_owned_keyexpr_t::null(),
        },
        Err(_) => z_owned_keyexpr_t::null(),
    }
}

} // verus!
