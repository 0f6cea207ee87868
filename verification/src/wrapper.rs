//! The tri-state ownership wrapper around a key expression.
//!
//! An owned wrapper is either `absent` (holding nothing) or `owned` (holding
//! a key expression it is responsible for).  Loans are transient views: an
//! absent wrapper still loans a null view, which every operation of the
//! algebra treats as "matches nothing".  Every destructive operation is
//! idempotent on an absent wrapper, which is what makes destruction
//! double-drop safe.

use crate::grammar::all_chunks_ok;
use crate::grammar::canon;
use crate::grammar::canonical_chunks;
use crate::grammar::join_chunks;
use crate::grammar::split_slash;
use crate::keyexpr::KeyExpr;
use crate::matching::chunks_include;
use crate::matching::chunks_intersect;
use crate::matching::sp_includes;
use crate::matching::sp_intersects;
use vstd::prelude::*;
use vstd::string::StrSliceExecFns;
use vstd::string::StringSliceAdditionalSpecFns;

verus! {

/// An owned key expression: `absent` or `owned`.
#[allow(non_camel_case_types)]
pub struct z_owned_keyexpr_t {
    inner: Option<KeyExpr>,
}

/// A loaned key expression: a view that is either null or holds a key
/// expression value.
#[allow(non_camel_case_types)]
pub struct z_keyexpr_t {
    inner: Option<KeyExpr>,
}

impl z_owned_keyexpr_t {
    /// Is the wrapper in the `owned` state?
    pub closed spec fn is_valid(&self) -> bool {
        self.inner is Some
    }

    /// The chunk list held; the empty list when absent.
    pub closed spec fn chunks(&self) -> Seq<Seq<char>> {
        match self.inner {
            Some(k) => k@,
            None => Seq::<Seq<char>>::empty(),
        }
    }

    /// The session-assigned alias held, if any.
    pub closed spec fn alias(&self) -> Option<u64> {
        match self.inner {
            Some(k) => k.spec_alias(),
            None => None,
        }
    }

    /// A held key expression is always in canonical form.
    pub closed spec fn wf(&self) -> bool {
        match self.inner {
            Some(k) => k.wf(),
            None => true,
        }
    }

    /// The absent wrapper.
    pub fn null() -> (r: Self)
        ensures
            !r.is_valid(),
            r.wf(),
    {
        z_owned_keyexpr_t { inner: None }
    }

    /// Takes ownership of a key expression: absent to owned.
    pub fn from_key(k: KeyExpr) -> (r: Self)
        ensures
            r.is_valid(),
            r.chunks() == k@,
            r.alias() == k.spec_alias(),
            r.wf() <==> k.wf(),
    {
        z_owned_keyexpr_t { inner: Some(k) }
    }

    /// Moves the held key expression out, leaving the wrapper absent.
    pub fn take(&mut self) -> (r: Option<KeyExpr>)
        ensures
            !final(self).is_valid(),
            final(self).wf(),
            match r {
                Some(k) => old(self).is_valid() && k@ == old(self).chunks() && k.spec_alias()
                    == old(self).alias() && (k.wf() <==> old(self).wf()),
                None => !old(self).is_valid(),
            },
    {
        self.inner.take()
    }
}

impl z_keyexpr_t {
    /// Is this a non-null view?
    pub closed spec fn is_valid(&self) -> bool {
        self.inner is Some
    }

    /// The chunk list viewed; the empty list when null.
    pub closed spec fn chunks(&self) -> Seq<Seq<char>> {
        match self.inner {
            Some(k) => k@,
            None => Seq::<Seq<char>>::empty(),
        }
    }

    /// The session-assigned alias viewed, if any.
    pub closed spec fn alias(&self) -> Option<u64> {
        match self.inner {
            Some(k) => k.spec_alias(),
            None => None,
        }
    }

    /// A viewed key expression is always in canonical form.
    pub closed spec fn wf(&self) -> bool {
        match self.inner {
            Some(k) => k.wf(),
            None => true,
        }
    }

    /// The null view.
    pub fn null() -> (r: Self)
        ensures
            !r.is_valid(),
            r.wf(),
    {
        z_keyexpr_t { inner: None }
    }

    /// Wraps a key expression value as a view.
    pub fn from_key(k: KeyExpr) -> (r: Self)
        ensures
            r.is_valid(),
            r.chunks() == k@,
            r.alias() == k.spec_alias(),
            r.wf() <==> k.wf(),
    {
        z_keyexpr_t { inner: Some(k) }
    }

    /// The viewed key expression, or the error the caller was warned about:
    /// a null view holds nothing.
    pub fn try_key(&self) -> (r: Result<KeyExpr, crate::registry::UninitializedKeyExprError>)
        ensures
            match r {
                Ok(k) => self.is_valid() && k@ == self.chunks() && k.spec_alias() == self.alias()
                    && (k.wf() <==> self.wf()),
                Err(_) => !self.is_valid(),
            },
    {
        match &self.inner {
            Some(k) => Ok(k.clone()),
            None => Err(crate::registry::UninitializedKeyExprError {}),
        }
    }
}

/// Loans the held value as a view; an absent wrapper loans the null view.
pub fn z_keyexpr_loan(keyexpr: &z_owned_keyexpr_t) -> (r: z_keyexpr_t)
    ensures
        r.is_valid() == keyexpr.is_valid(),
        r.chunks() == keyexpr.chunks(),
        r.alias() == keyexpr.alias(),
        r.wf() <==> keyexpr.wf(),
{
    match &keyexpr.inner {
        Some(k) => z_keyexpr_t::from_key(k.clone()),
        None => z_keyexpr_t::null(),
    }
}

/// Frees the held value and invalidates the wrapper.  Dropping an already
/// absent wrapper is a safe no-op, so destruction is double-drop safe.
pub fn z_keyexpr_drop(keyexpr: &mut z_owned_keyexpr_t)
    ensures
        !final(keyexpr).is_valid(),
        final(keyexpr).wf(),
{
    let _ = keyexpr.take();
}

/// Reports whether the wrapper currently owns a value.
pub fn z_keyexpr_check(keyexpr: &z_owned_keyexpr_t) -> (r: bool)
    ensures
        r == keyexpr.is_valid(),
{
    match &keyexpr.inner {
        Some(_) => true,
        None => false,
    }
}

/// Reports whether the loaned view is non-null.
pub fn z_loaned_keyexpr_check(keyexpr: &z_keyexpr_t) -> (r: bool)
    ensures
        r == keyexpr.is_valid(),
{
    match &keyexpr.inner {
        Some(_) => true,
        None => false,
    }
}

/// Validating, canonicalizing constructor; an invalid string yields the
/// absent wrapper.
pub fn z_keyexpr_new(name: &str) -> (r: z_owned_keyexpr_t)
    ensures
        r.wf(),
        r.is_valid() <==> all_chunks_ok(split_slash(name@)),
        r.is_valid() ==> r.chunks() == canon(split_slash(name@)) && r.alias() is None,
{
    match KeyExpr::new(name) {
        Ok(k) => z_owned_keyexpr_t::from_key(k),
        Err(_) => z_owned_keyexpr_t::null(),
    }
}

/// Validating, canonicalizing constructor of a loaned view; an invalid
/// string yields the null view.
pub fn z_keyexpr(name: &str) -> (r: z_keyexpr_t)
    ensures
        r.wf(),
        r.is_valid() <==> all_chunks_ok(split_slash(name@)),
        r.is_valid() ==> r.chunks() == canon(split_slash(name@)) && r.alias() is None,
{
    match KeyExpr::new(name) {
        Ok(k) => z_keyexpr_t::from_key(k),
        Err(_) => z_keyexpr_t::null(),
    }
}

/// Non-validating constructor: the caller asserts that `name` is
/// grammar-valid and canonical; nothing is checked.
pub fn z_keyexpr_unchecked(name: &str) -> (r: z_keyexpr_t)
    requires
        canonical_chunks(split_slash(name@)),
    ensures
        r.wf(),
        r.is_valid(),
        r.chunks() == split_slash(name@),
{
    z_keyexpr_t::from_key(KeyExpr::new_unchecked(name))
}

/// The canonical string form of a loaned view; `None` for the null view.
pub fn z_keyexpr_to_string(keyexpr: &z_keyexpr_t) -> (r: Option<String>)
    ensures
        r is Some <==> keyexpr.is_valid(),
        match r {
            Some(s) => s@ == join_chunks(keyexpr.chunks()),
            None => true,
        },
{
    match &keyexpr.inner {
        Some(k) => Some(k.to_text()),
        None => None,
    }
}

/// The key expression's internal text, UTF-8 encoded; `None` for the null
/// view.
pub fn zc_keyexpr_as_bytes(keyexpr: &z_keyexpr_t) -> (r: Option<Vec<u8>>)
    ensures
        r is Some <==> keyexpr.is_valid(),
        match r {
            Some(b) => b@ == vstd::utf8::encode_utf8(join_chunks(keyexpr.chunks())),
            None => true,
        },
{
    match z_keyexpr_to_string(keyexpr) {
        Some(s) => Some(s.as_str().as_bytes_vec()),
        None => None,
    }
}

/// What `z_keyexpr_equals` returns: the two views agree in validity and in
/// their chunk lists.
pub open spec fn spec_equals(a: &z_keyexpr_t, b: &z_keyexpr_t) -> bool {
    a.is_valid() == b.is_valid() && a.chunks() == b.chunks()
}

/// Equality of views is reflexive and symmetric.
pub proof fn lemma_equals_reflexive_symmetric(a: &z_keyexpr_t, b: &z_keyexpr_t)
    ensures
        spec_equals(a, a),
        spec_equals(a, b) == spec_equals(b, a),
{
}

/// On valid canonical views, equality of views is exactly equality of their
/// canonical string forms.
pub proof fn lemma_equals_is_canonical_string_equality(a: &z_keyexpr_t, b: &z_keyexpr_t)
    requires
        a.is_valid(),
        b.is_valid(),
        a.wf(),
        b.wf(),
    ensures
        spec_equals(a, b) <==> join_chunks(a.chunks()) == join_chunks(b.chunks()),
{
    crate::grammar::lemma_equals_is_string_equality(a.chunks(), b.chunks());
}

/// Do the two views define equal key sets?  On canonical operands this is
/// chunk-list (hence canonical-string) equality; two null views are equal.
pub fn z_keyexpr_equals(left: &z_keyexpr_t, right: &z_keyexpr_t) -> (r: bool)
    ensures
        r == spec_equals(left, right),
{
    match (&left.inner, &right.inner) {
        (Some(l), Some(r2)) => l.key_equals(r2),
        (None, None) => true,
        _ => false,
    }
}

/// Do the two views share at least one concrete key?  A null view matches
/// nothing, so it intersects nothing.
pub fn z_keyexpr_intersects(left: &z_keyexpr_t, right: &z_keyexpr_t) -> (r: bool)
    ensures
        r == (left.is_valid() && right.is_valid() && sp_intersects(left.chunks(), right.chunks())),
{
    match (&left.inner, &right.inner) {
        (Some(l), Some(r2)) => chunks_intersect(l.chunks_ref(), r2.chunks_ref()),
        _ => false,
    }
}

/// Does `left`'s pattern dominate `right`'s chunk for chunk, so that every
/// key `right` matches is matched by `left`?  A null view on either side
/// yields `false`.
pub fn z_keyexpr_includes(left: &z_keyexpr_t, right: &z_keyexpr_t) -> (r: bool)
    ensures
        r == (left.is_valid() && right.is_valid() && sp_includes(left.chunks(), right.chunks())),
{
    match (&left.inner, &right.inner) {
        (Some(l), Some(r2)) => chunks_include(l.chunks_ref(), r2.chunks_ref()),
        _ => false,
    }
}

} // verus!
