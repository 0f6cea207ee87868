//! The matching algebra on canonical chunk lists.
//!
//! `sp_intersects` holds exactly when the two patterns share at least one
//! concrete key; `sp_includes` guarantees that every key matched by the
//! second pattern is matched by the first.  Both walk the chunk lists left
//! to right; a `**` chunk may consume zero chunks or one chunk of the other
//! side, which gives the standard backtracking automaton for multi-level
//! wildcards.

use crate::grammar::canon;
use crate::grammar::dstar;
use crate::grammar::is_dstar_chunk;
use crate::grammar::is_star_chunk;
use crate::grammar::star;
use crate::grammar::views_of;
use crate::grammar::wildcard_sorted;
use vstd::prelude::*;

verus! {

/// The two patterns match at least one common concrete key.
pub open spec fn sp_intersects(a: Seq<Seq<char>>, b: Seq<Seq<char>>) -> bool
    decreases a.len() + b.len(),
{
    if a.len() == 0 && b.len() == 0 {
        true
    } else if a.len() == 0 {
        b[0] == dstar() && sp_intersects(a, b.drop_first())
    } else if b.len() == 0 {
        a[0] == dstar() && sp_intersects(a.drop_first(), b)
    } else if a[0] == dstar() {
        sp_intersects(a.drop_first(), b) || sp_intersects(a, b.drop_first())
    } else if b[0] == dstar() {
        sp_intersects(a, b.drop_first()) || sp_intersects(a.drop_first(), b)
    } else {
        (a[0] == star() || b[0] == star() || a[0] == b[0]) && sp_intersects(
            a.drop_first(),
            b.drop_first(),
        )
    }
}

/// The aligned-chunk inclusion test: walking both lists left to right, `a`'s
/// chunk must dominate `b`'s at each aligned position — `a`'s `**` consumes
/// freely, `*` dominates `*` and literals, a literal dominates only itself,
/// and nothing but `**` dominates `**`.  Whenever this holds, every key
/// matched by `b` is matched by `a` (`lemma_includes_sound`); the aligned
/// walk is deliberately finer than bare set inclusion, as the component
/// laws below pin down.
pub open spec fn sp_includes(a: Seq<Seq<char>>, b: Seq<Seq<char>>) -> bool
    decreases a.len() + b.len(),
{
    if a.len() == 0 && b.len() == 0 {
        true
    } else if b.len() == 0 {
        a[0] == dstar() && sp_includes(a.drop_first(), b)
    } else if a.len() == 0 {
        false
    } else if a[0] == dstar() {
        sp_includes(a.drop_first(), b) || sp_includes(a, b.drop_first())
    } else if b[0] == dstar() {
        false
    } else if a[0] == star() || a[0] == b[0] {
        sp_includes(a.drop_first(), b.drop_first())
    } else {
        false
    }
}

/// Intersection is symmetric.
pub proof fn lemma_intersects_sym(a: Seq<Seq<char>>, b: Seq<Seq<char>>)
    ensures
        sp_intersects(a, b) == sp_intersects(b, a),
    decreases a.len() + b.len(),
{
    if a.len() == 0 && b.len() == 0 {
    } else if a.len() == 0 {
        lemma_intersects_sym(a, b.drop_first());
    } else if b.len() == 0 {
        lemma_intersects_sym(a.drop_first(), b);
    } else {
        lemma_intersects_sym(a.drop_first(), b);
        lemma_intersects_sym(a, b.drop_first());
        lemma_intersects_sym(a.drop_first(), b.drop_first());
    }
}

/// Inclusion is reflexive.
pub proof fn lemma_includes_refl(a: Seq<Seq<char>>)
    ensures
        sp_includes(a, a),
    decreases a.len(),
{
    if a.len() == 0 {
    } else if a[0] == dstar() {
        let t = a.drop_first();
        if t.len() == 0 {
            assert(sp_includes(t, t));
            assert(sp_includes(a, t));
        } else {
            lemma_includes_refl(t);
            assert(sp_includes(a, t));
        }
    } else {
        lemma_includes_refl(a.drop_first());
    }
}

/// Every chunk is the multi-level wildcard.
pub open spec fn all_dstar(ks: Seq<Seq<char>>) -> bool {
    forall|i: int| 0 <= i < ks.len() ==> (#[trigger] ks[i]) == dstar()
}

/// A pattern includes the empty chunk list exactly when it is all `**`.
pub proof fn lemma_includes_empty(p: Seq<Seq<char>>)
    ensures
        sp_includes(p, Seq::<Seq<char>>::empty()) <==> all_dstar(p),
    decreases p.len(),
{
    if p.len() == 0 {
    } else {
        let pt = p.drop_first();
        lemma_includes_empty(pt);
        assert(forall|i: int| 0 <= i < pt.len() ==> (#[trigger] pt[i]) == p[i + 1]);
        if sp_includes(p, Seq::<Seq<char>>::empty()) {
            assert forall|i: int| 0 <= i < p.len() implies (#[trigger] p[i]) == dstar() by {
                if i > 0 {
                    assert(pt[i - 1] == dstar());
                }
            }
        }
        if all_dstar(p) {
            assert forall|i: int| 0 <= i < pt.len() implies (#[trigger] pt[i]) == dstar() by {
                assert(p[i + 1] == dstar());
            }
            assert(sp_includes(pt, Seq::<Seq<char>>::empty()));
        }
    }
}

/// An all-`**` non-empty pattern includes everything.
pub proof fn lemma_all_dstar_includes(p: Seq<Seq<char>>, q: Seq<Seq<char>>)
    requires
        all_dstar(p),
        p.len() > 0,
    ensures
        sp_includes(p, q),
    decreases p.len() + q.len(),
{
    let t = p.drop_first();
    assert(forall|i: int| 0 <= i < t.len() ==> #[trigger] t[i] == p[i + 1]);
    assert(p[0] == dstar());
    if q.len() == 0 {
        if t.len() > 0 {
            lemma_all_dstar_includes(t, q);
        } else {
            assert(sp_includes(t, q));
        }
        assert(sp_includes(p, q));
    } else {
        lemma_all_dstar_includes(p, q.drop_first());
        assert(sp_includes(p, q));
    }
}

/// Only an all-`**` pattern can be included in an all-`**` pattern.
pub proof fn lemma_included_in_all_dstar(p: Seq<Seq<char>>, q: Seq<Seq<char>>)
    requires
        sp_includes(p, q),
        all_dstar(q),
        q.len() > 0,
    ensures
        all_dstar(p),
    decreases p.len() + q.len(),
{
    if p.len() == 0 {
    } else {
        assert(q[0] == dstar());
        assert(p[0] == dstar());
        let pt = p.drop_first();
        assert(forall|i: int| 0 <= i < pt.len() ==> #[trigger] pt[i] == p[i + 1]);
        if sp_includes(pt, q) {
            lemma_included_in_all_dstar(pt, q);
            assert forall|i: int| 0 <= i < p.len() implies (#[trigger] p[i]) == dstar() by {
                if i > 0 {
                    assert(pt[i - 1] == dstar());
                }
            }
        } else {
            let qt = q.drop_first();
            assert(forall|i: int| 0 <= i < qt.len() ==> #[trigger] qt[i] == q[i + 1]);
            assert(sp_includes(p, qt));
            if qt.len() == 0 {
                assert(qt =~= Seq::<Seq<char>>::empty());
                lemma_includes_empty(p);
            } else {
                lemma_included_in_all_dstar(p, qt);
            }
        }
    }
}

/// Inclusion is transitive.
pub proof fn lemma_includes_trans(a: Seq<Seq<char>>, b: Seq<Seq<char>>, c: Seq<Seq<char>>)
    requires
        sp_includes(a, b),
        sp_includes(b, c),
    ensures
        sp_includes(a, c),
    decreases a.len() + b.len() + c.len(),
{
    if c.len() == 0 {
        assert(c =~= Seq::<Seq<char>>::empty());
        lemma_includes_empty(b);
        if b.len() == 0 {
            assert(b =~= c);
        } else {
            lemma_included_in_all_dstar(a, b);
            if a.len() == 0 {
            } else {
                lemma_all_dstar_includes(a, c);
            }
        }
    } else if b.len() == 0 {
        // sp_includes(b, c) cannot hold
    } else if a.len() == 0 {
        // sp_includes(a, b) cannot hold
    } else if b[0] == dstar() {
        assert(a[0] == dstar());
        if sp_includes(a.drop_first(), b) {
            lemma_includes_trans(a.drop_first(), b, c);
        } else {
            assert(sp_includes(a, b.drop_first()));
            if sp_includes(b.drop_first(), c) {
                lemma_includes_trans(a, b.drop_first(), c);
            } else {
                assert(sp_includes(b, c.drop_first()));
                lemma_includes_trans(a, b, c.drop_first());
            }
        }
    } else {
        assert(c[0] != dstar());
        assert(sp_includes(b.drop_first(), c.drop_first()));
        if a[0] == dstar() {
            if sp_includes(a.drop_first(), b) {
                lemma_includes_trans(a.drop_first(), b, c);
            } else {
                assert(sp_includes(a, b.drop_first()));
                lemma_includes_trans(a, b.drop_first(), c.drop_first());
            }
        } else {
            assert(sp_includes(a.drop_first(), b.drop_first()));
            lemma_includes_trans(a.drop_first(), b.drop_first(), c.drop_first());
            assert(a[0] == star() || a[0] == c[0]);
        }
    }
}

/// The number of chunks that are not the multi-level wildcard: the length of
/// the shortest concrete key a pattern can match.
pub open spec fn nonwild_count(ks: Seq<Seq<char>>) -> nat
    decreases ks.len(),
{
    if ks.len() == 0 {
        0
    } else {
        (if ks[0] == dstar() {
            0nat
        } else {
            1nat
        }) + nonwild_count(ks.drop_first())
    }
}

/// A coarser pattern can never require a longer shortest key.
pub proof fn lemma_includes_nonwild(p: Seq<Seq<char>>, q: Seq<Seq<char>>)
    requires
        sp_includes(p, q),
    ensures
        nonwild_count(p) <= nonwild_count(q),
    decreases p.len() + q.len(),
{
    if p.len() == 0 && q.len() == 0 {
    } else if q.len() == 0 {
        lemma_includes_nonwild(p.drop_first(), q);
    } else if p[0] == dstar() {
        if sp_includes(p.drop_first(), q) {
            lemma_includes_nonwild(p.drop_first(), q);
        } else {
            lemma_includes_nonwild(p, q.drop_first());
        }
    } else {
        lemma_includes_nonwild(p.drop_first(), q.drop_first());
    }
}

/// Inclusion is antisymmetric on wildcard-sorted patterns: two patterns that
/// include each other are the same chunk list.
pub proof fn lemma_includes_antisym(a: Seq<Seq<char>>, b: Seq<Seq<char>>)
    requires
        wildcard_sorted(a),
        wildcard_sorted(b),
        sp_includes(a, b),
        sp_includes(b, a),
    ensures
        a == b,
    decreases a.len() + b.len(),
{
    if a.len() == 0 && b.len() == 0 {
        assert(a =~= b);
    } else if a.len() == 0 || b.len() == 0 {
        // one of the two inclusions cannot hold
    } else if a[0] == dstar() && b[0] == dstar() {
        let at = a.drop_first();
        let bt = b.drop_first();
        assert(forall|i: int| 0 <= i < at.len() ==> (#[trigger] at[i]) == a[i + 1]);
        assert(forall|i: int| 0 <= i < bt.len() ==> (#[trigger] bt[i]) == b[i + 1]);
        assert(wildcard_sorted(at));
        assert(wildcard_sorted(bt));
        // neither tail may begin with a wildcard that the head `**` could
        // absorb, so each inclusion must keep its own `**` and consume the
        // other side's
        assert(sp_includes(a, bt)) by {
            if sp_includes(at, b) {
                assert(at.len() > 0 && at[0] != dstar());
                assert(false);
            }
        }
        assert(sp_includes(b, at)) by {
            if sp_includes(bt, a) {
                assert(bt.len() > 0 && bt[0] != dstar());
                assert(false);
            }
        }
        if at.len() == 0 {
            assert(at =~= Seq::<Seq<char>>::empty());
            lemma_includes_empty(b);
            assert(b.len() == 1) by {
                if b.len() > 1 {
                    assert(b[1] == dstar());
                }
            }
            assert(a =~= b);
        } else if bt.len() == 0 {
            assert(bt =~= Seq::<Seq<char>>::empty());
            lemma_includes_empty(a);
            assert(a.len() == 1) by {
                if a.len() > 1 {
                    assert(a[1] == dstar());
                }
            }
            assert(a =~= b);
        } else {
            lemma_includes_nonwild(a, bt);
            lemma_includes_nonwild(b, at);
            assert(nonwild_count(a) == nonwild_count(at));
            assert(nonwild_count(b) == nonwild_count(bt));
            assert(nonwild_count(at) == nonwild_count(bt));
            assert(sp_includes(at, bt)) by {
                if !sp_includes(at, bt) {
                    assert(sp_includes(a, bt.drop_first()));
                    lemma_includes_nonwild(a, bt.drop_first());
                    assert(nonwild_count(bt) == 1 + nonwild_count(bt.drop_first()));
                    assert(false);
                }
            }
            assert(sp_includes(bt, at)) by {
                if !sp_includes(bt, at) {
                    assert(sp_includes(b, at.drop_first()));
                    lemma_includes_nonwild(b, at.drop_first());
                    assert(nonwild_count(at) == 1 + nonwild_count(at.drop_first()));
                    assert(false);
                }
            }
            lemma_includes_antisym(at, bt);
            assert(a.len() == b.len());
            assert forall|i: int| 0 <= i < a.len() implies a[i] == b[i] by {
                if i > 0 {
                    assert(at[i - 1] == a[i]);
                    assert(bt[i - 1] == b[i]);
                }
            }
            assert(a =~= b);
        }
    } else if a[0] == dstar() || b[0] == dstar() {
        // a literal or `*` head can never include a `**` head
    } else {
        assert(sp_includes(a.drop_first(), b.drop_first()));
        assert(sp_includes(b.drop_first(), a.drop_first()));
        assert(a[0] == b[0]);
        assert(forall|i: int|
            0 <= i < a.drop_first().len() ==> (#[trigger] a.drop_first()[i]) == a[i + 1]);
        assert(forall|i: int|
            0 <= i < b.drop_first().len() ==> (#[trigger] b.drop_first()[i]) == b[i + 1]);
        assert(wildcard_sorted(a.drop_first()));
        assert(wildcard_sorted(b.drop_first()));
        lemma_includes_antisym(a.drop_first(), b.drop_first());
        assert(a.len() == b.len());
        assert forall|i: int| 0 <= i < a.len() implies a[i] == b[i] by {
            if i > 0 {
                assert(a.drop_first()[i - 1] == a[i]);
                assert(b.drop_first()[i - 1] == b[i]);
            }
        }
        assert(a =~= b);
    }
}

/// Does the pattern match this key, chunk by chunk?  A `*` chunk matches
/// any one chunk, a `**` chunk matches zero or more chunks, and any other
/// chunk matches only itself.
pub open spec fn matches_key(p: Seq<Seq<char>>, k: Seq<Seq<char>>) -> bool
    decreases p.len() + k.len(),
{
    if p.len() == 0 {
        k.len() == 0
    } else if p[0] == dstar() {
        matches_key(p.drop_first(), k) || (k.len() > 0 && matches_key(p, k.drop_first()))
    } else {
        k.len() > 0 && (p[0] == star() || p[0] == k[0]) && matches_key(
            p.drop_first(),
            k.drop_first(),
        )
    }
}

/// A concrete key: no chunk is a wildcard.
pub open spec fn concrete_key(k: Seq<Seq<char>>) -> bool {
    forall|i: int| 0 <= i < k.len() ==> (#[trigger] k[i]) != star() && k[i] != dstar()
}

/// An all-`**` pattern matches the empty key.
proof fn lemma_all_dstar_matches_empty(p: Seq<Seq<char>>)
    requires
        all_dstar(p),
    ensures
        matches_key(p, Seq::<Seq<char>>::empty()),
    decreases p.len(),
{
    if p.len() > 0 {
        let pt = p.drop_first();
        assert(forall|i: int| 0 <= i < pt.len() ==> (#[trigger] pt[i]) == p[i + 1]);
        lemma_all_dstar_matches_empty(pt);
    }
}

/// Inclusion is semantically sound: whenever `sp_includes(a, b)` holds,
/// every key matched by `b` is matched by `a`.
pub proof fn lemma_includes_sound(a: Seq<Seq<char>>, b: Seq<Seq<char>>, k: Seq<Seq<char>>)
    requires
        sp_includes(a, b),
        matches_key(b, k),
    ensures
        matches_key(a, k),
    decreases a.len() + b.len() + k.len(),
{
    if b.len() == 0 {
        assert(k.len() == 0);
        assert(b =~= Seq::<Seq<char>>::empty());
        lemma_includes_empty(a);
        lemma_all_dstar_matches_empty(a);
        assert(k =~= Seq::<Seq<char>>::empty());
    } else if a.len() == 0 {
        assert(false);
    } else if a[0] == dstar() {
        if sp_includes(a.drop_first(), b) {
            lemma_includes_sound(a.drop_first(), b, k);
        } else {
            let bt = b.drop_first();
            assert(sp_includes(a, bt));
            if b[0] == dstar() {
                if matches_key(bt, k) {
                    lemma_includes_sound(a, bt, k);
                } else {
                    assert(k.len() > 0 && matches_key(b, k.drop_first()));
                    lemma_includes_sound(a, b, k.drop_first());
                }
            } else {
                assert(k.len() > 0 && matches_key(bt, k.drop_first()));
                lemma_includes_sound(a, bt, k.drop_first());
            }
        }
    } else {
        assert(b[0] != dstar());
        assert(k.len() > 0);
        lemma_includes_sound(a.drop_first(), b.drop_first(), k.drop_first());
    }
}

/// Intersection is semantically complete: a key matched by both patterns
/// forces `sp_intersects`.
pub proof fn lemma_intersects_complete(a: Seq<Seq<char>>, b: Seq<Seq<char>>, k: Seq<Seq<char>>)
    requires
        matches_key(a, k),
        matches_key(b, k),
    ensures
        sp_intersects(a, b),
    decreases a.len() + b.len() + k.len(),
{
    if a.len() == 0 {
        assert(k.len() == 0);
        if b.len() > 0 {
            assert(b[0] == dstar() && matches_key(b.drop_first(), k));
            lemma_intersects_complete(a, b.drop_first(), k);
        }
    } else if b.len() == 0 {
        assert(k.len() == 0);
        assert(a[0] == dstar() && matches_key(a.drop_first(), k));
        lemma_intersects_complete(a.drop_first(), b, k);
    } else if a[0] == dstar() {
        if matches_key(a.drop_first(), k) {
            lemma_intersects_complete(a.drop_first(), b, k);
        } else {
            assert(k.len() > 0 && matches_key(a, k.drop_first()));
            if b[0] == dstar() {
                if matches_key(b.drop_first(), k) {
                    lemma_intersects_complete(a, b.drop_first(), k);
                } else {
                    assert(matches_key(b, k.drop_first()));
                    lemma_intersects_complete(a, b, k.drop_first());
                }
            } else {
                assert(matches_key(b.drop_first(), k.drop_first()));
                lemma_intersects_complete(a, b.drop_first(), k.drop_first());
            }
        }
    } else if b[0] == dstar() {
        if matches_key(b.drop_first(), k) {
            lemma_intersects_complete(a, b.drop_first(), k);
        } else {
            assert(k.len() > 0 && matches_key(b, k.drop_first()));
            assert(matches_key(a.drop_first(), k.drop_first()));
            lemma_intersects_complete(a.drop_first(), b, k.drop_first());
        }
    } else {
        assert(k.len() > 0);
        lemma_intersects_complete(a.drop_first(), b.drop_first(), k.drop_first());
    }
}

/// Intersection is semantically sound: `sp_intersects` produces a concrete
/// key matched by both patterns.
pub proof fn lemma_intersects_witness(a: Seq<Seq<char>>, b: Seq<Seq<char>>)
    requires
        sp_intersects(a, b),
    ensures
        exists|k: Seq<Seq<char>>|
            concrete_key(k) && #[trigger] matches_key(a, k) && matches_key(b, k),
    decreases a.len() + b.len(),
{
    if a.len() == 0 && b.len() == 0 {
        let w = Seq::<Seq<char>>::empty();
        assert(concrete_key(w) && matches_key(a, w) && matches_key(b, w));
    } else if a.len() == 0 {
        lemma_intersects_witness(a, b.drop_first());
        let w = choose|k: Seq<Seq<char>>|
            concrete_key(k) && #[trigger] matches_key(a, k) && matches_key(b.drop_first(), k);
        assert(matches_key(b, w));
        assert(matches_key(a, w) && matches_key(b, w));
    } else if b.len() == 0 {
        lemma_intersects_witness(a.drop_first(), b);
        let w = choose|k: Seq<Seq<char>>|
            concrete_key(k) && #[trigger] matches_key(a.drop_first(), k) && matches_key(b, k);
        assert(w.len() == 0);
        assert(matches_key(a, w));
        assert(matches_key(a, w) && matches_key(b, w));
    } else if a[0] == dstar() {
        if sp_intersects(a.drop_first(), b) {
            lemma_intersects_witness(a.drop_first(), b);
            let w = choose|k: Seq<Seq<char>>|
                concrete_key(k) && #[trigger] matches_key(a.drop_first(), k) && matches_key(b, k);
            assert(matches_key(a, w));
            assert(matches_key(a, w) && matches_key(b, w));
        } else {
            lemma_intersects_witness(a, b.drop_first());
            let w = choose|k: Seq<Seq<char>>|
                concrete_key(k) && #[trigger] matches_key(a, k) && matches_key(b.drop_first(), k);
            if b[0] == dstar() {
                assert(matches_key(b, w));
                assert(matches_key(a, w) && matches_key(b, w));
            } else {
                let c = if b[0] == star() {
                    seq!['a']
                } else {
                    b[0]
                };
                let w2 = seq![c] + w;
                assert(w2.drop_first() =~= w);
                assert(concrete_key(w2)) by {
                    assert(c != star() && c != dstar()) by {
                        assert(star().len() == 1 && dstar().len() == 2);
                        assert(seq!['a'].len() == 1 && seq!['a'][0] == 'a');
                        assert(star()[0] == '*');
                    }
                    assert(forall|i: int| 1 <= i < w2.len() ==> (#[trigger] w2[i]) == w[i - 1]);
                }
                assert(matches_key(b, w2));
                assert(matches_key(a, w2));
                assert(matches_key(a, w2) && matches_key(b, w2));
            }
        }
    } else if b[0] == dstar() {
        if sp_intersects(a, b.drop_first()) {
            lemma_intersects_witness(a, b.drop_first());
            let w = choose|k: Seq<Seq<char>>|
                concrete_key(k) && #[trigger] matches_key(a, k) && matches_key(b.drop_first(), k);
            assert(matches_key(b, w));
            assert(matches_key(a, w) && matches_key(b, w));
        } else {
            lemma_intersects_witness(a.drop_first(), b);
            let w = choose|k: Seq<Seq<char>>|
                concrete_key(k) && #[trigger] matches_key(a.drop_first(), k) && matches_key(b, k);
            let c = if a[0] == star() {
                seq!['a']
            } else {
                a[0]
            };
            let w2 = seq![c] + w;
            assert(w2.drop_first() =~= w);
            assert(concrete_key(w2)) by {
                assert(c != star() && c != dstar()) by {
                    assert(star().len() == 1 && dstar().len() == 2);
                    assert(seq!['a'].len() == 1 && seq!['a'][0] == 'a');
                    assert(star()[0] == '*');
                }
                assert(forall|i: int| 1 <= i < w2.len() ==> (#[trigger] w2[i]) == w[i - 1]);
            }
            assert(matches_key(a, w2));
            assert(matches_key(b, w2));
            assert(matches_key(a, w2) && matches_key(b, w2));
        }
    } else {
        lemma_intersects_witness(a.drop_first(), b.drop_first());
        let w = choose|k: Seq<Seq<char>>|
            concrete_key(k) && #[trigger] matches_key(a.drop_first(), k) && matches_key(
                b.drop_first(),
                k,
            );
        let c = if a[0] == star() {
            if b[0] == star() {
                seq!['a']
            } else {
                b[0]
            }
        } else {
            a[0]
        };
        let w2 = seq![c] + w;
        assert(w2.drop_first() =~= w);
        assert(concrete_key(w2)) by {
            assert(c != star() && c != dstar()) by {
                assert(star().len() == 1 && dstar().len() == 2);
                assert(seq!['a'].len() == 1 && seq!['a'][0] == 'a');
                assert(star()[0] == '*');
            }
            assert(forall|i: int| 1 <= i < w2.len() ==> (#[trigger] w2[i]) == w[i - 1]);
        }
        assert(matches_key(a, w2));
        assert(matches_key(b, w2));
        assert(matches_key(a, w2) && matches_key(b, w2));
    }
}

/// Collapsing `**/**` to `**` does not change the matched keys.
proof fn lemma_matches_collapse(r: Seq<Seq<char>>, k: Seq<Seq<char>>)
    ensures
        matches_key(seq![dstar(), dstar()] + r, k) == matches_key(seq![dstar()] + r, k),
    decreases k.len(),
{
    let a = seq![dstar(), dstar()] + r;
    let b = seq![dstar()] + r;
    assert(a.drop_first() =~= b);
    assert(b.drop_first() =~= r);
    if k.len() > 0 {
        lemma_matches_collapse(r, k.drop_first());
    }
}

/// Swapping `**/*` to `*/**` does not change the matched keys: either way
/// the pattern consumes one chunk and then matches zero or more.
proof fn lemma_matches_swap(r: Seq<Seq<char>>, k: Seq<Seq<char>>)
    ensures
        matches_key(seq![dstar(), star()] + r, k) == (k.len() > 0 && matches_key(
            seq![dstar()] + r,
            k.drop_first(),
        )),
    decreases k.len(),
{
    let a = seq![dstar(), star()] + r;
    let b = seq![dstar()] + r;
    assert(a.drop_first() =~= seq![star()] + r);
    assert((seq![star()] + r).drop_first() =~= r);
    assert(b.drop_first() =~= r);
    assert(star() != dstar()) by {
        assert(star().len() == 1 && dstar().len() == 2);
    }
    assert(matches_key(a, k) == (matches_key(seq![star()] + r, k) || (k.len() > 0 && matches_key(
        a,
        k.drop_first(),
    ))));
    assert(matches_key(seq![star()] + r, k) == (k.len() > 0 && matches_key(r, k.drop_first())));
    if k.len() > 0 {
        let kt = k.drop_first();
        lemma_matches_swap(r, kt);
        assert(matches_key(b, kt) == (matches_key(r, kt) || (kt.len() > 0 && matches_key(
            b,
            kt.drop_first(),
        ))));
    }
}

/// Patterns with the same matched keys still agree after a `**` is put in
/// front of each.
proof fn lemma_matches_dstar_congruence(a: Seq<Seq<char>>, b: Seq<Seq<char>>, k: Seq<Seq<char>>)
    requires
        forall|k2: Seq<Seq<char>>| #[trigger] matches_key(a, k2) == matches_key(b, k2),
    ensures
        matches_key(seq![dstar()] + a, k) == matches_key(seq![dstar()] + b, k),
    decreases k.len(),
{
    let da = seq![dstar()] + a;
    let db = seq![dstar()] + b;
    assert(da.drop_first() =~= a);
    assert(db.drop_first() =~= b);
    assert(matches_key(a, k) == matches_key(b, k));
    if k.len() > 0 {
        lemma_matches_dstar_congruence(a, b, k.drop_first());
    }
}

/// Canonicalization preserves the matched key set: the canonical form is
/// just another spelling of the same pattern.
pub proof fn lemma_canon_preserves_matching(ks: Seq<Seq<char>>, k: Seq<Seq<char>>)
    ensures
        matches_key(canon(ks), k) == matches_key(ks, k),
    decreases ks.len(),
{
    if ks.len() == 0 {
    } else if ks[0] == dstar() && ks.len() > 1 && ks[1] == dstar() {
        let r = ks.skip(2);
        assert(ks =~= seq![dstar(), dstar()] + r);
        assert(ks.drop_first() =~= seq![dstar()] + r);
        lemma_matches_collapse(r, k);
        lemma_canon_preserves_matching(ks.drop_first(), k);
    } else if ks[0] == dstar() && ks.len() > 1 && ks[1] == star() {
        let r = ks.skip(2);
        let inner = seq![dstar()] + r;
        assert(ks =~= seq![dstar(), star()] + r);
        lemma_matches_swap(r, k);
        // the canonical form starts with `*`, then the canonicalized rest
        let cr = canon(inner);
        assert(canon(ks) == seq![star()] + cr);
        assert((seq![star()] + cr).drop_first() =~= cr);
        assert(star() != dstar()) by {
            assert(star().len() == 1 && dstar().len() == 2);
        }
        if k.len() > 0 {
            lemma_canon_preserves_matching(inner, k.drop_first());
        }
    } else {
        let rest = ks.drop_first();
        let cr = canon(rest);
        assert(canon(ks) == seq![ks[0]] + cr);
        assert((seq![ks[0]] + cr).drop_first() =~= cr);
        if ks[0] == dstar() {
            assert forall|k2: Seq<Seq<char>>| #[trigger] matches_key(cr, k2) == matches_key(
                rest,
                k2,
            ) by {
                lemma_canon_preserves_matching(rest, k2);
            }
            lemma_matches_dstar_congruence(cr, rest, k);
            assert(seq![ks[0]] + cr =~= seq![dstar()] + cr);
            assert(seq![ks[0]] + rest =~= seq![dstar()] + rest);
            assert(ks =~= seq![ks[0]] + rest);
        } else {
            lemma_canon_preserves_matching(rest, if k.len() > 0 {
                k.drop_first()
            } else {
                k
            });
        }
    }
}

/// Intersection is exactly the existence of a common concrete key.
pub proof fn lemma_intersects_characterization(a: Seq<Seq<char>>, b: Seq<Seq<char>>)
    ensures
        sp_intersects(a, b) <==> exists|k: Seq<Seq<char>>|
            concrete_key(k) && #[trigger] matches_key(a, k) && matches_key(b, k),
{
    if sp_intersects(a, b) {
        lemma_intersects_witness(a, b);
    }
    if exists|k: Seq<Seq<char>>|
        concrete_key(k) && #[trigger] matches_key(a, k) && matches_key(b, k) {
        let w = choose|k: Seq<Seq<char>>|
            concrete_key(k) && #[trigger] matches_key(a, k) && matches_key(b, k);
        lemma_intersects_complete(a, b, w);
    }
}

/// On wildcard-sorted patterns, mutual inclusion is exactly equality of the
/// chunk lists (and so, both being canonical, equality of the key sets).
pub proof fn lemma_includes_equality(a: Seq<Seq<char>>, b: Seq<Seq<char>>)
    requires
        wildcard_sorted(a),
        wildcard_sorted(b),
    ensures
        (sp_includes(a, b) && sp_includes(b, a)) <==> (a == b),
{
    if sp_includes(a, b) && sp_includes(b, a) {
        lemma_includes_antisym(a, b);
    }
    if a == b {
        lemma_includes_refl(a);
    }
}

/// Chunk equality as strings.
pub fn chunk_eq(x: &String, y: &String) -> (r: bool)
    ensures
        r == (x@ == y@),
{
    x.eq(y)
}

fn inter_at(a: &Vec<String>, b: &Vec<String>, i: usize, j: usize) -> (r: bool)
    requires
        i <= a.len(),
        j <= b.len(),
    ensures
        r == sp_intersects(views_of(a@).skip(i as int), views_of(b@).skip(j as int)),
    decreases a.len() - i + b.len() - j,
{
    let ghost av = views_of(a@).skip(i as int);
    let ghost bv = views_of(b@).skip(j as int);
    proof {
        if i < a.len() {
            assert(av[0] == views_of(a@)[i as int]);
            assert(av.drop_first() =~= views_of(a@).skip(i as int + 1));
        }
        if j < b.len() {
            assert(bv[0] == views_of(b@)[j as int]);
            assert(bv.drop_first() =~= views_of(b@).skip(j as int + 1));
        }
    }
    if i == a.len() && j == b.len() {
        true
    } else if i == a.len() {
        is_dstar_chunk(&b[j]) && inter_at(a, b, i, j + 1)
    } else if j == b.len() {
        is_dstar_chunk(&a[i]) && inter_at(a, b, i + 1, j)
    } else if is_dstar_chunk(&a[i]) {
        inter_at(a, b, i + 1, j) || inter_at(a, b, i, j + 1)
    } else if is_dstar_chunk(&b[j]) {
        inter_at(a, b, i, j + 1) || inter_at(a, b, i + 1, j)
    } else {
        (is_star_chunk(&a[i]) || is_star_chunk(&b[j]) || chunk_eq(&a[i], &b[j])) && inter_at(
            a,
            b,
            i + 1,
            j + 1,
        )
    }
}

/// Do the two chunk lists match at least one common concrete key?
pub fn chunks_intersect(a: &Vec<String>, b: &Vec<String>) -> (r: bool)
    ensures
        r == sp_intersects(views_of(a@), views_of(b@)),
{
    proof {
        assert(views_of(a@).skip(0) =~= views_of(a@));
        assert(views_of(b@).skip(0) =~= views_of(b@));
    }
    inter_at(a, b, 0, 0)
}

fn incl_at(a: &Vec<String>, b: &Vec<String>, i: usize, j: usize) -> (r: bool)
    requires
        i <= a.len(),
        j <= b.len(),
    ensures
        r == sp_includes(views_of(a@).skip(i as int), views_of(b@).skip(j as int)),
    decreases a.len() - i + b.len() - j,
{
    let ghost av = views_of(a@).skip(i as int);
    let ghost bv = views_of(b@).skip(j as int);
    proof {
        if i < a.len() {
            assert(av[0] == views_of(a@)[i as int]);
            assert(av.drop_first() =~= views_of(a@).skip(i as int + 1));
        }
        if j < b.len() {
            assert(bv[0] == views_of(b@)[j as int]);
            assert(bv.drop_first() =~= views_of(b@).skip(j as int + 1));
        }
    }
    if i == a.len() && j == b.len() {
        true
    } else if j == b.len() {
        is_dstar_chunk(&a[i]) && incl_at(a, b, i + 1, j)
    } else if i == a.len() {
        false
    } else if is_dstar_chunk(&a[i]) {
        incl_at(a, b, i + 1, j) || incl_at(a, b, i, j + 1)
    } else if is_dstar_chunk(&b[j]) {
        false
    } else if is_star_chunk(&a[i]) || chunk_eq(&a[i], &b[j]) {
        incl_at(a, b, i + 1, j + 1)
    } else {
        false
    }
}

/// Does the first chunk list match every concrete key the second matches?
pub fn chunks_include(a: &Vec<String>, b: &Vec<String>) -> (r: bool)
    ensures
        r == sp_includes(views_of(a@), views_of(b@)),
{
    proof {
        assert(views_of(a@).skip(0) =~= views_of(a@));
        assert(views_of(b@).skip(0) =~= views_of(b@));
    }
    incl_at(a, b, 0, 0)
}

} // verus!
