//! The key-expression grammar and its canonical form.
//!
//! A key expression is a non-empty `/`-delimited list of chunks.  Every chunk
//! is non-empty, contains none of the forbidden characters `?`, `#`, `$`, and
//! may contain two adjacent `*` characters only if the chunk is exactly the
//! multi-level wildcard `**`.  Canonical form additionally forbids a `**`
//! chunk from being directly followed by `*` or `**`, so that every set of
//! keys has exactly one string representative.

use vstd::prelude::*;
use vstd::string::StrSliceExecFns;
use vstd::string::StringExecFns;

verus! {

/// The chunk contents of a list of chunk strings.
pub open spec fn views_of(v: Seq<String>) -> Seq<Seq<char>> {
    Seq::new(v.len(), |i: int| v[i]@)
}

pub proof fn lemma_views_push(v: Seq<String>, x: String)
    ensures
        views_of(v.push(x)) == views_of(v).push(x@),
{
    assert(views_of(v.push(x)) =~= views_of(v).push(x@));
}

/// The single-level wildcard chunk, `*`.
pub open spec fn star() -> Seq<char> {
    seq!['*']
}

/// The multi-level wildcard chunk, `**`.
pub open spec fn dstar() -> Seq<char> {
    seq!['*', '*']
}

/// Characters that may never appear in a key expression.
pub open spec fn forbidden_char(c: char) -> bool {
    c == '?' || c == '#' || c == '$'
}

/// Two adjacent `*` characters occur somewhere in `c`.
pub open spec fn chunk_has_adjacent_stars(c: Seq<char>) -> bool {
    exists|i: int| 0 <= i && i + 1 < c.len() && (#[trigger] c[i]) == '*' && c[i + 1] == '*'
}

/// A chunk is grammatically acceptable: non-empty, free of forbidden
/// characters, and `**` occurs only as the whole chunk.  (Freedom from `/` is
/// guaranteed separately, by how chunks are produced.)
pub open spec fn chunk_ok(c: Seq<char>) -> bool {
    &&& c.len() > 0
    &&& forall|i: int| 0 <= i < c.len() ==> !forbidden_char(#[trigger] c[i])
    &&& (chunk_has_adjacent_stars(c) ==> c == dstar())
}

/// A fully valid chunk: acceptable and free of the separator.
pub open spec fn valid_chunk(c: Seq<char>) -> bool {
    &&& chunk_ok(c)
    &&& forall|i: int| 0 <= i < c.len() ==> #[trigger] c[i] != '/'
}

/// A well-formed chunk list: non-empty, every chunk valid.
pub open spec fn wf_chunks(ks: Seq<Seq<char>>) -> bool {
    &&& ks.len() > 0
    &&& forall|i: int| 0 <= i < ks.len() ==> valid_chunk(#[trigger] ks[i])
}

/// No `**` chunk is directly followed by `*` or `**`.
pub open spec fn wildcard_sorted(ks: Seq<Seq<char>>) -> bool {
    forall|i: int|
        0 <= i && i + 1 < ks.len() ==> !((#[trigger] ks[i]) == dstar() && (ks[i + 1] == dstar()
            || ks[i + 1] == star()))
}

/// Canonical form: well-formed, and no `**` chunk is directly followed by
/// `*` or `**`.
pub open spec fn canonical_chunks(ks: Seq<Seq<char>>) -> bool {
    &&& wf_chunks(ks)
    &&& wildcard_sorted(ks)
}

/// Splitting a character sequence on `/`.  The empty sequence yields one
/// empty chunk; every `/` ends the current chunk and starts a new one.
pub open spec fn split_slash(s: Seq<char>) -> Seq<Seq<char>>
    decreases s.len(),
{
    if s.len() == 0 {
        seq![Seq::<char>::empty()]
    } else if s.last() == '/' {
        split_slash(s.drop_last()).push(Seq::<char>::empty())
    } else {
        let r = split_slash(s.drop_last());
        r.update(r.len() - 1, r.last().push(s.last()))
    }
}

/// Joining chunks with `/`, the inverse of `split_slash` on chunk lists that
/// contain no separator.
pub open spec fn join_chunks(ks: Seq<Seq<char>>) -> Seq<char>
    decreases ks.len(),
{
    if ks.len() == 0 {
        Seq::<char>::empty()
    } else if ks.len() == 1 {
        ks[0]
    } else {
        ks[0] + seq!['/'] + join_chunks(ks.drop_first())
    }
}

/// No chunk of the list contains the separator.
pub open spec fn no_slash_chunks(ks: Seq<Seq<char>>) -> bool {
    forall|k: int, i: int| 0 <= k < ks.len() && 0 <= i < ks[k].len() ==> #[trigger] ks[k][i] != '/'
}

/// How the joined string of a multi-chunk list decomposes: the first chunk,
/// one separator, then the joined tail.
pub proof fn lemma_join_structure(p: Seq<Seq<char>>)
    requires
        p.len() > 1,
    ensures
        join_chunks(p).len() == p[0].len() + 1 + join_chunks(p.drop_first()).len(),
        forall|i: int| 0 <= i < p[0].len() ==> join_chunks(p)[i] == p[0][i],
        join_chunks(p)[p[0].len() as int] == '/',
        forall|i: int|
            p[0].len() + 1 <= i < join_chunks(p).len() ==> join_chunks(p)[i] == join_chunks(
                p.drop_first(),
            )[i - p[0].len() - 1],
{
    assert(join_chunks(p) == p[0] + seq!['/'] + join_chunks(p.drop_first()));
}

/// Joining is injective on chunk lists whose chunks are free of the
/// separator: the `/` positions of the joined string recover the split.
pub proof fn lemma_join_injective(p: Seq<Seq<char>>, q: Seq<Seq<char>>)
    requires
        p.len() > 0,
        q.len() > 0,
        no_slash_chunks(p),
        no_slash_chunks(q),
        join_chunks(p) == join_chunks(q),
    ensures
        p == q,
    decreases p.len(),
{
    if p.len() == 1 && q.len() == 1 {
        assert(p =~= q);
    } else if p.len() == 1 {
        lemma_join_structure(q);
        assert(join_chunks(p) == p[0]);
        assert(join_chunks(q)[q[0].len() as int] == '/');
        assert(q[0].len() < p[0].len());
        assert(p[0][q[0].len() as int] != '/');
        assert(false);
    } else if q.len() == 1 {
        lemma_join_structure(p);
        assert(join_chunks(q) == q[0]);
        assert(join_chunks(p)[p[0].len() as int] == '/');
        assert(p[0].len() < q[0].len());
        assert(q[0][p[0].len() as int] != '/');
        assert(false);
    } else {
        lemma_join_structure(p);
        lemma_join_structure(q);
        let a = p[0];
        let b = q[0];
        assert(a.len() == b.len()) by {
            if a.len() < b.len() {
                assert(join_chunks(q)[a.len() as int] == b[a.len() as int]);
                assert(join_chunks(p)[a.len() as int] == '/');
                assert(b[a.len() as int] != '/');
                assert(false);
            }
            if b.len() < a.len() {
                assert(join_chunks(p)[b.len() as int] == a[b.len() as int]);
                assert(join_chunks(q)[b.len() as int] == '/');
                assert(a[b.len() as int] != '/');
                assert(false);
            }
        }
        assert forall|i: int| 0 <= i < a.len() implies a[i] == b[i] by {
            assert(join_chunks(p)[i] == a[i]);
            assert(join_chunks(q)[i] == b[i]);
        }
        assert(a =~= b);
        let pr = p.drop_first();
        let qr = q.drop_first();
        assert(join_chunks(pr).len() == join_chunks(qr).len());
        assert forall|i: int| 0 <= i < join_chunks(pr).len() implies join_chunks(pr)[i]
            == join_chunks(qr)[i] by {
            assert(join_chunks(p)[i + a.len() + 1] == join_chunks(pr)[i]);
            assert(join_chunks(q)[i + b.len() + 1] == join_chunks(qr)[i]);
        }
        assert(join_chunks(pr) =~= join_chunks(qr));
        assert(forall|k: int| 0 <= k < pr.len() ==> (#[trigger] pr[k]) == p[k + 1]);
        assert(forall|k: int| 0 <= k < qr.len() ==> (#[trigger] qr[k]) == q[k + 1]);
        assert(no_slash_chunks(pr)) by {
            assert forall|k: int, i: int|
                0 <= k < pr.len() && 0 <= i < pr[k].len() implies (#[trigger] pr[k][i])
                != '/' by {
                assert(p[k + 1][i] != '/');
            }
        }
        assert(no_slash_chunks(qr)) by {
            assert forall|k: int, i: int|
                0 <= k < qr.len() && 0 <= i < qr[k].len() implies (#[trigger] qr[k][i])
                != '/' by {
                assert(q[k + 1][i] != '/');
            }
        }
        lemma_join_injective(pr, qr);
        assert forall|k: int| 0 <= k < p.len() implies p[k] == q[k] by {
            if k > 0 {
                assert(pr[k - 1] == p[k]);
                assert(qr[k - 1] == q[k]);
            }
        }
        assert(p =~= q);
    }
}

/// Two well-formed key expressions are equal as chunk lists exactly when
/// their string forms are identical: canonical-string equality and chunk
/// equality agree.
pub proof fn lemma_equals_is_string_equality(a: Seq<Seq<char>>, b: Seq<Seq<char>>)
    requires
        wf_chunks(a),
        wf_chunks(b),
    ensures
        (a == b) <==> (join_chunks(a) == join_chunks(b)),
{
    if join_chunks(a) == join_chunks(b) {
        assert(no_slash_chunks(a)) by {
            assert forall|k: int, i: int|
                0 <= k < a.len() && 0 <= i < a[k].len() implies (#[trigger] a[k][i]) != '/' by {
                assert(valid_chunk(a[k]));
            }
        }
        assert(no_slash_chunks(b)) by {
            assert forall|k: int, i: int|
                0 <= k < b.len() && 0 <= i < b[k].len() implies (#[trigger] b[k][i]) != '/' by {
                assert(valid_chunk(b[k]));
            }
        }
        lemma_join_injective(a, b);
    }
}

/// Appending separator-free text to a string extends its last chunk.
proof fn lemma_split_append_chunk(s: Seq<char>, c: Seq<char>)
    requires
        forall|i: int| 0 <= i < c.len() ==> #[trigger] c[i] != '/',
    ensures
        split_slash(s + c).len() == split_slash(s).len(),
        split_slash(s + c) == split_slash(s).update(
            split_slash(s).len() - 1,
            split_slash(s).last() + c,
        ),
    decreases c.len(),
{
    lemma_split_slash_len(s);
    if c.len() == 0 {
        assert(s + c =~= s);
        assert(split_slash(s).update(
            split_slash(s).len() - 1,
            split_slash(s).last() + c,
        ) =~= split_slash(s));
    } else {
        let c0 = c.drop_last();
        assert(forall|i: int| 0 <= i < c0.len() ==> #[trigger] c0[i] == c[i]);
        lemma_split_append_chunk(s, c0);
        assert((s + c).drop_last() =~= s + c0);
        assert((s + c).last() == c.last());
        assert(c.last() != '/');
        let sp = split_slash(s);
        let sp0 = split_slash(s + c0);
        assert(split_slash(s + c) == sp0.update(sp0.len() - 1, sp0.last().push(c.last())));
        assert(sp0.last() == sp.last() + c0);
        assert((sp.last() + c0).push(c.last()) =~= sp.last() + c);
        assert(sp0.update(sp0.len() - 1, sp0.last().push(c.last())) =~= sp.update(
            sp.len() - 1,
            sp.last() + c,
        ));
    }
}

/// Splitting undoes joining on separator-free chunk lists.
pub proof fn lemma_split_join_id(ks: Seq<Seq<char>>)
    requires
        ks.len() > 0,
        no_slash_chunks(ks),
    ensures
        split_slash(join_chunks(ks)) == ks,
    decreases ks.len(),
{
    if ks.len() == 1 {
        let c = ks[0];
        assert(forall|i: int| 0 <= i < c.len() ==> #[trigger] c[i] != '/');
        lemma_split_append_chunk(Seq::<char>::empty(), c);
        assert(Seq::<char>::empty() + c =~= c);
        assert(join_chunks(ks) == c);
        assert(split_slash(Seq::<char>::empty()) =~= seq![Seq::<char>::empty()]);
        assert(Seq::<char>::empty() + c =~= c);
        assert(split_slash(c) =~= seq![c]);
        assert(ks =~= seq![c]);
    } else {
        let ks0 = ks.drop_last();
        let c = ks.last();
        assert(forall|k: int| 0 <= k < ks0.len() ==> (#[trigger] ks0[k]) == ks[k]);
        assert(no_slash_chunks(ks0)) by {
            assert forall|k: int, i: int|
                0 <= k < ks0.len() && 0 <= i < ks0[k].len() implies (#[trigger] ks0[k][i])
                != '/' by {
                assert(ks[k][i] != '/');
            }
        }
        lemma_split_join_id(ks0);
        assert(ks0.push(c) =~= ks);
        crate::keyexpr::lemma_join_push(ks0, c);
        let j0 = join_chunks(ks0);
        assert(join_chunks(ks) == j0 + seq!['/'] + c);
        let js = j0 + seq!['/'];
        assert(js.drop_last() =~= j0);
        assert(js.last() == '/');
        assert(split_slash(js) == split_slash(j0).push(Seq::<char>::empty()));
        assert forall|i: int| 0 <= i < c.len() implies #[trigger] c[i] != '/' by {
            assert(ks[ks.len() - 1][i] != '/');
        }
        lemma_split_append_chunk(js, c);
        assert(js + c =~= join_chunks(ks));
        let spj = split_slash(js);
        assert(spj.last() == Seq::<char>::empty());
        assert(spj.last() + c =~= c);
        assert(split_slash(join_chunks(ks)) == spj.update(spj.len() - 1, spj.last() + c));
        assert(spj.update(spj.len() - 1, spj.last() + c) =~= split_slash(j0).push(c));
        assert(split_slash(j0).push(c) =~= ks);
    }
}

/// The canonicalizer is idempotent at the string level: splitting the
/// canonical string back into chunks reproduces the canonical chunk list,
/// and canonicalizing it again changes nothing.
pub proof fn lemma_canonical_string_reparse(ks: Seq<Seq<char>>)
    requires
        canonical_chunks(ks),
    ensures
        split_slash(join_chunks(ks)) == ks,
        canon(split_slash(join_chunks(ks))) == ks,
{
    assert(no_slash_chunks(ks)) by {
        assert forall|k: int, i: int|
            0 <= k < ks.len() && 0 <= i < ks[k].len() implies (#[trigger] ks[k][i]) != '/' by {
            assert(valid_chunk(ks[k]));
        }
    }
    lemma_split_join_id(ks);
    lemma_canon_identity(ks);
}

/// Validation-plus-canonicalization is idempotent end to end: running the
/// canonical string of a well-formed input back through splitting and
/// canonicalization yields the same chunk list.
pub proof fn lemma_validate_canonicalize_idempotent(s: Seq<char>)
    requires
        wf_chunks(split_slash(s)),
    ensures
        canon(split_slash(join_chunks(canon(split_slash(s))))) == canon(split_slash(s)),
{
    lemma_canon_canonical(split_slash(s));
    lemma_canonical_string_reparse(canon(split_slash(s)));
}

/// `split_slash` always yields at least one chunk.
pub proof fn lemma_split_slash_len(s: Seq<char>)
    ensures
        split_slash(s).len() >= 1,
    decreases s.len(),
{
    if s.len() > 0 {
        lemma_split_slash_len(s.drop_last());
    }
}

/// Chunks produced by `split_slash` never contain the separator.
pub proof fn lemma_split_slash_no_slash(s: Seq<char>)
    ensures
        forall|k: int, i: int|
            0 <= k < split_slash(s).len() && 0 <= i < split_slash(s)[k].len()
                ==> #[trigger] split_slash(s)[k][i] != '/',
    decreases s.len(),
{
    if s.len() > 0 {
        lemma_split_slash_no_slash(s.drop_last());
        lemma_split_slash_len(s.drop_last());
    }
}

/// Why a string failed grammar validation.
#[derive(Clone, Copy, Debug, PartialEq, Eq, Structural)]
pub enum GrammarError {
    /// A chunk was empty: the string was empty, began or ended with `/`, or
    /// contained `//`.
    EmptyChunk,
    /// One of the characters `?`, `#`, `$` appeared.
    ForbiddenChar,
    /// `**` appeared inside a larger chunk instead of standing alone.
    MisplacedDoubleStar,
}

/// The diagnosis for a single bad chunk.
pub open spec fn chunk_err(c: Seq<char>) -> GrammarError {
    if c.len() == 0 {
        GrammarError::EmptyChunk
    } else if exists|i: int| 0 <= i < c.len() && forbidden_char(#[trigger] c[i]) {
        GrammarError::ForbiddenChar
    } else {
        GrammarError::MisplacedDoubleStar
    }
}

/// Every chunk of the list is acceptable.
pub open spec fn all_chunks_ok(ks: Seq<Seq<char>>) -> bool {
    forall|k: int| 0 <= k < ks.len() ==> chunk_ok(#[trigger] ks[k])
}

/// The diagnosis for the leftmost bad chunk of the list.
pub open spec fn first_err(ks: Seq<Seq<char>>) -> GrammarError
    decreases ks.len(),
{
    if ks.len() == 0 {
        GrammarError::EmptyChunk
    } else if !chunk_ok(ks[0]) {
        chunk_err(ks[0])
    } else {
        first_err(ks.drop_first())
    }
}

/// The canonicalizer on chunk lists.  A `**` followed by another `**`
/// collapses into one; a `**` followed by `*` swaps, so that in every maximal
/// run of wildcard chunks the single-level wildcards come first and at most
/// one `**` remains, at the end of the run.
pub open spec fn canon(ks: Seq<Seq<char>>) -> Seq<Seq<char>>
    decreases ks.len(),
{
    if ks.len() == 0 {
        ks
    } else if ks[0] == dstar() && ks.len() > 1 && ks[1] == dstar() {
        canon(ks.drop_first())
    } else if ks[0] == dstar() && ks.len() > 1 && ks[1] == star() {
        seq![star()] + canon(seq![dstar()] + ks.skip(2))
    } else {
        seq![ks[0]] + canon(ks.drop_first())
    }
}

/// The canonical form of a non-empty list is non-empty, and its first chunk
/// is the original first chunk, except that a leading `**` may have turned
/// into `*`.
pub proof fn lemma_canon_head(ks: Seq<Seq<char>>)
    requires
        ks.len() > 0,
    ensures
        canon(ks).len() > 0,
        canon(ks)[0] == ks[0] || (ks[0] == dstar() && canon(ks)[0] == star()),
    decreases ks.len(),
{
    if ks[0] == dstar() && ks.len() > 1 && ks[1] == dstar() {
        lemma_canon_head(ks.drop_first());
    } else if ks[0] == dstar() && ks.len() > 1 && ks[1] == star() {
    } else if ks.len() > 1 {
        lemma_canon_head(ks.drop_first());
    }
}

/// Canonicalizing a well-formed chunk list yields a canonical one.
pub proof fn lemma_canon_canonical(ks: Seq<Seq<char>>)
    requires
        wf_chunks(ks),
    ensures
        canonical_chunks(canon(ks)),
    decreases ks.len(),
{
    assert(valid_chunk(star())) by {
        assert(!chunk_has_adjacent_stars(star()));
    }
    assert(valid_chunk(dstar()));
    if ks[0] == dstar() && ks.len() > 1 && ks[1] == dstar() {
        assert(wf_chunks(ks.drop_first()));
        lemma_canon_canonical(ks.drop_first());
    } else if ks[0] == dstar() && ks.len() > 1 && ks[1] == star() {
        let inner = seq![dstar()] + ks.skip(2);
        assert(wf_chunks(inner)) by {
            assert(forall|i: int|
                0 <= i < inner.len() ==> valid_chunk(#[trigger] inner[i])) by {
                assert(forall|i: int|
                    1 <= i < inner.len() ==> inner[i] == ks[i + 1]);
            }
        }
        lemma_canon_canonical(inner);
        lemma_canon_head(inner);
        let r = seq![star()] + canon(inner);
        assert(canon(ks) == r);
        assert(r[0] == star());
        assert(forall|i: int|
            0 <= i && i + 1 < r.len() ==> !((#[trigger] r[i]) == dstar() && (r[i + 1] == dstar()
                || r[i + 1] == star()))) by {
            assert(forall|i: int| 1 <= i < r.len() ==> r[i] == canon(inner)[i - 1]);
            assert(r[0] != dstar()) by {
                assert(star().len() == 1 && dstar().len() == 2);
            }
        }
    } else {
        let rest = ks.drop_first();
        let r = seq![ks[0]] + canon(rest);
        assert(canon(ks) == r);
        if ks.len() > 1 {
            assert(wf_chunks(rest));
            lemma_canon_canonical(rest);
            lemma_canon_head(rest);
            // the pair at the seam (r[0], r[1]) is never a forbidden pair
            assert(!(r[0] == dstar() && (r[1] == dstar() || r[1] == star()))) by {
                if ks[0] == dstar() {
                    assert(rest[0] == ks[1]);
                    assert(ks[1] != dstar() && ks[1] != star());
                    assert(r[1] == canon(rest)[0]);
                    assert(star().len() == 1 && dstar().len() == 2);
                }
            }
            assert(forall|i: int|
                0 <= i && i + 1 < r.len() ==> !((#[trigger] r[i]) == dstar() && (r[i + 1]
                    == dstar() || r[i + 1] == star()))) by {
                assert(forall|i: int| 1 <= i < r.len() ==> r[i] == canon(rest)[i - 1]);
            }
        } else {
            assert(canon(rest) =~= Seq::<Seq<char>>::empty());
            assert(r =~= seq![ks[0]]);
        }
    }
}

/// Canonicalization does not change a list that is already canonical.
pub proof fn lemma_canon_identity(ks: Seq<Seq<char>>)
    requires
        canonical_chunks(ks),
    ensures
        canon(ks) == ks,
    decreases ks.len(),
{
    assert(!(ks[0] == dstar() && ks.len() > 1 && (ks[1] == dstar() || ks[1] == star())));
    let rest = ks.drop_first();
    if ks.len() > 1 {
        assert(canonical_chunks(rest)) by {
            assert(forall|i: int| 0 <= i < rest.len() ==> rest[i] == ks[i + 1]);
        }
        lemma_canon_identity(rest);
        assert(seq![ks[0]] + rest =~= ks);
    } else {
        assert(canon(rest) =~= Seq::<Seq<char>>::empty());
        assert(seq![ks[0]] + canon(rest) =~= ks);
    }
}

/// Canonicalization is idempotent: canonicalizing the canonical form of a
/// well-formed key expression changes nothing.
pub proof fn lemma_canon_idempotent(ks: Seq<Seq<char>>)
    requires
        wf_chunks(ks),
    ensures
        canon(canon(ks)) == canon(ks),
{
    lemma_canon_canonical(ks);
    lemma_canon_identity(canon(ks));
}

/// A chunk string holding exactly `*`.
pub fn star_string() -> (r: String)
    ensures
        r@ == star(),
{
    let r = String::from_str("*");
    proof {
        reveal_strlit("*");
        assert(r@ =~= star());
    }
    r
}

/// A chunk string holding exactly `**`.
pub fn dstar_string() -> (r: String)
    ensures
        r@ == dstar(),
{
    let r = String::from_str("**");
    proof {
        reveal_strlit("**");
        assert(r@ =~= dstar());
    }
    r
}

/// Does this chunk consist of the single-level wildcard alone?
pub fn is_star_chunk(c: &String) -> (r: bool)
    ensures
        r == (c@ == star()),
{
    let s = c.as_str();
    if s.unicode_len() == 1 {
        let r = s.get_char(0) == '*';
        proof {
            if r {
                assert(c@ =~= star());
            } else {
                assert(c@ != star());
            }
        }
        r
    } else {
        proof {
            assert(c@ != star()) by {
                assert(star().len() == 1);
            }
        }
        false
    }
}

/// Does this chunk consist of the multi-level wildcard alone?
pub fn is_dstar_chunk(c: &String) -> (r: bool)
    ensures
        r == (c@ == dstar()),
{
    let s = c.as_str();
    if s.unicode_len() == 2 {
        let r = s.get_char(0) == '*' && s.get_char(1) == '*';
        proof {
            if r {
                assert(c@ =~= dstar());
            } else {
                assert(c@ != dstar());
            }
        }
        r
    } else {
        proof {
            assert(c@ != dstar()) by {
                assert(dstar().len() == 2);
            }
        }
        false
    }
}

/// Splits a string into its `/`-delimited chunks.
pub fn split_str(s: &str) -> (r: Vec<String>)
    ensures
        views_of(r@) == split_slash(s@),
{
    let n = s.unicode_len();
    let mut r: Vec<String> = Vec::new();
    let mut start: usize = 0;
    let mut i: usize = 0;
    proof {
        assert(s@.take(0) =~= Seq::<char>::empty());
        assert(views_of(r@).push(s@.subrange(0, 0)) =~= split_slash(s@.take(0)));
    }
    while i < n
        invariant
            start <= i <= n,
            n == s@.len(),
            views_of(r@).push(s@.subrange(start as int, i as int)) == split_slash(
                s@.take(i as int),
            ),
        decreases n - i,
    {
        let ghost pre = s@.take(i as int);
        let ghost post = s@.take((i + 1) as int);
        proof {
            assert(post.drop_last() =~= pre);
            assert(post.last() == s@[i as int]);
        }
        let c = s.get_char(i);
        if c == '/' {
            let ghost rv0 = r@;
            let piece = String::from_str(s.substring_char(start, i));
            r.push(piece);
            proof {
                lemma_views_push(rv0, piece);
                assert(split_slash(post) == split_slash(pre).push(Seq::<char>::empty()));
                assert(s@.subrange((i + 1) as int, (i + 1) as int) =~= Seq::<char>::empty());
                assert(views_of(r@).push(s@.subrange((i + 1) as int, (i + 1) as int))
                    =~= split_slash(post));
            }
            start = i + 1;
        } else {
            proof {
                let v0 = views_of(r@);
                let p0 = s@.subrange(start as int, i as int);
                let sp = split_slash(pre);
                assert(sp == v0.push(p0));
                assert(sp.len() == v0.len() + 1);
                assert(sp.last() == p0);
                assert(split_slash(post) == sp.update(sp.len() - 1, p0.push(s@[i as int])));
                assert(p0.push(s@[i as int]) =~= s@.subrange(start as int, (i + 1) as int));
                assert(sp.update(sp.len() - 1, p0.push(s@[i as int])) =~= v0.push(
                    s@.subrange(start as int, (i + 1) as int),
                ));
            }
        }
        i = i + 1;
    }
    let ghost rv0 = r@;
    let piece = String::from_str(s.substring_char(start, n));
    r.push(piece);
    proof {
        lemma_views_push(rv0, piece);
        assert(s@.take(n as int) =~= s@);
        assert(views_of(r@) =~= views_of(rv0).push(piece@));
    }
    r
}

/// Checks one chunk against the grammar, reporting the diagnosis of the
/// first violation found.
pub fn chunk_check(c: &String) -> (r: Option<GrammarError>)
    ensures
        r is None <==> chunk_ok(c@),
        r matches Some(e) ==> e == chunk_err(c@),
{
    let s = c.as_str();
    let n = s.unicode_len();
    if n == 0 {
        return Some(GrammarError::EmptyChunk);
    }
    let mut i: usize = 0;
    while i < n
        invariant
            i <= n,
            n == c@.len(),
            s@ == c@,
            forall|j: int| 0 <= j < i ==> !forbidden_char(#[trigger] c@[j]),
        decreases n - i,
    {
        let ch = s.get_char(i);
        if ch == '?' || ch == '#' || ch == '$' {
            return Some(GrammarError::ForbiddenChar);
        }
        i = i + 1;
    }
    let mut i: usize = 0;
    while i < n - 1
        invariant
            1 <= n,
            i <= n,
            n == c@.len(),
            s@ == c@,
            forall|j: int| 0 <= j < c@.len() ==> !forbidden_char(#[trigger] c@[j]),
            forall|j: int| 0 <= j < i ==> !((#[trigger] c@[j]) == '*' && c@[j + 1] == '*'),
        decreases n - i,
    {
        if s.get_char(i) == '*' && s.get_char(i + 1) == '*' {
            if n == 2 {
                proof {
                    assert(c@ =~= dstar());
                }
                return None;
            } else {
                proof {
                    assert(chunk_has_adjacent_stars(c@));
                    assert(c@ != dstar()) by {
                        assert(dstar().len() == 2);
                    }
                }
                return Some(GrammarError::MisplacedDoubleStar);
            }
        }
        i = i + 1;
    }
    proof {
        assert(!chunk_has_adjacent_stars(c@)) by {
            assert(forall|j: int|
                0 <= j && j + 1 < c@.len() ==> !((#[trigger] c@[j]) == '*' && c@[j + 1] == '*'));
        }
    }
    None
}

/// Checks every chunk of a list, reporting the diagnosis of the leftmost bad
/// chunk.
pub fn chunks_check(v: &Vec<String>) -> (r: Option<GrammarError>)
    ensures
        r is None <==> all_chunks_ok(views_of(v@)),
        r matches Some(e) ==> !all_chunks_ok(views_of(v@)) && e == first_err(views_of(v@)),
{
    let ghost vs = views_of(v@);
    let mut k: usize = 0;
    proof {
        assert(vs.skip(0) =~= vs);
    }
    while k < v.len()
        invariant
            k <= v.len(),
            vs == views_of(v@),
            forall|j: int| 0 <= j < k ==> chunk_ok(#[trigger] vs[j]),
            first_err(vs) == first_err(vs.skip(k as int)),
        decreases v.len() - k,
    {
        let r = chunk_check(&v[k]);
        match r {
            Some(e) => {
                proof {
                    assert(vs.skip(k as int)[0] == vs[k as int]);
                    assert(!all_chunks_ok(vs));
                }
                return Some(e);
            },
            None => {
                proof {
                    assert(vs.skip(k as int)[0] == vs[k as int]);
                    assert(vs.skip(k as int).drop_first() =~= vs.skip(k as int + 1));
                }
            },
        }
        k = k + 1;
    }
    None
}

/// The chunk list still to be canonicalized when the walk stands at `i`,
/// with `pending` recording that a `**` has been read but not yet emitted.
pub open spec fn pending_chunks(vs: Seq<Seq<char>>, i: int, pending: bool) -> Seq<Seq<char>> {
    if pending {
        seq![dstar()] + vs.skip(i)
    } else {
        vs.skip(i)
    }
}

fn canonize_at(v: &Vec<String>, i: usize, pending: bool, out: &mut Vec<String>)
    requires
        i <= v.len(),
    ensures
        views_of(final(out)@) == views_of(old(out)@) + canon(
            pending_chunks(views_of(v@), i as int, pending),
        ),
    decreases v.len() - i + (if pending { 1int } else { 0int }),
{
    let ghost vs = views_of(v@);
    let ghost cur = pending_chunks(vs, i as int, pending);
    let ghost o0 = out@;
    if pending {
        if i == v.len() {
            proof {
                assert(vs.skip(i as int) =~= Seq::<Seq<char>>::empty());
                assert(cur =~= seq![dstar()]);
                assert(cur.drop_first() =~= Seq::<Seq<char>>::empty());
                assert(cur.len() == 1 && cur[0] == dstar());
                assert(canon(cur) == seq![cur[0]] + canon(cur.drop_first()));
                assert(canon(cur.drop_first()) == cur.drop_first());
                assert(canon(cur) =~= seq![dstar()]);
            }
            let piece = dstar_string();
            out.push(piece);
            proof {
                lemma_views_push(o0, piece);
                assert(views_of(out@) =~= views_of(o0) + canon(cur));
            }
        } else if is_dstar_chunk(&v[i]) {
            proof {
                assert(cur[0] == dstar());
                assert(cur[1] == vs[i as int]);
                assert(cur.drop_first() =~= vs.skip(i as int));
                assert(vs.skip(i as int) =~= seq![dstar()] + vs.skip(i as int + 1));
                assert(canon(cur) == canon(pending_chunks(vs, i as int + 1, true)));
            }
            canonize_at(v, i + 1, true, out);
        } else if is_star_chunk(&v[i]) {
            proof {
                assert(cur[0] == dstar());
                assert(cur[1] == vs[i as int]);
                assert(cur.skip(2) =~= vs.skip(i as int + 1));
                assert(canon(cur) == seq![star()] + canon(
                    pending_chunks(vs, i as int + 1, true),
                ));
            }
            let piece = star_string();
            out.push(piece);
            proof {
                lemma_views_push(o0, piece);
            }
            let ghost o1 = out@;
            canonize_at(v, i + 1, true, out);
            proof {
                assert(views_of(out@) =~= views_of(o0) + canon(cur));
            }
        } else {
            proof {
                assert(cur[0] == dstar());
                assert(cur.len() > 1 && cur[1] == vs[i as int]);
                assert(cur[1] != dstar() && cur[1] != star());
                assert(cur.drop_first() =~= vs.skip(i as int));
                assert(canon(cur) == seq![dstar()] + canon(
                    pending_chunks(vs, i as int, false),
                ));
            }
            let piece = dstar_string();
            out.push(piece);
            proof {
                lemma_views_push(o0, piece);
            }
            canonize_at(v, i, false, out);
            proof {
                assert(views_of(out@) =~= views_of(o0) + canon(cur));
            }
        }
    } else {
        if i == v.len() {
            proof {
                assert(cur =~= Seq::<Seq<char>>::empty());
                assert(canon(cur) =~= Seq::<Seq<char>>::empty());
                assert(views_of(out@) =~= views_of(o0) + canon(cur));
            }
        } else if is_dstar_chunk(&v[i]) {
            proof {
                assert(cur[0] == vs[i as int]);
            }
            if i + 1 < v.len() && is_dstar_chunk(&v[i + 1]) {
                proof {
                    assert(cur[1] == vs[i as int + 1]);
                    assert(cur.drop_first() =~= vs.skip(i as int + 1));
                    assert(canon(cur) == canon(pending_chunks(vs, i as int + 1, false)));
                }
                canonize_at(v, i + 1, false, out);
            } else if i + 1 < v.len() && is_star_chunk(&v[i + 1]) {
                proof {
                    assert(cur[1] == vs[i as int + 1]);
                    assert(cur.skip(2) =~= vs.skip(i as int + 2));
                    assert(canon(cur) == seq![star()] + canon(
                        pending_chunks(vs, i as int + 2, true),
                    ));
                }
                let piece = star_string();
                out.push(piece);
                proof {
                    lemma_views_push(o0, piece);
                }
                canonize_at(v, i + 2, true, out);
                proof {
                    assert(views_of(out@) =~= views_of(o0) + canon(cur));
                }
            } else {
                proof {
                    if cur.len() > 1 {
                        assert(cur[1] == vs[i as int + 1]);
                    }
                    assert(cur.drop_first() =~= vs.skip(i as int + 1));
                    assert(canon(cur) == seq![cur[0]] + canon(
                        pending_chunks(vs, i as int + 1, false),
                    ));
                }
                let piece = dstar_string();
                out.push(piece);
                proof {
                    lemma_views_push(o0, piece);
                }
                canonize_at(v, i + 1, false, out);
                proof {
                    assert(views_of(out@) =~= views_of(o0) + canon(cur));
                }
            }
        } else {
            proof {
                if cur.len() > 1 {
                    assert(cur[1] == vs[i as int + 1]);
                }
                assert(cur.drop_first() =~= vs.skip(i as int + 1));
                assert(canon(cur) == seq![cur[0]] + canon(
                    pending_chunks(vs, i as int + 1, false),
                ));
            }
            let piece = v[i].clone();
            out.push(piece);
            proof {
                lemma_views_push(o0, piece);
                assert(piece@ == cur[0]);
            }
            canonize_at(v, i + 1, false, out);
            proof {
                assert(views_of(out@) =~= views_of(o0) + canon(cur));
            }
        }
    }
}

/// Canonicalizes a chunk list.
pub fn canonize(v: &Vec<String>) -> (r: Vec<String>)
    ensures
        views_of(r@) == canon(views_of(v@)),
{
    let mut out: Vec<String> = Vec::new();
    proof {
        assert(views_of(v@).skip(0) =~= views_of(v@));
        assert(views_of(out@) =~= Seq::<Seq<char>>::empty());
    }
    canonize_at(v, 0, false, &mut out);
    proof {
        assert(views_of(out@) =~= canon(views_of(v@)));
    }
    out
}

} // verus!
