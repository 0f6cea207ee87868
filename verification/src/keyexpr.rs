//! The checked key-expression type.
//!
//! A `KeyExpr` holds the chunk list of a key expression in canonical form,
//! together with the numeric alias a session may have assigned to it.  The
//! validating constructor splits, checks and canonicalizes its input; the
//! unchecked constructor trusts the caller's claim that the input is already
//! canonical.

use crate::grammar::all_chunks_ok;
use crate::grammar::canon;
use crate::grammar::canonical_chunks;
use crate::grammar::canonize;
use crate::grammar::chunk_ok;
use crate::grammar::chunks_check;
use crate::grammar::first_err;
use crate::grammar::GrammarError;
use crate::grammar::join_chunks;
use crate::grammar::lemma_canon_canonical;
use crate::grammar::lemma_split_slash_len;
use crate::grammar::lemma_split_slash_no_slash;
use crate::grammar::lemma_views_push;
use crate::grammar::split_slash;
use crate::grammar::split_str;
use crate::grammar::valid_chunk;
use crate::grammar::views_of;
use crate::grammar::wf_chunks;
use crate::matching::chunk_eq;
use vstd::prelude::*;
use vstd::string::StrSliceExecFns;
use vstd::string::StringExecFns;

verus! {

/// A key expression in canonical form, optionally carrying the numeric
/// alias a session assigned to it.
#[derive(Debug)]
pub struct KeyExpr {
    chunks: Vec<String>,
    alias: Option<u64>,
}

impl View for KeyExpr {
    type V = Seq<Seq<char>>;

    closed spec fn view(&self) -> Seq<Seq<char>> {
        views_of(self.chunks@)
    }
}

impl KeyExpr {
    /// The canonical-form invariant every constructor establishes.
    pub open spec fn wf(&self) -> bool {
        canonical_chunks(self@)
    }

    /// The numeric alias, if a session assigned one.
    pub closed spec fn spec_alias(&self) -> Option<u64> {
        self.alias
    }

    /// Validates `s` against the grammar and canonicalizes it.
    pub fn new(s: &str) -> (r: Result<KeyExpr, GrammarError>)
        ensures
            match r {
                Ok(k) => all_chunks_ok(split_slash(s@)) && k@ == canon(split_slash(s@)) && k.wf()
                    && k.spec_alias() is None,
                Err(e) => !all_chunks_ok(split_slash(s@)) && e == first_err(split_slash(s@)),
            },
    {
        let chunks = split_str(s);
        match chunks_check(&chunks) {
            Some(e) => Err(e),
            None => {
                let ghost vs = views_of(chunks@);
                proof {
                    lemma_split_slash_len(s@);
                    lemma_split_slash_no_slash(s@);
                    assert forall|k: int| 0 <= k < vs.len() implies valid_chunk(
                        #[trigger] vs[k],
                    ) by {
                        assert(chunk_ok(vs[k]));
                        assert forall|i: int| 0 <= i < vs[k].len() implies vs[k][i] != '/' by {
                            assert(split_slash(s@)[k][i] != '/');
                        }
                    }
                    assert(wf_chunks(vs));
                    lemma_canon_canonical(vs);
                }
                let c = canonize(&chunks);
                Ok(KeyExpr { chunks: c, alias: None })
            },
        }
    }

    /// Builds a key expression from a string asserted by the caller to be
    /// grammar-valid and canonical already; nothing is checked.
    pub fn new_unchecked(s: &str) -> (r: KeyExpr)
        requires
            canonical_chunks(split_slash(s@)),
        ensures
            r@ == split_slash(s@),
            r.wf(),
            r.spec_alias() is None,
    {
        KeyExpr { chunks: split_str(s), alias: None }
    }

    /// The chunk list.
    pub fn chunks_ref(&self) -> (r: &Vec<String>)
        ensures
            views_of(r@) == self@,
    {
        &self.chunks
    }

    /// The assigned numeric alias, if any.
    pub fn alias_id(&self) -> (r: Option<u64>)
        ensures
            r == self.spec_alias(),
    {
        self.alias
    }

    /// The same key expression carrying a session-assigned alias.
    pub fn with_alias(self, id: u64) -> (r: KeyExpr)
        ensures
            r@ == self@,
            r.spec_alias() == Some(id),
    {
        KeyExpr { chunks: self.chunks, alias: Some(id) }
    }

    /// Chunk-by-chunk equality: because both sides are canonical, this is
    /// semantic equality of the matched key sets.
    pub fn key_equals(&self, other: &KeyExpr) -> (r: bool)
        ensures
            r == (self@ == other@),
    {
        if self.chunks.len() != other.chunks.len() {
            proof {
                assert(self@.len() != other@.len());
            }
            return false;
        }
        let mut i: usize = 0;
        while i < self.chunks.len()
            invariant
                i <= self.chunks.len(),
                self.chunks.len() == other.chunks.len(),
                forall|j: int| 0 <= j < i ==> #[trigger] self@[j] == other@[j],
            decreases self.chunks.len() - i,
        {
            if !chunk_eq(&self.chunks[i], &other.chunks[i]) {
                proof {
                    assert(self@[i as int] != other@[i as int]);
                }
                return false;
            }
            i = i + 1;
        }
        proof {
            assert(self@ =~= other@);
        }
        true
    }

    /// The canonical string form, chunks joined by `/`.
    pub fn to_text(&self) -> (r: String)
        ensures
            r@ == join_chunks(self@),
    {
        let mut r = String::new();
        let mut i: usize = 0;
        proof {
            assert(self@.take(0) =~= Seq::<Seq<char>>::empty());
        }
        while i < self.chunks.len()
            invariant
                i <= self.chunks.len(),
                r@ == join_chunks(self@.take(i as int)),
            decreases self.chunks.len() - i,
        {
            proof {
                reveal_strlit("/");
                assert("/"@ =~= seq!['/']);
            }
            if i > 0 {
                r.append("/");
            }
            r.append(self.chunks[i].as_str());
            proof {
                lemma_join_push(self@.take(i as int), self@[i as int]);
                assert(self@.take((i + 1) as int) =~= self@.take(i as int).push(
                    self@[i as int],
                ));
            }
            i = i + 1;
        }
        proof {
            assert(self@.take(self.chunks@.len() as int) =~= self@);
        }
        r
    }
}

impl Clone for KeyExpr {
    /// A clone carries the same chunks and the same alias.
    fn clone(&self) -> (r: Self)
        ensures
            r@ == self@,
            r.spec_alias() == self.spec_alias(),
    {
        let mut c: Vec<String> = Vec::new();
        let mut i: usize = 0;
        proof {
            assert(views_of(c@) =~= views_of(self.chunks@).take(0));
        }
        while i < self.chunks.len()
            invariant
                i <= self.chunks.len(),
                views_of(c@) == views_of(self.chunks@).take(i as int),
            decreases self.chunks.len() - i,
        {
            let ghost c0 = c@;
            let piece = self.chunks[i].clone();
            c.push(piece);
            proof {
                lemma_views_push(c0, piece);
                assert(views_of(c@) =~= views_of(self.chunks@).take((i + 1) as int));
            }
            i = i + 1;
        }
        proof {
            assert(views_of(self.chunks@).take(self.chunks@.len() as int) =~= views_of(
                self.chunks@,
            ));
        }
        KeyExpr { chunks: c, alias: self.alias }
    }
}

/// Appending one more chunk extends the joined string by a separator and the
/// chunk (the separator only when chunks were already present).
pub proof fn lemma_join_push(p: Seq<Seq<char>>, c: Seq<char>)
    ensures
        join_chunks(p.push(c)) == if p.len() == 0 {
            c
        } else {
            join_chunks(p) + seq!['/'] + c
        },
    decreases p.len(),
{
    let pc = p.push(c);
    if p.len() == 0 {
        assert(pc.len() == 1);
        assert(pc[0] == c);
    } else if p.len() == 1 {
        assert(pc.len() == 2);
        assert(pc.drop_first() =~= seq![c]);
        assert(join_chunks(seq![c]) == c);
        assert(pc[0] == p[0] && join_chunks(p) == p[0]);
    } else {
        assert(pc.drop_first() =~= p.drop_first().push(c));
        lemma_join_push(p.drop_first(), c);
        assert(join_chunks(pc) =~= join_chunks(p) + seq!['/'] + c);
    }
}

} // verus!
