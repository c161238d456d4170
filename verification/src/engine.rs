//! The full-text search engine's state and its lifecycle operations.
//!
//! The engine owns an inverted index held in the two store tables: a record
//! per indexed document and a posting list per token, kept consistent in
//! both directions — a document is listed under a token exactly when its
//! record gives that token a positive count. A document counter always
//! equals the number of indexed documents.

use crate::errors::SearchError;
use crate::record::{count_of, keys_of, lemma_tf_positive_iff, FreqRecord};
use crate::store::{
    doc_ids_of, doc_tf, doc_total, docs_wf, find_doc, find_posting, has_doc, lemma_doc_absent, lemma_doc_at,
    lemma_doc_push, lemma_doc_remove, lemma_doc_update, lemma_has_doc_iff,
    lemma_remove_keeps_no_dup, post_has, posting_insert, posting_remove, posts_wf, DocEntry,
    Posting,
};
use crate::tokenizer::{prepared_of, refine_segments, Tokenizer};
use vstd::prelude::*;

verus! {

/// The search engine: a pluggable tokenizer over an in-memory inverted
/// index. Every mutation keeps the record and posting tables consistent.
pub struct FullTextSearch<T: Tokenizer> {
    tokenizer: T,
    records: Vec<DocEntry>,
    postings: Vec<Posting>,
    count: u64,
}

impl<T: Tokenizer> FullTextSearch<T> {
    /// Both tables are well-formed, the counter equals the number of
    /// indexed documents, and a document is listed under a token exactly
    /// when its record counts that token.
    pub closed spec fn wf(self) -> bool {
        &&& docs_wf(self.records@)
        &&& posts_wf(self.postings@)
        &&& self.count as int == self.records@.len()
        &&& forall|t: Seq<char>, id: i64|
            #![trigger post_has(self.postings@, t, id)]
            #![trigger doc_tf(self.records@, id, t)]
            post_has(self.postings@, t, id) <==> doc_tf(self.records@, id, t) > 0
    }

    /// Whether document `id` is currently indexed.
    pub closed spec fn spec_indexed(&self, id: i64) -> bool {
        has_doc(self.records@, id)
    }

    /// Document `id`'s recorded frequency of token `t` (0 when `id` is not
    /// indexed or does not contain `t`).
    pub closed spec fn spec_tf(&self, id: i64, t: Seq<char>) -> int {
        doc_tf(self.records@, id, t)
    }

    /// The sum of document `id`'s term counts (0 when not indexed).
    pub closed spec fn spec_total_terms(&self, id: i64) -> int {
        doc_total(self.records@, id)
    }

    /// The number of indexed documents.
    pub closed spec fn spec_doc_count(&self) -> int {
        self.records@.len() as int
    }

    /// The index terms this engine's tokenizer produces for a text.
    pub closed spec fn spec_tokens(&self, text: Seq<char>) -> Seq<Seq<char>> {
        refine_segments(self.tokenizer.spec_segments(prepared_of(text)))
    }

    /// The posting set of token `t`: the ids of the indexed documents that
    /// contain it.
    pub open spec fn posting_set(&self, t: Seq<char>) -> Set<i64> {
        Set::new(|id: i64| self.spec_tf(id, t) > 0)
    }

    /// A document that is not indexed has no term frequencies and no
    /// terms at all.
    pub proof fn lemma_unindexed_tf_zero(&self, id: i64)
        requires
            !self.spec_indexed(id),
        ensures
            forall|t: Seq<char>| #[trigger] self.spec_tf(id, t) == 0,
            self.spec_total_terms(id) == 0,
    {
        assert forall|t: Seq<char>| #[trigger] self.spec_tf(id, t) == 0 by {
            crate::store::lemma_missing_doc_empty(self.records@, id, t);
        }
        crate::store::lemma_missing_doc_empty(self.records@, id, Seq::<char>::empty());
    }

    /// A fresh engine: nothing is indexed and the counter is zero.
    pub fn new(tokenizer: T) -> (r: Self)
        ensures
            r.wf(),
            r.spec_doc_count() == 0,
            forall|id: i64| !(#[trigger] r.spec_indexed(id)),
            forall|id: i64, t: Seq<char>| #[trigger] r.spec_tf(id, t) == 0,
            forall|text: Seq<char>| #[trigger] r.spec_tokens(text) == refine_segments(
                tokenizer.spec_segments(prepared_of(text)),
            ),
    {
        let r = FullTextSearch { tokenizer, records: Vec::new(), postings: Vec::new(), count: 0 };
        proof {
            assert(doc_ids_of(r.records@) =~= Seq::<i64>::empty());
            assert(crate::store::post_tokens_of(r.postings@) =~= Seq::<Seq<char>>::empty());
        }
        r
    }

    /// True iff the document currently has a term-frequency record.
    pub fn indexed(&self, id: i64) -> (r: bool)
        requires
            self.wf(),
        ensures
            r == self.spec_indexed(id),
    {
        proof {
            lemma_has_doc_iff(self.records@, id);
        }
        match find_doc(&self.records, id) {
            Some(_) => true,
            None => false,
        }
    }

    /// The number of indexed documents, from the counter.
    pub fn get_doc_count(&self) -> (r: u64)
        requires
            self.wf(),
        ensures
            r as int == self.spec_doc_count(),
    {
        self.count
    }

    /// Writes (or overwrites) document `id`'s record from a non-empty token
    /// list, and settles every posting set: `id` is listed under exactly
    /// the new tokens. The counter grows only when `id` was not indexed.
    fn upsert(&mut self, id: i64, tokens: &Vec<String>)
        requires
            old(self).wf(),
            tokens@.len() > 0,
        ensures
            final(self).wf(),
            forall|x: i64| #[trigger]
                final(self).spec_indexed(x) == (x == id || old(self).spec_indexed(x)),
            forall|x: i64, t: Seq<char>| #[trigger]
                final(self).spec_tf(x, t) == if x == id {
                    count_of(tokens.deep_view(), t)
                } else {
                    old(self).spec_tf(x, t)
                },
            forall|x: i64| #[trigger]
                final(self).spec_total_terms(x) == if x == id {
                    tokens@.len() as int
                } else {
                    old(self).spec_total_terms(x)
                },
            final(self).spec_doc_count() == old(self).spec_doc_count() + if old(
                self,
            ).spec_indexed(id) {
                0int
            } else {
                1int
            },
            forall|s: Seq<char>| #[trigger]
                final(self).spec_tokens(s) == old(self).spec_tokens(s),
    {
        let ghost recs0 = self.records@;
        let ghost ps0 = self.postings@;
        let ghost tok0 = self.tokenizer;
        let ghost count0 = self.count;
        let new_rec = FreqRecord::from_tokens(tokens);
        let ghost new_entries = new_rec.entries@;
        proof {
            assert(tokens.deep_view().len() == tokens@.len());
            if new_rec.entries@.len() == 0 {
                assert(false);
            }
        }
        match find_doc(&self.records, id) {
            None => {
                proof {
                    lemma_has_doc_iff(recs0, id);
                }
                // New document: list it under each of its tokens.
                let mut k: usize = 0;
                let n = new_rec.entries.len();
                proof {
                    assert(keys_of(new_entries).take(0) =~= Seq::<Seq<char>>::empty());
                }
                while k < n
                    invariant
                        k <= n,
                        n == new_entries.len(),
                        new_rec.entries@ == new_entries,
                        new_rec.wf(),
                        self.records@ == recs0,
                        self.count == count0,
                        self.tokenizer == tok0,
                        docs_wf(recs0),
                        posts_wf(self.postings@),
                        forall|i: int| 0 <= i < recs0.len() ==> recs0[i].id != id,
                        forall|t: Seq<char>, x: i64|
                            #![trigger post_has(self.postings@, t, x)]
                            post_has(self.postings@, t, x) == (post_has(ps0, t, x) || (x == id
                                && keys_of(new_entries).take(k as int).contains(t))),
                        forall|t: Seq<char>, x: i64|
                            #![trigger post_has(ps0, t, x)]
                            post_has(ps0, t, x) <==> doc_tf(recs0, x, t) > 0,
                    decreases n - k,
                {
                    proof {
                        // the token at position k is fresh for this id
                        assert(keys_of(new_entries)[k as int] == new_entries[k as int].token@);
                        lemma_doc_absent(recs0, id, new_entries[k as int].token@);
                        assert(!post_has(ps0, new_entries[k as int].token@, id));
                        assert(!keys_of(new_entries).take(k as int).contains(
                            new_entries[k as int].token@,
                        )) by {
                            let ks = keys_of(new_entries);
                            if ks.take(k as int).contains(new_entries[k as int].token@) {
                                let i = choose|i: int|
                                    0 <= i < k && ks.take(k as int)[i] == ks[k as int];
                                assert(ks[i] == ks[k as int]);
                            }
                        }
                    }
                    posting_insert(&mut self.postings, &new_rec.entries[k].token, id);
                    proof {
                        let ks = keys_of(new_entries);
                        assert forall|t: Seq<char>, x: i64|
                            #![trigger post_has(self.postings@, t, x)]
                            post_has(self.postings@, t, x) == (post_has(ps0, t, x) || (x == id
                                && ks.take(k + 1).contains(t))) by {
                            assert(ks.take(k + 1).drop_last() =~= ks.take(k as int));
                            assert(ks.take(k + 1).last() == ks[k as int]);
                            if ks.take(k + 1).contains(t) && !ks.take(k as int).contains(t) {
                                let i = choose|i: int|
                                    0 <= i < k + 1 && #[trigger] ks.take(k + 1)[i] == t;
                                assert(ks[i] == t);
                                if i < k {
                                    assert(ks.take(k as int)[i] == t);
                                }
                            }
                            if ks.take(k as int).contains(t) {
                                let i = choose|i: int|
                                    0 <= i < k && ks.take(k as int)[i] == t;
                                assert(ks.take(k + 1)[i] == t);
                            }
                            if t == ks[k as int] {
                                assert(ks.take(k + 1)[k as int] == t);
                            }
                        }
                    }
                    k = k + 1;
                }
                let ghost ps1 = self.postings@;
                self.records.push(DocEntry { id, rec: new_rec });
                let len_now = self.records.len();
                proof {
                    assert(self.count as int + 1 == len_now as int);
                }
                self.count = self.count + 1;
                proof {
                    let recs1 = self.records@;
                    let e = recs1.last();
                    assert(recs1 =~= recs0.push(e));
                    assert(e.id == id && e.rec.entries@ == new_entries);
                    // distinct ids after the push
                    assert(doc_ids_of(recs1).drop_last() =~= doc_ids_of(recs0));
                    assert(doc_ids_of(recs1).last() == id);
                    assert forall|a: int, b: int|
                        0 <= a < b < doc_ids_of(recs1).len() implies doc_ids_of(recs1)[a]
                        != doc_ids_of(recs1)[b] by {
                        if b == doc_ids_of(recs1).len() - 1 {
                            assert(doc_ids_of(recs1)[a] == recs0[a].id);
                        } else {
                            assert(doc_ids_of(recs1)[a] == doc_ids_of(recs0)[a]);
                            assert(doc_ids_of(recs1)[b] == doc_ids_of(recs0)[b]);
                        }
                    }
                    assert(docs_wf(recs1)) by {
                        assert forall|i: int|
                            0 <= i < recs1.len() implies (#[trigger] recs1[i].rec).wf()
                            && recs1[i].rec.entries@.len() > 0 by {
                            if i < recs1.len() - 1 {
                                assert(recs1[i] == recs0[i]);
                            }
                        }
                    }
                    // consistency and the pointwise ensures
                    assert forall|t: Seq<char>, x: i64|
                        #![trigger post_has(self.postings@, t, x)]
                        #![trigger doc_tf(self.records@, x, t)]
                        post_has(self.postings@, t, x) <==> doc_tf(self.records@, x, t)
                        > 0 by {
                        lemma_doc_push(recs0, e, x, t);
                        if x == id {
                            lemma_doc_absent(recs0, id, t);
                            lemma_tf_positive_iff(new_entries, t);
                            assert(keys_of(new_entries).contains(t) <==> exists|i: int|
                                0 <= i < new_entries.len() && new_entries[i].token@ == t) by {
                                if keys_of(new_entries).contains(t) {
                                    let i = choose|i: int|
                                        0 <= i < new_entries.len() && keys_of(new_entries)[i]
                                            == t;
                                    assert(new_entries[i].token@ == t);
                                }
                                if exists|i: int|
                                    0 <= i < new_entries.len() && new_entries[i].token@ == t {
                                    let i = choose|i: int|
                                        0 <= i < new_entries.len() && new_entries[i].token@
                                            == t;
                                    assert(keys_of(new_entries)[i] == t);
                                }
                            }
                            assert(keys_of(new_entries).take(n as int) =~= keys_of(
                                new_entries,
                            ));
                        }
                    }
                    assert forall|x: i64, t: Seq<char>| #[trigger]
                        doc_tf(self.records@, x, t) == if x == id {
                            count_of(tokens.deep_view(), t)
                        } else {
                            doc_tf(recs0, x, t)
                        } by {
                        lemma_doc_push(recs0, e, x, t);
                    }
                    assert forall|x: i64| #[trigger]
                        has_doc(self.records@, x) == (x == id || has_doc(recs0, x)) by {
                        lemma_doc_push(recs0, e, x, Seq::<char>::empty());
                    }
                    assert forall|x: i64| #[trigger]
                        doc_total(self.records@, x) == if x == id {
                            tokens@.len() as int
                        } else {
                            doc_total(recs0, x)
                        } by {
                        lemma_doc_push(recs0, e, x, Seq::<char>::empty());
                    }
                    lemma_has_doc_iff(recs0, id);
                }
            },
            Some(j) => {
                proof {
                    lemma_has_doc_iff(recs0, id);
                    assert(doc_ids_of(recs0)[j as int] == recs0[j as int].id);
                }
                let ghost old_entries = recs0[j as int].rec.entries@;
                let ghost old_keys = keys_of(old_entries);
                // Remove this id from the postings of vacated tokens.
                let mut k: usize = 0;
                let n_old = self.records[j].rec.entries.len();
                proof {
                    assert(old_keys.take(0) =~= Seq::<Seq<char>>::empty());
                }
                while k < n_old
                    invariant
                        k <= n_old,
                        j < recs0.len(),
                        recs0[j as int].id == id,
                        n_old == old_entries.len(),
                        new_rec.entries@ == new_entries,
                        new_rec.wf(),
                        self.records@ == recs0,
                        self.count == count0,
                        self.tokenizer == tok0,
                        docs_wf(recs0),
                        posts_wf(self.postings@),
                        old_entries == recs0[j as int].rec.entries@,
                        old_keys == keys_of(old_entries),
                        forall|t: Seq<char>, x: i64|
                            #![trigger post_has(self.postings@, t, x)]
                            post_has(self.postings@, t, x) == (post_has(ps0, t, x) && !(x == id
                                && new_rec.spec_tf(t) == 0 && old_keys.take(k as int).contains(
                                t,
                            ))),
                        forall|t: Seq<char>, x: i64|
                            #![trigger post_has(ps0, t, x)]
                            post_has(ps0, t, x) <==> doc_tf(recs0, x, t) > 0,
                    decreases n_old - k,
                {
                    let tf_new = new_rec.get_count(self.records[j].rec.entries[k].token.as_str());
                    let ghost psk = self.postings@;
                    if tf_new == 0 {
                        posting_remove(
                            &mut self.postings,
                            self.records[j].rec.entries[k].token.as_str(),
                            id,
                        );
                    }
                    proof {
                        let ks = old_keys;
                        let tk = old_entries[k as int].token@;
                        assert(ks[k as int] == tk);
                        assert forall|t: Seq<char>, x: i64|
                            #![trigger post_has(self.postings@, t, x)]
                            post_has(self.postings@, t, x) == (post_has(ps0, t, x) && !(x == id
                                && new_rec.spec_tf(t) == 0 && ks.take(k + 1).contains(
                                t,
                            ))) by {
                            assert(ks.take(k + 1).drop_last() =~= ks.take(k as int));
                            assert(ks.take(k + 1).last() == tk);
                            if ks.take(k + 1).contains(t) && !ks.take(k as int).contains(t)
                                && t != tk {
                                let i = choose|i: int|
                                    0 <= i < k + 1 && #[trigger] ks.take(k + 1)[i] == t;
                                if i < k {
                                    assert(ks.take(k as int)[i] == t);
                                }
                            }
                            if ks.take(k as int).contains(t) {
                                let i = choose|i: int|
                                    0 <= i < k && ks.take(k as int)[i] == t;
                                assert(ks.take(k + 1)[i] == t);
                            }
                            if t == tk {
                                assert(ks.take(k + 1)[k as int] == t);
                            }
                        }
                    }
                    k = k + 1;
                }
                let ghost ps1 = self.postings@;
                proof {
                    assert(old_keys.take(n_old as int) =~= old_keys);
                    assert forall|t: Seq<char>, x: i64|
                        #![trigger post_has(ps1, t, x)]
                        post_has(ps1, t, x) == (post_has(ps0, t, x) && !(x == id
                            && new_rec.spec_tf(t) == 0 && old_keys.contains(t))) by {
                        assert(post_has(ps1, t, x) == (post_has(ps0, t, x) && !(x == id
                            && new_rec.spec_tf(t) == 0 && old_keys.take(n_old as int).contains(
                            t,
                        ))));
                    }
                }
                // List this id under the tokens it newly acquired.
                let mut k2: usize = 0;
                let n_new = new_rec.entries.len();
                proof {
                    assert(keys_of(new_entries).take(0) =~= Seq::<Seq<char>>::empty());
                }
                while k2 < n_new
                    invariant
                        k2 <= n_new,
                        j < recs0.len(),
                        recs0[j as int].id == id,
                        n_new == new_entries.len(),
                        new_rec.entries@ == new_entries,
                        new_rec.wf(),
                        self.records@ == recs0,
                        self.count == count0,
                        self.tokenizer == tok0,
                        docs_wf(recs0),
                        posts_wf(self.postings@),
                        old_entries == recs0[j as int].rec.entries@,
                        old_keys == keys_of(old_entries),
                        forall|t: Seq<char>, x: i64|
                            #![trigger post_has(ps1, t, x)]
                            post_has(ps1, t, x) == (post_has(ps0, t, x) && !(x == id
                                && new_rec.spec_tf(t) == 0 && old_keys.contains(t))),
                        forall|t: Seq<char>, x: i64|
                            #![trigger post_has(self.postings@, t, x)]
                            post_has(self.postings@, t, x) == (post_has(ps1, t, x) || (x == id
                                && keys_of(new_entries).take(k2 as int).contains(t)
                                && recs0[j as int].rec.spec_tf(t) == 0)),
                        forall|t: Seq<char>, x: i64|
                            #![trigger post_has(ps0, t, x)]
                            post_has(ps0, t, x) <==> doc_tf(recs0, x, t) > 0,
                    decreases n_new - k2,
                {
                    let tf_old = self.records[j].rec.get_count(
                        new_rec.entries[k2].token.as_str(),
                    );
                    let ghost tk = new_entries[k2 as int].token@;
                    proof {
                        assert(keys_of(new_entries)[k2 as int] == tk);
                    }
                    if tf_old == 0 {
                        proof {
                            // not yet listed: not in ps1 and not inserted so far
                            lemma_doc_at(recs0, j as int, tk);
                            assert(doc_tf(recs0, id, tk) == 0);
                            assert(!post_has(ps0, tk, id));
                            assert(!keys_of(new_entries).take(k2 as int).contains(tk)) by {
                                let ks = keys_of(new_entries);
                                if ks.take(k2 as int).contains(tk) {
                                    let i = choose|i: int|
                                        0 <= i < k2 && ks.take(k2 as int)[i] == tk;
                                    assert(ks[i] == ks[k2 as int]);
                                }
                            }
                        }
                        posting_insert(&mut self.postings, &new_rec.entries[k2].token, id);
                    }
                    proof {
                        let ks = keys_of(new_entries);
                        assert forall|t: Seq<char>, x: i64|
                            #![trigger post_has(self.postings@, t, x)]
                            post_has(self.postings@, t, x) == (post_has(ps1, t, x) || (x == id
                                && ks.take(k2 + 1).contains(t) && recs0[j as int].rec.spec_tf(t)
                                == 0)) by {
                            assert(ks.take(k2 + 1).drop_last() =~= ks.take(k2 as int));
                            assert(ks.take(k2 + 1).last() == tk);
                            if ks.take(k2 + 1).contains(t) && !ks.take(k2 as int).contains(t)
                                && t != tk {
                                let i = choose|i: int|
                                    0 <= i < k2 + 1 && #[trigger] ks.take(k2 + 1)[i] == t;
                                if i < k2 {
                                    assert(ks.take(k2 as int)[i] == t);
                                }
                            }
                            if ks.take(k2 as int).contains(t) {
                                let i = choose|i: int|
                                    0 <= i < k2 && ks.take(k2 as int)[i] == t;
                                assert(ks.take(k2 + 1)[i] == t);
                            }
                            if t == tk {
                                assert(ks.take(k2 + 1)[k2 as int] == t);
                            }
                            if t == tk && recs0[j as int].rec.spec_tf(t) != 0 {
                                // the old record kept this token: nothing was inserted
                                assert(post_has(self.postings@, t, x) == post_has(ps1, t, x));
                            }
                        }
                    }
                    k2 = k2 + 1;
                }
                // Overwrite the record.
                let e = DocEntry { id, rec: new_rec };
                self.records[j] = e;
                proof {
                    let recs1 = self.records@;
                    let e1 = recs1[j as int];
                    assert(recs1 =~= recs0.update(j as int, e1));
                    assert(e1.id == id && e1.rec.entries@ == new_entries);
                    assert(docs_wf(recs1)) by {
                        lemma_doc_update(recs0, j as int, e1, id, Seq::<char>::empty());
                        assert forall|i: int|
                            0 <= i < recs1.len() implies (#[trigger] recs1[i].rec).wf()
                            && recs1[i].rec.entries@.len() > 0 by {
                            if i != j as int {
                                assert(recs1[i] == recs0[i]);
                            }
                        }
                    }
                    assert forall|t: Seq<char>, x: i64|
                        #![trigger post_has(self.postings@, t, x)]
                        #![trigger doc_tf(self.records@, x, t)]
                        post_has(self.postings@, t, x) <==> doc_tf(self.records@, x, t)
                        > 0 by {
                        lemma_doc_update(recs0, j as int, e1, x, t);
                        crate::record::lemma_tf_nonneg(new_entries, t);
                        crate::record::lemma_tf_nonneg(old_entries, t);
                        crate::store::lemma_doc_tf_nonneg(recs0, x, t);
                        assert(post_has(self.postings@, t, x) == (post_has(ps1, t, x) || (x == id
                            && keys_of(new_entries).take(k2 as int).contains(t) && recs0[
                            j as int
                        ].rec.spec_tf(t) == 0)));
                        assert(post_has(ps1, t, x) == (post_has(ps0, t, x) && !(x == id
                            && new_rec.spec_tf(t) == 0 && old_keys.contains(t))));
                        assert(post_has(ps0, t, x) <==> doc_tf(recs0, x, t) > 0);
                        assert(doc_tf(self.records@, x, t) == if x == id {
                            e1.rec.spec_tf(t)
                        } else {
                            doc_tf(recs0, x, t)
                        });
                        if x == id {
                            lemma_doc_at(recs0, j as int, t);
                            assert(recs0[j as int].rec.wf());
                            lemma_tf_positive_iff(new_entries, t);
                            lemma_tf_positive_iff(old_entries, t);
                            assert(keys_of(new_entries).take(k2 as int) =~= keys_of(
                                new_entries,
                            ));
                            assert(doc_tf(recs0, id, t) == recs0[j as int].rec.spec_tf(t));
                            assert(keys_of(new_entries).contains(t) <==> exists|i: int|
                                0 <= i < new_entries.len() && new_entries[i].token@ == t) by {
                                if keys_of(new_entries).contains(t) {
                                    let i = choose|i: int|
                                        0 <= i < new_entries.len() && keys_of(new_entries)[i]
                                            == t;
                                    assert(new_entries[i].token@ == t);
                                }
                                if exists|i: int|
                                    0 <= i < new_entries.len() && new_entries[i].token@ == t {
                                    let i = choose|i: int|
                                        0 <= i < new_entries.len() && new_entries[i].token@
                                            == t;
                                    assert(keys_of(new_entries)[i] == t);
                                }
                            }
                            assert(old_keys.contains(t) <==> exists|i: int|
                                0 <= i < old_entries.len() && old_entries[i].token@ == t) by {
                                if old_keys.contains(t) {
                                    let i = choose|i: int|
                                        0 <= i < old_entries.len() && old_keys[i] == t;
                                    assert(old_entries[i].token@ == t);
                                }
                                if exists|i: int|
                                    0 <= i < old_entries.len() && old_entries[i].token@ == t {
                                    let i = choose|i: int|
                                        0 <= i < old_entries.len() && old_entries[i].token@
                                            == t;
                                    assert(old_keys[i] == t);
                                }
                            }
                            assert(keys_of(new_entries).contains(t) <==> new_rec.spec_tf(t)
                                > 0);
                            assert(old_keys.contains(t) <==> recs0[j as int].rec.spec_tf(t)
                                > 0);
                            assert(e1.rec.spec_tf(t) == new_rec.spec_tf(t));
                        }
                    }
                    assert forall|x: i64, t: Seq<char>| #[trigger]
                        doc_tf(self.records@, x, t) == if x == id {
                            count_of(tokens.deep_view(), t)
                        } else {
                            doc_tf(recs0, x, t)
                        } by {
                        lemma_doc_update(recs0, j as int, e1, x, t);
                    }
                    assert forall|x: i64| #[trigger]
                        has_doc(self.records@, x) == (x == id || has_doc(recs0, x)) by {
                        lemma_doc_update(recs0, j as int, e1, x, Seq::<char>::empty());
                        if x == id {
                            lemma_doc_at(recs0, j as int, Seq::<char>::empty());
                        }
                    }
                    assert forall|x: i64| #[trigger]
                        doc_total(self.records@, x) == if x == id {
                            tokens@.len() as int
                        } else {
                            doc_total(recs0, x)
                        } by {
                        lemma_doc_update(recs0, j as int, e1, x, Seq::<char>::empty());
                    }
                    lemma_doc_at(recs0, j as int, Seq::<char>::empty());
                }
            },
        }
    }

    /// Removes document `id`: its record is deleted, it leaves every
    /// posting set, and the counter is decremented. Fails with `NotFound`
    /// when `id` is not indexed, leaving the engine unchanged.
    pub fn deindex(&mut self, id: i64) -> (r: Result<(), SearchError>)
        requires
            old(self).wf(),
        ensures
            final(self).wf(),
            old(self).spec_indexed(id) ==> r is Ok,
            !old(self).spec_indexed(id) ==> r == Err::<(), SearchError>(SearchError::NotFound)
                && *final(self) == *old(self),
            forall|x: i64| #[trigger]
                final(self).spec_indexed(x) == (old(self).spec_indexed(x) && !(r is Ok && x
                    == id)),
            forall|x: i64, t: Seq<char>| #[trigger]
                final(self).spec_tf(x, t) == if r is Ok && x == id {
                    0int
                } else {
                    old(self).spec_tf(x, t)
                },
            forall|x: i64| #[trigger]
                final(self).spec_total_terms(x) == if r is Ok && x == id {
                    0int
                } else {
                    old(self).spec_total_terms(x)
                },
            final(self).spec_doc_count() == old(self).spec_doc_count() - if r is Ok {
                1int
            } else {
                0int
            },
            forall|s: Seq<char>| #[trigger]
                final(self).spec_tokens(s) == old(self).spec_tokens(s),
    {
        let ghost recs0 = self.records@;
        let ghost ps0 = self.postings@;
        let ghost tok0 = self.tokenizer;
        let ghost count0 = self.count;
        proof {
            lemma_has_doc_iff(recs0, id);
        }
        match find_doc(&self.records, id) {
            None => Err(SearchError::NotFound),
            Some(j) => {
                let ghost old_entries = recs0[j as int].rec.entries@;
                let ghost old_keys = keys_of(old_entries);
                let mut k: usize = 0;
                let n_old = self.records[j].rec.entries.len();
                proof {
                    assert(old_keys.take(0) =~= Seq::<Seq<char>>::empty());
                }
                while k < n_old
                    invariant
                        k <= n_old,
                        j < recs0.len(),
                        recs0[j as int].id == id,
                        n_old == old_entries.len(),
                        self.records@ == recs0,
                        self.count == count0,
                        self.tokenizer == tok0,
                        docs_wf(recs0),
                        posts_wf(self.postings@),
                        old_entries == recs0[j as int].rec.entries@,
                        old_keys == keys_of(old_entries),
                        forall|t: Seq<char>, x: i64|
                            #![trigger post_has(self.postings@, t, x)]
                            post_has(self.postings@, t, x) == (post_has(ps0, t, x) && !(x == id
                                && old_keys.take(k as int).contains(t))),
                        forall|t: Seq<char>, x: i64|
                            #![trigger post_has(ps0, t, x)]
                            post_has(ps0, t, x) <==> doc_tf(recs0, x, t) > 0,
                    decreases n_old - k,
                {
                    let ghost tk = old_entries[k as int].token@;
                    proof {
                        assert(old_keys[k as int] == tk);
                    }
                    posting_remove(
                        &mut self.postings,
                        self.records[j].rec.entries[k].token.as_str(),
                        id,
                    );
                    proof {
                        let ks = old_keys;
                        assert forall|t: Seq<char>, x: i64|
                            #![trigger post_has(self.postings@, t, x)]
                            post_has(self.postings@, t, x) == (post_has(ps0, t, x) && !(x == id
                                && ks.take(k + 1).contains(t))) by {
                            assert(ks.take(k + 1).drop_last() =~= ks.take(k as int));
                            assert(ks.take(k + 1).last() == tk);
                            if ks.take(k + 1).contains(t) && !ks.take(k as int).contains(t)
                                && t != tk {
                                let i = choose|i: int|
                                    0 <= i < k + 1 && #[trigger] ks.take(k + 1)[i] == t;
                                if i < k {
                                    assert(ks.take(k as int)[i] == t);
                                }
                            }
                            if ks.take(k as int).contains(t) {
                                let i = choose|i: int|
                                    0 <= i < k && ks.take(k as int)[i] == t;
                                assert(ks.take(k + 1)[i] == t);
                            }
                            if t == tk {
                                assert(ks.take(k + 1)[k as int] == t);
                            }
                        }
                    }
                    k = k + 1;
                }
                self.records.remove(j);
                self.count = self.count - 1;
                proof {
                    let recs1 = self.records@;
                    assert(recs1 =~= recs0.remove(j as int));
                    assert(docs_wf(recs1)) by {
                        lemma_doc_remove(recs0, j as int, id, Seq::<char>::empty());
                        lemma_remove_keeps_no_dup(doc_ids_of(recs0), j as int);
                        assert forall|i: int|
                            0 <= i < recs1.len() implies (#[trigger] recs1[i].rec).wf()
                            && recs1[i].rec.entries@.len() > 0 by {
                            if i < j as int {
                                assert(recs1[i] == recs0[i]);
                            } else {
                                assert(recs1[i] == recs0[i + 1]);
                            }
                        }
                    }
                    assert forall|t: Seq<char>, x: i64|
                        #![trigger post_has(self.postings@, t, x)]
                        #![trigger doc_tf(self.records@, x, t)]
                        post_has(self.postings@, t, x) <==> doc_tf(self.records@, x, t)
                        > 0 by {
                        lemma_doc_remove(recs0, j as int, x, t);
                        if x == id {
                            lemma_doc_at(recs0, j as int, t);
                            lemma_tf_positive_iff(old_entries, t);
                            assert(old_keys.take(n_old as int) =~= old_keys);
                            assert(old_keys.contains(t) <==> exists|i: int|
                                0 <= i < old_entries.len() && old_entries[i].token@ == t) by {
                                if old_keys.contains(t) {
                                    let i = choose|i: int|
                                        0 <= i < old_entries.len() && old_keys[i] == t;
                                    assert(old_entries[i].token@ == t);
                                }
                                if exists|i: int|
                                    0 <= i < old_entries.len() && old_entries[i].token@ == t {
                                    let i = choose|i: int|
                                        0 <= i < old_entries.len() && old_entries[i].token@
                                            == t;
                                    assert(old_keys[i] == t);
                                }
                            }
                        } else {
                            assert(old_keys.take(n_old as int) =~= old_keys);
                        }
                    }
                    assert forall|x: i64, t: Seq<char>| #[trigger]
                        doc_tf(self.records@, x, t) == if x == id {
                            0int
                        } else {
                            doc_tf(recs0, x, t)
                        } by {
                        lemma_doc_remove(recs0, j as int, x, t);
                    }
                    assert forall|x: i64| #[trigger]
                        has_doc(self.records@, x) == (has_doc(recs0, x) && x != id) by {
                        lemma_doc_remove(recs0, j as int, x, Seq::<char>::empty());
                    }
                    assert forall|x: i64| #[trigger]
                        doc_total(self.records@, x) == if x == id {
                            0int
                        } else {
                            doc_total(recs0, x)
                        } by {
                        lemma_doc_remove(recs0, j as int, x, Seq::<char>::empty());
                    }
                    lemma_doc_at(recs0, j as int, Seq::<char>::empty());
                }
                Ok(())
            },
        }
    }

    /// Indexes `text` under document `id`. Re-indexing an already indexed
    /// document replaces its record; a text whose tokens all vanish leaves
    /// a new document unindexed and removes an indexed one. The effect on
    /// the engine is stated pointwise over the surviving tokens.
    pub fn index(&mut self, id: i64, text: &str) -> (r: Result<(), SearchError>)
        requires
            old(self).wf(),
        ensures
            final(self).wf(),
            r is Ok,
            ({
                let toks = old(self).spec_tokens(text@);
                if toks.len() == 0 {
                    if old(self).spec_indexed(id) {
                        (forall|x: i64| #[trigger]
                            final(self).spec_indexed(x) == (old(self).spec_indexed(x) && x
                                != id)) && (forall|x: i64, t: Seq<char>| #[trigger]
                            final(self).spec_tf(x, t) == if x == id {
                                0int
                            } else {
                                old(self).spec_tf(x, t)
                            }) && final(self).spec_doc_count() == old(self).spec_doc_count() - 1
                    } else {
                        *final(self) == *old(self)
                    }
                } else {
                    (forall|x: i64| #[trigger]
                        final(self).spec_indexed(x) == (x == id || old(self).spec_indexed(
                            x,
                        ))) && (forall|x: i64, t: Seq<char>| #[trigger]
                        final(self).spec_tf(x, t) == if x == id {
                            count_of(toks, t)
                        } else {
                            old(self).spec_tf(x, t)
                        }) && (forall|x: i64| #[trigger]
                        final(self).spec_total_terms(x) == if x == id {
                            toks.len() as int
                        } else {
                            old(self).spec_total_terms(x)
                        }) && final(self).spec_doc_count() == old(self).spec_doc_count() + if old(
                        self,
                    ).spec_indexed(id) {
                        0int
                    } else {
                        1int
                    }
                }
            }),
            forall|s: Seq<char>| #[trigger]
                final(self).spec_tokens(s) == old(self).spec_tokens(s),
    {
        let tokens = self.tokenizer.analyze(text);
        proof {
            assert(tokens.deep_view() == old(self).spec_tokens(text@));
            assert(tokens.deep_view().len() == tokens@.len());
        }
        if tokens.len() == 0 {
            if self.indexed(id) {
                let r = self.deindex(id);
                proof {
                    assert(r is Ok);
                }
                Ok(())
            } else {
                Ok(())
            }
        } else {
            self.upsert(id, &tokens);
            Ok(())
        }
    }

    /// Re-tokenizes `text` for document `id`: the same upsert as `index`
    /// (each operation falls back to the other's case), stated by the same
    /// contract.
    pub fn reindex(&mut self, id: i64, text: &str) -> (r: Result<(), SearchError>)
        requires
            old(self).wf(),
        ensures
            final(self).wf(),
            r is Ok,
            ({
                let toks = old(self).spec_tokens(text@);
                if toks.len() == 0 {
                    if old(self).spec_indexed(id) {
                        (forall|x: i64| #[trigger]
                            final(self).spec_indexed(x) == (old(self).spec_indexed(x) && x
                                != id)) && (forall|x: i64, t: Seq<char>| #[trigger]
                            final(self).spec_tf(x, t) == if x == id {
                                0int
                            } else {
                                old(self).spec_tf(x, t)
                            }) && final(self).spec_doc_count() == old(self).spec_doc_count() - 1
                    } else {
                        *final(self) == *old(self)
                    }
                } else {
                    (forall|x: i64| #[trigger]
                        final(self).spec_indexed(x) == (x == id || old(self).spec_indexed(
                            x,
                        ))) && (forall|x: i64, t: Seq<char>| #[trigger]
                        final(self).spec_tf(x, t) == if x == id {
                            count_of(toks, t)
                        } else {
                            old(self).spec_tf(x, t)
                        }) && (forall|x: i64| #[trigger]
                        final(self).spec_total_terms(x) == if x == id {
                            toks.len() as int
                        } else {
                            old(self).spec_total_terms(x)
                        }) && final(self).spec_doc_count() == old(self).spec_doc_count() + if old(
                        self,
                    ).spec_indexed(id) {
                        0int
                    } else {
                        1int
                    }
                }
            }),
            forall|s: Seq<char>| #[trigger]
                final(self).spec_tokens(s) == old(self).spec_tokens(s),
    {
        self.index(id, text)
    }

    /// Empties the whole index: every record and posting is deleted and
    /// the counter is reset.
    pub fn clear_all_indexes(&mut self)
        requires
            old(self).wf(),
        ensures
            final(self).wf(),
            final(self).spec_doc_count() == 0,
            forall|x: i64| !(#[trigger] final(self).spec_indexed(x)),
            forall|x: i64, t: Seq<char>| #[trigger] final(self).spec_tf(x, t) == 0,
            forall|s: Seq<char>| #[trigger]
                final(self).spec_tokens(s) == old(self).spec_tokens(s),
    {
        self.records = Vec::new();
        self.postings = Vec::new();
        self.count = 0;
        proof {
            assert(doc_ids_of(self.records@) =~= Seq::<i64>::empty());
            assert(crate::store::post_tokens_of(self.postings@) =~= Seq::<Seq<char>>::empty());
        }
    }
}

impl<T: Tokenizer> FullTextSearch<T> {
    /// Evaluates a query: tokenizes it, resolves the candidate set (union
    /// of the tokens' posting sets under partial matching, intersection
    /// otherwise), scores every candidate, and returns the query tokens
    /// with the results sorted by descending score, cut to `limit` entries
    /// when `limit > 0`. A query with no surviving tokens returns no
    /// results. Every candidate appears with its exact score; when the
    /// limit cuts, only candidates scoring at most the last kept entry are
    /// dropped. The order of equal scores is unspecified.
    pub fn search(&self, query: &str, partial: bool, limit: usize) -> (r: (
        Vec<String>,
        Vec<(i64, u128)>,
    ))
        requires
            self.wf(),
        ensures
            r.0.deep_view() == self.spec_tokens(query@),
            ({
                let toks = self.spec_tokens(query@);
                let cands = self.spec_candidates(toks, partial);
                &&& (toks.len() == 0 ==> r.1@.len() == 0)
                &&& (toks.len() > 0 ==> {
                    &&& forall|i: int|
                        0 <= i < r.1@.len() ==> cands.contains((#[trigger] r.1@[i]).0)
                            && r.1@[i].1 as int == self.spec_score(toks, r.1@[i].0)
                    &&& forall|i: int, j: int| 0 <= i < j < r.1@.len() ==> r.1@[i].0 != r.1@[j].0
                    &&& forall|i: int, j: int| 0 <= i < j < r.1@.len() ==> r.1@[i].1 >= r.1@[j].1
                    &&& ((limit == 0 || cands.len() <= limit) ==> r.1@.len() == cands.len() && (
                    forall|x: i64|
                        cands.contains(x) ==> exists|i: int|
                            0 <= i < r.1@.len() && (#[trigger] r.1@[i]).0 == x))
                    &&& ((limit > 0 && cands.len() > limit) ==> r.1@.len() == limit && (forall|
                        x: i64,
                    |
                        cands.contains(x) && !(exists|i: int|
                            0 <= i < r.1@.len() && (#[trigger] r.1@[i]).0 == x)
                            ==> self.spec_score(toks, x) <= r.1@[limit - 1].1))
                })
            }),
    {
        let tokens = self.tokenizer.analyze(query);
        proof {
            assert(tokens.deep_view() == self.spec_tokens(query@));
        }
        if tokens.len() == 0 {
            proof {
                assert(tokens.deep_view().len() == tokens@.len());
            }
            let empty: Vec<(i64, u128)> = Vec::new();
            return (tokens, empty);
        }
        proof {
            assert(tokens.deep_view().len() == tokens@.len());
        }
        let results = self.ranked_results(&tokens, partial, limit);
        (tokens, results)
    }

    /// Scores and ranks the candidates of an already tokenized query, as
    /// `search` states.
    #[verifier::rlimit(60)]
    fn ranked_results(&self, tokens: &Vec<String>, partial: bool, limit: usize) -> (rv: Vec<
        (i64, u128),
    >)
        requires
            self.wf(),
            tokens@.len() > 0,
        ensures
            ({
                let toks = tokens.deep_view();
                let cands = self.spec_candidates(toks, partial);
                &&& forall|i: int|
                    0 <= i < rv@.len() ==> cands.contains((#[trigger] rv@[i]).0) && rv@[i].1 as int
                        == self.spec_score(toks, rv@[i].0)
                &&& forall|i: int, j: int| 0 <= i < j < rv@.len() ==> rv@[i].0 != rv@[j].0
                &&& forall|i: int, j: int| 0 <= i < j < rv@.len() ==> rv@[i].1 >= rv@[j].1
                &&& ((limit == 0 || cands.len() <= limit) ==> rv@.len() == cands.len() && (forall|
                    x: i64,
                |
                    cands.contains(x) ==> exists|i: int|
                        0 <= i < rv@.len() && (#[trigger] rv@[i]).0 == x))
                &&& ((limit > 0 && cands.len() > limit) ==> rv@.len() == limit && (forall|x: i64|
                    cands.contains(x) && !(exists|i: int|
                        0 <= i < rv@.len() && (#[trigger] rv@[i]).0 == x) ==> self.spec_score(
                        toks,
                        x,
                    ) <= rv@[limit - 1].1))
            }),
    {
        let ghost toks = tokens.deep_view();
        proof {
            assert(toks.len() == tokens@.len());
            assert forall|k: int| 0 <= k < toks.len() implies toks[k] == tokens@[k]@ by {}
        }
        let ghost cands = self.spec_candidates(toks, partial);
        // One posting list per query token.
        let mut lists: Vec<Vec<i64>> = Vec::new();
        let mut k: usize = 0;
        while k < tokens.len()
            invariant
                self.wf(),
                k <= tokens@.len(),
                toks.len() == tokens@.len(),
                forall|l: int| 0 <= l < toks.len() ==> toks[l] == tokens@[l]@,
                lists@.len() == k,
                forall|l: int| 0 <= l < k ==> (#[trigger] lists@[l])@.no_duplicates(),
                forall|l: int, x: i64|
                    0 <= l < k ==> (#[trigger] lists@[l]@.contains(x) <==> self.spec_tf(
                        x,
                        toks[l],
                    ) > 0),
            decreases tokens@.len() - k,
        {
            let ghost tk = toks[k as int];
            match find_posting(&self.postings, tokens[k].as_str()) {
                Some(j) => {
                    let ids = crate::search::copy_ids(&self.postings[j].ids);
                    proof {
                        assert forall|x: i64| ids@.contains(x) <==> self.spec_tf(x, tk)
                            > 0 by {
                            crate::store::lemma_post_at(self.postings@, j as int, x);
                        }
                    }
                    lists.push(ids);
                },
                None => {
                    let ids: Vec<i64> = Vec::new();
                    proof {
                        assert forall|x: i64| ids@.contains(x) <==> self.spec_tf(x, tk)
                            > 0 by {
                            crate::store::lemma_post_absent(self.postings@, tk, x);
                        }
                    }
                    lists.push(ids);
                },
            }
            k = k + 1;
        }
        let cvec = crate::search::merge_candidates(&lists, partial);
        proof {
            assert forall|x: i64| cvec@.contains(x) <==> cands.contains(x) by {
                if partial {
                    if cvec@.contains(x) {
                        let l = choose|l: int|
                            0 <= l < lists@.len() && (#[trigger] lists@[l])@.contains(x);
                        assert(self.spec_tf(x, toks[l]) > 0);
                    }
                    if cands.contains(x) {
                        let l = choose|l: int| 0 <= l < toks.len() && self.spec_tf(x, toks[l])
                            > 0;
                        assert(lists@[l]@.contains(x));
                    }
                } else {
                    if cvec@.contains(x) {
                        assert forall|l: int|
                            0 <= l < toks.len() implies self.spec_tf(x, toks[l]) > 0 by {
                            assert(lists@[l]@.contains(x));
                        }
                    }
                    if cands.contains(x) {
                        assert forall|l: int|
                            0 <= l < lists@.len() implies (#[trigger] lists@[l])@.contains(
                            x,
                        ) by {
                            assert(self.spec_tf(x, toks[l]) > 0);
                        }
                    }
                }
            }
            assert(cvec@.to_set() =~= cands);
            cvec@.unique_seq_to_set();
            assert(cands.len() == cvec@.len());
        }
        // One document frequency per query token.
        let mut dfs: Vec<u64> = Vec::new();
        let mut k2: usize = 0;
        while k2 < tokens.len()
            invariant
                self.wf(),
                k2 <= tokens@.len(),
                toks.len() == tokens@.len(),
                forall|l: int| 0 <= l < toks.len() ==> toks[l] == tokens@[l]@,
                dfs@.len() == k2,
                forall|l: int|
                    0 <= l < k2 ==> (#[trigger] dfs@[l]) as int == self.posting_set(
                        toks[l],
                    ).len() as int,
            decreases tokens@.len() - k2,
        {
            let ghost tk = toks[k2 as int];
            let df: u64 = match find_posting(&self.postings, tokens[k2].as_str()) {
                Some(j) => {
                    proof {
                        let ids = self.postings@[j as int].ids@;
                        assert forall|x: i64| ids.contains(x) <==> self.spec_tf(x, tk) > 0 by {
                            crate::store::lemma_post_at(self.postings@, j as int, x);
                        }
                        assert(ids.to_set() =~= self.posting_set(tk));
                        ids.unique_seq_to_set();
                    }
                    self.postings[j].ids.len() as u64
                },
                None => {
                    proof {
                        assert forall|x: i64| !self.posting_set(tk).contains(x) by {
                            crate::store::lemma_post_absent(self.postings@, tk, x);
                        }
                        assert(self.posting_set(tk) =~= Set::<i64>::empty());
                    }
                    0
                },
            };
            dfs.push(df);
            k2 = k2 + 1;
        }
        // Score every candidate.
        let n_docs = self.count;
        let mut scored: Vec<(i64, u128)> = Vec::new();
        let mut i: usize = 0;
        while i < cvec.len()
            invariant
                self.wf(),
                i <= cvec@.len(),
                n_docs == self.count,
                toks.len() == tokens@.len(),
                forall|l: int| 0 <= l < toks.len() ==> toks[l] == tokens@[l]@,
                toks == tokens.deep_view(),
                toks.len() > 0,
                dfs@.len() == tokens@.len(),
                forall|l: int|
                    0 <= l < toks.len() ==> (#[trigger] dfs@[l]) as int == self.posting_set(
                        toks[l],
                    ).len() as int,
                cvec@.no_duplicates(),
                cands == self.spec_candidates(toks, partial),
                forall|x: i64| cvec@.contains(x) <==> cands.contains(x),
                scored@.len() == i,
                forall|l: int|
                    0 <= l < i ==> (#[trigger] scored@[l]).0 == cvec@[l] && scored@[l].1 as int
                        == self.spec_score(toks, cvec@[l]),
            decreases cvec@.len() - i,
        {
            let id = cvec[i];
            proof {
                assert(cvec@.contains(id));
                assert(cands.contains(id));
                if partial {
                    let l = choose|l: int| 0 <= l < toks.len() && self.spec_tf(id, toks[l]) > 0;
                    crate::store::lemma_doc_tf_pos_has(self.records@, id, toks[l]);
                } else {
                    assert(self.spec_tf(id, toks[0]) > 0);
                    crate::store::lemma_doc_tf_pos_has(self.records@, id, toks[0]);
                }
                lemma_has_doc_iff(self.records@, id);
            }
            match find_doc(&self.records, id) {
                Some(j) => {
                    proof {
                        assert(self.records@[j as int].rec.wf());
                    }
                    let sc = crate::search::score_doc(
                        &self.records[j].rec,
                        &tokens,
                        &dfs,
                        n_docs,
                    );
                    proof {
                        let rec = self.records@[j as int].rec;
                        assert(Seq::new(
                            tokens.deep_view().len(),
                            |k: int| rec.spec_tf(tokens.deep_view()[k]),
                        ) =~= Seq::new(toks.len(), |k: int| self.spec_tf(id, toks[k]))) by {
                            assert forall|k: int| 0 <= k < toks.len() implies rec.spec_tf(
                                toks[k],
                            ) == self.spec_tf(id, toks[k]) by {
                                lemma_doc_at(self.records@, j as int, toks[k]);
                            }
                        }
                        assert(Seq::new(dfs@.len(), |k: int| dfs@[k] as int) =~= Seq::new(
                            toks.len(),
                            |k: int| self.posting_set(toks[k]).len() as int,
                        ));
                        lemma_doc_at(self.records@, j as int, toks[0]);
                        assert(rec.spec_total() == self.spec_total_terms(id));
                        assert(sc as int == self.spec_score(toks, id));
                    }
                    scored.push((id, sc));
                },
                None => {
                    proof {
                        assert(false);
                    }
                },
            }
            i = i + 1;
        }
        proof {
            assert(scored@.map_values(|p: (i64, u128)| p.0) =~= cvec@.take(i as int));
            assert(cvec@.take(i as int) =~= cvec@);
        }
        let sorted = crate::search::sort_ranked(scored);
        let ghost scored_v = sorted@;
        let mut results = sorted;
        let ghost truncated = limit > 0 && scored_v.len() > limit;
        if limit > 0 && results.len() > limit {
            results.truncate(limit);
        }
        proof {
            if truncated {
                assert(results@ =~= scored_v.take(limit as int));
            } else {
                assert(results@ == scored_v);
            }
            scored_v.to_multiset_ensures();
            scored@.to_multiset_ensures();
            // every sorted entry is one of the scored pairs: a candidate id
            // with its exact score
            assert forall|i: int|
                0 <= i < scored_v.len() implies cvec@.contains(
                (#[trigger] scored_v[i]).0,
            ) && scored_v[i].1 as int == self.spec_score(toks, scored_v[i].0) by {
                let p = scored_v[i];
                assert(scored_v.contains(p));
                assert(scored_v.to_multiset().count(p) > 0);
                assert(scored@.to_multiset().count(p) > 0);
                assert(scored@.contains(p));
                let l = choose|l: int| 0 <= l < scored@.len() && scored@[l] == p;
                assert(scored@[l].0 == cvec@[l]);
                assert(cvec@.contains(cvec@[l]));
            }
            // every candidate occurs somewhere among the sorted entries
            assert forall|x: i64| cands.contains(x) implies exists|ix: int|
                0 <= ix < scored_v.len() && (#[trigger] scored_v[ix]).0 == x by {
                assert(cvec@.contains(x));
                let l = choose|l: int| 0 <= l < cvec@.len() && cvec@[l] == x;
                let p = scored@[l];
                assert(scored@.contains(p));
                assert(scored@.to_multiset().count(p) > 0);
                assert(scored_v.to_multiset().count(p) > 0);
                assert(scored_v.contains(p));
                let ix = choose|ix: int| 0 <= ix < scored_v.len() && scored_v[ix] == p;
                assert(scored_v[ix].0 == x);
            }
            // the returned prefix: valid, distinct, sorted
            assert forall|i: int|
                0 <= i < results@.len() implies cands.contains((#[trigger] results@[i]).0)
                && results@[i].1 as int == self.spec_score(toks, results@[i].0) by {
                assert(results@[i] == scored_v[i]);
                assert(cvec@.contains(scored_v[i].0));
            }
            let ids = scored_v.map_values(|p: (i64, u128)| p.0);
            assert forall|i: int, j: int|
                0 <= i < j < results@.len() implies results@[i].0 != results@[j].0 by {
                assert(results@[i] == scored_v[i]);
                assert(results@[j] == scored_v[j]);
                assert(ids[i] == scored_v[i].0);
                assert(ids[j] == scored_v[j].0);
            }
            assert forall|i: int, j: int|
                0 <= i < j < results@.len() implies results@[i].1 >= results@[j].1 by {
                assert(results@[i] == scored_v[i]);
                assert(results@[j] == scored_v[j]);
            }
            if !truncated {
                assert(results@.len() == cands.len());
                assert forall|x: i64| cands.contains(x) implies exists|i: int|
                    0 <= i < results@.len() && (#[trigger] results@[i]).0 == x by {
                    let ix = choose|ix: int|
                        0 <= ix < scored_v.len() && (#[trigger] scored_v[ix]).0 == x;
                    assert(results@[ix] == scored_v[ix]);
                }
            } else {
                assert(results@.len() == limit);
                assert forall|x: i64|
                    cands.contains(x) && !(exists|i: int|
                        0 <= i < results@.len() && (#[trigger] results@[i]).0 == x)
                    implies self.spec_score(toks, x) <= results@[limit - 1].1 by {
                    let ix = choose|ix: int|
                        0 <= ix < scored_v.len() && (#[trigger] scored_v[ix]).0 == x;
                    if ix < limit {
                        assert(results@[ix] == scored_v[ix]);
                        assert(results@[ix].0 == x);
                        assert(false);
                    } else {
                        assert(scored_v[limit - 1].1 >= scored_v[ix].1);
                        assert(scored_v[ix].1 as int == self.spec_score(toks, x));
                        assert(results@[limit - 1] == scored_v[limit - 1]);
                    }
                }
            }
        }
        results
    }
}

} // verus!
