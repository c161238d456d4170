//! The index store: the primitive tables the engine is built on. One table
//! maps each document id to its term-frequency record, the other maps each
//! token to its posting list (the ids of the documents containing it). Both
//! are association vectors with distinct keys; the engine keeps them
//! consistent with each other.

use crate::record::FreqRecord;
use crate::text::str_eq_str;
use vstd::prelude::*;

verus! {

/// A document id paired with the document's term-frequency record.
pub struct DocEntry {
    pub id: i64,
    pub rec: FreqRecord,
}

/// A token's posting list: the ids of the documents that contain it.
pub struct Posting {
    pub token: String,
    pub ids: Vec<i64>,
}

/// The ids of a record table, in order.
pub open spec fn doc_ids_of(s: Seq<DocEntry>) -> Seq<i64> {
    s.map_values(|e: DocEntry| e.id)
}

/// The tokens of a posting table, in order.
pub open spec fn post_tokens_of(ps: Seq<Posting>) -> Seq<Seq<char>> {
    ps.map_values(|p: Posting| p.token@)
}

/// Whether the record table holds document `id`.
pub open spec fn has_doc(s: Seq<DocEntry>, id: i64) -> bool
    decreases s.len(),
{
    if s.len() == 0 {
        false
    } else if s.last().id == id {
        true
    } else {
        has_doc(s.drop_last(), id)
    }
}

/// Document `id`'s recorded frequency of `t`; 0 when the document is not
/// in the table or does not contain `t`.
pub open spec fn doc_tf(s: Seq<DocEntry>, id: i64, t: Seq<char>) -> int
    decreases s.len(),
{
    if s.len() == 0 {
        0
    } else if s.last().id == id {
        s.last().rec.spec_tf(t)
    } else {
        doc_tf(s.drop_last(), id, t)
    }
}

/// The sum of document `id`'s term counts; 0 when it is not in the table.
pub open spec fn doc_total(s: Seq<DocEntry>, id: i64) -> int
    decreases s.len(),
{
    if s.len() == 0 {
        0
    } else if s.last().id == id {
        s.last().rec.spec_total()
    } else {
        doc_total(s.drop_last(), id)
    }
}

/// Whether the posting table lists `id` under token `t`.
pub open spec fn post_has(ps: Seq<Posting>, t: Seq<char>, id: i64) -> bool
    decreases ps.len(),
{
    if ps.len() == 0 {
        false
    } else if ps.last().token@ == t {
        ps.last().ids@.contains(id)
    } else {
        post_has(ps.drop_last(), t, id)
    }
}

/// Distinct ids, and every record well-formed and non-empty.
pub open spec fn docs_wf(s: Seq<DocEntry>) -> bool {
    &&& doc_ids_of(s).no_duplicates()
    &&& forall|i: int|
        0 <= i < s.len() ==> (#[trigger] s[i].rec).wf() && s[i].rec.entries@.len() > 0
}

/// Distinct tokens, and every posting list duplicate-free and non-empty.
pub open spec fn posts_wf(ps: Seq<Posting>) -> bool {
    &&& post_tokens_of(ps).no_duplicates()
    &&& forall|i: int|
        0 <= i < ps.len() ==> (#[trigger] ps[i].ids)@.no_duplicates() && ps[i].ids@.len() > 0
}

/// Table answers are never negative.
pub proof fn lemma_doc_tf_nonneg(s: Seq<DocEntry>, id: i64, t: Seq<char>)
    ensures
        doc_tf(s, id, t) >= 0,
    decreases s.len(),
{
    if s.len() > 0 {
        if s.last().id == id {
            crate::record::lemma_tf_nonneg(s.last().rec.entries@, t);
        } else {
            lemma_doc_tf_nonneg(s.drop_last(), id, t);
        }
    }
}

/// An id the table does not hold answers zero everywhere.
pub proof fn lemma_missing_doc_empty(s: Seq<DocEntry>, id: i64, t: Seq<char>)
    requires
        !has_doc(s, id),
    ensures
        doc_tf(s, id, t) == 0,
        doc_total(s, id) == 0,
    decreases s.len(),
{
    if s.len() > 0 {
        lemma_missing_doc_empty(s.drop_last(), id, t);
    }
}

/// A positive table answer names an indexed document.
pub proof fn lemma_doc_tf_pos_has(s: Seq<DocEntry>, id: i64, t: Seq<char>)
    ensures
        doc_tf(s, id, t) > 0 ==> has_doc(s, id),
    decreases s.len(),
{
    if s.len() > 0 && s.last().id != id {
        lemma_doc_tf_pos_has(s.drop_last(), id, t);
    }
}

/// An id with no entry is not in the table, contains nothing, and has no
/// terms.
pub proof fn lemma_doc_absent(s: Seq<DocEntry>, id: i64, t: Seq<char>)
    requires
        forall|i: int| 0 <= i < s.len() ==> s[i].id != id,
    ensures
        !has_doc(s, id),
        doc_tf(s, id, t) == 0,
        doc_total(s, id) == 0,
    decreases s.len(),
{
    if s.len() > 0 {
        assert(s[s.len() - 1].id != id);
        lemma_doc_absent(s.drop_last(), id, t);
    }
}

/// An id is in the table exactly when some entry carries it.
pub proof fn lemma_has_doc_iff(s: Seq<DocEntry>, id: i64)
    ensures
        has_doc(s, id) <==> exists|i: int| 0 <= i < s.len() && s[i].id == id,
    decreases s.len(),
{
    if s.len() > 0 {
        lemma_has_doc_iff(s.drop_last(), id);
        if s.last().id == id {
            assert(s[s.len() - 1].id == id);
        } else {
            assert((exists|i: int| 0 <= i < s.drop_last().len() && s.drop_last()[i].id == id)
                <==> exists|i: int| 0 <= i < s.len() && s[i].id == id) by {
                if exists|i: int| 0 <= i < s.len() && s[i].id == id {
                    let i = choose|i: int| 0 <= i < s.len() && s[i].id == id;
                    assert(s.drop_last()[i].id == id);
                }
            }
        }
    }
}

/// With distinct ids, the table's answers for the id at entry `j` come
/// from that entry's record.
pub proof fn lemma_doc_at(s: Seq<DocEntry>, j: int, t: Seq<char>)
    requires
        doc_ids_of(s).no_duplicates(),
        0 <= j < s.len(),
    ensures
        has_doc(s, s[j].id),
        doc_tf(s, s[j].id, t) == s[j].rec.spec_tf(t),
        doc_total(s, s[j].id) == s[j].rec.spec_total(),
    decreases s.len(),
{
    if j < s.len() - 1 {
        assert(doc_ids_of(s)[j] == s[j].id);
        assert(doc_ids_of(s)[s.len() - 1] == s.last().id);
        assert(s.last().id != s[j].id);
        assert(doc_ids_of(s.drop_last()) =~= doc_ids_of(s).drop_last());
        lemma_doc_at(s.drop_last(), j, t);
    }
}

/// Appending an entry with a fresh id answers for that id from the new
/// record and leaves every other id unchanged.
pub proof fn lemma_doc_push(s: Seq<DocEntry>, e: DocEntry, id: i64, t: Seq<char>)
    ensures
        has_doc(s.push(e), id) == (id == e.id || has_doc(s, id)),
        doc_tf(s.push(e), id, t) == if id == e.id {
            e.rec.spec_tf(t)
        } else {
            doc_tf(s, id, t)
        },
        doc_total(s.push(e), id) == if id == e.id {
            e.rec.spec_total()
        } else {
            doc_total(s, id)
        },
{
    assert(s.push(e).drop_last() =~= s);
}

/// Replacing entry `j` by one with the same id moves that id's answers to
/// the new record and leaves every other id unchanged.
pub proof fn lemma_doc_update(s: Seq<DocEntry>, j: int, e: DocEntry, id: i64, t: Seq<char>)
    requires
        0 <= j < s.len(),
        e.id == s[j].id,
        doc_ids_of(s).no_duplicates(),
    ensures
        has_doc(s.update(j, e), id) == has_doc(s, id),
        doc_tf(s.update(j, e), id, t) == if id == e.id {
            e.rec.spec_tf(t)
        } else {
            doc_tf(s, id, t)
        },
        doc_total(s.update(j, e), id) == if id == e.id {
            e.rec.spec_total()
        } else {
            doc_total(s, id)
        },
        doc_ids_of(s.update(j, e)) =~= doc_ids_of(s),
    decreases s.len(),
{
    let s2 = s.update(j, e);
    assert(s2.len() == s.len());
    assert(doc_ids_of(s2) =~= doc_ids_of(s));
    if j == s.len() - 1 {
        assert(s2.last() == e);
        assert(s2.drop_last() =~= s.drop_last());
        if id == e.id {
        } else {
            assert(has_doc(s2, id) == has_doc(s.drop_last(), id));
        }
    } else {
        assert(s2.last() == s.last());
        assert(s2.drop_last() =~= s.drop_last().update(j, e));
        assert(doc_ids_of(s.drop_last()) =~= doc_ids_of(s).drop_last());
        assert(s.drop_last()[j] == s[j]);
        lemma_doc_update(s.drop_last(), j, e, id, t);
        assert(doc_ids_of(s)[j] == s[j].id);
        assert(doc_ids_of(s)[s.len() - 1] == s.last().id);
        assert(s[j].id != s.last().id);
    }
}

/// Removing entry `j` erases its id's answers and leaves every other id
/// unchanged.
pub proof fn lemma_doc_remove(s: Seq<DocEntry>, j: int, id: i64, t: Seq<char>)
    requires
        0 <= j < s.len(),
        doc_ids_of(s).no_duplicates(),
    ensures
        has_doc(s.remove(j), id) == (has_doc(s, id) && id != s[j].id),
        doc_tf(s.remove(j), id, t) == if id == s[j].id {
            0
        } else {
            doc_tf(s, id, t)
        },
        doc_total(s.remove(j), id) == if id == s[j].id {
            0
        } else {
            doc_total(s, id)
        },
        doc_ids_of(s.remove(j)) =~= doc_ids_of(s).remove(j),
    decreases s.len(),
{
    let s2 = s.remove(j);
    assert(doc_ids_of(s2) =~= doc_ids_of(s).remove(j));
    assert(doc_ids_of(s)[j] == s[j].id);
    if j == s.len() - 1 {
        assert(s2 =~= s.drop_last());
        if id == s[j].id {
            assert forall|i: int| 0 <= i < s2.len() implies s2[i].id != id by {
                assert(doc_ids_of(s)[i] == s[i].id);
            }
            lemma_doc_absent(s2, id, t);
        }
    } else {
        assert(s2.last() == s.last());
        assert(s2.drop_last() =~= s.drop_last().remove(j));
        assert(doc_ids_of(s.drop_last()) =~= doc_ids_of(s).drop_last());
        assert(s.drop_last()[j] == s[j]);
        lemma_doc_remove(s.drop_last(), j, id, t);
        assert(doc_ids_of(s)[s.len() - 1] == s.last().id);
        if id == s[j].id {
            assert(s[j].id != s.last().id);
        }
    }
}

/// A token with no posting lists nobody.
pub proof fn lemma_post_absent(ps: Seq<Posting>, t: Seq<char>, id: i64)
    requires
        forall|i: int| 0 <= i < ps.len() ==> ps[i].token@ != t,
    ensures
        !post_has(ps, t, id),
    decreases ps.len(),
{
    if ps.len() > 0 {
        assert(ps[ps.len() - 1].token@ != t);
        lemma_post_absent(ps.drop_last(), t, id);
    }
}

/// With distinct tokens, membership under the token of posting `j` is
/// membership in that posting's id list.
pub proof fn lemma_post_at(ps: Seq<Posting>, j: int, id: i64)
    requires
        post_tokens_of(ps).no_duplicates(),
        0 <= j < ps.len(),
    ensures
        post_has(ps, ps[j].token@, id) == ps[j].ids@.contains(id),
    decreases ps.len(),
{
    if j < ps.len() - 1 {
        assert(post_tokens_of(ps)[j] == ps[j].token@);
        assert(post_tokens_of(ps)[ps.len() - 1] == ps.last().token@);
        assert(ps.last().token@ != ps[j].token@);
        assert(post_tokens_of(ps.drop_last()) =~= post_tokens_of(ps).drop_last());
        lemma_post_at(ps.drop_last(), j, id);
    }
}

/// Appending a posting answers for its token from its id list and leaves
/// every other token unchanged.
pub proof fn lemma_post_push(ps: Seq<Posting>, p: Posting, t: Seq<char>, id: i64)
    ensures
        post_has(ps.push(p), t, id) == if t == p.token@ {
            p.ids@.contains(id)
        } else {
            post_has(ps, t, id)
        },
{
    assert(ps.push(p).drop_last() =~= ps);
}

/// Replacing posting `j` by one with the same token moves that token's
/// answers to the new id list and leaves every other token unchanged.
pub proof fn lemma_post_update(ps: Seq<Posting>, j: int, p: Posting, t: Seq<char>, id: i64)
    requires
        0 <= j < ps.len(),
        p.token@ == ps[j].token@,
        post_tokens_of(ps).no_duplicates(),
    ensures
        post_has(ps.update(j, p), t, id) == if t == p.token@ {
            p.ids@.contains(id)
        } else {
            post_has(ps, t, id)
        },
        post_tokens_of(ps.update(j, p)) =~= post_tokens_of(ps),
    decreases ps.len(),
{
    let ps2 = ps.update(j, p);
    assert(ps2.len() == ps.len());
    assert(post_tokens_of(ps2) =~= post_tokens_of(ps));
    if j == ps.len() - 1 {
        assert(ps2.last() == p);
        assert(ps2.drop_last() =~= ps.drop_last());
        if t != p.token@ {
            assert(post_has(ps2, t, id) == post_has(ps.drop_last(), t, id));
        }
    } else {
        assert(ps2.last() == ps.last());
        assert(ps2.drop_last() =~= ps.drop_last().update(j, p));
        assert(post_tokens_of(ps.drop_last()) =~= post_tokens_of(ps).drop_last());
        assert(ps.drop_last()[j] == ps[j]);
        lemma_post_update(ps.drop_last(), j, p, t, id);
        assert(post_tokens_of(ps)[j] == ps[j].token@);
        assert(post_tokens_of(ps)[ps.len() - 1] == ps.last().token@);
        assert(ps[j].token@ != ps.last().token@);
    }
}

/// Removing posting `j` erases its token's answers and leaves every other
/// token unchanged.
pub proof fn lemma_post_remove(ps: Seq<Posting>, j: int, t: Seq<char>, id: i64)
    requires
        0 <= j < ps.len(),
        post_tokens_of(ps).no_duplicates(),
    ensures
        post_has(ps.remove(j), t, id) == if t == ps[j].token@ {
            false
        } else {
            post_has(ps, t, id)
        },
        post_tokens_of(ps.remove(j)) =~= post_tokens_of(ps).remove(j),
    decreases ps.len(),
{
    let ps2 = ps.remove(j);
    assert(post_tokens_of(ps2) =~= post_tokens_of(ps).remove(j));
    assert(post_tokens_of(ps)[j] == ps[j].token@);
    if j == ps.len() - 1 {
        assert(ps2 =~= ps.drop_last());
        if t == ps[j].token@ {
            assert forall|i: int| 0 <= i < ps2.len() implies ps2[i].token@ != t by {
                assert(post_tokens_of(ps)[i] == ps[i].token@);
            }
            lemma_post_absent(ps2, t, id);
        }
    } else {
        assert(ps2.last() == ps.last());
        assert(ps2.drop_last() =~= ps.drop_last().remove(j));
        assert(post_tokens_of(ps.drop_last()) =~= post_tokens_of(ps).drop_last());
        assert(ps.drop_last()[j] == ps[j]);
        lemma_post_remove(ps.drop_last(), j, t, id);
        assert(post_tokens_of(ps)[ps.len() - 1] == ps.last().token@);
        if t == ps[j].token@ {
            assert(ps[j].token@ != ps.last().token@);
        }
    }
}

/// Removing an element keeps a sequence duplicate-free.
pub proof fn lemma_remove_keeps_no_dup<A>(v: Seq<A>, k: int)
    requires
        v.no_duplicates(),
        0 <= k < v.len(),
    ensures
        v.remove(k).no_duplicates(),
{
    let v2 = v.remove(k);
    assert forall|a: int, b: int| 0 <= a < b < v2.len() implies v2[a] != v2[b] by {
        if b < k {
        } else if a < k {
            assert(v2[b] == v[b + 1]);
        } else {
            assert(v2[a] == v[a + 1]);
            assert(v2[b] == v[b + 1]);
        }
    }
}

/// Removing one element of a duplicate-free sequence removes exactly that
/// value.
pub proof fn lemma_remove_distinct(v: Seq<i64>, k: int, x: i64)
    requires
        v.no_duplicates(),
        0 <= k < v.len(),
    ensures
        v.remove(k).contains(x) == (v.contains(x) && x != v[k]),
        v.remove(k).no_duplicates(),
{
    let v2 = v.remove(k);
    assert forall|a: int, b: int| 0 <= a < b < v2.len() implies v2[a] != v2[b] by {
        if b < k {
        } else if a < k {
            assert(v2[b] == v[b + 1]);
        } else {
            assert(v2[a] == v[a + 1]);
            assert(v2[b] == v[b + 1]);
        }
    }
    if v.contains(x) && x != v[k] {
        let i = choose|i: int| 0 <= i < v.len() && v[i] == x;
        if i < k {
            assert(v2[i] == x);
        } else {
            assert(v2[i - 1] == x);
        }
    }
    if v2.contains(x) {
        let i = choose|i: int| 0 <= i < v2.len() && v2[i] == x;
        if i < k {
            assert(v[i] == x);
        } else {
            assert(v[i + 1] == x);
        }
        assert(v.contains(x));
        if x == v[k] {
            if i < k {
                assert(v[i] == v[k]);
                assert(false);
            } else {
                assert(v[i + 1] == v[k]);
                assert(false);
            }
        }
    }
}

/// Finds the entry of document `id`, if any.
pub fn find_doc(records: &Vec<DocEntry>, id: i64) -> (r: Option<usize>)
    ensures
        match r {
            Some(j) => j < records@.len() && records@[j as int].id == id,
            None => forall|i: int| 0 <= i < records@.len() ==> records@[i].id != id,
        },
{
    let mut j: usize = 0;
    while j < records.len()
        invariant
            j <= records@.len(),
            forall|i: int| 0 <= i < j ==> records@[i].id != id,
        decreases records@.len() - j,
    {
        if records[j].id == id {
            return Some(j);
        }
        j = j + 1;
    }
    None
}

/// Finds the posting of token `tok`, if any.
pub fn find_posting(postings: &Vec<Posting>, tok: &str) -> (r: Option<usize>)
    ensures
        match r {
            Some(j) => j < postings@.len() && postings@[j as int].token@ == tok@,
            None => forall|i: int| 0 <= i < postings@.len() ==> postings@[i].token@ != tok@,
        },
{
    let mut j: usize = 0;
    while j < postings.len()
        invariant
            j <= postings@.len(),
            forall|i: int| 0 <= i < j ==> postings@[i].token@ != tok@,
        decreases postings@.len() - j,
    {
        if str_eq_str(postings[j].token.as_str(), tok) {
            return Some(j);
        }
        j = j + 1;
    }
    None
}

/// Whether an id list contains `x`.
pub fn ids_contain(v: &Vec<i64>, x: i64) -> (r: bool)
    ensures
        r == v@.contains(x),
{
    let mut j: usize = 0;
    while j < v.len()
        invariant
            j <= v@.len(),
            forall|i: int| 0 <= i < j ==> v@[i] != x,
        decreases v@.len() - j,
    {
        if v[j] == x {
            return true;
        }
        j = j + 1;
    }
    proof {
        assert(!v@.contains(x)) by {
            if v@.contains(x) {
                let i = choose|i: int| 0 <= i < v@.len() && v@[i] == x;
            }
        }
    }
    false
}

/// The position of `x` in an id list, if any.
pub fn ids_index_of(v: &Vec<i64>, x: i64) -> (r: Option<usize>)
    ensures
        match r {
            Some(k) => k < v@.len() && v@[k as int] == x,
            None => forall|i: int| 0 <= i < v@.len() ==> v@[i] != x,
        },
{
    let mut j: usize = 0;
    while j < v.len()
        invariant
            j <= v@.len(),
            forall|i: int| 0 <= i < j ==> v@[i] != x,
        decreases v@.len() - j,
    {
        if v[j] == x {
            return Some(j);
        }
        j = j + 1;
    }
    None
}

/// Adds `id` under token `tok`, creating the posting when the token is
/// new. The caller guarantees the id is not yet listed there.
pub fn posting_insert(postings: &mut Vec<Posting>, tok: &String, id: i64)
    requires
        posts_wf(old(postings)@),
        !post_has(old(postings)@, tok@, id),
    ensures
        posts_wf(final(postings)@),
        forall|t: Seq<char>, x: i64| #[trigger]
            post_has(final(postings)@, t, x) == (post_has(old(postings)@, t, x) || (t == tok@ && x
                == id)),
{
    let ghost ps0 = postings@;
    match find_posting(postings, tok.as_str()) {
        Some(j) => {
            proof {
                lemma_post_at(ps0, j as int, id);
            }
            let mut ids = Vec::new();
            std::mem::swap(&mut ids, &mut postings[j].ids);
            let ghost ids0 = ids@;
            ids.push(id);
            std::mem::swap(&mut ids, &mut postings[j].ids);
            proof {
                let p = postings@[j as int];
                assert(p.token@ == ps0[j as int].token@);
                assert(p.ids@ =~= ids0.push(id));
                assert(postings@ =~= ps0.update(j as int, p));
                assert forall|a: int, b: int|
                    0 <= a < b < p.ids@.len() implies p.ids@[a] != p.ids@[b] by {
                    if b == p.ids@.len() - 1 {
                        assert(p.ids@[a] == ids0[a]);
                        assert(ids0.contains(ids0[a]));
                    }
                }
                assert(p.ids@.no_duplicates());
                assert forall|t: Seq<char>, x: i64| #[trigger]
                    post_has(postings@, t, x) == (post_has(ps0, t, x) || (t == tok@ && x
                        == id)) by {
                    lemma_post_update(ps0, j as int, p, t, x);
                    if t == p.token@ {
                        lemma_post_at(ps0, j as int, x);
                        assert(p.ids@.contains(x) == (ids0.contains(x) || x == id)) by {
                            if p.ids@.contains(x) {
                                let i = choose|i: int|
                                    0 <= i < p.ids@.len() && p.ids@[i] == x;
                                if i < ids0.len() {
                                    assert(ids0[i] == x);
                                }
                            }
                            if ids0.contains(x) {
                                let i = choose|i: int| 0 <= i < ids0.len() && ids0[i] == x;
                                assert(p.ids@[i] == x);
                            }
                            if x == id {
                                assert(p.ids@[p.ids@.len() - 1] == x);
                            }
                        }
                    }
                }
                assert(posts_wf(postings@)) by {
                    assert(post_tokens_of(postings@) =~= post_tokens_of(ps0));
                    assert forall|i: int|
                        0 <= i < postings@.len() implies (
                    #[trigger] postings@[i].ids)@.no_duplicates() && postings@[i].ids@.len()
                        > 0 by {
                        if i != j as int {
                            assert(postings@[i] == ps0[i]);
                        }
                    }
                }
            }
        },
        None => {
            let mut ids: Vec<i64> = Vec::new();
            ids.push(id);
            let p = Posting { token: tok.clone(), ids };
            postings.push(p);
            proof {
                let ps1 = postings@;
                assert(ps1 =~= ps0.push(ps1.last()));
                assert(ps1.last().token@ == tok@);
                assert(ps1.last().ids@ =~= seq![id]);
                assert(ps1.last().ids@.no_duplicates());
                assert forall|t: Seq<char>, x: i64| #[trigger]
                    post_has(ps1, t, x) == (post_has(ps0, t, x) || (t == tok@ && x == id)) by {
                    lemma_post_push(ps0, ps1.last(), t, x);
                    if t == tok@ {
                        lemma_post_absent(ps0, t, x);
                        assert(ps1.last().ids@.contains(x) == (x == id)) by {
                            if ps1.last().ids@.contains(x) {
                                let i = choose|i: int|
                                    0 <= i < ps1.last().ids@.len() && ps1.last().ids@[i] == x;
                            }
                            if x == id {
                                assert(ps1.last().ids@[0] == x);
                            }
                        }
                    }
                }
                assert(posts_wf(ps1)) by {
                    let ks = post_tokens_of(ps1);
                    assert(ks.drop_last() =~= post_tokens_of(ps0));
                    assert(ks.last() == tok@);
                    assert forall|a: int, b: int|
                        0 <= a < b < ks.len() implies ks[a] != ks[b] by {
                        if b == ks.len() - 1 {
                            assert(ps0[a].token@ != tok@);
                            assert(ks[a] == ps0[a].token@);
                        } else {
                            assert(ks[a] == post_tokens_of(ps0)[a]);
                            assert(ks[b] == post_tokens_of(ps0)[b]);
                        }
                    }
                    assert forall|i: int|
                        0 <= i < ps1.len() implies (
                    #[trigger] ps1[i].ids)@.no_duplicates() && ps1[i].ids@.len() > 0 by {
                        if i < ps1.len() - 1 {
                            assert(ps1[i] == ps0[i]);
                        }
                    }
                }
            }
        },
    }
}

/// Removes `id` from the posting of token `tok`, dropping the posting when
/// it empties. Nothing changes when the token has no posting or does not
/// list the id.
pub fn posting_remove(postings: &mut Vec<Posting>, tok: &str, id: i64)
    requires
        posts_wf(old(postings)@),
    ensures
        posts_wf(final(postings)@),
        forall|t: Seq<char>, x: i64| #[trigger]
            post_has(final(postings)@, t, x) == (post_has(old(postings)@, t, x) && !(t == tok@ && x
                == id)),
{
    let ghost ps0 = postings@;
    match find_posting(postings, tok) {
        Some(j) => {
            let mut ids = Vec::new();
            std::mem::swap(&mut ids, &mut postings[j].ids);
            let ghost ids0 = ids@;
            let pos = ids_index_of(&ids, id);
            match pos {
                Some(k) => {
                    proof {
                        lemma_remove_distinct(ids0, k as int, id);
                    }
                    ids.remove(k);
                },
                None => {
                    proof {
                        assert(!ids0.contains(id)) by {
                            if ids0.contains(id) {
                                let i = choose|i: int| 0 <= i < ids0.len() && ids0[i] == id;
                            }
                        }
                    }
                },
            }
            let ghost ids1 = ids@;
            proof {
                assert forall|x: i64| ids1.contains(x) == (ids0.contains(x) && x != id) by {
                    if pos is Some {
                        let k = pos->Some_0;
                        lemma_remove_distinct(ids0, k as int, x);
                        assert(ids0[k as int] == id);
                    } else {
                        if ids0.contains(x) && x == id {
                            assert(false);
                        }
                    }
                }
                assert(ids1.no_duplicates()) by {
                    if pos is Some {
                        lemma_remove_distinct(ids0, pos->Some_0 as int, id);
                    }
                }
            }
            if ids.len() == 0 {
                // the posting emptied: drop it (ids was swapped out already)
                let mut empty_ids = ids;
                std::mem::swap(&mut empty_ids, &mut postings[j].ids);
                postings.remove(j);
                proof {
                    assert(postings@ =~= ps0.remove(j as int));
                    assert forall|t: Seq<char>, x: i64| #[trigger]
                        post_has(postings@, t, x) == (post_has(ps0, t, x) && !(t == tok@ && x
                            == id)) by {
                        lemma_post_remove(ps0, j as int, t, x);
                        if t == ps0[j as int].token@ {
                            lemma_post_at(ps0, j as int, x);
                            assert(ids0.contains(x) == (x == id)) by {
                                if ids0.contains(x) && x != id {
                                    assert(ids1.contains(x));
                                    assert(ids1.len() == 0);
                                }
                                if x == id && !ids0.contains(x) {
                                    assert(ids1.len() == ids0.len());
                                    assert(ids0.len() > 0);
                                    assert(ids1.contains(ids0[0]) == (ids0.contains(ids0[0])
                                        && ids0[0] != id));
                                    assert(ids0.contains(ids0[0]));
                                }
                            }
                        }
                    }
                    assert(posts_wf(postings@)) by {
                        assert(post_tokens_of(postings@) =~= post_tokens_of(ps0).remove(
                            j as int,
                        ));
                        lemma_remove_keeps_no_dup(post_tokens_of(ps0), j as int);
                        assert forall|i: int|
                            0 <= i < postings@.len() implies (
                        #[trigger] postings@[i].ids)@.no_duplicates() && postings@[i].ids@.len()
                            > 0 by {
                            if i < j as int {
                                assert(postings@[i] == ps0[i]);
                            } else {
                                assert(postings@[i] == ps0[i + 1]);
                            }
                        }
                    }
                }
            } else {
                std::mem::swap(&mut ids, &mut postings[j].ids);
                proof {
                    let p = postings@[j as int];
                    assert(p.token@ == ps0[j as int].token@);
                    assert(p.ids@ == ids1);
                    assert(postings@ =~= ps0.update(j as int, p));
                    assert forall|t: Seq<char>, x: i64| #[trigger]
                        post_has(postings@, t, x) == (post_has(ps0, t, x) && !(t == tok@ && x
                            == id)) by {
                        lemma_post_update(ps0, j as int, p, t, x);
                        if t == p.token@ {
                            lemma_post_at(ps0, j as int, x);
                        }
                    }
                    assert(posts_wf(postings@)) by {
                        assert(post_tokens_of(postings@) =~= post_tokens_of(ps0));
                        assert forall|i: int|
                            0 <= i < postings@.len() implies (
                        #[trigger] postings@[i].ids)@.no_duplicates() && postings@[i].ids@.len()
                            > 0 by {
                            if i != j as int {
                                assert(postings@[i] == ps0[i]);
                            }
                        }
                    }
                }
            }
        },
        None => {
            proof {
                assert forall|t: Seq<char>, x: i64| #[trigger]
                    post_has(postings@, t, x) == (post_has(ps0, t, x) && !(t == tok@ && x
                        == id)) by {
                    if t == tok@ {
                        lemma_post_absent(ps0, t, x);
                    }
                }
            }
        },
    }
}

} // verus!
