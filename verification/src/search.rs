//! Query evaluation: candidate resolution over posting lists, per-document
//! relevance scoring, and ranked, truncated results.

use crate::engine::FullTextSearch;
use crate::record::FreqRecord;
use crate::score::{
    acc_fixed_spec, idf_fixed, is_sqrt_floor, log10_fixed, match_count_spec, sat_add_u128,
    sat_mul_u128, score_fixed_spec, sqrt_fixed, SCALE,
};
use crate::tokenizer::Tokenizer;
use vstd::prelude::*;

verus! {

impl<T: Tokenizer> FullTextSearch<T> {
    /// The relevance score of document `id` against the query tokens
    /// `toks`: the fixed-point TF-IDF formula over the document's term
    /// frequencies, the tokens' document frequencies, the document's
    /// length, and the index size.
    pub open spec fn spec_score(&self, toks: Seq<Seq<char>>, id: i64) -> int {
        score_fixed_spec(
            Seq::new(toks.len(), |k: int| self.spec_tf(id, toks[k])),
            Seq::new(toks.len(), |k: int| self.posting_set(toks[k]).len() as int),
            self.spec_total_terms(id),
            self.spec_doc_count(),
        )
    }

    /// The documents a query with tokens `toks` considers: with partial
    /// matching the union of the tokens' posting sets, otherwise their
    /// intersection.
    pub open spec fn spec_candidates(&self, toks: Seq<Seq<char>>, partial: bool) -> Set<i64> {
        if partial {
            Set::new(|x: i64| exists|k: int| 0 <= k < toks.len() && self.spec_tf(x, toks[k]) > 0)
        } else {
            Set::new(|x: i64| forall|k: int| 0 <= k < toks.len() ==> self.spec_tf(x, toks[k]) > 0)
        }
    }
}

/// Computes a document's relevance score from its record, the query
/// tokens, their document frequencies, and the index size, exactly as
/// `score_fixed_spec` states it.
pub fn score_doc(rec: &FreqRecord, tokens: &Vec<String>, dfs: &Vec<u64>, doc_count: u64) -> (r:
    u128)
    requires
        rec.wf(),
        dfs@.len() == tokens@.len(),
    ensures
        r as int == score_fixed_spec(
            Seq::new(tokens.deep_view().len(), |k: int| rec.spec_tf(tokens.deep_view()[k])),
            Seq::new(dfs@.len(), |k: int| dfs@[k] as int),
            rec.spec_total(),
            doc_count as int,
        ),
{
    let ghost tfs = Seq::new(
        tokens.deep_view().len(),
        |k: int| rec.spec_tf(tokens.deep_view()[k]),
    );
    let ghost dfs_i = Seq::new(dfs@.len(), |k: int| dfs@[k] as int);
    let n = tokens.len();
    proof {
        assert(tokens.deep_view().len() == tokens@.len());
        assert(tfs.take(0) =~= Seq::<int>::empty());
        assert(dfs_i.take(0) =~= Seq::<int>::empty());
    }
    let mut acc: u128 = 0;
    let mut matched: u64 = 0;
    let mut k: usize = 0;
    while k < n
        invariant
            k <= n,
            n == tokens@.len(),
            dfs@.len() == tokens@.len(),
            rec.wf(),
            tfs == Seq::new(
                tokens.deep_view().len(),
                |k: int| rec.spec_tf(tokens.deep_view()[k]),
            ),
            dfs_i == Seq::new(dfs@.len(), |k: int| dfs@[k] as int),
            tfs.len() == n,
            dfs_i.len() == n,
            acc as int == acc_fixed_spec(tfs.take(k as int), dfs_i.take(k as int), doc_count as int),
            matched as int == match_count_spec(tfs.take(k as int)),
            matched <= k,
        decreases n - k,
    {
        proof {
            assert(tfs.take(k + 1).drop_last() =~= tfs.take(k as int));
            assert(dfs_i.take(k + 1).drop_last() =~= dfs_i.take(k as int));
            assert(tfs.take(k + 1).last() == tfs[k as int]);
            assert(dfs_i.take(k + 1).last() == dfs_i[k as int]);
            assert(tokens.deep_view()[k as int] == tokens@[k as int]@);
        }
        let tf = rec.get_count(tokens[k].as_str());
        let df = dfs[k];
        if tf > 0 {
            let l = log10_fixed(tf);
            let idf = idf_fixed(doc_count, df);
            proof {
                assert((SCALE as int + l as int) * (idf as int) < 0x4000000000000int)
                    by (nonlinear_arith)
                    requires
                        SCALE == 1048576u64,
                        l < 20 * SCALE,
                        idf < 20 * SCALE,
                ;
                assert((SCALE as int + l as int) * (idf as int) >= 0) by (nonlinear_arith)
                    requires
                        l >= 0,
                        idf >= 0,
                        SCALE == 1048576u64,
                ;
            }
            let term: u128 = (SCALE as u128 + l as u128) * (idf as u128);
            acc = sat_add_u128(acc, term);
            matched = matched + 1;
        } else {
            // a missing token contributes nothing
            proof {
                assert(acc_fixed_spec(tfs.take(k + 1), dfs_i.take(k + 1), doc_count as int)
                    == acc as int);
            }
        }
        k = k + 1;
    }
    proof {
        assert(tfs.take(n as int) =~= tfs);
        assert(dfs_i.take(n as int) =~= dfs_i);
    }
    let total = rec.total_count();
    let normalized: u128 = if total > 0 {
        let sq = sqrt_fixed(total);
        proof {
            assert(sq >= 1) by (nonlinear_arith)
                requires
                    is_sqrt_floor(total as int * SCALE as int * SCALE as int, sq as int),
                    total >= 1,
                    SCALE == 1048576u64,
            ;
        }
        sat_mul_u128(acc, SCALE as u128) / (sq as u128)
    } else {
        acc
    };
    if n == 0 {
        return 0;
    }
    let m128: u128 = matched as u128;
    let q128: u128 = n as u128;
    if 1000 * m128 > 999 * q128 {
        sat_mul_u128(normalized, 2)
    } else {
        let cov: u128 = (m128 * SCALE as u128) / q128;
        sat_mul_u128(normalized, cov) / (SCALE as u128)
    }
}

/// Copies an id list.
pub fn copy_ids(v: &Vec<i64>) -> (r: Vec<i64>)
    ensures
        r@ == v@,
{
    let mut out: Vec<i64> = Vec::new();
    let mut i: usize = 0;
    while i < v.len()
        invariant
            i <= v@.len(),
            out@ =~= v@.take(i as int),
        decreases v@.len() - i,
    {
        out.push(v[i]);
        proof {
            assert(out@ =~= v@.take(i + 1));
        }
        i = i + 1;
    }
    proof {
        assert(v@.take(i as int) =~= v@);
    }
    out
}

/// Resolves the candidate ids of a query from the tokens' posting lists:
/// their union under partial matching, their intersection otherwise. The
/// result lists each candidate once.
pub fn merge_candidates(lists: &Vec<Vec<i64>>, partial: bool) -> (r: Vec<i64>)
    requires
        forall|k: int| 0 <= k < lists@.len() ==> (#[trigger] lists@[k])@.no_duplicates(),
    ensures
        r@.no_duplicates(),
        partial ==> forall|x: i64| #[trigger]
            r@.contains(x) <==> exists|k: int|
                0 <= k < lists@.len() && (#[trigger] lists@[k])@.contains(x),
        !partial && lists@.len() > 0 ==> forall|x: i64| #[trigger]
            r@.contains(x) <==> forall|k: int|
                0 <= k < lists@.len() ==> (#[trigger] lists@[k])@.contains(x),
        !partial && lists@.len() == 0 ==> r@.len() == 0,
{
    if partial {
        let mut out: Vec<i64> = Vec::new();
        let mut k: usize = 0;
        while k < lists.len()
            invariant
                k <= lists@.len(),
                out@.no_duplicates(),
                forall|x: i64| #[trigger]
                    out@.contains(x) <==> exists|l: int|
                        0 <= l < k && (#[trigger] lists@[l])@.contains(x),
            decreases lists@.len() - k,
        {
            let mut j: usize = 0;
            let n = lists[k].len();
            while j < n
                invariant
                    k < lists@.len(),
                    j <= n,
                    n == lists@[k as int]@.len(),
                    out@.no_duplicates(),
                    forall|x: i64| #[trigger]
                        out@.contains(x) <==> (exists|l: int|
                            0 <= l < k && (#[trigger] lists@[l])@.contains(x)) || lists@[
                            k as int
                        ]@.take(j as int).contains(x),
                decreases n - j,
            {
                let e = lists[k][j];
                proof {
                    assert(lists@[k as int]@.take(j + 1).drop_last() =~= lists@[
                        k as int
                    ]@.take(j as int));
                    assert(lists@[k as int]@.take(j + 1).last() == e);
                }
                if !crate::store::ids_contain(&out, e) {
                    let ghost out0 = out@;
                    out.push(e);
                    proof {
                        assert(out@.drop_last() =~= out0);
                        assert forall|a: int, b: int|
                            0 <= a < b < out@.len() implies out@[a] != out@[b] by {
                            if b == out@.len() - 1 {
                                assert(out0.contains(out0[a]));
                            }
                        }
                        assert forall|x: i64| #[trigger]
                            out@.contains(x) == (out0.contains(x) || x == e) by {
                            if out@.contains(x) {
                                let i = choose|i: int| 0 <= i < out@.len() && out@[i] == x;
                                if i < out@.len() - 1 {
                                    assert(out0[i] == x);
                                }
                            }
                            if out0.contains(x) {
                                let i = choose|i: int| 0 <= i < out0.len() && out0[i] == x;
                                assert(out@[i] == x);
                            }
                            if x == e {
                                assert(out@[out@.len() - 1] == x);
                            }
                        }
                    }
                }
                proof {
                    let lk = lists@[k as int]@;
                    assert forall|x: i64|
                        lk.take(j + 1).contains(x) == (lk.take(j as int).contains(x) || x
                            == e) by {
                        if lk.take(j + 1).contains(x) && x != e {
                            let i = choose|i: int|
                                0 <= i < j + 1 && #[trigger] lk.take(j + 1)[i] == x;
                            if i < j {
                                assert(lk.take(j as int)[i] == x);
                            }
                        }
                        if lk.take(j as int).contains(x) {
                            let i = choose|i: int|
                                0 <= i < j && #[trigger] lk.take(j as int)[i] == x;
                            assert(lk.take(j + 1)[i] == x);
                        }
                        if x == e {
                            assert(lk.take(j + 1)[j as int] == x);
                        }
                    }
                }
                j = j + 1;
            }
            proof {
                assert(lists@[k as int]@.take(n as int) =~= lists@[k as int]@);
                assert forall|x: i64| #[trigger]
                    out@.contains(x) <==> exists|l: int|
                        0 <= l < k + 1 && (#[trigger] lists@[l])@.contains(x) by {
                    if out@.contains(x) {
                        if exists|l: int| 0 <= l < k && (#[trigger] lists@[l])@.contains(x) {
                        } else {
                            assert(lists@[k as int]@.contains(x));
                        }
                    }
                }
            }
            k = k + 1;
        }
        out
    } else {
        if lists.len() == 0 {
            let out: Vec<i64> = Vec::new();
            return out;
        }
        let mut out: Vec<i64> = copy_ids(&lists[0]);
        proof {
            assert(out@.no_duplicates());
            assert forall|x: i64| #[trigger]
                out@.contains(x) <==> forall|l: int|
                    0 <= l < 1 ==> (#[trigger] lists@[l])@.contains(x) by {
                if forall|l: int| 0 <= l < 1 ==> (#[trigger] lists@[l])@.contains(x) {
                    assert(lists@[0]@.contains(x));
                }
            }
        }
        let mut k: usize = 1;
        while k < lists.len()
            invariant
                1 <= k <= lists@.len(),
                out@.no_duplicates(),
                forall|l: int| 0 <= l < lists@.len() ==> (#[trigger] lists@[l])@.no_duplicates(),
                forall|x: i64| #[trigger]
                    out@.contains(x) <==> forall|l: int|
                        0 <= l < k ==> (#[trigger] lists@[l])@.contains(x),
            decreases lists@.len() - k,
        {
            let ghost out_prev = out@;
            let mut kept: Vec<i64> = Vec::new();
            let mut j: usize = 0;
            let n = out.len();
            while j < n
                invariant
                    k < lists@.len(),
                    j <= n,
                    n == out_prev.len(),
                    out@ == out_prev,
                    out_prev.no_duplicates(),
                    kept@.no_duplicates(),
                    forall|x: i64| #[trigger]
                        kept@.contains(x) <==> (out_prev.take(j as int).contains(x) && lists@[
                            k as int
                        ]@.contains(x)),
                decreases n - j,
            {
                let e = out[j];
                proof {
                    assert(out_prev.take(j + 1).drop_last() =~= out_prev.take(j as int));
                    assert(out_prev.take(j + 1).last() == e);
                    assert(!out_prev.take(j as int).contains(e)) by {
                        if out_prev.take(j as int).contains(e) {
                            let i = choose|i: int|
                                0 <= i < j && #[trigger] out_prev.take(j as int)[i] == e;
                            assert(out_prev[i] == out_prev[j as int]);
                        }
                    }
                }
                if crate::store::ids_contain(&lists[k], e) {
                    let ghost kept0 = kept@;
                    kept.push(e);
                    proof {
                        assert(kept@.drop_last() =~= kept0);
                        assert forall|a: int, b: int|
                            0 <= a < b < kept@.len() implies kept@[a] != kept@[b] by {
                            if b == kept@.len() - 1 {
                                assert(kept0.contains(kept0[a]));
                                assert(out_prev.take(j as int).contains(kept0[a]));
                            }
                        }
                        assert forall|x: i64| #[trigger]
                            kept@.contains(x) == (kept0.contains(x) || x == e) by {
                            if kept@.contains(x) {
                                let i = choose|i: int| 0 <= i < kept@.len() && kept@[i] == x;
                                if i < kept@.len() - 1 {
                                    assert(kept0[i] == x);
                                }
                            }
                            if kept0.contains(x) {
                                let i = choose|i: int| 0 <= i < kept0.len() && kept0[i] == x;
                                assert(kept@[i] == x);
                            }
                            if x == e {
                                assert(kept@[kept@.len() - 1] == x);
                            }
                        }
                    }
                }
                proof {
                    assert forall|x: i64|
                        out_prev.take(j + 1).contains(x) == (out_prev.take(j as int).contains(x)
                            || x == e) by {
                        if out_prev.take(j + 1).contains(x) && x != e {
                            let i = choose|i: int|
                                0 <= i < j + 1 && #[trigger] out_prev.take(j + 1)[i] == x;
                            if i < j {
                                assert(out_prev.take(j as int)[i] == x);
                            }
                        }
                        if out_prev.take(j as int).contains(x) {
                            let i = choose|i: int|
                                0 <= i < j && #[trigger] out_prev.take(j as int)[i] == x;
                            assert(out_prev.take(j + 1)[i] == x);
                        }
                        if x == e {
                            assert(out_prev.take(j + 1)[j as int] == x);
                        }
                    }
                }
                j = j + 1;
            }
            out = kept;
            proof {
                assert(out_prev.take(n as int) =~= out_prev);
                assert forall|x: i64| #[trigger]
                    out@.contains(x) <==> forall|l: int|
                        0 <= l < k + 1 ==> (#[trigger] lists@[l])@.contains(x) by {
                    if out@.contains(x) {
                        assert(out_prev.contains(x) && lists@[k as int]@.contains(x));
                        assert forall|l: int|
                            0 <= l < k + 1 implies (#[trigger] lists@[l])@.contains(x) by {
                            if l < k {
                                assert(out_prev.contains(x));
                            }
                        }
                    }
                    if forall|l: int| 0 <= l < k + 1 ==> (#[trigger] lists@[l])@.contains(x) {
                        assert(forall|l: int|
                            0 <= l < k ==> (#[trigger] lists@[l])@.contains(x));
                        assert(out_prev.contains(x));
                        assert(lists@[k as int]@.contains(x));
                    }
                }
            }
            k = k + 1;
        }
        out
    }
}

/// Sorts scored results by descending score. Ids stay distinct and the
/// multiset of entries is preserved; the order of equal scores is
/// unspecified.
pub fn sort_ranked(input: Vec<(i64, u128)>) -> (r: Vec<(i64, u128)>)
    requires
        input@.map_values(|p: (i64, u128)| p.0).no_duplicates(),
    ensures
        r@.to_multiset() == input@.to_multiset(),
        r@.map_values(|p: (i64, u128)| p.0).no_duplicates(),
        forall|i: int, j: int| 0 <= i < j < r@.len() ==> r@[i].1 >= r@[j].1,
        r@.len() == input@.len(),
{
    let ghost orig = input@;
    let mut rest = input;
    let mut out: Vec<(i64, u128)> = Vec::new();
    proof {
        out@.to_multiset_ensures();
        rest@.to_multiset_ensures();
        assert(out@.to_multiset().add(rest@.to_multiset()) =~= orig.to_multiset()) by {
            assert(out@.to_multiset().len() == 0);
            assert(out@.to_multiset().add(rest@.to_multiset()) =~= rest@.to_multiset());
        }
        assert(out@.map_values(|p: (i64, u128)| p.0) =~= Seq::<i64>::empty());
        assert forall|i: int, j: int|
            0 <= i < j < rest@.len() implies rest@[i].0 != rest@[j].0 by {
            let ids = orig.map_values(|p: (i64, u128)| p.0);
            assert(ids[i] == orig[i].0);
            assert(ids[j] == orig[j].0);
        }
    }
    while rest.len() > 0
        invariant
            out@.to_multiset().add(rest@.to_multiset()) == orig.to_multiset(),
            out@.len() + rest@.len() == orig.len(),
            orig.map_values(|p: (i64, u128)| p.0).no_duplicates(),
            forall|i: int, j: int| 0 <= i < j < out@.len() ==> out@[i].1 >= out@[j].1,
            forall|i: int, j: int|
                0 <= i < out@.len() && 0 <= j < rest@.len() ==> out@[i].1 >= rest@[j].1,
            forall|i: int, j: int|
                0 <= i < out@.len() && 0 <= j < rest@.len() ==> out@[i].0 != rest@[j].0,
            forall|i: int, j: int| 0 <= i < j < out@.len() ==> out@[i].0 != out@[j].0,
            forall|i: int, j: int| 0 <= i < j < rest@.len() ==> rest@[i].0 != rest@[j].0,
        decreases rest@.len(),
    {
        // position of the highest remaining score
        let mut m: usize = 0;
        let mut j: usize = 1;
        while j < rest.len()
            invariant
                m < j <= rest@.len() || (j <= rest@.len() && m == 0),
                m < rest@.len(),
                forall|i: int| 0 <= i < j ==> rest@[m as int].1 >= rest@[i].1,
            decreases rest@.len() - j,
        {
            if rest[j].1 > rest[m].1 {
                m = j;
            }
            j = j + 1;
        }
        let ghost rest0 = rest@;
        let ghost out0 = out@;
        let e = rest.remove(m);
        out.push(e);
        proof {
            rest0.to_multiset_ensures();
            out0.to_multiset_ensures();
            assert(rest@ == rest0.remove(m as int));
            assert(e == rest0[m as int]);
            assert(rest0.remove(m as int).to_multiset() =~= rest0.to_multiset().remove(e));
            assert(out@ == out0.push(e));
            assert(out@.to_multiset() =~= out0.to_multiset().insert(e));
            assert(rest0.to_multiset().contains(e)) by {
                assert(rest0.contains(e));
                assert(rest0.to_multiset().count(e) > 0);
            }
            assert(out@.to_multiset().add(rest@.to_multiset()) =~= out0.to_multiset().add(
                rest0.to_multiset(),
            ));
            // sortedness and distinctness are index facts over push/remove
            assert forall|i: int, j2: int|
                0 <= i < out@.len() && 0 <= j2 < rest@.len() implies out@[i].1 >= rest@[j2].1
                && out@[i].0 != rest@[j2].0 by {
                if j2 < m as int {
                    assert(rest@[j2] == rest0[j2]);
                } else {
                    assert(rest@[j2] == rest0[j2 + 1]);
                }
                if i < out@.len() - 1 {
                    assert(out@[i] == out0[i]);
                }
            }
            assert forall|i: int, j2: int|
                0 <= i < j2 < rest@.len() implies rest@[i].0 != rest@[j2].0 by {
                if j2 < m as int {
                } else if i < m as int {
                    assert(rest@[j2] == rest0[j2 + 1]);
                } else {
                    assert(rest@[i] == rest0[i + 1]);
                    assert(rest@[j2] == rest0[j2 + 1]);
                }
            }
        }
    }
    proof {
        rest@.to_multiset_ensures();
        assert(rest@.to_multiset().len() == 0);
        assert(out@.to_multiset() =~= out@.to_multiset().add(rest@.to_multiset()));
        let ids = out@.map_values(|p: (i64, u128)| p.0);
        assert forall|a: int, b: int| 0 <= a < b < ids.len() implies ids[a] != ids[b] by {
            assert(ids[a] == out@[a].0);
            assert(ids[b] == out@[b].0);
        }
    }
    out
}

} // verus!
