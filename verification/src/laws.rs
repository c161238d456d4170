//! The library's laws: properties that tie the index operations together,
//! stated over the engine's model and proved once and for all. Each holds
//! for every engine state the operations' contracts describe.

use crate::engine::FullTextSearch;
use crate::record::{count_of, lemma_count_of_positive};
use crate::tokenizer::Tokenizer;
use vstd::prelude::*;

verus! {

/// Law (round trip): in a state where document `id`'s term frequencies are
/// the counts of a token list containing `t` — the state `index(id, text)`
/// leaves behind for any text whose surviving tokens are that list — the
/// document lies in `t`'s posting set, and a single-token query for `t`
/// (exact or partial) has it among its candidates. With `search`'s
/// contract, `search` on that token returns the document.
pub proof fn lemma_round_trip<T: Tokenizer>(
    m: FullTextSearch<T>,
    id: i64,
    toks: Seq<Seq<char>>,
    t: Seq<char>,
)
    requires
        toks.contains(t),
        m.spec_tf(id, t) == count_of(toks, t),
    ensures
        m.posting_set(t).contains(id),
        m.spec_candidates(seq![t], false).contains(id),
        m.spec_candidates(seq![t], true).contains(id),
{
    lemma_count_of_positive(toks, t);
    assert(m.spec_tf(id, t) > 0);
    assert(seq![t][0] == t);
    assert forall|k: int| 0 <= k < seq![t].len() implies m.spec_tf(id, seq![t][k]) > 0 by {
        assert(seq![t][k] == t);
    }
}

/// Law (reindex replaces, not accumulates): in a state where document
/// `id`'s term frequencies are the counts of a token list that does not
/// contain `t` — the state `reindex(id, text)` leaves behind when `t` only
/// occurred in the old text — the document is out of `t`'s posting set and
/// is no candidate of a single-token query for `t`.
pub proof fn lemma_reindex_replaces<T: Tokenizer>(
    m: FullTextSearch<T>,
    id: i64,
    toks: Seq<Seq<char>>,
    t: Seq<char>,
)
    requires
        !toks.contains(t),
        m.spec_tf(id, t) == count_of(toks, t),
    ensures
        !m.posting_set(t).contains(id),
        !m.spec_candidates(seq![t], false).contains(id),
        !m.spec_candidates(seq![t], true).contains(id),
{
    lemma_count_of_positive(toks, t);
    assert(m.spec_tf(id, t) == 0);
    assert(!m.spec_candidates(seq![t], false).contains(id)) by {
        if m.spec_candidates(seq![t], false).contains(id) {
            assert(m.spec_tf(id, seq![t][0]) > 0);
        }
    }
    assert(!m.spec_candidates(seq![t], true).contains(id)) by {
        if m.spec_candidates(seq![t], true).contains(id) {
            let k = choose|k: int|
                0 <= k < seq![t].len() && m.spec_tf(id, #[trigger] seq![t][k]) > 0;
            assert(seq![t][k] == t);
        }
    }
}

/// Law (deindex fully removes): a document whose every term frequency is
/// zero — the state `deindex(id)` leaves behind — is in no posting set and
/// is a candidate of no query at all.
pub proof fn lemma_deindex_removes<T: Tokenizer>(m: FullTextSearch<T>, id: i64)
    requires
        forall|u: Seq<char>| #[trigger] m.spec_tf(id, u) == 0,
    ensures
        forall|u: Seq<char>| !(#[trigger] m.posting_set(u).contains(id)),
        forall|toks: Seq<Seq<char>>, partial: bool|
            toks.len() > 0 ==> !(#[trigger] m.spec_candidates(toks, partial).contains(id)),
{
    assert forall|toks: Seq<Seq<char>>, partial: bool|
        toks.len() > 0 implies !(#[trigger] m.spec_candidates(toks, partial).contains(id)) by {
        if m.spec_candidates(toks, partial).contains(id) {
            if partial {
                let k = choose|k: int|
                    0 <= k < toks.len() && m.spec_tf(id, #[trigger] toks[k]) > 0;
                assert(m.spec_tf(id, toks[k]) == 0);
            } else {
                assert(m.spec_tf(id, toks[0]) > 0);
            }
        }
    }
}

/// Law (an unindexed document is absent everywhere): a document that is
/// not indexed has zero frequency for every token, lies in no posting
/// set, and is a candidate of no query. Together with `index`'s contract
/// this frames a fresh indexing: for a token outside the new text, the
/// document was in its posting set neither before nor after.
pub proof fn lemma_unindexed_is_absent<T: Tokenizer>(m: FullTextSearch<T>, id: i64)
    requires
        !m.spec_indexed(id),
    ensures
        forall|t: Seq<char>| #[trigger] m.spec_tf(id, t) == 0,
        forall|t: Seq<char>| !(#[trigger] m.posting_set(t).contains(id)),
        forall|toks: Seq<Seq<char>>, partial: bool|
            toks.len() > 0 ==> !(#[trigger] m.spec_candidates(toks, partial).contains(id)),
{
    m.lemma_unindexed_tf_zero(id);
    lemma_deindex_removes(m, id);
}

/// Law (indexing frames other tokens): in the state left by indexing a
/// previously unindexed document — its frequencies are the new counts,
/// every other document's are untouched — a token outside the new text
/// has exactly the posting set it had before.
pub proof fn lemma_index_frame<T: Tokenizer>(
    pre: FullTextSearch<T>,
    post: FullTextSearch<T>,
    id: i64,
    toks: Seq<Seq<char>>,
    t: Seq<char>,
)
    requires
        !pre.spec_indexed(id),
        !toks.contains(t),
        post.spec_tf(id, t) == count_of(toks, t),
        forall|x: i64| x != id ==> #[trigger] post.spec_tf(x, t) == pre.spec_tf(x, t),
    ensures
        post.posting_set(t) =~= pre.posting_set(t),
{
    pre.lemma_unindexed_tf_zero(id);
    lemma_count_of_positive(toks, t);
    assert forall|x: i64|
        post.posting_set(t).contains(x) == pre.posting_set(t).contains(x) by {
        if x == id {
            assert(post.spec_tf(id, t) == 0);
            assert(pre.spec_tf(id, t) == 0);
        }
    }
}

/// Law (single-token queries): for a one-token query the exact and the
/// partial candidate sets coincide — the intersection of one posting set
/// is that set itself — and both equal the token's posting set.
pub proof fn lemma_single_token_candidates<T: Tokenizer>(m: FullTextSearch<T>, t: Seq<char>)
    ensures
        m.spec_candidates(seq![t], true) =~= m.posting_set(t),
        m.spec_candidates(seq![t], false) =~= m.posting_set(t),
{
    assert forall|x: i64| m.spec_candidates(seq![t], true).contains(x) <==> m.posting_set(
        t,
    ).contains(x) by {
        if m.spec_candidates(seq![t], true).contains(x) {
            let k = choose|k: int| 0 <= k < seq![t].len() && m.spec_tf(x, #[trigger] seq![t][k])
                > 0;
            assert(seq![t][k] == t);
        }
        if m.posting_set(t).contains(x) {
            assert(m.spec_tf(x, seq![t][0]) > 0);
        }
    }
    assert forall|x: i64| m.spec_candidates(seq![t], false).contains(x) <==> m.posting_set(
        t,
    ).contains(x) by {
        if m.spec_candidates(seq![t], false).contains(x) {
            assert(m.spec_tf(x, seq![t][0]) > 0);
        }
        if m.posting_set(t).contains(x) {
            assert forall|k: int| 0 <= k < seq![t].len() implies m.spec_tf(x, #[trigger] seq![
                t,
            ][k]) > 0 by {
                assert(seq![t][k] == t);
            }
        }
    }
}

} // verus!
