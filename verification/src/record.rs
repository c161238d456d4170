//! Per-document term-frequency records: which tokens a document contains,
//! each with a positive occurrence count.

use crate::text::str_eq_str;
use vstd::prelude::*;

verus! {

/// One token of a document together with its occurrence count.
pub struct TokenCount {
    pub token: String,
    pub count: u64,
}

/// How many of the tokens in `ts` equal `t`.
pub open spec fn count_of(ts: Seq<Seq<char>>, t: Seq<char>) -> int
    decreases ts.len(),
{
    if ts.len() == 0 {
        0
    } else {
        count_of(ts.drop_last(), t) + if ts.last() == t {
            1int
        } else {
            0int
        }
    }
}

/// The count recorded for `t` in an entry list, 0 when `t` has no entry.
pub open spec fn tf_of(s: Seq<TokenCount>, t: Seq<char>) -> int
    decreases s.len(),
{
    if s.len() == 0 {
        0
    } else if s.last().token@ == t {
        s.last().count as int
    } else {
        tf_of(s.drop_last(), t)
    }
}

/// The sum of the counts of an entry list.
pub open spec fn total_of(s: Seq<TokenCount>) -> int
    decreases s.len(),
{
    if s.len() == 0 {
        0
    } else {
        total_of(s.drop_last()) + s.last().count
    }
}

/// The tokens of an entry list, in order.
pub open spec fn keys_of(s: Seq<TokenCount>) -> Seq<Seq<char>> {
    s.map_values(|tc: TokenCount| tc.token@)
}

/// A document's term-frequency record.
pub struct FreqRecord {
    pub entries: Vec<TokenCount>,
}

impl FreqRecord {
    /// Each token appears in at most one entry, every count is positive,
    /// and the counts sum to at most `u64::MAX`.
    pub open spec fn wf(self) -> bool {
        &&& keys_of(self.entries@).no_duplicates()
        &&& forall|i: int| 0 <= i < self.entries@.len() ==> self.entries@[i].count >= 1
        &&& total_of(self.entries@) <= u64::MAX
    }

    /// The recorded frequency of `t`, 0 when absent.
    pub open spec fn spec_tf(self, t: Seq<char>) -> int {
        tf_of(self.entries@, t)
    }

    /// The sum of all recorded frequencies.
    pub open spec fn spec_total(self) -> int {
        total_of(self.entries@)
    }
}

/// A token occurs a positive number of times exactly when it is one of
/// the tokens.
pub proof fn lemma_count_of_positive(ts: Seq<Seq<char>>, t: Seq<char>)
    ensures
        count_of(ts, t) > 0 <==> ts.contains(t),
        count_of(ts, t) >= 0,
    decreases ts.len(),
{
    if ts.len() > 0 {
        lemma_count_of_positive(ts.drop_last(), t);
        if ts.last() == t {
            assert(ts[ts.len() - 1] == t);
        } else {
            assert(ts.drop_last().contains(t) <==> ts.contains(t)) by {
                if ts.contains(t) {
                    let i = choose|i: int| 0 <= i < ts.len() && ts[i] == t;
                    assert(ts.drop_last()[i] == t);
                }
                if ts.drop_last().contains(t) {
                    let i = choose|i: int| 0 <= i < ts.len() - 1 && ts.drop_last()[i] == t;
                    assert(ts[i] == t);
                }
            }
        }
    }
}

/// Recorded frequencies are never negative.
pub proof fn lemma_tf_nonneg(s: Seq<TokenCount>, t: Seq<char>)
    ensures
        tf_of(s, t) >= 0,
    decreases s.len(),
{
    if s.len() > 0 && s.last().token@ != t {
        lemma_tf_nonneg(s.drop_last(), t);
    }
}

/// The counts of an entry list sum to something non-negative.
pub proof fn lemma_total_nonneg(s: Seq<TokenCount>)
    ensures
        total_of(s) >= 0,
    decreases s.len(),
{
    if s.len() > 0 {
        lemma_total_nonneg(s.drop_last());
    }
}

/// A count recorded at some entry is at most the sum of all counts.
pub proof fn lemma_count_le_total(s: Seq<TokenCount>, i: int)
    requires
        0 <= i < s.len(),
    ensures
        s[i].count <= total_of(s),
    decreases s.len(),
{
    if i == s.len() - 1 {
        lemma_total_nonneg(s.drop_last());
    } else {
        lemma_count_le_total(s.drop_last(), i);
        assert(s.drop_last()[i] == s[i]);
    }
}

/// With positive counts, the recorded frequency of `t` is positive exactly
/// when some entry carries `t`.
pub proof fn lemma_tf_positive_iff(s: Seq<TokenCount>, t: Seq<char>)
    requires
        forall|i: int| 0 <= i < s.len() ==> s[i].count >= 1,
    ensures
        tf_of(s, t) > 0 <==> exists|i: int| 0 <= i < s.len() && s[i].token@ == t,
    decreases s.len(),
{
    if s.len() > 0 {
        lemma_tf_positive_iff(s.drop_last(), t);
        if s.last().token@ == t {
            assert(s[s.len() - 1].token@ == t);
        } else {
            assert((exists|i: int| 0 <= i < s.drop_last().len() && s.drop_last()[i].token@ == t)
                <==> exists|i: int| 0 <= i < s.len() && s[i].token@ == t) by {
                if exists|i: int| 0 <= i < s.len() && s[i].token@ == t {
                    let i = choose|i: int| 0 <= i < s.len() && s[i].token@ == t;
                    assert(i < s.len() - 1);
                    assert(s.drop_last()[i].token@ == t);
                }
            }
        }
    }
}

/// With distinct tokens, the recorded frequency of the token at entry `i`
/// is that entry's count.
pub proof fn lemma_tf_at_index(s: Seq<TokenCount>, i: int)
    requires
        keys_of(s).no_duplicates(),
        0 <= i < s.len(),
    ensures
        tf_of(s, s[i].token@) == s[i].count,
    decreases s.len(),
{
    if i < s.len() - 1 {
        assert(keys_of(s)[i] == s[i].token@);
        assert(keys_of(s)[s.len() - 1] == s.last().token@);
        assert(s.last().token@ != s[i].token@);
        assert(keys_of(s.drop_last()) =~= keys_of(s).drop_last());
        lemma_tf_at_index(s.drop_last(), i);
    }
}

/// Extending an entry list with a fresh token records count 1 for it and
/// leaves every other token's count unchanged.
pub proof fn lemma_tf_push(s: Seq<TokenCount>, tc: TokenCount, t: Seq<char>)
    ensures
        tf_of(s.push(tc), t) == if tc.token@ == t {
            tc.count as int
        } else {
            tf_of(s, t)
        },
        total_of(s.push(tc)) == total_of(s) + tc.count,
{
    assert(s.push(tc).drop_last() =~= s);
}

/// Replacing the count at entry `i` (token kept) moves that token's
/// recorded frequency to the new count, leaves other tokens unchanged, and
/// shifts the total by the difference.
pub proof fn lemma_tf_update(s: Seq<TokenCount>, i: int, tc: TokenCount, t: Seq<char>)
    requires
        0 <= i < s.len(),
        tc.token@ == s[i].token@,
        keys_of(s).no_duplicates(),
    ensures
        tf_of(s.update(i, tc), t) == if s[i].token@ == t {
            tc.count as int
        } else {
            tf_of(s, t)
        },
        total_of(s.update(i, tc)) == total_of(s) + tc.count - s[i].count,
        keys_of(s.update(i, tc)) =~= keys_of(s),
    decreases s.len(),
{
    let s2 = s.update(i, tc);
    assert(s2.len() == s.len());
    assert(keys_of(s2) =~= keys_of(s));
    if i == s.len() - 1 {
        assert(s2.last() == tc);
        assert(s2.drop_last() =~= s.drop_last());
        if tc.token@ == t {
            assert(tf_of(s2, t) == tc.count);
        } else {
            assert(tf_of(s2, t) == tf_of(s.drop_last(), t));
            assert(tf_of(s, t) == tf_of(s.drop_last(), t));
        }
    } else {
        assert(s2.last() == s.last());
        assert(s2.drop_last() =~= s.drop_last().update(i, tc));
        assert(keys_of(s.drop_last()) =~= keys_of(s).drop_last());
        assert(keys_of(s.drop_last()).no_duplicates());
        assert(s.drop_last()[i] == s[i]);
        lemma_tf_update(s.drop_last(), i, tc, t);
        assert(keys_of(s)[i] == s[i].token@);
        assert(keys_of(s)[s.len() - 1] == s.last().token@);
        assert(s[i].token@ != s.last().token@);
        if s.last().token@ == t {
            assert(tf_of(s2, t) == s.last().count);
            assert(tf_of(s, t) == s.last().count);
            assert(s[i].token@ != t);
        } else {
            assert(tf_of(s2, t) == tf_of(s.drop_last().update(i, tc), t));
            assert(tf_of(s, t) == tf_of(s.drop_last(), t));
        }
    }
}

/// Finds the entry that carries `tok`, if any.
pub fn find_entry(entries: &Vec<TokenCount>, tok: &str) -> (r: Option<usize>)
    ensures
        match r {
            Some(j) => j < entries@.len() && entries@[j as int].token@ == tok@,
            None => forall|i: int| 0 <= i < entries@.len() ==> entries@[i].token@ != tok@,
        },
{
    let mut j: usize = 0;
    while j < entries.len()
        invariant
            j <= entries@.len(),
            forall|i: int| 0 <= i < j ==> entries@[i].token@ != tok@,
        decreases entries@.len() - j,
    {
        if str_eq_str(entries[j].token.as_str(), tok) {
            return Some(j);
        }
        j = j + 1;
    }
    None
}

impl FreqRecord {
    /// Builds the term-frequency record of a token list: one entry per
    /// distinct token, counting its occurrences.
    pub fn from_tokens(tokens: &Vec<String>) -> (r: FreqRecord)
        ensures
            r.wf(),
            forall|t: Seq<char>| #[trigger] r.spec_tf(t) == count_of(tokens.deep_view(), t),
            r.spec_total() == tokens@.len(),
            r.entries@.len() == 0 <==> tokens@.len() == 0,
    {
        let ghost all = tokens.deep_view();
        let mut entries: Vec<TokenCount> = Vec::new();
        let mut i: usize = 0;
        while i < tokens.len()
            invariant
                i <= tokens@.len(),
                all == tokens.deep_view(),
                all.len() == tokens@.len(),
                forall|k: int| 0 <= k < tokens@.len() ==> all[k] == tokens@[k]@,
                keys_of(entries@).no_duplicates(),
                forall|k: int| 0 <= k < entries@.len() ==> entries@[k].count >= 1,
                forall|t: Seq<char>| #[trigger] tf_of(entries@, t) == count_of(
                    all.take(i as int),
                    t,
                ),
                total_of(entries@) == i,
                entries@.len() <= i,
            decreases tokens@.len() - i,
        {
            let tok = &tokens[i];
            proof {
                assert(all.take(i + 1).drop_last() =~= all.take(i as int));
                assert(all.take(i + 1).last() == tok@);
            }
            match find_entry(&entries, tok.as_str()) {
                Some(j) => {
                    proof {
                        lemma_tf_at_index(entries@, j as int);
                        lemma_count_le_total(entries@, j as int);
                    }
                    let c = entries[j].count;
                    let ghost before = entries@;
                    entries[j] = TokenCount { token: entries[j].token.clone(), count: c + 1 };
                    proof {
                        assert(entries@[j as int].token@ == before[j as int].token@);
                        assert forall|t: Seq<char>| #[trigger] tf_of(entries@, t) == count_of(
                            all.take(i + 1),
                            t,
                        ) by {
                            lemma_tf_update(before, j as int, entries@[j as int], t);
                        }
                        lemma_tf_update(before, j as int, entries@[j as int], tok@);
                    }
                },
                None => {
                    let ghost before = entries@;
                    entries.push(TokenCount { token: tok.clone(), count: 1 });
                    proof {
                        let ks = keys_of(entries@);
                        assert(entries@ == before.push(entries@.last()));
                        assert(ks.drop_last() =~= keys_of(before));
                        assert(ks.last() == tok@);
                        assert forall|a: int, b: int|
                            0 <= a < b < ks.len() implies ks[a] != ks[b] by {
                            if b == ks.len() - 1 {
                                assert(before[a].token@ != tok@);
                                assert(ks[a] == before[a].token@);
                            } else {
                                assert(ks[a] == keys_of(before)[a]);
                                assert(ks[b] == keys_of(before)[b]);
                            }
                        }
                        assert(ks.no_duplicates());
                        lemma_tf_push(before, entries@.last(), tok@);
                        assert forall|t: Seq<char>| #[trigger] tf_of(entries@, t) == count_of(
                            all.take(i + 1),
                            t,
                        ) by {
                            lemma_tf_push(before, entries@.last(), t);
                            if t == tok@ {
                                lemma_tf_absent(before, t);
                            }
                        }
                    }
                },
            }
            i = i + 1;
        }
        proof {
            assert(all.take(i as int) =~= all);
        }
        FreqRecord { entries }
    }

    /// The recorded frequency of `tok`, 0 when the document does not
    /// contain it.
    pub fn get_count(&self, tok: &str) -> (r: u64)
        requires
            self.wf(),
        ensures
            r as int == self.spec_tf(tok@),
    {
        match find_entry(&self.entries, tok) {
            Some(j) => {
                proof {
                    lemma_tf_at_index(self.entries@, j as int);
                }
                self.entries[j].count
            },
            None => {
                proof {
                    lemma_tf_absent(self.entries@, tok@);
                }
                0
            },
        }
    }

    /// The sum of all recorded counts.
    pub fn total_count(&self) -> (r: u64)
        requires
            self.wf(),
        ensures
            r as int == self.spec_total(),
    {
        let mut sum: u64 = 0;
        let mut i: usize = 0;
        proof {
            assert(self.entries@.take(0) =~= Seq::<TokenCount>::empty());
            lemma_total_nonneg(self.entries@);
        }
        while i < self.entries.len()
            invariant
                self.wf(),
                i <= self.entries@.len(),
                sum as int == total_of(self.entries@.take(i as int)),
                sum as int <= total_of(self.entries@),
            decreases self.entries@.len() - i,
        {
            proof {
                assert(self.entries@.take(i + 1).drop_last() =~= self.entries@.take(i as int));
                lemma_total_prefix_le(self.entries@, i + 1);
            }
            sum = sum + self.entries[i].count;
            i = i + 1;
        }
        proof {
            assert(self.entries@.take(i as int) =~= self.entries@);
        }
        sum
    }
}

/// A token with no entry has recorded frequency 0.
pub proof fn lemma_tf_absent(s: Seq<TokenCount>, t: Seq<char>)
    requires
        forall|i: int| 0 <= i < s.len() ==> s[i].token@ != t,
    ensures
        tf_of(s, t) == 0,
    decreases s.len(),
{
    if s.len() > 0 {
        assert(s[s.len() - 1].token@ != t);
        lemma_tf_absent(s.drop_last(), t);
    }
}

/// With non-negative counts, a prefix of the entries sums to at most the
/// whole.
pub proof fn lemma_total_prefix_le(s: Seq<TokenCount>, n: int)
    requires
        0 <= n <= s.len(),
        forall|i: int| 0 <= i < s.len() ==> s[i].count >= 0,
    ensures
        total_of(s.take(n)) <= total_of(s),
    decreases s.len() - n,
{
    if n < s.len() {
        assert(s.take(n + 1).drop_last() =~= s.take(n));
        assert(s.take(n + 1).last() == s[n]);
        lemma_total_prefix_le(s, n + 1);
    } else {
        assert(s.take(n) =~= s);
    }
}

} // verus!
