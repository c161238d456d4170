//! The tokenizer: raw (possibly HTML-bearing) text is turned into normalised
//! index terms. HTML tags and punctuation become spaces, a language-aware
//! segmenter splits the rest into terms (whitespace-delimited Latin words and
//! dictionary-segmented CJK runs), every term is lower-cased, and empty or
//! stop-word terms are dropped.

use crate::text::{
    char_vec_eq_str, chars_to_string, is_whitespace_char_spec, lower_of, lowercase, to_char_vec,
    trim_chars, trim_spec,
};
use vstd::prelude::*;

verus! {

/// The index of the first `'>'` in `s`, or -1 when there is none.
pub open spec fn find_gt(s: Seq<char>) -> int
    decreases s.len(),
{
    if s.len() == 0 {
        -1
    } else if s[0] == '>' {
        0
    } else {
        let r = find_gt(s.drop_first());
        if r < 0 {
            -1
        } else {
            r + 1
        }
    }
}

/// Text with markup removed: each maximal span from a `'<'` to the next
/// `'>'` becomes a single space; a `'<'` never followed by `'>'` stays.
pub open spec fn strip_tags_spec(s: Seq<char>) -> Seq<char>
    decreases s.len(),
{
    if s.len() == 0 {
        Seq::empty()
    } else if s[0] == '<' && 0 <= find_gt(s) < s.len() {
        seq![' '] + strip_tags_spec(s.subrange(find_gt(s) + 1, s.len() as int))
    } else {
        seq![s[0]] + strip_tags_spec(s.drop_first())
    }
}

/// A sequence without `'>'` has no first `'>'`.
pub proof fn lemma_find_gt_none(s: Seq<char>)
    requires
        forall|j: int| 0 <= j < s.len() ==> s[j] != '>',
    ensures
        find_gt(s) == -1,
    decreases s.len(),
{
    if s.len() > 0 {
        let s2 = s.drop_first();
        assert forall|j: int| 0 <= j < s2.len() implies s2[j] != '>' by {
            assert(s2[j] == s[j + 1]);
        }
        lemma_find_gt_none(s2);
    }
}

/// The first `'>'` is wherever a `'>'` stands with none before it.
pub proof fn lemma_find_gt_at(s: Seq<char>, k: int)
    requires
        0 <= k < s.len(),
        s[k] == '>',
        forall|j: int| 0 <= j < k ==> s[j] != '>',
    ensures
        find_gt(s) == k,
    decreases k,
{
    if k > 0 {
        let s2 = s.drop_first();
        assert(s2[k - 1] == s[k]);
        assert forall|j: int| 0 <= j < k - 1 implies s2[j] != '>' by {
            assert(s2[j] == s[j + 1]);
        }
        lemma_find_gt_at(s2, k - 1);
    }
}

/// Finds the first `'>'` at or after `start`.
fn find_gt_from(v: &Vec<char>, start: usize) -> (r: Option<usize>)
    requires
        start <= v@.len(),
    ensures
        match r {
            Some(j) => start <= j < v@.len() && v@[j as int] == '>' && forall|k: int|
                start <= k < j ==> v@[k] != '>',
            None => forall|k: int| start <= k < v@.len() ==> v@[k] != '>',
        },
{
    let mut j: usize = start;
    while j < v.len()
        invariant
            start <= j <= v@.len(),
            forall|k: int| start <= k < j ==> v@[k] != '>',
        decreases v@.len() - j,
    {
        if v[j] == '>' {
            return Some(j);
        }
        j = j + 1;
    }
    None
}

/// Replaces each HTML tag (a span from `'<'` to the next `'>'`) with one
/// space, as `strip_tags_spec` states.
pub fn strip_html_tags(v: &Vec<char>) -> (r: Vec<char>)
    ensures
        r@ == strip_tags_spec(v@),
{
    let n = v.len();
    let mut out: Vec<char> = Vec::new();
    let mut i: usize = 0;
    proof {
        assert(v@.subrange(0, n as int) =~= v@);
        assert(out@ + strip_tags_spec(v@.subrange(0, n as int)) =~= strip_tags_spec(v@));
    }
    while i < n
        invariant
            i <= n,
            n == v@.len(),
            out@ + strip_tags_spec(v@.subrange(i as int, n as int)) == strip_tags_spec(v@),
        decreases n - i,
    {
        let ghost suf = v@.subrange(i as int, n as int);
        proof {
            assert(suf[0] == v@[i as int]);
        }
        if v[i] == '<' {
            match find_gt_from(v, i) {
                Some(j) => {
                    proof {
                        assert forall|k: int| 0 <= k < j - i implies suf[k] != '>' by {
                            assert(suf[k] == v@[i + k]);
                        }
                        assert(suf[j - i] == v@[j as int]);
                        lemma_find_gt_at(suf, j - i);
                        assert(suf.subrange(j - i + 1, suf.len() as int) =~= v@.subrange(
                            j + 1,
                            n as int,
                        ));
                        assert(out@.push(' ') + strip_tags_spec(v@.subrange(j + 1, n as int)) =~= out@
                            + (seq![' '] + strip_tags_spec(v@.subrange(j + 1, n as int))));
                    }
                    out.push(' ');
                    i = j + 1;
                },
                None => {
                    proof {
                        assert forall|k: int| 0 <= k < suf.len() implies suf[k] != '>' by {
                            assert(suf[k] == v@[i + k]);
                        }
                        lemma_find_gt_none(suf);
                        assert(suf.drop_first() =~= v@.subrange(i + 1, n as int));
                        assert(out@.push('<') + strip_tags_spec(v@.subrange(i + 1, n as int)) =~= out@
                            + (seq!['<'] + strip_tags_spec(v@.subrange(i + 1, n as int))));
                    }
                    out.push('<');
                    i = i + 1;
                },
            }
        } else {
            let c = v[i];
            proof {
                assert(suf.drop_first() =~= v@.subrange(i + 1, n as int));
                assert(out@.push(c) + strip_tags_spec(v@.subrange(i + 1, n as int)) =~= out@ + (seq![
                    c,
                ] + strip_tags_spec(v@.subrange(i + 1, n as int))));
            }
            out.push(c);
            i = i + 1;
        }
    }
    proof {
        assert(v@.subrange(i as int, n as int) =~= Seq::<char>::empty());
        assert(out@ + strip_tags_spec(Seq::<char>::empty()) =~= out@);
    }
    out
}

/// The text with every Unicode punctuation character replaced by a space.
/// The punctuation classification follows the Unicode tables, which this
/// library does not restate; the outcome depends on the characters alone.
pub uninterp spec fn punct_spaced_of(s: Seq<char>) -> Seq<char>;

/// Relies on `regex::Regex::replace_all` with the constant pattern `\p{P}`:
/// each Unicode punctuation character (one `char`) is replaced by one space,
/// so the result is determined by the input characters alone, keeps its
/// length, and changes characters only to spaces.
#[verifier::external_body]
pub fn strip_punctuation(text: &str) -> (r: String)
    ensures
        r@ == punct_spaced_of(text@),
        r@.len() == text@.len(),
        forall|i: int| 0 <= i < text@.len() ==> r@[i] == text@[i] || r@[i] == ' ',
{
    let pattern = regex::Regex::new(r"\p{P}").expect("constant pattern compiles");
    pattern.replace_all(text, " ").into_owned()
}

/// One of the fixed English and Chinese function words the index drops.
pub open spec fn is_stop_word_spec(t: Seq<char>) -> bool {
    ||| t == "a"@
    ||| t == "an"@
    ||| t == "and"@
    ||| t == "are"@
    ||| t == "as"@
    ||| t == "at"@
    ||| t == "be"@
    ||| t == "by"@
    ||| t == "can"@
    ||| t == "for"@
    ||| t == "from"@
    ||| t == "have"@
    ||| t == "if"@
    ||| t == "in"@
    ||| t == "is"@
    ||| t == "it"@
    ||| t == "may"@
    ||| t == "not"@
    ||| t == "of"@
    ||| t == "on"@
    ||| t == "or"@
    ||| t == "tbd"@
    ||| t == "that"@
    ||| t == "the"@
    ||| t == "this"@
    ||| t == "to"@
    ||| t == "us"@
    ||| t == "we"@
    ||| t == "when"@
    ||| t == "will"@
    ||| t == "with"@
    ||| t == "yet"@
    ||| t == "you"@
    ||| t == "your"@
    ||| t == "的"@
    ||| t == "了"@
    ||| t == "和"@
    ||| t == "着"@
    ||| t == "与"@
}

/// Decides membership in the stop-word set.
pub fn is_stop_word(v: &Vec<char>) -> (r: bool)
    ensures
        r == is_stop_word_spec(v@),
{
    char_vec_eq_str(v, "a") || char_vec_eq_str(v, "an") || char_vec_eq_str(v, "and")
        || char_vec_eq_str(v, "are") || char_vec_eq_str(v, "as") || char_vec_eq_str(v, "at")
        || char_vec_eq_str(v, "be") || char_vec_eq_str(v, "by") || char_vec_eq_str(v, "can")
        || char_vec_eq_str(v, "for") || char_vec_eq_str(v, "from") || char_vec_eq_str(v, "have")
        || char_vec_eq_str(v, "if") || char_vec_eq_str(v, "in") || char_vec_eq_str(v, "is")
        || char_vec_eq_str(v, "it") || char_vec_eq_str(v, "may") || char_vec_eq_str(v, "not")
        || char_vec_eq_str(v, "of") || char_vec_eq_str(v, "on") || char_vec_eq_str(v, "or")
        || char_vec_eq_str(v, "tbd") || char_vec_eq_str(v, "that") || char_vec_eq_str(v, "the")
        || char_vec_eq_str(v, "this") || char_vec_eq_str(v, "to") || char_vec_eq_str(v, "us")
        || char_vec_eq_str(v, "we") || char_vec_eq_str(v, "when") || char_vec_eq_str(v, "will")
        || char_vec_eq_str(v, "with") || char_vec_eq_str(v, "yet") || char_vec_eq_str(v, "you")
        || char_vec_eq_str(v, "your") || char_vec_eq_str(v, "的") || char_vec_eq_str(v, "了")
        || char_vec_eq_str(v, "和") || char_vec_eq_str(v, "着") || char_vec_eq_str(v, "与")
}

/// The text a tokenizer's segmenter runs on: markup, then punctuation,
/// turned into spaces.
pub open spec fn prepared_of(text: Seq<char>) -> Seq<char> {
    punct_spaced_of(strip_tags_spec(text))
}

/// Whether a lower-cased segment survives filtering: something is left
/// after trimming whitespace, and it is not a stop word.
pub open spec fn keep_token(t: Seq<char>) -> bool {
    trim_spec(t).len() > 0 && !is_stop_word_spec(trim_spec(t))
}

/// Raw segments refined into index terms: each is lower-cased, then empty
/// and stop-word segments are dropped. Kept terms stay in segment order.
pub open spec fn refine_segments(segs: Seq<Seq<char>>) -> Seq<Seq<char>>
    decreases segs.len(),
{
    if segs.len() == 0 {
        Seq::empty()
    } else {
        let rest = refine_segments(segs.drop_last());
        let low = lower_of(segs.last());
        if keep_token(low) {
            rest.push(low)
        } else {
            rest
        }
    }
}

/// A segmenter, pluggable so the index can be exercised without a real
/// dictionary. `spec_segments` names the segmentation an implementation
/// produces; `analyze` is the full pipeline every implementation shares.
pub trait Tokenizer {
    /// The segments this tokenizer yields for the given prepared text.
    spec fn spec_segments(&self, text: Seq<char>) -> Seq<Seq<char>>;

    /// Splits prepared text into raw segments.
    fn cut(&self, text: &str) -> (r: Vec<String>)
        ensures
            r.deep_view() == self.spec_segments(text@),
    ;

    /// The full pipeline: strip markup and punctuation, segment, lower-case,
    /// and drop empty and stop-word segments.
    fn analyze(&self, text: &str) -> (r: Vec<String>)
        ensures
            r.deep_view() == refine_segments(self.spec_segments(prepared_of(text@))),
    {
        let chars = to_char_vec(text);
        let stripped = strip_html_tags(&chars);
        let stripped_str = chars_to_string(&stripped);
        let prepared = strip_punctuation(stripped_str.as_str());
        let segs = self.cut(prepared.as_str());
        let ghost seg_views = segs.deep_view();
        proof {
            assert(seg_views == self.spec_segments(prepared_of(text@)));
        }
        let mut out: Vec<String> = Vec::new();
        let mut i: usize = 0;
        proof {
            assert(seg_views.take(0) =~= Seq::<Seq<char>>::empty());
            assert(out.deep_view() =~= refine_segments(seg_views.take(0)));
        }
        while i < segs.len()
            invariant
                i <= segs@.len(),
                seg_views == segs.deep_view(),
                seg_views.len() == segs@.len(),
                forall|k: int| 0 <= k < segs@.len() ==> seg_views[k] == segs@[k]@,
                out.deep_view() == refine_segments(seg_views.take(i as int)),
            decreases segs@.len() - i,
        {
            let low = lowercase(segs[i].as_str());
            let low_chars = to_char_vec(low.as_str());
            let trimmed = trim_chars(&low_chars);
            let keep = trimmed.len() > 0 && !is_stop_word(&trimmed);
            let ghost prev = out.deep_view();
            proof {
                let pref = seg_views.take(i as int);
                let pref2 = seg_views.take(i + 1);
                assert(pref2.drop_last() =~= pref);
                assert(pref2.last() == seg_views[i as int]);
                assert(low@ == lower_of(seg_views[i as int]));
                assert(trimmed@ == trim_spec(low@));
                assert(keep == keep_token(low@));
                assert(refine_segments(pref2) == if keep_token(low@) {
                    refine_segments(pref).push(low@)
                } else {
                    refine_segments(pref)
                });
            }
            if keep {
                out.push(low);
                proof {
                    assert(out.deep_view() =~= prev.push(out@.last()@));
                }
            }
            i = i + 1;
        }
        proof {
            assert(seg_views.take(i as int) =~= seg_views);
        }
        out
    }
}

/// Declares `jieba_rs::Jieba`, the dictionary-backed segmenter, so values
/// of it can be held; the verifier sees nothing inside one.
#[verifier::external_type_specification]
#[verifier::external_body]
pub struct ExJieba(jieba_rs::Jieba);

/// The segmentation `jieba_rs::Jieba::cut_for_search` (HMM off) produces
/// with the bundled default dictionary. The segmentation is driven by that
/// fixed dictionary, which this library does not restate; the outcome
/// depends on the input text alone.
pub uninterp spec fn jieba_segments_of(text: Seq<char>) -> Seq<Seq<char>>;

/// The segmenter used in production: jieba's search mode over its default
/// dictionary, which handles contiguous CJK text as well as
/// whitespace-delimited words.
pub struct JiebaTokenizer {
    jieba: jieba_rs::Jieba,
}

impl JiebaTokenizer {
    /// Relies on `jieba_rs::Jieba::new`: builds the segmenter with its
    /// bundled default dictionary. This is the only way a `JiebaTokenizer`
    /// is made, so its segmentation is always the default-dictionary one.
    #[verifier::external_body]
    pub fn new() -> (r: JiebaTokenizer) {
        JiebaTokenizer { jieba: jieba_rs::Jieba::new() }
    }
}

/// Relies on `jieba_rs::Jieba::cut_for_search` with HMM off: segments the
/// text in search mode. The wrapper takes the whole tokenizer so that the
/// only reachable segmenter is the default-dictionary one its constructor
/// installs, which makes the segments a function of the text alone.
#[verifier::external_body]
fn jieba_cut(tokenizer: &JiebaTokenizer, text: &str) -> (r: Vec<String>)
    ensures
        r.deep_view() == jieba_segments_of(text@),
{
    tokenizer.jieba.cut_for_search(text, false).into_iter().map(|t| t.word.to_string()).collect()
}

impl Tokenizer for JiebaTokenizer {
    open spec fn spec_segments(&self, text: Seq<char>) -> Seq<Seq<char>> {
        jieba_segments_of(text)
    }

    fn cut(&self, text: &str) -> (r: Vec<String>) {
        jieba_cut(self, text)
    }
}

} // verus!
