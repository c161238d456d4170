//! Page-metadata scraping: the first `<h1>`–`<h3>` heading of a rendered
//! page and, when one immediately follows it, the bold lead paragraph.
//! The scan works on characters: a heading's text runs from its opening
//! tag to the first closing tag on the same line, whitespace may follow,
//! and the lead paragraph must be `<p ...><strong>…</strong></p>` with any
//! `strong` tags inside the capture removed.

use crate::text::{chars_to_string, is_whitespace_char, is_whitespace_char_spec, to_char_vec};
use vstd::prelude::*;

verus! {

pub open spec fn is_heading_digit(c: char) -> bool {
    c == '1' || c == '2' || c == '3'
}

/// A heading opens at `p`: `<h` and a level digit; its attributes run to
/// the next `>`.
pub open spec fn open_h_at(s: Seq<char>, p: int) -> bool {
    &&& 0 <= p
    &&& p + 3 <= s.len()
    &&& s[p] == '<'
    &&& s[p + 1] == 'h'
    &&& is_heading_digit(s[p + 2])
}

/// A heading closes at `e`: the five characters `</h` digit `>`.
pub open spec fn close_h_at(s: Seq<char>, e: int) -> bool {
    &&& 0 <= e
    &&& e + 5 <= s.len()
    &&& s[e] == '<'
    &&& s[e + 1] == '/'
    &&& s[e + 2] == 'h'
    &&& is_heading_digit(s[e + 3])
    &&& s[e + 4] == '>'
}

/// `<strong>` stands at `e`.
pub open spec fn strong_open_at(s: Seq<char>, e: int) -> bool {
    &&& 0 <= e
    &&& e + 8 <= s.len()
    &&& s[e] == '<'
    &&& s[e + 1] == 's'
    &&& s[e + 2] == 't'
    &&& s[e + 3] == 'r'
    &&& s[e + 4] == 'o'
    &&& s[e + 5] == 'n'
    &&& s[e + 6] == 'g'
    &&& s[e + 7] == '>'
}

/// `</strong>` stands at `e`.
pub open spec fn strong_close_at(s: Seq<char>, e: int) -> bool {
    &&& 0 <= e
    &&& e + 9 <= s.len()
    &&& s[e] == '<'
    &&& s[e + 1] == '/'
    &&& s[e + 2] == 's'
    &&& s[e + 3] == 't'
    &&& s[e + 4] == 'r'
    &&& s[e + 5] == 'o'
    &&& s[e + 6] == 'n'
    &&& s[e + 7] == 'g'
    &&& s[e + 8] == '>'
}

/// `</strong></p>` stands at `e`.
pub open spec fn strong_para_close_at(s: Seq<char>, e: int) -> bool {
    &&& strong_close_at(s, e)
    &&& e + 13 <= s.len()
    &&& s[e + 9] == '<'
    &&& s[e + 10] == '/'
    &&& s[e + 11] == 'p'
    &&& s[e + 12] == '>'
}

/// The first `>` at or after `e`, or -1.
pub open spec fn find_gt_at(s: Seq<char>, e: int) -> int
    decreases s.len() - e,
{
    if e < 0 || e >= s.len() {
        -1
    } else if s[e] == '>' {
        e
    } else {
        find_gt_at(s, e + 1)
    }
}

/// The first heading close tag at or after `e` with no line break before
/// it, or -1: heading text cannot span lines.
pub open spec fn find_close_h(s: Seq<char>, e: int) -> int
    decreases s.len() - e,
{
    if e < 0 || e >= s.len() {
        -1
    } else if close_h_at(s, e) {
        e
    } else if s[e] == '\n' {
        -1
    } else {
        find_close_h(s, e + 1)
    }
}

/// The first `</strong></p>` at or after `e` with no line break before
/// it, or -1.
pub open spec fn find_strong_para_close(s: Seq<char>, e: int) -> int
    decreases s.len() - e,
{
    if e < 0 || e >= s.len() {
        -1
    } else if strong_para_close_at(s, e) {
        e
    } else if s[e] == '\n' {
        -1
    } else {
        find_strong_para_close(s, e + 1)
    }
}

/// The first index at or after `e` that is not whitespace (the length when
/// everything is).
pub open spec fn skip_ws_at(s: Seq<char>, e: int) -> int
    decreases s.len() - e,
{
    if e < 0 {
        0
    } else if e >= s.len() {
        s.len() as int
    } else if is_whitespace_char_spec(s[e]) {
        skip_ws_at(s, e + 1)
    } else {
        e
    }
}

/// The heading text found by an attempt at `p`: the span from the end of
/// the opening tag to the first same-line closing tag.
pub open spec fn header_at(s: Seq<char>, p: int) -> Option<(int, int)> {
    if open_h_at(s, p) {
        let gt = find_gt_at(s, p + 3);
        if gt >= 0 {
            let e = find_close_h(s, gt + 1);
            if e >= 0 {
                Some((gt + 1, e))
            } else {
                None
            }
        } else {
            None
        }
    } else {
        None
    }
}

/// The first heading match at or after `p`.
pub open spec fn find_header_from(s: Seq<char>, p: int) -> Option<(int, int)>
    decreases s.len() - p,
{
    if p < 0 || p >= s.len() {
        None
    } else if header_at(s, p) is Some {
        header_at(s, p)
    } else {
        find_header_from(s, p + 1)
    }
}

/// The bold lead paragraph directly after position `q`: optional
/// whitespace, `<p ...><strong>`, and text up to the first same-line
/// `</strong></p>`.
pub open spec fn bold_at(s: Seq<char>, q: int) -> Option<(int, int)> {
    let w = skip_ws_at(s, q);
    if w + 2 <= s.len() && s[w] == '<' && s[w + 1] == 'p' {
        let gt = find_gt_at(s, w + 2);
        if gt >= 0 && strong_open_at(s, gt + 1) {
            let e = find_strong_para_close(s, gt + 9);
            if e >= 0 {
                Some((gt + 9, e))
            } else {
                None
            }
        } else {
            None
        }
    } else {
        None
    }
}

/// The text with every `<strong>` and `</strong>` removed.
pub open spec fn strip_strong_spec(s: Seq<char>) -> Seq<char>
    decreases s.len(),
{
    if s.len() == 0 {
        Seq::empty()
    } else if strong_close_at(s, 0) {
        strip_strong_spec(s.skip(9))
    } else if strong_open_at(s, 0) {
        strip_strong_spec(s.skip(8))
    } else {
        seq![s[0]] + strip_strong_spec(s.drop_first())
    }
}

/// What scraping yields: the first heading's text, and the stripped bold
/// lead paragraph when one directly follows that heading.
pub open spec fn extract_spec(s: Seq<char>) -> (Option<Seq<char>>, Option<Seq<char>>) {
    match find_header_from(s, 0) {
        None => (None, None),
        Some(t) => {
            let title = s.subrange(t.0, t.1);
            match bold_at(s, t.1 + 5) {
                None => (Some(title), None),
                Some(b) => (Some(title), Some(strip_strong_spec(s.subrange(b.0, b.1)))),
            }
        },
    }
}

/// Finds the first `>` at or after `from`.
fn scan_gt(chars: &Vec<char>, from: usize) -> (r: Option<usize>)
    requires
        from <= chars@.len(),
    ensures
        match r {
            Some(j) => from <= j < chars@.len() && find_gt_at(chars@, from as int) == j,
            None => find_gt_at(chars@, from as int) == -1,
        },
{
    let n = chars.len();
    let mut e: usize = from;
    while e < n
        invariant
            from <= e <= n,
            n == chars@.len(),
            find_gt_at(chars@, from as int) == find_gt_at(chars@, e as int),
        decreases n - e,
    {
        if chars[e] == '>' {
            return Some(e);
        }
        e = e + 1;
    }
    None
}

/// Checks for a heading close tag at `e`.
fn close_h_here(chars: &Vec<char>, e: usize) -> (r: bool)
    ensures
        r == close_h_at(chars@, e as int),
{
    chars.len() >= 5 && e <= chars.len() - 5 && chars[e] == '<' && chars[e + 1] == '/' && chars[e
        + 2] == 'h' && (chars[e + 3] == '1' || chars[e + 3] == '2' || chars[e + 3] == '3')
        && chars[e + 4] == '>'
}

/// Checks for `</strong></p>` at `e`.
fn strong_para_close_here(chars: &Vec<char>, e: usize) -> (r: bool)
    ensures
        r == strong_para_close_at(chars@, e as int),
{
    chars.len() >= 13 && e <= chars.len() - 13 && chars[e] == '<' && chars[e + 1] == '/'
        && chars[e + 2] == 's' && chars[e + 3] == 't' && chars[e + 4] == 'r' && chars[e + 5] == 'o'
        && chars[e + 6] == 'n' && chars[e + 7] == 'g' && chars[e + 8] == '>' && chars[e + 9] == '<'
        && chars[e + 10] == '/' && chars[e + 11] == 'p' && chars[e + 12] == '>'
}

/// Finds the first same-line heading close tag at or after `from`.
fn scan_close_h(chars: &Vec<char>, from: usize) -> (r: Option<usize>)
    requires
        from <= chars@.len(),
    ensures
        match r {
            Some(j) => from <= j < chars@.len() && find_close_h(chars@, from as int) == j
                && close_h_at(chars@, j as int),
            None => find_close_h(chars@, from as int) == -1,
        },
{
    let n = chars.len();
    let mut e: usize = from;
    while e < n
        invariant
            from <= e <= n,
            n == chars@.len(),
            find_close_h(chars@, from as int) == find_close_h(chars@, e as int),
        decreases n - e,
    {
        if close_h_here(chars, e) {
            return Some(e);
        }
        if chars[e] == '\n' {
            return None;
        }
        e = e + 1;
    }
    None
}

/// Finds the first same-line `</strong></p>` at or after `from`.
fn scan_strong_para_close(chars: &Vec<char>, from: usize) -> (r: Option<usize>)
    requires
        from <= chars@.len(),
    ensures
        match r {
            Some(j) => from <= j < chars@.len() && find_strong_para_close(chars@, from as int)
                == j,
            None => find_strong_para_close(chars@, from as int) == -1,
        },
{
    let n = chars.len();
    let mut e: usize = from;
    while e < n
        invariant
            from <= e <= n,
            n == chars@.len(),
            find_strong_para_close(chars@, from as int) == find_strong_para_close(
                chars@,
                e as int,
            ),
        decreases n - e,
    {
        if strong_para_close_here(chars, e) {
            return Some(e);
        }
        if chars[e] == '\n' {
            return None;
        }
        e = e + 1;
    }
    None
}

/// Skips whitespace from `from`.
fn scan_ws(chars: &Vec<char>, from: usize) -> (r: usize)
    requires
        from <= chars@.len(),
    ensures
        from <= r <= chars@.len(),
        r as int == skip_ws_at(chars@, from as int),
{
    let n = chars.len();
    let mut e: usize = from;
    while e < n && is_whitespace_char(chars[e])
        invariant
            from <= e <= n,
            n == chars@.len(),
            skip_ws_at(chars@, from as int) == skip_ws_at(chars@, e as int),
        decreases n - e,
    {
        e = e + 1;
    }
    e
}

/// Removes every `<strong>` and `</strong>`, as `strip_strong_spec`
/// states.
fn strip_strong(chars: &Vec<char>, lo: usize, hi: usize) -> (r: Vec<char>)
    requires
        lo <= hi <= chars@.len(),
    ensures
        r@ == strip_strong_spec(chars@.subrange(lo as int, hi as int)),
{
    let ghost whole = chars@.subrange(lo as int, hi as int);
    let mut out: Vec<char> = Vec::new();
    let mut i: usize = lo;
    proof {
        assert(whole.skip(0) =~= whole);
        assert(out@ + strip_strong_spec(whole.skip(0)) =~= strip_strong_spec(whole));
    }
    while i < hi
        invariant
            lo <= i <= hi <= chars@.len(),
            whole == chars@.subrange(lo as int, hi as int),
            out@ + strip_strong_spec(whole.skip(i - lo)) == strip_strong_spec(whole),
        decreases hi - i,
    {
        let ghost suf = whole.skip(i - lo);
        proof {
            assert(suf.len() == hi - i);
            assert forall|k: int| 0 <= k < suf.len() implies suf[k] == chars@[i + k] by {
                assert(suf[k] == whole[i - lo + k]);
            }
        }
        let is_close = hi - i >= 9 && chars[i] == '<' && chars[i + 1] == '/' && chars[i + 2]
            == 's' && chars[i + 3] == 't' && chars[i + 4] == 'r' && chars[i + 5] == 'o' && chars[i
            + 6] == 'n' && chars[i + 7] == 'g' && chars[i + 8] == '>';
        if is_close {
            proof {
                assert(strong_close_at(suf, 0));
                assert(suf.skip(9) =~= whole.skip(i + 9 - lo));
            }
            i = i + 9;
        } else {
            let is_open = hi - i >= 8 && chars[i] == '<' && chars[i + 1] == 's' && chars[i + 2]
                == 't' && chars[i + 3] == 'r' && chars[i + 4] == 'o' && chars[i + 5] == 'n'
                && chars[i + 6] == 'g' && chars[i + 7] == '>';
            if is_open {
                proof {
                    assert(!strong_close_at(suf, 0));
                    assert(strong_open_at(suf, 0));
                    assert(suf.skip(8) =~= whole.skip(i + 8 - lo));
                }
                i = i + 8;
            } else {
                let c = chars[i];
                proof {
                    assert(!strong_close_at(suf, 0));
                    assert(!strong_open_at(suf, 0));
                    assert(suf[0] == c);
                    assert(suf.drop_first() =~= whole.skip(i + 1 - lo));
                    assert(out@.push(c) + strip_strong_spec(whole.skip(i + 1 - lo)) =~= out@ + (
                    seq![c] + strip_strong_spec(whole.skip(i + 1 - lo))));
                }
                out.push(c);
                i = i + 1;
            }
        }
    }
    proof {
        assert(whole.skip(hi - lo) =~= Seq::<char>::empty());
        assert(out@ + strip_strong_spec(Seq::<char>::empty()) =~= out@);
    }
    out
}

/// Finds the first heading match in the text.
fn scan_header(chars: &Vec<char>) -> (r: Option<(usize, usize)>)
    ensures
        match r {
            Some(t) => find_header_from(chars@, 0) == Some((t.0 as int, t.1 as int)) && t.0 <= t.1
                < chars@.len() && close_h_at(chars@, t.1 as int),
            None => find_header_from(chars@, 0) is None,
        },
{
    let n = chars.len();
    let mut p: usize = 0;
    while p < n
        invariant
            p <= n,
            n == chars@.len(),
            find_header_from(chars@, 0) == find_header_from(chars@, p as int),
        decreases n - p,
    {
        let is_open = n - p >= 3 && chars[p] == '<' && chars[p + 1] == 'h' && (chars[p + 2] == '1'
            || chars[p + 2] == '2' || chars[p + 2] == '3');
        proof {
            assert(is_open == open_h_at(chars@, p as int));
        }
        if is_open {
            match scan_gt(chars, p + 3) {
                Some(gt) => {
                    match scan_close_h(chars, gt + 1) {
                        Some(e) => {
                            proof {
                                assert(header_at(chars@, p as int) == Some((gt + 1, e as int)));
                            }
                            return Some((gt + 1, e));
                        },
                        None => {
                            proof {
                                assert(header_at(chars@, p as int) is None);
                            }
                        },
                    }
                },
                None => {
                    proof {
                        assert(header_at(chars@, p as int) is None);
                    }
                },
            }
        } else {
            proof {
                assert(header_at(chars@, p as int) is None);
            }
        }
        p = p + 1;
    }
    None
}

/// Pulls the first heading's text and, when one directly follows it, the
/// bold lead paragraph out of rendered HTML, as `extract_spec` states.
pub fn extract_header_and_description_from_html(html: &str) -> (r: (
    Option<String>,
    Option<String>,
))
    ensures
        ({
            let sp = extract_spec(html@);
            &&& (r.0 is Some <==> sp.0 is Some)
            &&& (r.0 matches Some(t) ==> sp.0 matches Some(ts) && t@ == ts)
            &&& (r.1 is Some <==> sp.1 is Some)
            &&& (r.1 matches Some(d) ==> sp.1 matches Some(ds) && d@ == ds)
        }),
{
    let chars = to_char_vec(html);
    let n = html.unicode_len();
    let (ts, te) = match scan_header(&chars) {
        Some(pair) => pair,
        None => {
            return (None, None);
        },
    };
    proof {
        assert(find_header_from(html@, 0) == Some((ts as int, te as int)));
    }
    let title = html.substring_char(ts, te);
    proof {
        assert(title@ =~= html@.subrange(ts as int, te as int));
    }
    // the bold paragraph directly after the heading's close tag
    let q = te + 5;
    let w = scan_ws(&chars, q);
    let has_para = w < n && n - w >= 2 && chars[w] == '<' && chars[w + 1] == 'p';
    proof {
        let ww = skip_ws_at(html@, q as int);
        assert(has_para == (ww + 2 <= html@.len() && html@[ww] == '<' && html@[ww + 1] == 'p'));
    }
    if !has_para {
        proof {
            assert(bold_at(html@, q as int) is None);
        }
        return (Some(title.to_owned()), None);
    }
    let gt = match scan_gt(&chars, w + 2) {
        Some(gt) => gt,
        None => {
            proof {
                assert(bold_at(html@, q as int) is None);
            }
            return (Some(title.to_owned()), None);
        },
    };
    let has_strong = n - gt >= 9 && chars[gt + 1] == '<' && chars[gt + 2] == 's' && chars[gt + 3]
        == 't' && chars[gt + 4] == 'r' && chars[gt + 5] == 'o' && chars[gt + 6] == 'n' && chars[gt
        + 7] == 'g' && chars[gt + 8] == '>';
    proof {
        assert(has_strong == strong_open_at(html@, gt + 1));
    }
    if !has_strong {
        proof {
            assert(bold_at(html@, q as int) is None);
        }
        return (Some(title.to_owned()), None);
    }
    match scan_strong_para_close(&chars, gt + 9) {
        Some(e) => {
            proof {
                assert(bold_at(html@, q as int) == Some((gt + 9, e as int)));
            }
            let stripped = strip_strong(&chars, gt + 9, e);
            (Some(title.to_owned()), Some(chars_to_string(&stripped)))
        },
        None => {
            proof {
                assert(bold_at(html@, q as int) is None);
            }
            (Some(title.to_owned()), None)
        },
    }
}

} // verus!
