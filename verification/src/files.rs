//! Filename and path helpers: splitting a filename into base and
//! extension, validating single-component paths, and taking a path's
//! parent. Paths are treated as plain `/`-separated text.

use crate::text::{lower_of, lowercase, to_char_vec};
use vstd::prelude::*;

verus! {

/// The index of the last `'/'` in `s`, or -1 when there is none.
pub open spec fn last_slash(s: Seq<char>) -> int
    decreases s.len(),
{
    if s.len() == 0 {
        -1
    } else if s.last() == '/' {
        s.len() - 1
    } else {
        last_slash(s.drop_last())
    }
}

/// The index of the last `'.'` in `s`, or -1 when there is none.
pub open spec fn last_dot(s: Seq<char>) -> int
    decreases s.len(),
{
    if s.len() == 0 {
        -1
    } else if s.last() == '.' {
        s.len() - 1
    } else {
        last_dot(s.drop_last())
    }
}

/// The text with any trailing `'/'` run removed.
pub open spec fn trim_slashes(s: Seq<char>) -> Seq<char>
    decreases s.len(),
{
    if s.len() > 0 && s.last() == '/' {
        trim_slashes(s.drop_last())
    } else {
        s
    }
}

/// `trim_slashes` keeps exactly the prefix up to the last character that
/// is not a separator.
pub proof fn lemma_trim_slashes_at(s: Seq<char>, hi: int)
    requires
        0 <= hi <= s.len(),
        forall|j: int| hi <= j < s.len() ==> s[j] == '/',
        hi > 0 ==> s[hi - 1] != '/',
    ensures
        trim_slashes(s) == s.subrange(0, hi),
    decreases s.len() - hi,
{
    if hi == s.len() {
        assert(s.subrange(0, hi) =~= s);
    } else {
        let s2 = s.drop_last();
        assert forall|j: int| hi <= j < s2.len() implies s2[j] == '/' by {
            assert(s2[j] == s[j]);
        }
        lemma_trim_slashes_at(s2, hi);
        assert(s2.subrange(0, hi) =~= s.subrange(0, hi));
    }
}

/// The base and extension a filename splits into: the parts before and
/// after its last `'.'`, a leading `'.'` (a hidden file) not counting as a
/// separator; the extension is lower-cased, and empty when there is no
/// separator.
pub open spec fn split_filename_spec(s: Seq<char>) -> (Seq<char>, Seq<char>) {
    if s[0] == '.' {
        let rem = s.skip(1);
        let i = last_dot(rem);
        if i >= 0 {
            (s.take(i + 1), lower_of(rem.skip(i + 1)))
        } else {
            (s, Seq::empty())
        }
    } else {
        let i = last_dot(s);
        if i >= 0 {
            (s.take(i), lower_of(s.skip(i + 1)))
        } else {
            (s, Seq::empty())
        }
    }
}

/// Finds the last `'.'` at or after `start`, scanning the whole string.
fn find_last_dot_from(chars: &Vec<char>, start: usize) -> (r: Option<usize>)
    requires
        start <= chars@.len(),
    ensures
        match r {
            Some(d) => start <= d < chars@.len() && last_dot(chars@.skip(start as int)) == d
                - start,
            None => last_dot(chars@.skip(start as int)) == -1,
        },
{
    let n = chars.len();
    let ghost suf = chars@.skip(start as int);
    let mut dopt: Option<usize> = None;
    let mut i: usize = start;
    proof {
        assert(suf.take(0) =~= Seq::<char>::empty());
    }
    while i < n
        invariant
            start <= i <= n,
            n == chars@.len(),
            suf == chars@.skip(start as int),
            suf.len() == n - start,
            match dopt {
                Some(d) => start <= d < i && last_dot(suf.take(i - start)) == d - start,
                None => last_dot(suf.take(i - start)) == -1,
            },
        decreases n - i,
    {
        proof {
            assert(suf.take(i - start + 1).drop_last() =~= suf.take(i - start));
            assert(suf.take(i - start + 1).last() == chars@[i as int]);
        }
        if chars[i] == '.' {
            dopt = Some(i);
        }
        i = i + 1;
    }
    proof {
        assert(suf.take(n - start) =~= suf);
    }
    dopt
}

/// Splits a filename into its base name and its lower-cased extension, as
/// `split_filename_spec` states. A hidden file's leading dot does not
/// start an extension.
pub fn split_filename(filename: &str) -> (r: (String, String))
    requires
        filename@.len() > 0,
    ensures
        r.0@ == split_filename_spec(filename@).0,
        r.1@ == split_filename_spec(filename@).1,
{
    let chars = to_char_vec(filename);
    let n = filename.unicode_len();
    let start: usize = if chars[0] == '.' {
        1
    } else {
        0
    };
    proof {
        if start == 0 {
            assert(filename@.skip(0) =~= filename@);
        }
    }
    match find_last_dot_from(&chars, start) {
        Some(d) => {
            let base = filename.substring_char(0, d);
            let ext_raw = filename.substring_char(d + 1, n);
            proof {
                if start == 1 {
                    let rem = filename@.skip(1);
                    assert(last_dot(rem) == d - 1);
                    assert(base@ =~= filename@.take(d as int));
                    assert(ext_raw@ =~= rem.skip(d as int));
                } else {
                    assert(base@ =~= filename@.take(d as int));
                    assert(ext_raw@ =~= filename@.skip(d + 1));
                }
            }
            (base.to_owned(), lowercase(ext_raw))
        },
        None => {
            let empty = String::new();
            proof {
                if start == 1 {
                    assert(last_dot(filename@.skip(1)) == -1);
                }
                assert(empty@ =~= Seq::<char>::empty());
            }
            (filename.to_owned(), empty)
        },
    }
}

/// A path names a single plain component: after dropping any trailing
/// separators something is left, it is neither `.` nor `..`, and it holds
/// no separator. Separators are taken literally, so a path with an inner
/// `.` segment (such as `foo/.`) counts as several components and is
/// rejected, where a platform path API would normalize the segment away.
pub open spec fn path_is_valid_spec(s: Seq<char>) -> bool {
    let c = trim_slashes(s);
    &&& c.len() > 0
    &&& c != "."@
    &&& c != ".."@
    &&& forall|i: int| 0 <= i < c.len() ==> c[i] != '/'
}

/// Checks that a path is one plain component, as `path_is_valid_spec`
/// states: no separators, no current- or parent-directory name.
pub fn path_is_valid(path: &str) -> (r: bool)
    ensures
        r == path_is_valid_spec(path@),
{
    let chars = to_char_vec(path);
    let n = path.unicode_len();
    let mut hi: usize = n;
    while hi > 0 && chars[hi - 1] == '/'
        invariant
            hi <= n,
            n == chars@.len(),
            chars@ == path@,
            forall|j: int| hi <= j < n ==> path@[j] == '/',
        decreases hi,
    {
        hi = hi - 1;
    }
    proof {
        lemma_trim_slashes_at(path@, hi as int);
    }
    let ghost c = trim_slashes(path@);
    if hi == 0 {
        return false;
    }
    proof {
        reveal_strlit(".");
        reveal_strlit("..");
    }
    if hi == 1 && chars[0] == '.' {
        proof {
            assert(c =~= "."@);
        }
        return false;
    }
    if hi == 2 && chars[0] == '.' && chars[1] == '.' {
        proof {
            assert(c =~= ".."@);
        }
        return false;
    }
    let mut i: usize = 0;
    while i < hi
        invariant
            i <= hi <= n,
            n == chars@.len(),
            chars@ == path@,
            c == trim_slashes(path@),
            c == path@.subrange(0, hi as int),
            forall|j: int| 0 <= j < i ==> path@[j] != '/',
        decreases hi - i,
    {
        if chars[i] == '/' {
            proof {
                assert(c[i as int] == '/');
            }
            return false;
        }
        i = i + 1;
    }
    proof {
        reveal_strlit(".");
        reveal_strlit("..");
        assert(c.len() == hi);
        assert(c[0] == path@[0]);
        assert(c != "."@) by {
            if c == "."@ {
                assert(hi == 1 && path@[0] == '.');
            }
        }
        assert(c != ".."@) by {
            if c == ".."@ {
                assert(hi == 2);
                assert(c[1] == path@[1]);
                assert(path@[0] == '.' && path@[1] == '.');
            }
        }
        assert forall|j: int| 0 <= j < c.len() implies c[j] != '/' by {
            assert(c[j] == path@[j]);
        }
    }
    true
}

/// Everything before a path's last separator, with trailing separators
/// dropped on both the path and the result; empty when the path has no
/// separator left. The parent of a single absolute component such as
/// `/foo` is therefore the empty string, where a platform path API would
/// report the root.
pub open spec fn parent_path_spec(s: Seq<char>) -> Seq<char> {
    let c = trim_slashes(s);
    let i = last_slash(c);
    if i >= 0 {
        trim_slashes(c.take(i))
    } else {
        Seq::empty()
    }
}

/// The parent of a path, as `parent_path_spec` states.
pub fn parent_path(path: &str) -> (r: String)
    ensures
        r@ == parent_path_spec(path@),
{
    let chars = to_char_vec(path);
    let n = path.unicode_len();
    // drop trailing separators
    let mut hi: usize = n;
    while hi > 0 && chars[hi - 1] == '/'
        invariant
            hi <= n,
            n == chars@.len(),
            chars@ == path@,
            forall|j: int| hi <= j < n ==> path@[j] == '/',
        decreases hi,
    {
        hi = hi - 1;
    }
    proof {
        lemma_trim_slashes_at(path@, hi as int);
    }
    let ghost c = trim_slashes(path@);
    // the last separator of what is left
    let mut cut: usize = 0;
    let mut i: usize = 0;
    while i < hi
        invariant
            i <= hi <= n,
            n == chars@.len(),
            chars@ == path@,
            c == path@.subrange(0, hi as int),
            cut as int == last_slash(c.take(i as int)) + 1,
            cut <= i,
        decreases hi - i,
    {
        proof {
            assert(c.take(i + 1).drop_last() =~= c.take(i as int));
            assert(c.take(i + 1).last() == path@[i as int]);
        }
        if chars[i] == '/' {
            cut = i + 1;
        }
        i = i + 1;
    }
    proof {
        assert(c.take(hi as int) =~= c);
    }
    if cut == 0 {
        let empty = String::new();
        proof {
            assert(empty@ =~= parent_path_spec(path@));
        }
        return empty;
    }
    // drop trailing separators of the prefix before the last one
    let ghost pre = c.take(cut - 1);
    let mut hi2: usize = cut - 1;
    while hi2 > 0 && chars[hi2 - 1] == '/'
        invariant
            hi2 <= cut - 1 <= n,
            n == chars@.len(),
            chars@ == path@,
            pre == c.take(cut - 1),
            c == path@.subrange(0, hi as int),
            cut - 1 < hi,
            forall|j: int| hi2 <= j < cut - 1 ==> path@[j] == '/',
        decreases hi2,
    {
        hi2 = hi2 - 1;
    }
    proof {
        assert forall|j: int| hi2 <= j < pre.len() implies pre[j] == '/' by {
            assert(pre[j] == path@[j]);
        }
        if hi2 > 0 {
            assert(pre[hi2 - 1] == path@[hi2 - 1]);
        }
        lemma_trim_slashes_at(pre, hi2 as int);
        assert(pre.subrange(0, hi2 as int) =~= path@.subrange(0, hi2 as int));
    }
    let out = path.substring_char(0, hi2);
    proof {
        assert(out@ =~= parent_path_spec(path@));
    }
    out.to_owned()
}

} // verus!
