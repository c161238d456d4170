//! Small general-purpose helpers: size strings with binary-unit suffixes,
//! prefix replacement, and value piping.

use crate::text::{lower_of, lowercase, to_char_vec};
use vstd::prelude::*;
use vstd::string::StringExecFns;

verus! {

pub open spec fn is_ascii_digit_spec(c: char) -> bool {
    '0' <= c && c <= '9'
}

pub open spec fn digit_val(c: char) -> int {
    c as int - '0' as int
}

/// The value of a digit string, most significant first.
pub open spec fn digits_val(s: Seq<char>) -> int
    decreases s.len(),
{
    if s.len() == 0 {
        0
    } else {
        10 * digits_val(s.drop_last()) + digit_val(s.last())
    }
}

pub open spec fn all_digits(s: Seq<char>) -> bool {
    forall|i: int| 0 <= i < s.len() ==> is_ascii_digit_spec(#[trigger] s[i])
}

/// What `str::parse::<u64>` accepts, before the width check: an optional
/// leading `+` followed by at least one decimal digit; the mathematical
/// value may exceed `u64`.
pub open spec fn parse_u64_spec(s: Seq<char>) -> Option<int> {
    let digits = if s.len() > 0 && s[0] == '+' {
        s.skip(1)
    } else {
        s
    };
    if digits.len() > 0 && all_digits(digits) {
        Some(digits_val(digits))
    } else {
        None
    }
}

/// A digit string's value is never negative.
pub proof fn lemma_digits_val_nonneg(s: Seq<char>)
    requires
        all_digits(s),
    ensures
        digits_val(s) >= 0,
    decreases s.len(),
{
    if s.len() > 0 {
        assert(is_ascii_digit_spec(s[s.len() - 1]));
        assert(all_digits(s.drop_last())) by {
            assert forall|i: int|
                0 <= i < s.drop_last().len() implies is_ascii_digit_spec(
                #[trigger] s.drop_last()[i]) by {
                assert(s.drop_last()[i] == s[i]);
            }
        }
        lemma_digits_val_nonneg(s.drop_last());
        assert(10 * digits_val(s.drop_last()) >= 0) by (nonlinear_arith)
            requires
                digits_val(s.drop_last()) >= 0,
        ;
    }
}

/// Parses a decimal number as `str::parse::<u64>` does: an optional `+`,
/// then digits; anything else, or a value beyond `u64`, is rejected.
pub fn parse_u64(s: &str) -> (r: Option<u64>)
    ensures
        match parse_u64_spec(s@) {
            Some(v) => if v <= u64::MAX {
                r == Some(v as u64)
            } else {
                r is None
            },
            None => r is None,
        },
        parse_u64_spec(s@) matches Some(v) ==> v >= 0,
{
    let chars = to_char_vec(s);
    let n = s.unicode_len();
    let start: usize = if n > 0 && chars[0] == '+' {
        1
    } else {
        0
    };
    let ghost digits = if s@.len() > 0 && s@[0] == '+' {
        s@.skip(1)
    } else {
        s@
    };
    proof {
        if start == 0 {
            assert(digits =~= s@);
        } else {
            assert(digits =~= s@.skip(1));
        }
        assert(digits.len() == n - start);
        assert(digits.take(0) =~= Seq::<char>::empty());
    }
    if start == n {
        return None;
    }
    let mut val: u64 = 0;
    let mut over: bool = false;
    let mut i: usize = start;
    while i < n
        invariant
            start <= i <= n,
            n == s@.len(),
            chars@ == s@,
            digits == if s@.len() > 0 && s@[0] == '+' {
                s@.skip(1)
            } else {
                s@
            },
            digits.len() == n - start,
            forall|j: int| 0 <= j < digits.len() ==> digits[j] == s@[start + j],
            all_digits(digits.take(i - start)),
            !over ==> val as int == digits_val(digits.take(i - start)),
            over ==> digits_val(digits.take(i - start)) > u64::MAX,
        decreases n - i,
    {
        let c = chars[i];
        if !('0' <= c && c <= '9') {
            proof {
                assert(digits[i - start] == c);
                assert(!all_digits(digits));
            }
            return None;
        }
        let d: u64 = (c as u32 - 48) as u64;
        proof {
            assert(digits.take(i - start + 1).drop_last() =~= digits.take(i - start));
            assert(digits.take(i - start + 1).last() == c);
            assert(d as int == digit_val(c));
            assert(0 <= d <= 9);
        }
        if over {
            proof {
                assert(digits_val(digits.take(i - start + 1)) == 10 * digits_val(
                    digits.take(i - start),
                ) + d);
                assert(10 * digits_val(digits.take(i - start)) + d > u64::MAX)
                    by (nonlinear_arith)
                    requires
                        digits_val(digits.take(i - start)) > u64::MAX,
                        d >= 0,
                ;
            }
        } else if val > (u64::MAX - d) / 10 {
            proof {
                vstd::arithmetic::div_mod::lemma_fundamental_div_mod(
                    u64::MAX as int - d as int,
                    10,
                );
                assert(10 * (val as int) + d > u64::MAX) by (nonlinear_arith)
                    requires
                        val as int > ((u64::MAX as int - d as int) / 10),
                        u64::MAX as int - d as int == 10 * ((u64::MAX as int - d as int) / 10) + (
                        u64::MAX as int - d as int) % 10,
                        0 <= (u64::MAX as int - d as int) % 10 < 10,
                ;
                assert(digits_val(digits.take(i - start + 1)) == 10 * (val as int) + d);
            }
            over = true;
        } else {
            proof {
                vstd::arithmetic::div_mod::lemma_fundamental_div_mod(
                    u64::MAX as int - d as int,
                    10,
                );
                assert(10 * (val as int) + d <= u64::MAX) by (nonlinear_arith)
                    requires
                        val as int <= ((u64::MAX as int - d as int) / 10),
                        u64::MAX as int - d as int == 10 * ((u64::MAX as int - d as int) / 10) + (
                        u64::MAX as int - d as int) % 10,
                        0 <= (u64::MAX as int - d as int) % 10 < 10,
                ;
            }
            val = val * 10 + d;
        }
        i = i + 1;
    }
    proof {
        assert(digits.take(n - start) =~= digits);
        lemma_digits_val_nonneg(digits);
    }
    if over {
        None
    } else {
        Some(val)
    }
}

/// What a size string denotes: the string lower-cased, an optional
/// trailing binary-unit suffix (`k`, `m`, or `g`) applied to the decimal
/// number before it; rejected when the number is missing or malformed or
/// the result exceeds `u64`.
pub open spec fn parse_size_spec(s: Seq<char>) -> Option<u64> {
    if s.len() == 0 {
        None
    } else {
        let low = lower_of(s);
        if low.len() == 0 {
            None
        } else {
            let mult: int = if low.last() == 'k' {
                1024
            } else if low.last() == 'm' {
                1048576
            } else if low.last() == 'g' {
                1073741824
            } else {
                1
            };
            let num = if mult == 1 {
                low
            } else {
                low.drop_last()
            };
            match parse_u64_spec(num) {
                Some(v) => if v * mult <= u64::MAX {
                    Some((v * mult) as u64)
                } else {
                    None
                },
                None => None,
            }
        }
    }
}

/// Converts a size string to a number of bytes, supporting `K`, `M` and
/// `G` suffixes (case-insensitive), as `parse_size_spec` states; `None`
/// when the string does not denote a size that fits in `u64`.
pub fn parse_size(size_str: &str) -> (r: Option<u64>)
    ensures
        r == parse_size_spec(size_str@),
{
    if size_str.is_empty() {
        return None;
    }
    let low = lowercase(size_str);
    let n = low.as_str().unicode_len();
    if n == 0 {
        return None;
    }
    let chars = to_char_vec(low.as_str());
    let last = chars[n - 1];
    let mult: u64 = if last == 'k' {
        1024
    } else if last == 'm' {
        1048576
    } else if last == 'g' {
        1073741824
    } else {
        1
    };
    let num_str = if mult != 1 {
        low.as_str().substring_char(0, n - 1)
    } else {
        low.as_str()
    };
    proof {
        if mult != 1 {
            assert(num_str@ =~= low@.drop_last());
        }
    }
    match parse_u64(num_str) {
        Some(v) => {
            proof {
                let sv = parse_u64_spec(num_str@);
                assert(sv == Some(v as int));
            }
            match v.checked_mul(mult) {
                Some(total) => Some(total),
                None => {
                    proof {
                        assert(v as int * mult as int > u64::MAX);
                    }
                    None
                },
            }
        },
        None => {
            proof {
                let sv = parse_u64_spec(num_str@);
                if sv is Some {
                    let v = sv->Some_0;
                    assert(v > u64::MAX);
                    assert(v * mult as int >= v) by (nonlinear_arith)
                        requires
                            v > 0,
                            mult >= 1,
                    ;
                }
            }
            None
        },
    }
}

/// Whether `p` is a prefix of `s`.
pub open spec fn is_prefix_of(p: Seq<char>, s: Seq<char>) -> bool {
    p.len() <= s.len() && s.take(p.len() as int) == p
}

/// Replaces the starting substring `from` in `s` with `to` when `s` starts
/// with `from`; otherwise `s` is returned unchanged.
pub fn replace_from_start(s: &str, from: &str, to: &str) -> (r: String)
    ensures
        r@ == if is_prefix_of(from@, s@) {
            to@ + s@.skip(from@.len() as int)
        } else {
            s@
        },
{
    let n = s.unicode_len();
    let m = from.unicode_len();
    let s_chars = to_char_vec(s);
    let f_chars = to_char_vec(from);
    let mut starts: bool = m <= n;
    let mut i: usize = 0;
    while i < m && starts
        invariant
            n == s@.len(),
            m == from@.len(),
            s_chars@ == s@,
            f_chars@ == from@,
            i <= m,
            starts ==> m <= n && forall|j: int| 0 <= j < i ==> s@[j] == from@[j],
            !starts ==> !is_prefix_of(from@, s@),
        decreases m - i,
    {
        if s_chars[i] != f_chars[i] {
            proof {
                if is_prefix_of(from@, s@) {
                    assert(s@.take(m as int)[i as int] == from@[i as int]);
                }
            }
            starts = false;
        }
        i = i + 1;
    }
    if starts {
        proof {
            assert(s@.take(m as int) =~= from@);
        }
        let mut out = to.to_owned();
        let rem = s.substring_char(m, n);
        out.append(rem);
        proof {
            assert(out@ =~= to@ + s@.skip(from@.len() as int));
        }
        out
    } else {
        s.to_owned()
    }
}

/// Piping a value through a transformation, for a functional style.
pub trait Pipe: Sized {
    /// Transforms the value by applying the given function.
    fn pipe<R, F: FnOnce(Self) -> R>(self, f: F) -> (r: R)
        requires
            f.requires((self,)),
        ensures
            f.ensures((self,), r),
    ;
}

impl<T> Pipe for T {
    fn pipe<R, F: FnOnce(T) -> R>(self, f: F) -> (r: R) {
        f(self)
    }
}

} // verus!
