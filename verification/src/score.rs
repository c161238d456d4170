//! Fixed-point relevance arithmetic.
//!
//! Scores are integers in units of `1 / SCALE`. A document's score against a
//! query is a TF-IDF sum — `(1 + log10(tf)) * log10(n / df)` per query token —
//! normalised by the square root of the document's total term count, then
//! multiplied by a coverage factor: doubled when (almost) every query token
//! matched, otherwise scaled down by the fraction that did. The logarithm and
//! the square root are computed to `SCALE` precision with integer arithmetic
//! alone, so every score is a mathematical function of the index contents.

use vstd::prelude::*;

verus! {

/// One unit in the fixed-point encoding (2^20).
pub const SCALE: u64 = 1048576;

pub open spec fn pow2(e: nat) -> int
    decreases e,
{
    if e == 0 {
        1
    } else {
        2 * pow2((e - 1) as nat)
    }
}

pub open spec fn pow10(e: nat) -> int
    decreases e,
{
    if e == 0 {
        1
    } else {
        10 * pow10((e - 1) as nat)
    }
}

/// The number of decimal digits of `n`, less one.
pub open spec fn floor_log10(n: int) -> nat
    decreases n,
{
    if n < 10 {
        0
    } else {
        1 + floor_log10(n / 10)
    }
}

/// Binary-digit extraction of the fractional part of `log10(x / SCALE)`,
/// with `r` rounds left: repeatedly square the mantissa; each time the
/// square reaches 10 the next binary digit of the logarithm is 1.
pub open spec fn frac_steps(x: int, r: nat) -> int
    decreases r,
{
    if r == 0 {
        0
    } else {
        let x2 = (x * x) / (SCALE as int);
        if x2 >= 10 * (SCALE as int) {
            pow2((r - 1) as nat) + frac_steps(x2 / 10, (r - 1) as nat)
        } else {
            frac_steps(x2, (r - 1) as nat)
        }
    }
}

/// `log10(n)` in `SCALE` units: the digit count gives the integer part, and
/// twenty rounds of mantissa squaring give the fraction.
pub open spec fn log10_fixed_spec(n: int) -> int {
    if n < 1 {
        0
    } else {
        let d = floor_log10(n);
        let x0 = (n * SCALE) / pow10(d);
        d * SCALE + frac_steps(x0, 20)
    }
}

pub open spec fn is_sqrt_floor(x: int, r: int) -> bool {
    0 <= r && r * r <= x && x < (r + 1) * (r + 1)
}

/// The integer square root (rounded down).
pub closed spec fn sqrt_floor(x: int) -> int {
    choose|r: int| is_sqrt_floor(x, r)
}

/// `sqrt(t)` in `SCALE` units.
pub open spec fn sqrt_fixed_spec(t: int) -> int {
    sqrt_floor(t * SCALE * SCALE)
}

pub open spec fn sat_add_spec(a: int, b: int) -> int {
    if a + b > u128::MAX {
        u128::MAX as int
    } else {
        a + b
    }
}

pub open spec fn sat_mul_spec(a: int, b: int) -> int {
    if a * b > u128::MAX {
        u128::MAX as int
    } else {
        a * b
    }
}

/// Inverse document frequency of a token, in `SCALE` units:
/// `log10(max(n / df, 1))`, or zero for a token no document contains.
pub open spec fn idf_fixed_spec(n: int, df: int) -> int {
    if df <= 0 || n <= df {
        0
    } else {
        let ln = log10_fixed_spec(n);
        let ld = log10_fixed_spec(df);
        if ln >= ld {
            ln - ld
        } else {
            0
        }
    }
}

/// One query token's contribution: `(1 + log10(tf)) * idf`, zero when the
/// token does not occur in the document.
pub open spec fn term_fixed_spec(tf: int, idf: int) -> int {
    if tf > 0 {
        (SCALE + log10_fixed_spec(tf)) * idf
    } else {
        0
    }
}

/// The TF-IDF sum over all query tokens, accumulated with saturating
/// addition (the saturation bound is never reached for realistic inputs,
/// but makes the definition total).
pub open spec fn acc_fixed_spec(tfs: Seq<int>, dfs: Seq<int>, n: int) -> int
    decreases tfs.len(),
{
    if tfs.len() == 0 {
        0
    } else {
        sat_add_spec(
            acc_fixed_spec(tfs.drop_last(), dfs.drop_last(), n),
            term_fixed_spec(tfs.last(), idf_fixed_spec(n, dfs.last())),
        )
    }
}

/// How many query tokens occur in the document at least once.
pub open spec fn match_count_spec(tfs: Seq<int>) -> int
    decreases tfs.len(),
{
    if tfs.len() == 0 {
        0
    } else {
        match_count_spec(tfs.drop_last()) + if tfs.last() > 0 {
            1int
        } else {
            0int
        }
    }
}

/// A document's full relevance score in `SCALE` units. `tfs[k]` is the
/// document's frequency of query token `k`, `dfs[k]` that token's document
/// frequency, `total_terms` the sum of the document's term counts, and `n`
/// the number of indexed documents. The TF-IDF sum is divided by
/// `sqrt(total_terms)`, then boosted or penalised by query coverage: full
/// coverage (a matched fraction above 999/1000) doubles the score, partial
/// coverage multiplies it by the matched fraction.
pub open spec fn score_fixed_spec(tfs: Seq<int>, dfs: Seq<int>, total_terms: int, n: int) -> int {
    let acc = acc_fixed_spec(tfs, dfs, n);
    let normalized = if total_terms > 0 {
        sat_mul_spec(acc, SCALE as int) / sqrt_fixed_spec(total_terms)
    } else {
        acc
    };
    let m = match_count_spec(tfs);
    let q = tfs.len() as int;
    if q == 0 {
        0
    } else if 1000 * m > 999 * q {
        sat_mul_spec(normalized, 2)
    } else {
        sat_mul_spec(normalized, (m * SCALE) / q) / (SCALE as int)
    }
}

pub proof fn lemma_pow10_pos(e: nat)
    ensures
        pow10(e) >= 1,
    decreases e,
{
    if e > 0 {
        lemma_pow10_pos((e - 1) as nat);
    }
}

pub proof fn lemma_pow2_pos(e: nat)
    ensures
        pow2(e) >= 1,
    decreases e,
{
    if e > 0 {
        lemma_pow2_pos((e - 1) as nat);
    }
}

/// `floor_log10` is characterised by the decade the number falls in.
pub proof fn lemma_floor_log10_char(n: int, d: nat)
    requires
        pow10(d) <= n,
        n < pow10(d + 1),
    ensures
        floor_log10(n) == d,
    decreases d,
{
    lemma_pow10_pos(d);
    if d == 0 {
        assert(n < 10);
    } else {
        lemma_pow10_pos((d - 1) as nat);
        assert(pow10(d) == 10 * pow10((d - 1) as nat));
        assert(n >= 10);
        assert(pow10((d - 1) as nat) <= n / 10 && n / 10 < pow10(d)) by {
            assert(10 * pow10((d - 1) as nat) <= n && n < 10 * pow10(d) ==> pow10(
                (d - 1) as nat,
            ) <= n / 10 && n / 10 < pow10(d)) by (nonlinear_arith);
        }
        lemma_floor_log10_char(n / 10, (d - 1) as nat);
    }
}

/// Below `pow10(d)` the decimal logarithm stays below `d`.
pub proof fn lemma_floor_log10_below(n: int, d: nat)
    requires
        1 <= n,
        n < pow10(d),
    ensures
        floor_log10(n) < d,
    decreases n,
{
    lemma_pow10_pos(d);
    if n < 10 {
        if d == 0 {
            assert(false);
        } else {
            lemma_pow10_pos((d - 1) as nat);
        }
    } else {
        assert(d >= 1) by {
            if d <= 1 {
                assert(pow10(d) <= 10) by {
                    if d == 1 {
                        assert(pow10(1nat) == 10);
                    }
                }
            }
        }
        assert(n / 10 < pow10((d - 1) as nat)) by {
            assert(pow10(d) == 10 * pow10((d - 1) as nat));
            assert(n < 10 * pow10((d - 1) as nat) ==> n / 10 < pow10((d - 1) as nat))
                by (nonlinear_arith);
        }
        assert(1 <= n / 10);
        lemma_floor_log10_below(n / 10, (d - 1) as nat);
    }
}

/// `frac_steps` stays under the weight of the bits it can still set.
pub proof fn lemma_frac_steps_bound(x: int, r: nat)
    ensures
        0 <= frac_steps(x, r),
        frac_steps(x, r) < pow2(r),
    decreases r,
{
    lemma_pow2_pos(r);
    if r > 0 {
        let x2 = (x * x) / (SCALE as int);
        lemma_pow2_pos((r - 1) as nat);
        if x2 >= 10 * (SCALE as int) {
            lemma_frac_steps_bound(x2 / 10, (r - 1) as nat);
        } else {
            lemma_frac_steps_bound(x2, (r - 1) as nat);
        }
        assert(pow2(r) == 2 * pow2((r - 1) as nat));
    }
}

/// Every `u64` is below `10^20`, so its decimal logarithm is below 20.
pub proof fn lemma_floor_log10_u64(n: int)
    requires
        1 <= n <= u64::MAX,
    ensures
        floor_log10(n) <= 19,
        0 <= log10_fixed_spec(n) < 20 * SCALE,
{
    assert(pow10(20) == 0x56bc75e2d63100000) by {
        reveal_with_fuel(pow10, 21);
    }
    lemma_floor_log10_below(n, 20);
    let d = floor_log10(n);
    let x0 = (n * SCALE) / pow10(d);
    lemma_frac_steps_bound(x0, 20);
    assert(pow2(20) == SCALE) by {
        reveal_with_fuel(pow2, 21);
    }
    assert(d * SCALE <= 19 * SCALE) by (nonlinear_arith)
        requires
            d <= 19,
    ;
    assert(log10_fixed_spec(n) >= 0) by {
        lemma_pow10_pos(d);
        assert(x0 >= 0) by {
            assert(n * SCALE >= 0) by (nonlinear_arith)
                requires
                    n >= 1,
            ;
            assert(n * SCALE >= 0 && pow10(d) >= 1 ==> (n * SCALE) / pow10(d) >= 0)
                by (nonlinear_arith);
        }
    }
}

/// Two floor square roots of the same number agree.
pub proof fn lemma_sqrt_floor_unique(x: int, a: int, b: int)
    requires
        is_sqrt_floor(x, a),
        is_sqrt_floor(x, b),
    ensures
        a == b,
{
    assert(a == b) by (nonlinear_arith)
        requires
            0 <= a && a * a <= x && x < (a + 1) * (a + 1),
            0 <= b && b * b <= x && x < (b + 1) * (b + 1),
    ;
}

/// Every non-negative number has a floor square root, so `sqrt_floor`
/// denotes it.
pub proof fn lemma_sqrt_floor_exists(x: nat)
    ensures
        is_sqrt_floor(x as int, sqrt_floor(x as int)),
    decreases x,
{
    if x == 0 {
        assert(is_sqrt_floor(0, 0));
    } else {
        lemma_sqrt_floor_exists((x - 1) as nat);
        let r = sqrt_floor((x - 1) as int);
        if (r + 1) * (r + 1) <= x {
            assert(is_sqrt_floor(x as int, r + 1)) by (nonlinear_arith)
                requires
                    0 <= r,
                    r * r <= x - 1,
                    x - 1 < (r + 1) * (r + 1),
                    (r + 1) * (r + 1) <= x,
            ;
        } else {
            assert(is_sqrt_floor(x as int, r));
        }
    }
    assert(exists|r: int| is_sqrt_floor(x as int, r));
}


/// `pow10` grows with its exponent.
pub proof fn lemma_pow10_mono(a: nat, b: nat)
    requires
        a <= b,
    ensures
        pow10(a) <= pow10(b),
    decreases b,
{
    if a < b {
        lemma_pow10_mono(a, (b - 1) as nat);
        lemma_pow10_pos((b - 1) as nat);
    }
}

/// `log10(n)` in `SCALE` units, by digit count and mantissa squaring.
pub fn log10_fixed(n: u64) -> (r: u64)
    requires
        1 <= n,
    ensures
        r as int == log10_fixed_spec(n as int),
        r < 20 * SCALE,
{
    proof {
        lemma_floor_log10_u64(n as int);
    }
    // The decade of n: d digits (less one) and p == 10^d <= n.
    let mut d: u64 = 0;
    let mut p: u64 = 1;
    while n / p >= 10
        invariant
            1 <= n,
            1 <= p <= n,
            p as int == pow10(d as nat),
            d <= 19,
        decreases n - p,
    {
        proof {
            vstd::arithmetic::div_mod::lemma_fundamental_div_mod(n as int, p as int);
            assert(n >= 10 * p) by (nonlinear_arith)
                requires
                    p >= 1,
                    (n as int) / (p as int) >= 10,
                    n as int == (p as int) * ((n as int) / (p as int)) + (n as int) % (p as int),
                    0 <= (n as int) % (p as int) && (n as int) % (p as int) < p as int,
            ;
            if d >= 19 {
                assert(pow10(19) == 10000000000000000000) by {
                    reveal_with_fuel(pow10, 21);
                }
                assert(false);
            }
        }
        p = p * 10;
        d = d + 1;
    }
    proof {
        vstd::arithmetic::div_mod::lemma_fundamental_div_mod(n as int, p as int);
        assert(n < 10 * p) by (nonlinear_arith)
            requires
                p >= 1,
                (n as int) / (p as int) < 10,
                n as int == (p as int) * ((n as int) / (p as int)) + (n as int) % (p as int),
                0 <= (n as int) % (p as int) && (n as int) % (p as int) < p as int,
        ;
        assert(pow10((d + 1) as nat) == 10 * pow10(d as nat));
        lemma_floor_log10_char(n as int, d as nat);
        assert(n as int * SCALE as int <= u128::MAX) by (nonlinear_arith)
            requires
                n <= 0xffffffffffffffffu64,
                SCALE == 1048576u64,
        ;
    }
    // The mantissa n / 10^d in SCALE units, in [SCALE, 10 * SCALE).
    let wide: u128 = (n as u128 * SCALE as u128) / (p as u128);
    proof {
        let prod = n as int * SCALE as int;
        vstd::arithmetic::div_mod::lemma_fundamental_div_mod(prod, p as int);
        assert(SCALE as int <= prod / (p as int) && prod / (p as int) < 10 * SCALE as int)
            by (nonlinear_arith)
            requires
                1 <= p as int,
                p <= n,
                (n as int) < 10 * (p as int),
                prod == n as int * SCALE as int,
                SCALE == 1048576u64,
                prod == (p as int) * (prod / (p as int)) + prod % (p as int),
                0 <= prod % (p as int) && prod % (p as int) < p as int,
        ;
    }
    let x0: u64 = wide as u64;
    // Twenty binary digits of the fractional part.
    let mut x: u64 = x0;
    let mut acc: u64 = 0;
    let mut bit: u64 = 524288;
    let mut i: u64 = 0;
    proof {
        reveal_with_fuel(pow2, 21);
    }
    while i < 20
        invariant
            i <= 20,
            SCALE <= x < 10 * SCALE,
            i < 20 ==> bit as int == pow2((19 - i) as nat),
            acc as int + frac_steps(x as int, (20 - i) as nat) == frac_steps(x0 as int, 20),
            acc as int <= SCALE - pow2((20 - i) as nat),
        decreases 20 - i,
    {
        proof {
            lemma_pow2_pos((19 - i) as nat);
            assert(pow2((20 - i) as nat) == 2 * pow2((19 - i) as nat));
            assert(x as int * x as int <= u128::MAX) by (nonlinear_arith)
                requires
                    x < 10485760u64,
            ;
        }
        let sq_wide: u128 = (x as u128 * x as u128) / (SCALE as u128);
        proof {
            let sq = x as int * x as int;
            vstd::arithmetic::div_mod::lemma_fundamental_div_mod(sq, SCALE as int);
            assert(SCALE as int <= sq / (SCALE as int) && sq / (SCALE as int) < 100 * (
            SCALE as int)) by (nonlinear_arith)
                requires
                    SCALE == 1048576u64,
                    SCALE <= x,
                    x < 10 * SCALE,
                    sq == x as int * x as int,
                    sq == (SCALE as int) * (sq / (SCALE as int)) + sq % (SCALE as int),
                    0 <= sq % (SCALE as int) && sq % (SCALE as int) < SCALE as int,
            ;
        }
        let x2: u64 = sq_wide as u64;
        proof {
            if i + 1 < 20 {
                assert(pow2((19 - i) as nat) == 2 * pow2((18 - i) as nat));
            }
        }
        if x2 >= 10 * SCALE {
            x = x2 / 10;
            acc = acc + bit;
        } else {
            x = x2;
        }
        bit = bit / 2;
        i = i + 1;
    }
    proof {
        assert(x0 as int == (n as int * SCALE as int) / pow10(floor_log10(n as int)));
    }
    d * SCALE + acc
}

/// `sqrt(t)` in `SCALE` units, by binary search on `t * SCALE^2`.
pub fn sqrt_fixed(t: u64) -> (r: u64)
    ensures
        r as int == sqrt_fixed_spec(t as int),
        is_sqrt_floor(t as int * SCALE as int * SCALE as int, r as int),
{
    proof {
        assert((t as int) * (SCALE as int) * (SCALE as int) < 0x100000000000000000000000000int)
            by (nonlinear_arith)
            requires
                t <= 0xffffffffffffffffu64,
                SCALE == 1048576u64,
        ;
        assert(t as int * SCALE as int * SCALE as int >= 0) by (nonlinear_arith)
            requires
                t >= 0,
                SCALE == 1048576u64,
        ;
    }
    let target: u128 = t as u128 * SCALE as u128 * SCALE as u128;
    let mut lo: u128 = 0;
    let mut hi: u128 = 4503599627370496;  // 2^52, above the root of any possible target
    proof {
        assert(target < (4503599627370496int + 1) * (4503599627370496int + 1))
            by (nonlinear_arith)
            requires
                target < 0x100000000000000000000000000u128,
        ;
    }
    while lo < hi
        invariant
            lo <= hi <= 4503599627370496,
            lo as int * lo as int <= target,
            target < (hi as int + 1) * (hi as int + 1),
        decreases hi - lo,
    {
        let mid: u128 = lo + (hi - lo + 1) / 2;
        proof {
            assert(mid as int * mid as int <= u128::MAX) by (nonlinear_arith)
                requires
                    mid <= 4503599627370496u128,
            ;
        }
        if mid * mid <= target {
            lo = mid;
        } else {
            hi = mid - 1;
        }
    }
    proof {
        assert(is_sqrt_floor(target as int, lo as int));
        lemma_sqrt_floor_exists((t as int * SCALE as int * SCALE as int) as nat);
        lemma_sqrt_floor_unique(target as int, lo as int, sqrt_fixed_spec(t as int));
    }
    lo as u64
}

/// Saturating addition, exactly as `sat_add_spec` states it.
pub fn sat_add_u128(a: u128, b: u128) -> (r: u128)
    ensures
        r as int == sat_add_spec(a as int, b as int),
{
    if a > u128::MAX - b {
        u128::MAX
    } else {
        a + b
    }
}

/// Saturating multiplication, exactly as `sat_mul_spec` states it.
pub fn sat_mul_u128(a: u128, b: u128) -> (r: u128)
    ensures
        r as int == sat_mul_spec(a as int, b as int),
{
    if a == 0 {
        proof {
            assert(a as int * b as int == 0) by (nonlinear_arith)
                requires
                    a == 0,
            ;
        }
        0
    } else if b > u128::MAX / a {
        proof {
            vstd::arithmetic::div_mod::lemma_fundamental_div_mod(u128::MAX as int, a as int);
            assert(a as int * b as int > u128::MAX) by (nonlinear_arith)
                requires
                    a >= 1,
                    b as int > (u128::MAX as int) / (a as int),
                    u128::MAX as int == (a as int) * ((u128::MAX as int) / (a as int)) + (
                    u128::MAX as int) % (a as int),
                    0 <= (u128::MAX as int) % (a as int) && (u128::MAX as int) % (a as int)
                        < a as int,
            ;
        }
        u128::MAX
    } else {
        proof {
            vstd::arithmetic::div_mod::lemma_fundamental_div_mod(u128::MAX as int, a as int);
            assert(a as int * b as int <= u128::MAX) by (nonlinear_arith)
                requires
                    a >= 1,
                    b as int <= (u128::MAX as int) / (a as int),
                    u128::MAX as int == (a as int) * ((u128::MAX as int) / (a as int)) + (
                    u128::MAX as int) % (a as int),
                    0 <= (u128::MAX as int) % (a as int) && (u128::MAX as int) % (a as int)
                        < a as int,
            ;
        }
        a * b
    }
}

/// Inverse document frequency in `SCALE` units, as `idf_fixed_spec` states.
pub fn idf_fixed(n: u64, df: u64) -> (r: u64)
    ensures
        r as int == idf_fixed_spec(n as int, df as int),
        r < 20 * SCALE,
{
    if df == 0 || n <= df {
        0
    } else {
        let ln = log10_fixed(n);
        let ld = log10_fixed(df);
        if ln >= ld {
            ln - ld
        } else {
            0
        }
    }
}

} // verus!
