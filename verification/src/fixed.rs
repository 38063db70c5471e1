//! Fixed-point scalar arithmetic.
//!
//! Every scalar of the simulation is an `i64` holding the real value times
//! [`SCALE`].  Products and quotients are computed in 128-bit intermediates,
//! truncated toward zero (the behaviour of hardware division) and saturated
//! at [`SAT_LIM`], so every operation is total and its result is stated
//! exactly by a spec function.

use vstd::prelude::*;

use vstd::arithmetic::div_mod::lemma_div_by_multiple;
use vstd::arithmetic::div_mod::lemma_div_is_ordered;
use vstd::arithmetic::div_mod::lemma_div_nonincreasing;
use vstd::arithmetic::div_mod::lemma_div_pos_is_pos;
use vstd::arithmetic::mul::lemma_mul_left_inequality;
use vstd::arithmetic::mul::lemma_mul_nonnegative;
use vstd::arithmetic::mul::lemma_mul_unary_negation;
use vstd::arithmetic::mul::lemma_mul_upper_bound;

verus! {

/// One whole unit: a real value `v` is stored as `v * SCALE`.
pub const SCALE: i64 = 65536;

/// Saturation bound of the raw arithmetic helpers (`2^62`).
pub const SAT_LIM: i64 = 0x4000_0000_0000_0000;

/// `v` limited to the interval `[-lim, lim]`.
pub open spec fn clamp_i(v: int, lim: int) -> int {
    if v > lim {
        lim
    } else if v < -lim {
        -lim
    } else {
        v
    }
}

/// Division truncated toward zero, for a positive divisor.
pub open spec fn div_tz(a: int, b: int) -> int
    recommends
        b > 0,
{
    if a >= 0 {
        a / b
    } else {
        -((-a) / b)
    }
}

/// `a * b / d` truncated toward zero, saturated at [`SAT_LIM`].
pub open spec fn mul_div_clamped(a: int, b: int, d: int) -> int
    recommends
        d > 0,
{
    clamp_i(div_tz(a * b, d), SAT_LIM as int)
}

/// Fixed-point product: `a * b / SCALE`, truncated and saturated.
pub open spec fn fx_mul(a: int, b: int) -> int {
    mul_div_clamped(a, b, SCALE as int)
}

/// Fixed-point quotient: `a * SCALE / b`, truncated and saturated.
pub open spec fn fx_div(a: int, b: int) -> int
    recommends
        b > 0,
{
    mul_div_clamped(a, SCALE as int, b)
}

/// `a + b` saturated at [`SAT_LIM`].
pub open spec fn add_clamped(a: int, b: int) -> int {
    clamp_i(a + b, SAT_LIM as int)
}

/// `a - b` saturated at [`SAT_LIM`].
pub open spec fn sub_clamped(a: int, b: int) -> int {
    clamp_i(a - b, SAT_LIM as int)
}

/// `r` is the integer square root of `n`.
pub open spec fn is_isqrt(n: int, r: int) -> bool {
    0 <= r && r * r <= n && n < (r + 1) * (r + 1)
}

/// The integer square root (floor of the real square root).
pub open spec fn isqrt(n: int) -> int {
    choose|r: int| is_isqrt(n, r)
}

/// The integer square root is unique, so any witness determines `isqrt`.
pub proof fn lemma_isqrt_is(n: int, r: int)
    requires
        is_isqrt(n, r),
    ensures
        isqrt(n) == r,
{
    let s: int = choose|x: int| is_isqrt(n, x);
    assert(is_isqrt(n, s));
    if s < r {
        assert((s + 1) * (s + 1) <= r * r) by (nonlinear_arith)
            requires
                0 <= s,
                s < r,
        ;
        assert(false);
    }
    if r < s {
        assert((r + 1) * (r + 1) <= s * s) by (nonlinear_arith)
            requires
                0 <= r,
                r < s,
        ;
        assert(false);
    }
}

/// Every nonnegative integer has an integer square root, so `isqrt`
/// denotes it.
pub proof fn lemma_isqrt_exists(n: int)
    requires
        0 <= n,
    ensures
        is_isqrt(n, isqrt(n)),
    decreases n,
{
    if n == 0 {
        assert(is_isqrt(0, 0));
    } else {
        lemma_isqrt_exists(n - 1);
        lemma_isqrt_is(n - 1, isqrt(n - 1));
        let r: int = isqrt(n - 1);
        if n < (r + 1) * (r + 1) {
            assert(is_isqrt(n, r));
        } else {
            assert(n == (r + 1) * (r + 1));
            assert((r + 2) * (r + 2) > (r + 1) * (r + 1)) by (nonlinear_arith)
                requires
                    0 <= r,
            ;
            assert(is_isqrt(n, r + 1));
        }
        assert(exists|x: int| is_isqrt(n, x));
    }
}

/// `v` limited to `[-lim, lim]`, executable form.
pub fn clamp64(v: i64, lim: i64) -> (r: i64)
    requires
        0 < lim,
    ensures
        r as int == clamp_i(v as int, lim as int),
{
    if v > lim {
        lim
    } else if v < -lim {
        -lim
    } else {
        v
    }
}

/// Saturating sum of two fixed-point scalars.
pub fn sat_add(a: i64, b: i64) -> (r: i64)
    ensures
        r as int == add_clamped(a as int, b as int),
{
    let s: i128 = a as i128 + b as i128;
    if s > SAT_LIM as i128 {
        SAT_LIM
    } else if s < -(SAT_LIM as i128) {
        -SAT_LIM
    } else {
        s as i64
    }
}

/// Saturating difference of two fixed-point scalars.
pub fn sat_sub(a: i64, b: i64) -> (r: i64)
    ensures
        r as int == sub_clamped(a as int, b as int),
{
    let s: i128 = a as i128 - b as i128;
    if s > SAT_LIM as i128 {
        SAT_LIM
    } else if s < -(SAT_LIM as i128) {
        -SAT_LIM
    } else {
        s as i64
    }
}

/// `a * b / d` with a 128-bit intermediate product, truncated toward zero
/// and saturated at [`SAT_LIM`].
pub fn mul_div_sat(a: i64, b: i64, d: i64) -> (r: i64)
    requires
        d >= 1,
    ensures
        r as int == mul_div_clamped(a as int, b as int, d as int),
{
    let aw: i128 = a as i128;
    let bw: i128 = b as i128;
    let neg: bool = (a < 0) != (b < 0);
    let aa: u128 = if aw >= 0 {
        aw as u128
    } else {
        (-aw) as u128
    };
    let bb: u128 = if bw >= 0 {
        bw as u128
    } else {
        (-bw) as u128
    };
    proof {
        assert(aa * bb <= 0x4000_0000_0000_0000_0000_0000_0000_0000u128) by (nonlinear_arith)
            requires
                aa <= 0x8000_0000_0000_0000u128,
                bb <= 0x8000_0000_0000_0000u128,
        ;
    }
    let p: u128 = aa * bb;
    let q: u128 = p / (d as u128);
    let qc: u128 = if q > SAT_LIM as u128 {
        SAT_LIM as u128
    } else {
        q
    };
    proof {
        assert(aa == abs_i(a as int) && bb == abs_i(b as int));
        assert(p == abs_i(a as int) * abs_i(b as int));
        lemma_abs_mul(a as int, b as int);
        assert(p == abs_i((a as int) * (b as int)));
        assert(q == abs_i((a as int) * (b as int)) / (d as int));
    }
    if neg {
        proof {
            assert((a as int) * (b as int) <= 0) by (nonlinear_arith)
                requires
                    ((a as int) < 0) != ((b as int) < 0),
            ;
            assert(div_tz((a as int) * (b as int), d as int) == -(q as int));
        }
        -(qc as i64)
    } else {
        proof {
            assert((a as int) * (b as int) >= 0) by (nonlinear_arith)
                requires
                    ((a as int) < 0) == ((b as int) < 0),
            ;
            assert(div_tz((a as int) * (b as int), d as int) == q as int);
        }
        qc as i64
    }
}

/// The absolute value of an integer.
pub open spec fn abs_i(v: int) -> int {
    if v >= 0 {
        v
    } else {
        -v
    }
}

/// The absolute value distributes over a product.
pub proof fn lemma_abs_mul(a: int, b: int)
    ensures
        abs_i(a * b) == abs_i(a) * abs_i(b),
{
    assert(abs_i(a * b) == abs_i(a) * abs_i(b)) by (nonlinear_arith);
}

/// For `0 <= num <= den`, scaling `x` by `num / den` (truncated toward
/// zero) stays between `0` and `x`.
pub proof fn lemma_scale_frac_range(x: int, num: int, den: int)
    requires
        1 <= den,
        0 <= num <= den,
    ensures
        x >= 0 ==> 0 <= div_tz(x * num, den) <= x,
        x < 0 ==> x <= div_tz(x * num, den) <= 0,
{
    if x >= 0 {
        lemma_mul_nonnegative(x, num);
        if x > 0 {
            lemma_mul_left_inequality(x, num, den);
        } else {
            assert(x * num == 0) by (nonlinear_arith)
                requires
                    x == 0,
            ;
            assert(x * den == 0) by (nonlinear_arith)
                requires
                    x == 0,
            ;
        }
        lemma_div_is_ordered(x * num, x * den, den);
        lemma_div_by_multiple(x, den);
        lemma_div_pos_is_pos(x * num, den);
    } else {
        let e: int = -x;
        lemma_mul_unary_negation(x, num);
        assert(x * num == -(e * num));
        lemma_mul_nonnegative(e, num);
        lemma_mul_left_inequality(e, num, den);
        lemma_div_is_ordered(e * num, e * den, den);
        lemma_div_by_multiple(e, den);
        lemma_div_pos_is_pos(e * num, den);
        assert(div_tz(x * num, den) == -((e * num) / den));
    }
}

/// Magnitude bound for [`mul_div_clamped`] from bounds on its operands.
pub proof fn lemma_mul_div_bound(a: int, b: int, d: int, ab: int, bb: int)
    requires
        1 <= d,
        0 <= ab,
        0 <= bb,
        abs_i(a) <= ab,
        abs_i(b) <= bb,
    ensures
        abs_i(mul_div_clamped(a, b, d)) <= ab * bb / d,
        abs_i(mul_div_clamped(a, b, d)) <= ab * bb,
{
    lemma_abs_mul(a, b);
    lemma_mul_upper_bound(abs_i(a), ab, abs_i(b), bb);
    let p: int = a * b;
    assert(abs_i(p) <= ab * bb);
    lemma_div_is_ordered(abs_i(p), ab * bb, d);
    lemma_div_pos_is_pos(abs_i(p), d);
    assert(abs_i(div_tz(p, d)) == abs_i(p) / d);
    assert(abs_i(p) / d <= ab * bb / d);
    lemma_div_nonincreasing(ab * bb, d);
    assert(abs_i(clamp_i(div_tz(p, d), SAT_LIM as int)) <= abs_i(div_tz(p, d)));
}

/// Integer square root of a 64-bit value, by bisection.
pub fn isqrt64(n: u64) -> (r: u64)
    ensures
        is_isqrt(n as int, r as int),
        r as int == isqrt(n as int),
        r <= 0x1_0000_0000u64,
{
    let mut lo: u64 = 0;
    let mut hi: u64 = 0x1_0000_0000;
    proof {
        assert((hi as int) * (hi as int) > n as int) by (nonlinear_arith)
            requires
                hi == 0x1_0000_0000u64,
                n <= 0xffff_ffff_ffff_ffffu64,
        ;
    }
    while hi - lo > 1
        invariant
            lo < hi <= 0x1_0000_0000u64,
            (lo as int) * (lo as int) <= n as int,
            (n as int) < (hi as int) * (hi as int),
        decreases hi - lo,
    {
        let mid: u64 = lo + (hi - lo) / 2;
        proof {
            assert((mid as u128) * (mid as u128) <= 0x1_0000_0000_0000_0000u128) by (nonlinear_arith)
                requires
                    mid <= 0x1_0000_0000u64,
            ;
        }
        let sq: u128 = (mid as u128) * (mid as u128);
        if sq <= n as u128 {
            lo = mid;
        } else {
            hi = mid;
        }
    }
    proof {
        lemma_isqrt_is(n as int, lo as int);
    }
    lo
}

} // verus!
