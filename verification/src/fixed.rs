//! Fixed-point scalars with six decimal places, and the integer arithmetic
//! the geometry is built on.
use vstd::prelude::*;

verus! {

/// The fixed-point representation of 1.0.
pub const ONE: i64 = 1_000_000;

/// Absolute value of a mathematical integer.
pub open spec fn abs(a: int) -> int {
    if a >= 0 {
        a
    } else {
        -a
    }
}

/// Quotient of `a` by `b`, rounded toward zero.
pub open spec fn tdiv(a: int, b: int) -> int
    recommends
        b != 0,
{
    if a >= 0 {
        a / b
    } else {
        -((-a) / b)
    }
}

/// The largest `r` with `r * r <= x`; zero for negative `x`.
pub open spec fn isqrt(x: int) -> int
    decreases x,
{
    if x <= 0 {
        0
    } else {
        let r = isqrt(x - 1);
        if (r + 1) * (r + 1) <= x {
            r + 1
        } else {
            r
        }
    }
}

/// `isqrt(x)` is the floor of the square root of `x`.
pub proof fn lemma_isqrt(x: int)
    requires
        x >= 0,
    ensures
        isqrt(x) >= 0,
        isqrt(x) * isqrt(x) <= x < (isqrt(x) + 1) * (isqrt(x) + 1),
    decreases x,
{
    if x > 0 {
        lemma_isqrt(x - 1);
        let r = isqrt(x - 1);
        assert((r + 2) * (r + 2) > (r + 1) * (r + 1) + 1) by (nonlinear_arith)
            requires
                r >= 0,
        ;
    }
}

/// Squaring is strictly monotonic on the naturals.
pub proof fn lemma_square_lt(a: int, b: int)
    by (nonlinear_arith)
    requires
        0 <= a < b,
    ensures
        a * a < b * b,
{
}

/// Only one natural number has `x` between its square and the next square.
pub proof fn lemma_isqrt_unique(x: int, r: int)
    requires
        r >= 0,
        r * r <= x < (r + 1) * (r + 1),
    ensures
        r == isqrt(x),
{
    assert(x >= 0) by (nonlinear_arith)
        requires
            r * r <= x,
    ;
    lemma_isqrt(x);
    let s = isqrt(x);
    if s < r {
        lemma_square_lt(s + 1, r + 1);
        if s + 1 < r {
            lemma_square_lt(s + 1, r);
        }
    } else if r < s {
        if r + 1 < s {
            lemma_square_lt(r + 1, s);
        }
    }
}

/// Floor of the square root of a 128-bit number.
pub fn sqrt_floor(x: u128) -> (r: u128)
    ensures
        r == isqrt(x as int),
        r * r <= x < (r + 1) * (r + 1),
        r < 0x1_0000_0000_0000_0000,
{
    let mut lo: u128 = 0;
    let mut hi: u128 = 0x1_0000_0000_0000_0000;
    while hi - lo > 1
        invariant
            lo < hi <= 0x1_0000_0000_0000_0000,
            lo * lo <= x < hi * hi,
        decreases hi - lo,
    {
        let mid: u128 = lo + (hi - lo) / 2;
        assert(mid * mid < 0x1_0000_0000_0000_0000 * 0x1_0000_0000_0000_0000) by (nonlinear_arith)
            requires
                0 <= mid < 0x1_0000_0000_0000_0000,
        ;
        if mid * mid <= x {
            lo = mid;
        } else {
            hi = mid;
        }
    }
    proof {
        lemma_isqrt_unique(x as int, lo as int);
    }
    lo
}

/// Dividing never increases the magnitude, the quotient times the divisor
/// stays within one divisor of the dividend, and the quotient has the sign
/// of the exact ratio.
pub proof fn lemma_tdiv(a: int, b: int)
    requires
        b != 0,
    ensures
        abs(tdiv(a, b)) <= abs(a),
        abs(tdiv(a, b)) * abs(b) <= abs(a) < (abs(tdiv(a, b)) + 1) * abs(b),
        (a >= 0) == (b > 0) ==> tdiv(a, b) >= 0,
        (a >= 0) != (b > 0) ==> tdiv(a, b) <= 0,
        a == 0 ==> tdiv(a, b) == 0,
        tdiv(-a, b) == -tdiv(a, b),
{
    let n = abs(a);
    let d = abs(b);
    assert(tdiv(a, b) == if (a >= 0) == (b > 0) { n / d } else { -(n / d) }) by {
        if b < 0 {
            assert(n / b == -(n / d)) by (nonlinear_arith)
                requires
                    n >= 0,
                    d > 0,
                    b == -d,
            ;
        }
    }
    assert(tdiv(-a, b) == if (-a >= 0) == (b > 0) { n / d } else { -(n / d) }) by {
        if b < 0 {
            assert(n / b == -(n / d)) by (nonlinear_arith)
                requires
                    n >= 0,
                    d > 0,
                    b == -d,
            ;
        }
    }
    assert(0 <= n / d <= n && (n / d) * d <= n < (n / d + 1) * d) by (nonlinear_arith)
        requires
            n >= 0,
            d > 0,
    ;
    if a == 0 {
        assert(0int / d == 0) by (nonlinear_arith)
            requires
                d > 0,
        ;
    }
}

/// Quotient rounded toward zero, on machine integers.
pub fn div_trunc(a: i128, b: i128) -> (q: i128)
    requires
        b != 0,
        a > i128::MIN,
    ensures
        q == tdiv(a as int, b as int),
{
    proof {
        lemma_tdiv(a as int, b as int);
    }
    a / b
}

/// Product of two 64-bit numbers, which always fits in 128 bits.
pub fn mul_wide(a: i64, b: i64) -> (p: i128)
    ensures
        p == a * b,
{
    assert(-0x4000_0000_0000_0000_0000_0000_0000_0000 <= a * b
        <= 0x4000_0000_0000_0000_0000_0000_0000_0000) by (nonlinear_arith)
        requires
            -0x8000_0000_0000_0000 <= a < 0x8000_0000_0000_0000,
            -0x8000_0000_0000_0000 <= b < 0x8000_0000_0000_0000,
    ;
    (a as i128) * (b as i128)
}

/// Rounding toward zero keeps the order of the dividends.
pub proof fn lemma_tdiv_monotonic(a1: int, a2: int, b: int)
    requires
        b > 0,
        a1 <= a2,
    ensures
        tdiv(a1, b) <= tdiv(a2, b),
{
    lemma_tdiv(a1, b);
    lemma_tdiv(a2, b);
    let q1 = tdiv(a1, b);
    let q2 = tdiv(a2, b);
    if a1 >= 0 {
        assert(q1 <= q2) by (nonlinear_arith)
            requires
                q1 * b <= a1,
                a1 <= a2,
                a2 < (q2 + 1) * b,
                b > 0,
        ;
    } else if a2 < 0 {
        let m1 = -q1;
        let m2 = -q2;
        assert(m2 <= m1) by (nonlinear_arith)
            requires
                m2 * b <= -a2,
                -a2 <= -a1,
                -a1 < (m1 + 1) * b,
                b > 0,
        ;
    }
}

/// Dividing an exact multiple gives the multiplier back.
pub proof fn lemma_tdiv_exact(k: int, b: int)
    requires
        b > 0,
    ensures
        tdiv(k * b, b) == k,
{
    lemma_tdiv(k * b, b);
    let q = tdiv(k * b, b);
    if k >= 0 {
        assert(k * b >= 0) by (nonlinear_arith)
            requires
                k >= 0,
                b > 0,
        ;
        assert(q == k) by (nonlinear_arith)
            requires
                q >= 0,
                k >= 0,
                b > 0,
                q * b <= k * b < (q + 1) * b,
        ;
    } else {
        assert(k * b < 0) by (nonlinear_arith)
            requires
                k < 0,
                b > 0,
        ;
        let m = -q;
        assert(m == -k) by (nonlinear_arith)
            requires
                m >= 0,
                k < 0,
                b > 0,
                m * b <= -(k * b) < (m + 1) * b,
        ;
    }
}

/// `x` held between `lo` and `hi`.
pub open spec fn clamp(x: int, lo: int, hi: int) -> int {
    if x < lo {
        lo
    } else if x > hi {
        hi
    } else {
        x
    }
}

/// A product is bounded by the product of the bounds of its factors.
pub proof fn lemma_mul_bound(a: int, b: int, ba: int, bb: int)
    by (nonlinear_arith)
    requires
        -ba <= a <= ba,
        -bb <= b <= bb,
    ensures
        -(ba * bb) <= a * b <= ba * bb,
{
}

/// A component whose square is below `(b + 1)^2` has magnitude at most `b`.
pub proof fn lemma_square_root_bound(a: int, b: int)
    by (nonlinear_arith)
    requires
        b >= 0,
        a * a < (b + 1) * (b + 1),
    ensures
        -b <= a <= b,
{
}

/// If `|q| * |b| <= |a|` and `|a| <= bound * |b|` then `|q| <= bound`.
pub proof fn lemma_quotient_bound(a: int, b: int, q: int, bound: int)
    by (nonlinear_arith)
    requires
        b != 0,
        abs(q) * abs(b) <= abs(a),
        abs(a) <= bound * abs(b),
    ensures
        -bound <= q <= bound,
{
}

/// A fixed-point product is bounded by the product of the bounds of its
/// factors, divided by `ONE`.
pub proof fn lemma_times_bound(a: int, b: int, ba: int, bb: int, bound: int)
    requires
        -ba <= a <= ba,
        -bb <= b <= bb,
        ba * bb <= bound * ONE,
    ensures
        -bound <= tdiv(a * b, ONE as int) <= bound,
{
    lemma_mul_bound(a, b, ba, bb);
    lemma_tdiv(a * b, ONE as int);
    lemma_quotient_bound(a * b, ONE as int, tdiv(a * b, ONE as int), bound);
}

/// Fixed-point product of two numbers of moderate size.
pub fn times(a: i64, b: i64) -> (r: i64)
    requires
        -0x100_0000_0000 <= a <= 0x100_0000_0000,
        -0x100_0000_0000 <= b <= 0x100_0000_0000,
    ensures
        r == tdiv(a * b, ONE as int),
{
    proof {
        lemma_mul_bound(a as int, b as int, 0x100_0000_0000, 0x100_0000_0000);
        lemma_tdiv(a * b, ONE as int);
    }
    div_trunc(mul_wide(a, b), ONE as i128) as i64
}

} // verus!
