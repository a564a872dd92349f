//! The quadratic `a t^2 + 2 h t + c = 0` that a ray and a round surface
//! give rise to, solved for the nearest admissible parameter.
use crate::fixed::{
    ONE, div_trunc, isqrt, lemma_isqrt, lemma_tdiv, lemma_tdiv_monotonic, sqrt_floor, tdiv,
};
use vstd::prelude::*;

verus! {

/// Largest magnitude of `h * h` and of `a * c` that [`nearest_root`]
/// accepts: two to the power 125.
pub const TERM_MAX: i128 = 0x2000_0000_0000_0000_0000_0000_0000_0000;

/// The discriminant `h^2 - a c`, a quarter of the textbook one.
pub open spec fn discriminant(a: int, h: int, c: int) -> int {
    h * h - a * c
}

/// The smaller root as a fixed-point number, rounded toward zero. The
/// coefficients carry the scale `ONE * ONE`.
pub open spec fn small_root(a: int, h: int, c: int) -> int {
    tdiv((-h - isqrt(discriminant(a, h, c))) * ONE, a)
}

/// The larger root, likewise.
pub open spec fn large_root(a: int, h: int, c: int) -> int {
    tdiv((-h + isqrt(discriminant(a, h, c))) * ONE, a)
}

/// The root to use for the interval from `t_min` to `t_max`, both ends
/// included: the smaller one if it lies in the interval, else the larger
/// one if that does. There is none if the equation has no real root or is
/// not quadratic.
pub open spec fn nearest_root_spec(a: int, h: int, c: int, t_min: int, t_max: int) -> Option<int> {
    if a <= 0 || discriminant(a, h, c) < 0 {
        None
    } else if t_min <= small_root(a, h, c) <= t_max {
        Some(small_root(a, h, c))
    } else if t_min <= large_root(a, h, c) <= t_max {
        Some(large_root(a, h, c))
    } else {
        None
    }
}

/// A number whose square is at most two to the power 126 is below two to
/// the power 63 in magnitude.
proof fn lemma_root_fits(x: int)
    by (nonlinear_arith)
    requires
        x * x <= 0x4000_0000_0000_0000_0000_0000_0000_0000,
    ensures
        -0x8000_0000_0000_0000 <= x <= 0x8000_0000_0000_0000,
{
}

/// Solves the quadratic for the nearest root within `t_min ..= t_max`.
pub fn nearest_root(a: i128, h: i128, c: i128, t_min: i64, t_max: i64) -> (r: Option<i64>)
    requires
        h * h <= TERM_MAX,
        -TERM_MAX <= a * c <= TERM_MAX,
        a <= TERM_MAX,
    ensures
        match r {
            Some(t) => nearest_root_spec(a as int, h as int, c as int, t_min as int, t_max as int)
                == Some(t as int) && t_min <= t <= t_max,
            None => nearest_root_spec(a as int, h as int, c as int, t_min as int, t_max as int)
                is None,
        },
{
    if a <= 0 {
        return None;
    }
    proof {
        lemma_root_fits(h as int);
        assert(h * h >= 0) by (nonlinear_arith);
    }
    let disc: i128 = h * h - a * c;
    if disc < 0 {
        return None;
    }
    let root: i128 = sqrt_floor(disc as u128) as i128;
    proof {
        lemma_root_fits(root as int);
        lemma_tdiv((-h - root) * ONE, a as int);
        lemma_tdiv((-h + root) * ONE, a as int);
    }
    let one: i128 = ONE as i128;
    let small: i128 = div_trunc((-h - root) * one, a);
    if (t_min as i128) <= small && small <= (t_max as i128) {
        return Some(small as i64);
    }
    let large: i128 = div_trunc((-h + root) * one, a);
    if (t_min as i128) <= large && large <= (t_max as i128) {
        return Some(large as i64);
    }
    None
}

/// The smaller root is not larger than the larger one.
pub proof fn lemma_roots_ordered(a: int, h: int, c: int)
    requires
        a > 0,
        discriminant(a, h, c) >= 0,
    ensures
        small_root(a, h, c) <= large_root(a, h, c),
{
    let s = isqrt(discriminant(a, h, c));
    lemma_isqrt(discriminant(a, h, c));
    assert((-h - s) * ONE <= (-h + s) * ONE) by (nonlinear_arith)
        requires
            s >= 0,
    ;
    lemma_tdiv_monotonic((-h - s) * ONE, (-h + s) * ONE, a);
}

/// Lowering the upper end of the interval, but not below the root that was
/// found, finds the same root.
pub proof fn lemma_nearest_root_shrink(a: int, h: int, c: int, t_min: int, t_max: int, b: int)
    requires
        nearest_root_spec(a, h, c, t_min, t_max) matches Some(t) && t <= b,
        b <= t_max,
    ensures
        nearest_root_spec(a, h, c, t_min, b) == nearest_root_spec(a, h, c, t_min, t_max),
{
}

/// A root found in an interval is found in every interval that reaches
/// farther.
pub proof fn lemma_nearest_root_grow(a: int, h: int, c: int, t_min: int, t_max: int, b: int)
    requires
        nearest_root_spec(a, h, c, t_min, b) is Some,
        b <= t_max,
    ensures
        nearest_root_spec(a, h, c, t_min, t_max) == nearest_root_spec(a, h, c, t_min, b),
{
    lemma_roots_ordered(a, h, c);
}

} // verus!
