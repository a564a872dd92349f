//! Three-component fixed-point vectors, used for points, directions and
//! colours alike, together with their mathematical model over the integers.
use crate::fixed::{
    ONE, abs, div_trunc, isqrt, lemma_isqrt, lemma_mul_bound, lemma_square_root_bound, lemma_tdiv,
    mul_wide, sqrt_floor, tdiv,
};
use vstd::prelude::*;

verus! {

/// Largest component magnitude that the vector operations accept: two to
/// the power 60.
pub const LIMIT: i64 = 0x1000_0000_0000_0000;

/// Largest component magnitude accepted by the operations that multiply
/// two fixed-point numbers into one: two to the power 40.
pub const PRODUCT_LIMIT: i64 = 0x100_0000_0000;

/// A vector of three mathematical integers: the model of a [`Vec3`].
pub struct V3 {
    pub x: int,
    pub y: int,
    pub z: int,
}

impl V3 {
    /// The zero vector.
    pub open spec fn zero() -> V3 {
        V3 { x: 0, y: 0, z: 0 }
    }

    /// Every component has magnitude at most `bound`.
    pub open spec fn within(self, bound: int) -> bool {
        &&& -bound <= self.x <= bound
        &&& -bound <= self.y <= bound
        &&& -bound <= self.z <= bound
    }

    /// Component-wise sum.
    pub open spec fn plus(self, o: V3) -> V3 {
        V3 { x: self.x + o.x, y: self.y + o.y, z: self.z + o.z }
    }

    /// Component-wise difference.
    pub open spec fn minus(self, o: V3) -> V3 {
        V3 { x: self.x - o.x, y: self.y - o.y, z: self.z - o.z }
    }

    /// The opposite vector.
    pub open spec fn neg(self) -> V3 {
        V3 { x: -self.x, y: -self.y, z: -self.z }
    }

    /// Exact dot product. For fixed-point operands the result carries the
    /// scale `ONE * ONE`.
    pub open spec fn dot(self, o: V3) -> int {
        self.x * o.x + self.y * o.y + self.z * o.z
    }

    /// Squared Euclidean length, at scale `ONE * ONE`.
    pub open spec fn norm2(self) -> int {
        self.dot(self)
    }

    /// Euclidean length rounded down.
    pub open spec fn length(self) -> int {
        isqrt(self.norm2())
    }

    /// The vector multiplied by the fixed-point scalar `k`, each component
    /// rounded toward zero.
    pub open spec fn scale(self, k: int) -> V3 {
        V3 {
            x: tdiv(k * self.x, ONE as int),
            y: tdiv(k * self.y, ONE as int),
            z: tdiv(k * self.z, ONE as int),
        }
    }

    /// Component-wise fixed-point product, as used to attenuate a colour.
    pub open spec fn modulate(self, o: V3) -> V3 {
        V3 {
            x: tdiv(self.x * o.x, ONE as int),
            y: tdiv(self.y * o.y, ONE as int),
            z: tdiv(self.z * o.z, ONE as int),
        }
    }

    /// Fixed-point cross product, each component rounded toward zero.
    pub open spec fn cross(self, o: V3) -> V3 {
        V3 {
            x: tdiv(self.y * o.z - self.z * o.y, ONE as int),
            y: tdiv(self.z * o.x - self.x * o.z, ONE as int),
            z: tdiv(self.x * o.y - self.y * o.x, ONE as int),
        }
    }

    /// Factor by which a vector is enlarged before it is normalised, so that
    /// short vectors keep their direction.
    pub open spec fn unit_gain(self) -> int {
        if self.norm2() >= ONE * ONE {
            1
        } else {
            ONE as int
        }
    }

    /// The vector rescaled to length one, each component rounded toward
    /// zero. Meaningful for nonzero vectors.
    pub open spec fn unit(self) -> V3 {
        let k = self.unit_gain();
        let len = isqrt(self.norm2() * k * k);
        V3 {
            x: tdiv(self.x * ONE * k, len),
            y: tdiv(self.y * ONE * k, len),
            z: tdiv(self.z * ONE * k, len),
        }
    }

    /// One of the six directions along an axis, of length exactly one.
    pub open spec fn is_axis(self) -> bool {
        ||| abs(self.x) == ONE && self.y == 0 && self.z == 0
        ||| self.x == 0 && abs(self.y) == ONE && self.z == 0
        ||| self.x == 0 && self.y == 0 && abs(self.z) == ONE
    }

    /// The length is one up to rounding: at least `1 - 2e-6` and less than
    /// `1 + 1e-6`.
    pub open spec fn is_unit(self) -> bool {
        (ONE - 2) * (ONE - 2) <= self.norm2() < (ONE + 1) * (ONE + 1)
    }
}

/// A dot product is bounded by three times the product of the component
/// bounds.
pub proof fn lemma_dot_bound(a: V3, b: V3, ba: int, bb: int)
    requires
        a.within(ba),
        b.within(bb),
    ensures
        -(3 * (ba * bb)) <= a.dot(b) <= 3 * (ba * bb),
{
    lemma_mul_bound(a.x, b.x, ba, bb);
    lemma_mul_bound(a.y, b.y, ba, bb);
    lemma_mul_bound(a.z, b.z, ba, bb);
}

/// A squared length is never negative, and vanishes only for the zero
/// vector.
pub proof fn lemma_norm2(a: V3)
    ensures
        a.norm2() >= 0,
        a.norm2() == 0 <==> a == V3::zero(),
        a.neg().norm2() == a.norm2(),
        a.x * a.x <= a.norm2(),
        a.y * a.y <= a.norm2(),
        a.z * a.z <= a.norm2(),
{
    assert(a.x * a.x >= 0 && (a.x * a.x == 0 <==> a.x == 0)) by (nonlinear_arith);
    assert(a.y * a.y >= 0 && (a.y * a.y == 0 <==> a.y == 0)) by (nonlinear_arith);
    assert(a.z * a.z >= 0 && (a.z * a.z == 0 <==> a.z == 0)) by (nonlinear_arith);
    assert((-a.x) * (-a.x) == a.x * a.x) by (nonlinear_arith);
    assert((-a.y) * (-a.y) == a.y * a.y) by (nonlinear_arith);
    assert((-a.z) * (-a.z) == a.z * a.z) by (nonlinear_arith);
}

/// The components of a vector of unit length have magnitude at most `ONE`.
pub proof fn lemma_unit_within(a: V3)
    requires
        a.is_unit(),
    ensures
        a.within(ONE as int),
        a.neg().is_unit(),
        a != V3::zero(),
{
    lemma_norm2(a);
    lemma_square_root_bound(a.x, ONE as int);
    lemma_square_root_bound(a.y, ONE as int);
    lemma_square_root_bound(a.z, ONE as int);
}

/// The six axis directions have unit length.
pub proof fn lemma_axis_is_unit(n: V3)
    requires
        n.is_axis(),
    ensures
        n.is_unit(),
        n.norm2() == ONE * ONE,
{
    assert(ONE * ONE == 1_000_000_000_000 && (-ONE) * (-ONE) == 1_000_000_000_000 && (ONE - 2) * (
    ONE - 2) == 999_996_000_004 && (ONE + 1) * (ONE + 1) == 1_000_002_000_001 && 0int * 0int == 0)
        by (nonlinear_arith);
}

/// From `m * len <= a < (m + 1) * len` follow the same bounds on squares.
proof fn lemma_scaled_square(m: int, len: int, a: int)
    by (nonlinear_arith)
    requires
        m >= 0,
        len > 0,
        m * len <= a < (m + 1) * len,
    ensures
        (m * m) * (len * len) <= a * a < ((m + 1) * (m + 1)) * (len * len),
{
}

/// `(x * one * k)^2` regrouped.
proof fn lemma_square_of_product(x: int, one: int, k: int)
    by (nonlinear_arith)
    ensures
        (x * one * k) * (x * one * k) == (x * x) * ((one * one) * (k * k)),
{
}

/// If `s * l2 < c2 * (len + 1)^2` with `l2 = len^2`, `len >= c` and
/// `c2 = c^2`, then `s < (c + 1)^2`.
proof fn lemma_upper_norm(s: int, len: int, c: int)
    by (nonlinear_arith)
    requires
        c > 0,
        len >= c,
        s >= 0,
        s * (len * len) < (c * c) * ((len + 1) * (len + 1)),
    ensures
        s < (c + 1) * (c + 1),
{
    if s >= (c + 1) * (c + 1) {
        assert(s * (len * len) >= ((c + 1) * (c + 1)) * (len * len));
        assert(((c + 1) * len) * ((c + 1) * len) == ((c + 1) * (c + 1)) * (len * len));
        assert((c * (len + 1)) * (c * (len + 1)) == (c * c) * ((len + 1) * (len + 1)));
        assert((c + 1) * len >= c * (len + 1));
        assert(((c + 1) * len) * ((c + 1) * len) >= (c * (len + 1)) * (c * (len + 1)));
    }
}

/// The sum of three naturals is at most the root of thrice the sum of their
/// squares; stated without roots.
proof fn lemma_sum_square(a: int, b: int, c: int)
    by (nonlinear_arith)
    ensures
        (a + b + c) * (a + b + c) <= 3 * (a * a + b * b + c * c),
{
    assert((a - b) * (a - b) >= 0);
    assert((b - c) * (b - c) >= 0);
    assert((a - c) * (a - c) >= 0);
}

/// If the squares of `a + 1`, `b + 1`, `c + 1` sum to more than `one^2`,
/// the squares of `a`, `b`, `c` sum to at least `(one - 2)^2`.
proof fn lemma_lower_norm(a: int, b: int, c: int, one: int)
    requires
        a >= 0,
        b >= 0,
        c >= 0,
        one >= 2,
        (a + 1) * (a + 1) + (b + 1) * (b + 1) + (c + 1) * (c + 1) > one * one,
    ensures
        a * a + b * b + c * c >= (one - 2) * (one - 2),
{
    let m = a * a + b * b + c * c;
    let s = a + b + c;
    lemma_sum_square(a, b, c);
    assert((a + 1) * (a + 1) + (b + 1) * (b + 1) + (c + 1) * (c + 1) == m + 2 * s + 3)
        by (nonlinear_arith)
        requires
            m == a * a + b * b + c * c,
            s == a + b + c,
    ;
    if m < (one - 2) * (one - 2) {
        assert(s < 2 * (one - 2)) by (nonlinear_arith)
            requires
                s >= 0,
                one >= 2,
                s * s <= 3 * m,
                m < (one - 2) * (one - 2),
        ;
        assert((one - 2) * (one - 2) + 4 * (one - 2) == one * one - 4) by (nonlinear_arith);
    }
}

/// Dividing an inequality between multiples of a positive number.
proof fn lemma_cancel(a: int, b: int, l2: int)
    by (nonlinear_arith)
    requires
        l2 > 0,
        a * l2 > b * l2,
    ensures
        a > b,
{
}

/// Normalising a nonzero vector gives a vector of unit length.
pub proof fn lemma_unit_is_unit(v: V3)
    requires
        v != V3::zero(),
    ensures
        v.unit().is_unit(),
        v.unit().within(ONE as int),
        isqrt(v.norm2() * v.unit_gain() * v.unit_gain()) >= ONE,
{
    let one = ONE as int;
    let k = v.unit_gain();
    let q = v.norm2();
    lemma_norm2(v);
    let big = q * k * k;
    assert(big >= one * one && big == q * (k * k)) by (nonlinear_arith)
        requires
            q >= 1,
            big == q * k * k,
            (k == 1 && q >= one * one) || (k == one && q < one * one),
            one == 1_000_000,
    ;
    lemma_isqrt(big);
    let len = isqrt(big);
    assert(len >= one) by (nonlinear_arith)
        requires
            len >= 0,
            big < (len + 1) * (len + 1),
            big >= one * one,
            one > 0,
    ;
    let u = v.unit();
    let ax = abs(v.x * one * k);
    let ay = abs(v.y * one * k);
    let az = abs(v.z * one * k);
    let mx = abs(u.x);
    let my = abs(u.y);
    let mz = abs(u.z);
    lemma_tdiv(v.x * one * k, len);
    lemma_tdiv(v.y * one * k, len);
    lemma_tdiv(v.z * one * k, len);
    lemma_scaled_square(mx, len, ax);
    lemma_scaled_square(my, len, ay);
    lemma_scaled_square(mz, len, az);
    lemma_square_of_product(v.x, one, k);
    lemma_square_of_product(v.y, one, k);
    lemma_square_of_product(v.z, one, k);
    assert(ax * ax == (v.x * one * k) * (v.x * one * k)) by (nonlinear_arith)
        requires
            ax == abs(v.x * one * k),
    ;
    assert(ay * ay == (v.y * one * k) * (v.y * one * k)) by (nonlinear_arith)
        requires
            ay == abs(v.y * one * k),
    ;
    assert(az * az == (v.z * one * k) * (v.z * one * k)) by (nonlinear_arith)
        requires
            az == abs(v.z * one * k),
    ;
    let c2k2 = (one * one) * (k * k);
    let tot = ax * ax + ay * ay + az * az;
    assert(tot == (one * one) * big) by (nonlinear_arith)
        requires
            tot == (v.x * v.x) * c2k2 + (v.y * v.y) * c2k2 + (v.z * v.z) * c2k2,
            c2k2 == (one * one) * (k * k),
            big == (v.x * v.x + v.y * v.y + v.z * v.z) * (k * k),
    ;
    let l2 = len * len;
    let m = mx * mx + my * my + mz * mz;
    let mp = (mx + 1) * (mx + 1) + (my + 1) * (my + 1) + (mz + 1) * (mz + 1);
    assert(m * l2 <= tot < mp * l2) by (nonlinear_arith)
        requires
            m == mx * mx + my * my + mz * mz,
            mp == (mx + 1) * (mx + 1) + (my + 1) * (my + 1) + (mz + 1) * (mz + 1),
            tot == ax * ax + ay * ay + az * az,
            (mx * mx) * l2 <= ax * ax < ((mx + 1) * (mx + 1)) * l2,
            (my * my) * l2 <= ay * ay < ((my + 1) * (my + 1)) * l2,
            (mz * mz) * l2 <= az * az < ((mz + 1) * (mz + 1)) * l2,
    ;
    // Upper bound.
    assert(m * l2 < (one * one) * ((len + 1) * (len + 1))) by (nonlinear_arith)
        requires
            m * l2 <= tot,
            tot == (one * one) * big,
            big < (len + 1) * (len + 1),
            one > 0,
    ;
    assert(m >= 0) by (nonlinear_arith)
        requires
            m == mx * mx + my * my + mz * mz,
    ;
    lemma_upper_norm(m, len, one);
    // Lower bound.
    assert(mp * l2 > (one * one) * l2) by (nonlinear_arith)
        requires
            tot < mp * l2,
            tot == (one * one) * big,
            l2 <= big,
            one > 0,
    ;
    assert(l2 > 0) by (nonlinear_arith)
        requires
            l2 == len * len,
            len >= 1,
    ;
    lemma_cancel(mp, one * one, l2);
    lemma_lower_norm(mx, my, mz, one);
    assert(u.norm2() == m) by (nonlinear_arith)
        requires
            u.norm2() == u.x * u.x + u.y * u.y + u.z * u.z,
            m == mx * mx + my * my + mz * mz,
            mx == abs(u.x),
            my == abs(u.y),
            mz == abs(u.z),
    ;
    lemma_unit_within(u);
}

/// A fixed-point vector: three components with six decimal places each.
#[derive(Clone, Copy, Debug, PartialEq, Eq, Structural)]
pub struct Vec3 {
    pub x: i64,
    pub y: i64,
    pub z: i64,
}

/// A position in space.
pub type Point3 = Vec3;

/// A linear RGB colour; `ONE` is full intensity.
pub type Color = Vec3;

impl View for Vec3 {
    type V = V3;

    open spec fn view(&self) -> V3 {
        V3 { x: self.x as int, y: self.y as int, z: self.z as int }
    }
}

impl Vec3 {
    /// The vector with the given components.
    pub fn new(x: i64, y: i64, z: i64) -> (v: Vec3)
        ensures
            v == (Vec3 { x, y, z }),
    {
        Vec3 { x, y, z }
    }

    /// The first component.
    pub fn x(&self) -> (r: i64)
        ensures
            r == self.x,
    {
        self.x
    }

    /// The second component.
    pub fn y(&self) -> (r: i64)
        ensures
            r == self.y,
    {
        self.y
    }

    /// The third component.
    pub fn z(&self) -> (r: i64)
        ensures
            r == self.z,
    {
        self.z
    }

    /// Whether every component has magnitude at most `bound`.
    pub fn fits(&self, bound: i64) -> (r: bool)
        requires
            bound >= 0,
        ensures
            r == self@.within(bound as int),
    {
        -bound <= self.x && self.x <= bound && -bound <= self.y && self.y <= bound && -bound
            <= self.z && self.z <= bound
    }

    /// Whether this is the zero vector.
    pub fn is_zero(&self) -> (r: bool)
        ensures
            r == (self@ == V3::zero()),
    {
        self.x == 0 && self.y == 0 && self.z == 0
    }

    /// Component-wise sum.
    pub fn plus(self, o: Vec3) -> (r: Vec3)
        requires
            self@.within(LIMIT as int),
            o@.within(LIMIT as int),
        ensures
            r@ == self@.plus(o@),
    {
        Vec3 { x: self.x + o.x, y: self.y + o.y, z: self.z + o.z }
    }

    /// Component-wise difference.
    pub fn minus(self, o: Vec3) -> (r: Vec3)
        requires
            self@.within(LIMIT as int),
            o@.within(LIMIT as int),
        ensures
            r@ == self@.minus(o@),
    {
        Vec3 { x: self.x - o.x, y: self.y - o.y, z: self.z - o.z }
    }

    /// The opposite vector.
    pub fn neg(self) -> (r: Vec3)
        requires
            self@.within(LIMIT as int),
        ensures
            r@ == self@.neg(),
    {
        Vec3 { x: -self.x, y: -self.y, z: -self.z }
    }

    /// Exact dot product, at scale `ONE * ONE`.
    pub fn dot(self, o: Vec3) -> (r: i128)
        requires
            self@.within(LIMIT as int),
            o@.within(LIMIT as int),
        ensures
            r == self@.dot(o@),
    {
        proof {
            lemma_mul_bound(self.x as int, o.x as int, LIMIT as int, LIMIT as int);
            lemma_mul_bound(self.y as int, o.y as int, LIMIT as int, LIMIT as int);
            lemma_mul_bound(self.z as int, o.z as int, LIMIT as int, LIMIT as int);
        }
        mul_wide(self.x, o.x) + mul_wide(self.y, o.y) + mul_wide(self.z, o.z)
    }

    /// Squared length, at scale `ONE * ONE`.
    pub fn length_squared(self) -> (r: i128)
        requires
            self@.within(LIMIT as int),
        ensures
            r == self@.norm2(),
            r >= 0,
    {
        proof {
            lemma_norm2(self@);
        }
        self.dot(self)
    }

    /// Length, rounded down.
    pub fn length(self) -> (r: i64)
        requires
            self@.within(LIMIT as int),
        ensures
            r == self@.length(),
            r >= 0,
    {
        let q: i128 = self.length_squared();
        proof {
            lemma_dot_bound(self@, self@, LIMIT as int, LIMIT as int);
        }
        let root: u128 = sqrt_floor(q as u128);
        assert(root <= 0x2000_0000_0000_0000) by (nonlinear_arith)
            requires
                root * root <= q,
                q <= 3 * (0x1000_0000_0000_0000 * 0x1000_0000_0000_0000),
        ;
        root as i64
    }

    /// The vector multiplied by the fixed-point scalar `k`.
    pub fn scale(self, k: i64) -> (r: Vec3)
        requires
            self@.within(PRODUCT_LIMIT as int),
            -PRODUCT_LIMIT <= k <= PRODUCT_LIMIT,
        ensures
            r@ == self@.scale(k as int),
    {
        proof {
            lemma_mul_bound(k as int, self.x as int, PRODUCT_LIMIT as int, PRODUCT_LIMIT as int);
            lemma_mul_bound(k as int, self.y as int, PRODUCT_LIMIT as int, PRODUCT_LIMIT as int);
            lemma_mul_bound(k as int, self.z as int, PRODUCT_LIMIT as int, PRODUCT_LIMIT as int);
            lemma_tdiv(k * self.x, ONE as int);
            lemma_tdiv(k * self.y, ONE as int);
            lemma_tdiv(k * self.z, ONE as int);
            lemma_scale_fits(k * self.x, tdiv(k * self.x, ONE as int));
            lemma_scale_fits(k * self.y, tdiv(k * self.y, ONE as int));
            lemma_scale_fits(k * self.z, tdiv(k * self.z, ONE as int));
        }
        Vec3 {
            x: div_trunc(mul_wide(k, self.x), ONE as i128) as i64,
            y: div_trunc(mul_wide(k, self.y), ONE as i128) as i64,
            z: div_trunc(mul_wide(k, self.z), ONE as i128) as i64,
        }
    }

    /// Component-wise fixed-point product.
    pub fn modulate(self, o: Vec3) -> (r: Vec3)
        requires
            self@.within(PRODUCT_LIMIT as int),
            o@.within(PRODUCT_LIMIT as int),
        ensures
            r@ == self@.modulate(o@),
    {
        proof {
            lemma_mul_bound(self.x as int, o.x as int, PRODUCT_LIMIT as int, PRODUCT_LIMIT as int);
            lemma_mul_bound(self.y as int, o.y as int, PRODUCT_LIMIT as int, PRODUCT_LIMIT as int);
            lemma_mul_bound(self.z as int, o.z as int, PRODUCT_LIMIT as int, PRODUCT_LIMIT as int);
            lemma_tdiv(self.x * o.x, ONE as int);
            lemma_tdiv(self.y * o.y, ONE as int);
            lemma_tdiv(self.z * o.z, ONE as int);
            lemma_scale_fits(self.x * o.x, tdiv(self.x * o.x, ONE as int));
            lemma_scale_fits(self.y * o.y, tdiv(self.y * o.y, ONE as int));
            lemma_scale_fits(self.z * o.z, tdiv(self.z * o.z, ONE as int));
        }
        Vec3 {
            x: div_trunc(mul_wide(self.x, o.x), ONE as i128) as i64,
            y: div_trunc(mul_wide(self.y, o.y), ONE as i128) as i64,
            z: div_trunc(mul_wide(self.z, o.z), ONE as i128) as i64,
        }
    }

    /// Fixed-point cross product.
    pub fn cross(self, o: Vec3) -> (r: Vec3)
        requires
            self@.within(PRODUCT_LIMIT as int),
            o@.within(PRODUCT_LIMIT as int),
        ensures
            r@ == self@.cross(o@),
    {
        proof {
            lemma_mul_bound(self.y as int, o.z as int, PRODUCT_LIMIT as int, PRODUCT_LIMIT as int);
            lemma_mul_bound(self.z as int, o.y as int, PRODUCT_LIMIT as int, PRODUCT_LIMIT as int);
            lemma_mul_bound(self.z as int, o.x as int, PRODUCT_LIMIT as int, PRODUCT_LIMIT as int);
            lemma_mul_bound(self.x as int, o.z as int, PRODUCT_LIMIT as int, PRODUCT_LIMIT as int);
            lemma_mul_bound(self.x as int, o.y as int, PRODUCT_LIMIT as int, PRODUCT_LIMIT as int);
            lemma_mul_bound(self.y as int, o.x as int, PRODUCT_LIMIT as int, PRODUCT_LIMIT as int);
            lemma_tdiv(self.y * o.z - self.z * o.y, ONE as int);
            lemma_tdiv(self.z * o.x - self.x * o.z, ONE as int);
            lemma_tdiv(self.x * o.y - self.y * o.x, ONE as int);
            lemma_cross_fits(self.y * o.z - self.z * o.y, tdiv(self.y * o.z - self.z * o.y, ONE as int));
            lemma_cross_fits(self.z * o.x - self.x * o.z, tdiv(self.z * o.x - self.x * o.z, ONE as int));
            lemma_cross_fits(self.x * o.y - self.y * o.x, tdiv(self.x * o.y - self.y * o.x, ONE as int));
        }
        let cx: i128 = mul_wide(self.y, o.z) - mul_wide(self.z, o.y);
        let cy: i128 = mul_wide(self.z, o.x) - mul_wide(self.x, o.z);
        let cz: i128 = mul_wide(self.x, o.y) - mul_wide(self.y, o.x);
        Vec3 {
            x: div_trunc(cx, ONE as i128) as i64,
            y: div_trunc(cy, ONE as i128) as i64,
            z: div_trunc(cz, ONE as i128) as i64,
        }
    }

    /// The vector rescaled to unit length; `None` for the zero vector, which
    /// has no direction.
    pub fn unit_vector(self) -> (r: Option<Vec3>)
        requires
            self@.within(LIMIT as int),
        ensures
            self@ == V3::zero() ==> r is None,
            self@ != V3::zero() ==> (r matches Some(u) && u@ == self@.unit() && u@.is_unit()),
    {
        let q: i128 = self.length_squared();
        proof {
            lemma_norm2(self@);
            lemma_dot_bound(self@, self@, LIMIT as int, LIMIT as int);
        }
        if q == 0 {
            return None;
        }
        let k: i128 = if q >= (ONE as i128) * (ONE as i128) {
            1
        } else {
            ONE as i128
        };
        assert(k == self@.unit_gain());
        assert(0 < q * k * k <= 3 * (0x1000_0000_0000_0000 * 0x1000_0000_0000_0000) && 0 < q * k
            <= 3 * (0x1000_0000_0000_0000 * 0x1000_0000_0000_0000)) by (nonlinear_arith)
            requires
                0 < q <= 3 * (0x1000_0000_0000_0000 * 0x1000_0000_0000_0000),
                (k == 1) || (k == 1_000_000 && q < 1_000_000 * 1_000_000),
        ;
        let len: i128 = sqrt_floor((q * k * k) as u128) as i128;
        proof {
            lemma_unit_is_unit(self@);
            lemma_mul_bound(self.x as int, ONE as int, LIMIT as int, ONE as int);
            lemma_mul_bound(self.y as int, ONE as int, LIMIT as int, ONE as int);
            lemma_mul_bound(self.z as int, ONE as int, LIMIT as int, ONE as int);
            if k != 1 {
                lemma_norm2(self@);
                lemma_square_root_bound(self.x as int, ONE as int);
                lemma_square_root_bound(self.y as int, ONE as int);
                lemma_square_root_bound(self.z as int, ONE as int);
                lemma_mul_bound(self.x * ONE, k as int, ONE * ONE, ONE as int);
                lemma_mul_bound(self.y * ONE, k as int, ONE * ONE, ONE as int);
                lemma_mul_bound(self.z * ONE, k as int, ONE * ONE, ONE as int);
            }
        }
        let one: i128 = ONE as i128;
        let ux: i128 = div_trunc((self.x as i128) * one * k, len);
        let uy: i128 = div_trunc((self.y as i128) * one * k, len);
        let uz: i128 = div_trunc((self.z as i128) * one * k, len);
        Some(Vec3 { x: ux as i64, y: uy as i64, z: uz as i64 })
    }
}

/// A quotient by `ONE` of a product of two in-range factors is in range of
/// a 64-bit integer.
proof fn lemma_scale_fits(p: int, q: int)
    requires
        -(PRODUCT_LIMIT * PRODUCT_LIMIT) <= p <= PRODUCT_LIMIT * PRODUCT_LIMIT,
        abs(q) <= abs(p),
        abs(q) * ONE <= abs(p),
    ensures
        -0x2000_0000_0000_0000 <= q <= 0x2000_0000_0000_0000,
{
}

/// The same for a difference of two such products.
proof fn lemma_cross_fits(p: int, q: int)
    requires
        -(2 * (PRODUCT_LIMIT * PRODUCT_LIMIT)) <= p <= 2 * (PRODUCT_LIMIT * PRODUCT_LIMIT),
        abs(q) * ONE <= abs(p),
    ensures
        -0x4000_0000_0000_0000 <= q <= 0x4000_0000_0000_0000,
{
}

} // verus!
