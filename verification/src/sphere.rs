//! Spheres.
use crate::fixed::{
    ONE, lemma_isqrt_unique, lemma_mul_bound, lemma_tdiv, lemma_tdiv_exact, lemma_tdiv_monotonic,
    mul_wide, tdiv,
};
use crate::hittable::{HitModel, HitRecord, hit_view, lemma_facing_sound};
use crate::material::Material;
use crate::quadratic::{
    discriminant, lemma_nearest_root_shrink, nearest_root, nearest_root_spec, small_root,
};
use crate::ray::{DIR_MAX, Ray, RayModel, SIZE_MAX, WORLD_MAX};
use crate::vec3::{Point3, V3, lemma_dot_bound, lemma_norm2, lemma_unit_is_unit, lemma_unit_within};
use std::rc::Rc;
use vstd::prelude::*;

verus! {

/// The sphere around `center`. A negative radius turns the surface inside
/// out: the normals then point toward the centre.
pub struct Sphere {
    pub center: Point3,
    pub radius: i64,
    pub mat: Rc<Material>,
}

impl Sphere {
    /// The sphere around `center`, of the given radius and material.
    pub fn new(center: Point3, radius: i64, mat: Rc<Material>) -> (s: Sphere)
        ensures
            s.center == center,
            s.radius == radius,
            s.mat == mat,
    {
        Sphere { center, radius, mat }
    }

    /// The centre lies in the world and the radius is representable.
    pub open spec fn valid(&self) -> bool {
        &&& self.center@.within(WORLD_MAX as int)
        &&& -SIZE_MAX <= self.radius <= SIZE_MAX
    }

    /// Coefficients `(a, h, c)` of the quadratic `|o + t d - c|^2 = r^2` in
    /// `t`.
    pub open spec fn coefficients(&self, r: RayModel) -> (int, int, int) {
        let oc = r.orig.minus(self.center@);
        (r.dir.norm2(), oc.dot(r.dir), oc.norm2() - self.radius * self.radius)
    }

    /// The outward normal at the surface point `p`: the vector from the
    /// centre to `p` divided by the radius, at unit length. That is the unit
    /// vector from the centre to `p`, reversed for a negative radius.
    pub open spec fn outward(&self, p: V3) -> V3 {
        let n = p.minus(self.center@).unit();
        if self.radius < 0 {
            n.neg()
        } else {
            n
        }
    }

    /// The intersection of `r` with the sphere: at the nearest root of the
    /// quadratic between `t_min` and `t_max`, both included, provided the
    /// point there lies in the world and off the centre.
    pub open spec fn hit_spec(&self, r: RayModel, t_min: int, t_max: int) -> Option<HitModel> {
        if !self.valid() || !r.valid() {
            None
        } else {
            let (a, h, c) = self.coefficients(r);
            match nearest_root_spec(a, h, c, t_min, t_max) {
                Some(t) if r.at(t).within(WORLD_MAX as int) && r.at(t) != self.center@ =>
                    Some(HitModel::facing(r, r.at(t), t, self.outward(r.at(t)), *self.mat)),
                _ => None,
            }
        }
    }

    /// Decides [`Self::valid`].
    pub fn is_valid(&self) -> (b: bool)
        ensures
            b == self.valid(),
    {
        self.center.fits(WORLD_MAX) && -SIZE_MAX <= self.radius && self.radius <= SIZE_MAX
    }

    /// Intersects the ray with the sphere over the parameters from `t_min`
    /// to `t_max`.
    pub fn hit(&self, r: &Ray, t_min: i64, t_max: i64) -> (res: Option<HitRecord>)
        ensures
            hit_view(res) == self.hit_spec(r@, t_min as int, t_max as int),
            res matches Some(rec) ==> (rec@.sound(t_min as int, t_max as int) && rec.p@.within(
                WORLD_MAX as int,
            )),
    {
        if !self.is_valid() || !r.is_valid() {
            return None;
        }
        let oc = r.orig.minus(self.center);
        proof {
            let w2 = 2 * WORLD_MAX;
            lemma_dot_bound(r.dir@, r.dir@, DIR_MAX as int, DIR_MAX as int);
            lemma_dot_bound(oc@, r.dir@, w2, DIR_MAX as int);
            lemma_dot_bound(oc@, oc@, w2, w2);
            lemma_norm2(oc@);
            lemma_norm2(r.dir@);
            lemma_mul_bound(self.radius as int, self.radius as int, w2, w2);
            assert(self.radius * self.radius >= 0) by (nonlinear_arith);
        }
        let a: i128 = r.dir.length_squared();
        let h: i128 = oc.dot(r.dir);
        let c: i128 = oc.length_squared() - mul_wide(self.radius, self.radius);
        proof {
            assert(-6_144_000_000_000_000_000 <= h <= 6_144_000_000_000_000_000);
            assert(0 <= a <= 12_288_000_000_000_000);
            assert(-3_072_000_000_000_000_000_000 <= c <= 3_072_000_000_000_000_000_000);
            lemma_mul_bound(h as int, h as int, 3 * (2 * WORLD_MAX * DIR_MAX), 3 * (2 * WORLD_MAX * DIR_MAX));
            lemma_mul_bound(
                a as int,
                c as int,
                3 * (DIR_MAX * DIR_MAX),
                3 * ((2 * WORLD_MAX) * (2 * WORLD_MAX)),
            );
        }
        let t = match nearest_root(a, h, c, t_min, t_max) {
            Some(t) => t,
            None => {
                return None;
            },
        };
        let p = match r.at(t) {
            Some(p) => p,
            None => {
                return None;
            },
        };
        let away = match p.minus(self.center).unit_vector() {
            Some(n) => n,
            None => {
                return None;
            },
        };
        proof {
            lemma_unit_within(away@);
        }
        let outward = if self.radius < 0 {
            away.neg()
        } else {
            away
        };
        let mut rec = HitRecord { p, normal: outward, mat: self.mat.clone(), t, front_face: false };
        rec.set_face_normal(r, outward);
        proof {
            lemma_unit_within(outward@);
        }
        Some(rec)
    }
}

/// A hit stays the same when the far end of the interval is lowered
/// without passing it.
pub proof fn lemma_sphere_hit_shrink(s: Sphere, r: RayModel, t_min: int, t_max: int, b: int)
    requires
        s.hit_spec(r, t_min, t_max) matches Some(g) && g.t <= b,
        b <= t_max,
    ensures
        s.hit_spec(r, t_min, b) == s.hit_spec(r, t_min, t_max),
{
    let (a, h, c) = s.coefficients(r);
    lemma_nearest_root_shrink(a, h, c, t_min, t_max, b);
}

/// One coordinate of the point reached after `m - radius` along a ray
/// whose centre-ward offset `w` is `m` times the direction: it lies between
/// the origin and the centre, and short of the centre if the ray moves
/// along this axis at all.
proof fn lemma_short_of_center(m: int, radius: int, d: int, w: int, o: int, bound: int)
    requires
        w * ONE == m * d,
        m > radius > 0,
        -bound <= o <= bound,
        -bound <= o + w <= bound,
    ensures
        -bound <= o + tdiv((m - radius) * d, ONE as int) <= bound,
        d != 0 ==> o + tdiv((m - radius) * d, ONE as int) != o + w,
{
    let e = tdiv((m - radius) * d, ONE as int);
    lemma_tdiv((m - radius) * d, ONE as int);
    lemma_tdiv_exact(w, ONE as int);
    if d >= 0 {
        assert(0 <= (m - radius) * d <= m * d && (d > 0 ==> (m - radius) * d < m * d))
            by (nonlinear_arith)
            requires
                m > radius > 0,
                d >= 0,
        ;
        lemma_tdiv_monotonic((m - radius) * d, m * d, ONE as int);
    } else {
        assert(m * d <= (m - radius) * d <= 0 && m * d < (m - radius) * d) by (nonlinear_arith)
            requires
                m > radius > 0,
                d < 0,
        ;
        lemma_tdiv_monotonic(m * d, (m - radius) * d, ONE as int);
    }
}

/// If `w` is `m / one` times `d`, the products of `w` with `d` and with
/// itself are the corresponding multiples of the square of `d`.
proof fn lemma_along(w: int, d: int, m: int, one: int)
    by (nonlinear_arith)
    requires
        w * one == m * d,
    ensures
        one * (w * d) == m * (d * d),
        (one * one) * (w * w) == (m * m) * (d * d),
{
    assert((w * one) * d == (m * d) * d);
    assert((w * one) * (w * one) == (m * d) * (m * d));
}

/// Multiplication distributes over a sum of three.
proof fn lemma_distribute(k: int, a: int, b: int, c: int)
    by (nonlinear_arith)
    ensures
        k * a + k * b + k * c == k * (a + b + c),
{
}

/// A ray that starts outside the sphere and points at its centre meets
/// the sphere at the distance to the centre less the radius. Here the
/// direction has length exactly one and the centre lies `m` along it from
/// the origin.
pub proof fn lemma_hit_aimed_at_center(s: Sphere, r: RayModel, m: int, t_min: int, t_max: int)
    requires
        s.valid(),
        r.valid(),
        r.dir.norm2() == ONE * ONE,
        (s.center@.x - r.orig.x) * ONE == m * r.dir.x,
        (s.center@.y - r.orig.y) * ONE == m * r.dir.y,
        (s.center@.z - r.orig.z) * ONE == m * r.dir.z,
        m > s.radius > 0,
        t_min <= m - s.radius <= t_max,
    ensures
        s.center@.minus(r.orig).norm2() == m * m,
        s.hit_spec(r, t_min, t_max) matches Some(hit) && hit.t == m - s.radius,
{
    let one = ONE as int;
    let rad = s.radius as int;
    let d = r.dir;
    let w = s.center@.minus(r.orig);
    let oc = r.orig.minus(s.center@);
    let (qa, qh, qc) = s.coefficients(r);
    let wd = w.x * d.x + w.y * d.y + w.z * d.z;
    let ww = w.x * w.x + w.y * w.y + w.z * w.z;
    lemma_along(w.x, d.x, m, one);
    lemma_along(w.y, d.y, m, one);
    lemma_along(w.z, d.z, m, one);
    lemma_distribute(m, d.x * d.x, d.y * d.y, d.z * d.z);
    lemma_distribute(m * m, d.x * d.x, d.y * d.y, d.z * d.z);
    lemma_distribute(one, w.x * d.x, w.y * d.y, w.z * d.z);
    lemma_distribute(one * one, w.x * w.x, w.y * w.y, w.z * w.z);
    assert(wd * one == m * (one * one)) by (nonlinear_arith)
        requires
            one * wd == m * (one * one),
    ;
    assert(wd == m * one) by (nonlinear_arith)
        requires
            wd * one == m * (one * one),
            one == 1_000_000,
    ;
    assert(qh == -wd) by (nonlinear_arith)
        requires
            qh == (-w.x) * d.x + (-w.y) * d.y + (-w.z) * d.z,
            wd == w.x * d.x + w.y * d.y + w.z * d.z,
    ;
    assert(ww == m * m) by (nonlinear_arith)
        requires
            (one * one) * ww == (m * m) * (one * one),
            one == 1_000_000,
    ;
    assert(oc.norm2() == ww) by (nonlinear_arith)
        requires
            oc.norm2() == (-w.x) * (-w.x) + (-w.y) * (-w.y) + (-w.z) * (-w.z),
            ww == w.x * w.x + w.y * w.y + w.z * w.z,
    ;
    assert(w.norm2() == ww);
    let disc = discriminant(qa, qh, qc);
    assert(disc == (one * rad) * (one * rad)) by (nonlinear_arith)
        requires
            disc == qh * qh - qa * qc,
            qa == one * one,
            qh == -(m * one),
            qc == m * m - rad * rad,
    ;
    assert(disc < (one * rad + 1) * (one * rad + 1) && one * rad > 0) by (nonlinear_arith)
        requires
            disc == (one * rad) * (one * rad),
            rad > 0,
            one == 1_000_000,
    ;
    lemma_isqrt_unique(disc, one * rad);
    assert((-qh - one * rad) * one == (m - rad) * (one * one)) by (nonlinear_arith)
        requires
            qh == -(m * one),
    ;
    assert(one * one > 0) by (nonlinear_arith)
        requires
            one == 1_000_000,
    ;
    lemma_tdiv_exact(m - rad, one * one);
    assert(small_root(qa, qh, qc) == m - rad);
    assert(nearest_root_spec(qa, qh, qc, t_min, t_max) == Some(m - rad));
    let world = WORLD_MAX as int;
    lemma_short_of_center(m, rad, d.x, w.x, r.orig.x, world);
    lemma_short_of_center(m, rad, d.y, w.y, r.orig.y, world);
    lemma_short_of_center(m, rad, d.z, w.z, r.orig.z, world);
    assert(d != V3::zero()) by {
        lemma_norm2(d);
        assert(one * one != 0) by (nonlinear_arith)
            requires
                one == 1_000_000,
        ;
    }
    let p = r.at(m - rad);
    assert(p.x == r.orig.x + tdiv((m - rad) * d.x, one));
    assert(p.y == r.orig.y + tdiv((m - rad) * d.y, one));
    assert(p.z == r.orig.z + tdiv((m - rad) * d.z, one));
    assert(p != s.center@);
}

/// A reported hit lies in the interval that was asked about and in the
/// world, and its normal has unit length.
pub proof fn lemma_sphere_hit_sound(s: Sphere, r: RayModel, t_min: int, t_max: int)
    ensures
        s.hit_spec(r, t_min, t_max) matches Some(h) ==> h.sound(t_min, t_max) && h.p.within(
            WORLD_MAX as int,
        ),
{
    if s.hit_spec(r, t_min, t_max) is Some {
        let (a, h, c) = s.coefficients(r);
        let t = nearest_root_spec(a, h, c, t_min, t_max).unwrap();
        let p = r.at(t);
        lemma_unit_is_unit(p.minus(s.center@));
        lemma_unit_within(p.minus(s.center@).unit());
        lemma_facing_sound(r, p, t, s.outward(p), *s.mat);
    }
}

} // verus!
