//! Axis-aligned boxes.
use crate::fixed::{ONE, div_trunc, lemma_tdiv, tdiv};
use crate::hittable::{HitModel, HitRecord, hit_view, lemma_facing_sound};
use crate::material::Material;
use crate::ray::{Ray, RayModel, WORLD_MAX, arrival};
use crate::vec3::{Point3, V3, Vec3, lemma_axis_is_unit, lemma_unit_within};
use std::rc::Rc;
use vstd::prelude::*;

verus! {

/// How close to a face a hit point must lie to be counted on it: 1e-4.
pub const FACE_EPS: i64 = 100;

/// The box between the corners `min` and `max`.
pub struct Cube {
    pub min: Point3,
    pub max: Point3,
    pub mat: Rc<Material>,
}

/// The parameter interval `(lo, hi)` cut down to where the ray coordinate
/// `o + t * d` lies between `min` and `max`; `None` if nothing with
/// `lo < hi` is left. A ray that does not move along the axis is left
/// unconstrained when it starts between the two planes and misses
/// otherwise.
pub open spec fn slab(o: int, d: int, min: int, max: int, lo: int, hi: int) -> Option<(int, int)> {
    if d == 0 {
        if o < min || o > max || hi <= lo {
            None
        } else {
            Some((lo, hi))
        }
    } else {
        let near = arrival(o, d, min);
        let far = arrival(o, d, max);
        let t0 = if d < 0 {
            far
        } else {
            near
        };
        let t1 = if d < 0 {
            near
        } else {
            far
        };
        let lo2 = if t0 > lo {
            t0
        } else {
            lo
        };
        let hi2 = if t1 < hi {
            t1
        } else {
            hi
        };
        if hi2 <= lo2 {
            None
        } else {
            Some((lo2, hi2))
        }
    }
}

impl Cube {
    /// The box between the two corners, of the given material.
    pub fn new(min: Point3, max: Point3, mat: Rc<Material>) -> (c: Cube)
        ensures
            c.min == min,
            c.max == max,
            c.mat == mat,
    {
        Cube { min, max, mat }
    }

    /// Both corners lie in the world.
    pub open spec fn valid(&self) -> bool {
        &&& self.min@.within(WORLD_MAX as int)
        &&& self.max@.within(WORLD_MAX as int)
    }

    /// The part of `(t_min, t_max)` on which the ray is inside the box: the
    /// three slabs taken in the order x, y, z.
    pub open spec fn interval(&self, r: RayModel, t_min: int, t_max: int) -> Option<(int, int)> {
        match slab(r.orig.x, r.dir.x, self.min@.x, self.max@.x, t_min, t_max) {
            None => None,
            Some((lo1, hi1)) => match slab(r.orig.y, r.dir.y, self.min@.y, self.max@.y, lo1, hi1) {
                None => None,
                Some((lo2, hi2)) => slab(r.orig.z, r.dir.z, self.min@.z, self.max@.z, lo2, hi2),
            },
        }
    }

    /// The outward normal of the face that `p` lies on. The faces are tried
    /// in the fixed order `min.x`, `max.x`, `min.y`, `max.y`, `min.z`,
    /// `max.z` and the first one within `FACE_EPS` wins; `None` if `p` is on
    /// no face.
    pub open spec fn face_normal(&self, p: V3) -> Option<V3> {
        if p.x <= self.min@.x + FACE_EPS {
            Some(V3 { x: -ONE, y: 0, z: 0 })
        } else if p.x >= self.max@.x - FACE_EPS {
            Some(V3 { x: ONE as int, y: 0, z: 0 })
        } else if p.y <= self.min@.y + FACE_EPS {
            Some(V3 { x: 0, y: -ONE, z: 0 })
        } else if p.y >= self.max@.y - FACE_EPS {
            Some(V3 { x: 0, y: ONE as int, z: 0 })
        } else if p.z <= self.min@.z + FACE_EPS {
            Some(V3 { x: 0, y: 0, z: -ONE })
        } else if p.z >= self.max@.z - FACE_EPS {
            Some(V3 { x: 0, y: 0, z: ONE as int })
        } else {
            None
        }
    }

    /// The intersection of `r` with the box: at the start of the interval
    /// in which the ray is inside it, provided that point lies in the world
    /// and on a face.
    pub open spec fn hit_spec(&self, r: RayModel, t_min: int, t_max: int) -> Option<HitModel> {
        if !self.valid() || !r.valid() {
            None
        } else {
            match self.interval(r, t_min, t_max) {
                None => None,
                Some((t, _)) => {
                    let p = r.at(t);
                    match self.face_normal(p) {
                        Some(n) if p.within(WORLD_MAX as int) => Some(
                            HitModel::facing(r, p, t, n, *self.mat),
                        ),
                        _ => None,
                    }
                },
            }
        }
    }

    /// Decides [`Self::valid`].
    pub fn is_valid(&self) -> (b: bool)
        ensures
            b == self.valid(),
    {
        self.min.fits(WORLD_MAX) && self.max.fits(WORLD_MAX)
    }

    /// Slab test along one axis.
    fn clip(o: i64, d: i64, min: i64, max: i64, lo: i64, hi: i64) -> (r: Option<(i64, i64)>)
        requires
            -WORLD_MAX <= o <= WORLD_MAX,
            -WORLD_MAX <= min <= WORLD_MAX,
            -WORLD_MAX <= max <= WORLD_MAX,
        ensures
            match r {
                Some((a, b)) => slab(o as int, d as int, min as int, max as int, lo as int, hi as int)
                    == Some((a as int, b as int)) && lo <= a < b <= hi,
                None => slab(o as int, d as int, min as int, max as int, lo as int, hi as int)
                    is None,
            },
    {
        if d == 0 {
            if o < min || o > max || hi <= lo {
                None
            } else {
                Some((lo, hi))
            }
        } else {
            proof {
                lemma_tdiv((min - o) * ONE, d as int);
                lemma_tdiv((max - o) * ONE, d as int);
            }
            let near: i128 = div_trunc(((min - o) as i128) * (ONE as i128), d as i128);
            let far: i128 = div_trunc(((max - o) as i128) * (ONE as i128), d as i128);
            let t0: i64 = if d < 0 {
                far as i64
            } else {
                near as i64
            };
            let t1: i64 = if d < 0 {
                near as i64
            } else {
                far as i64
            };
            let lo2: i64 = if t0 > lo {
                t0
            } else {
                lo
            };
            let hi2: i64 = if t1 < hi {
                t1
            } else {
                hi
            };
            if hi2 <= lo2 {
                None
            } else {
                Some((lo2, hi2))
            }
        }
    }

    /// Intersects the ray with the box over the parameters from `t_min` to
    /// `t_max`.
    pub fn hit(&self, r: &Ray, t_min: i64, t_max: i64) -> (res: Option<HitRecord>)
        ensures
            hit_view(res) == self.hit_spec(r@, t_min as int, t_max as int),
            res matches Some(rec) ==> (rec@.sound(t_min as int, t_max as int) && rec.t < t_max
                && rec.p@.within(WORLD_MAX as int)),
    {
        if !self.is_valid() || !r.is_valid() {
            return None;
        }
        let (lo1, hi1) = match Self::clip(r.orig.x, r.dir.x, self.min.x, self.max.x, t_min, t_max) {
            Some(i) => i,
            None => {
                return None;
            },
        };
        let (lo2, hi2) = match Self::clip(r.orig.y, r.dir.y, self.min.y, self.max.y, lo1, hi1) {
            Some(i) => i,
            None => {
                return None;
            },
        };
        let (t, _) = match Self::clip(r.orig.z, r.dir.z, self.min.z, self.max.z, lo2, hi2) {
            Some(i) => i,
            None => {
                return None;
            },
        };
        let p = match r.at(t) {
            Some(p) => p,
            None => {
                return None;
            },
        };
        let eps = FACE_EPS;
        let normal = if p.x <= self.min.x + eps {
            Vec3 { x: -ONE, y: 0, z: 0 }
        } else if p.x >= self.max.x - eps {
            Vec3 { x: ONE, y: 0, z: 0 }
        } else if p.y <= self.min.y + eps {
            Vec3 { x: 0, y: -ONE, z: 0 }
        } else if p.y >= self.max.y - eps {
            Vec3 { x: 0, y: ONE, z: 0 }
        } else if p.z <= self.min.z + eps {
            Vec3 { x: 0, y: 0, z: -ONE }
        } else if p.z >= self.max.z - eps {
            Vec3 { x: 0, y: 0, z: ONE }
        } else {
            return None;
        };
        let mut rec = HitRecord { p, normal, mat: self.mat.clone(), t, front_face: false };
        rec.set_face_normal(r, normal);
        proof {
            lemma_axis_is_unit(normal@);
            lemma_unit_within(normal@);
        }
        Some(rec)
    }
}

/// A ray that travels along `+x`, starts in front of the `min.x` face and
/// between the planes of the other four faces, enters through the `min.x`
/// face: the hit is reported where the ray arrives there, from the front,
/// with normal `(-1, 0, 0)`, and lies on that face up to rounding. This
/// holds whenever the arrival lies in the interval, short of its far end,
/// and the ray does not leave the box at the parameter at which it enters.
pub proof fn lemma_hit_along_x(c: Cube, r: RayModel, t_min: int, t_max: int)
    requires
        c.valid(),
        r.valid(),
        r.dir.x > 0,
        r.dir.y == 0,
        r.dir.z == 0,
        r.orig.x < c.min@.x,
        c.min@.y <= r.orig.y <= c.max@.y,
        c.min@.z <= r.orig.z <= c.max@.z,
        t_min <= arrival(r.orig.x, r.dir.x, c.min@.x) < t_max,
        arrival(r.orig.x, r.dir.x, c.min@.x) < arrival(r.orig.x, r.dir.x, c.max@.x),
    ensures
        c.hit_spec(r, t_min, t_max) == Some(
            HitModel {
                p: r.at(arrival(r.orig.x, r.dir.x, c.min@.x)),
                normal: V3 { x: -ONE, y: 0, z: 0 },
                mat: *c.mat,
                t: arrival(r.orig.x, r.dir.x, c.min@.x),
                front_face: true,
            },
        ),
        c.min@.x - 64 <= r.at(arrival(r.orig.x, r.dir.x, c.min@.x)).x <= c.min@.x,
{
    let dx = r.dir.x;
    let gap = c.min@.x - r.orig.x;
    let enter = tdiv(gap * ONE, dx);
    let leave = tdiv((c.max@.x - r.orig.x) * ONE, dx);
    lemma_tdiv(gap * ONE, dx);
    assert(gap * ONE > 0) by (nonlinear_arith)
        requires
            gap > 0,
    ;
    let w = enter * dx;
    assert(enter >= 0);
    assert(w >= 0 && w <= gap * ONE && w > (gap - 64) * ONE) by (nonlinear_arith)
        requires
            w == enter * dx,
            enter >= 0,
            0 < dx <= 64_000_000,
            enter * dx <= gap * ONE < (enter + 1) * dx,
            ONE == 1_000_000,
    ;
    lemma_tdiv(w, ONE as int);
    let step = tdiv(w, ONE as int);
    assert(gap - 64 <= step <= gap) by (nonlinear_arith)
        requires
            step >= 0,
            w >= 0,
            step * ONE <= w < (step + 1) * ONE,
            w <= gap * ONE,
            w > (gap - 64) * ONE,
            ONE == 1_000_000,
    ;
    assert(enter * 0 == 0) by (nonlinear_arith);
    let p = r.at(enter);
    assert(p.x == r.orig.x + step);
    assert(p.y == r.orig.y);
    assert(p.z == r.orig.z);
    assert(slab(r.orig.x, dx, c.min@.x, c.max@.x, t_min, t_max) == Some(
        (
            enter,
            if leave < t_max {
                leave
            } else {
                t_max
            },
        ),
    ));
    assert(c.interval(r, t_min, t_max) == Some(
        (
            enter,
            if leave < t_max {
                leave
            } else {
                t_max
            },
        ),
    ));
    assert(r.dir.dot(V3 { x: -ONE, y: 0, z: 0 }) < 0) by (nonlinear_arith)
        requires
            r.dir.dot(V3 { x: -ONE, y: 0, z: 0 }) == dx * (-ONE) + r.dir.y * 0 + r.dir.z * 0,
            dx > 0,
            ONE == 1_000_000,
    ;
}

/// Lowering the far end of the interval to a value beyond the near end of
/// the slab's result lowers the far end of the result and nothing else.
pub proof fn lemma_slab_shrink(o: int, d: int, min: int, max: int, lo: int, hi: int, b: int)
    requires
        slab(o, d, min, max, lo, hi) matches Some((near, _)) && near < b,
    ensures
        ({
            let (near, far) = slab(o, d, min, max, lo, hi).unwrap();
            let cut = if hi < b {
                hi
            } else {
                b
            };
            &&& lo <= near < far <= hi
            &&& slab(o, d, min, max, lo, cut) == Some(
                (
                    near,
                    if far < b {
                        far
                    } else {
                        b
                    },
                ),
            )
        }),
{
}

/// A hit stays the same when the far end of the interval is lowered to a
/// value beyond it.
pub proof fn lemma_cube_hit_shrink(c: Cube, r: RayModel, t_min: int, t_max: int, b: int)
    requires
        c.hit_spec(r, t_min, t_max) matches Some(g) && g.t < b,
        b <= t_max,
    ensures
        c.hit_spec(r, t_min, b) == c.hit_spec(r, t_min, t_max),
{
    let s1 = slab(r.orig.x, r.dir.x, c.min@.x, c.max@.x, t_min, t_max);
    let (lo1, hi1) = s1.unwrap();
    let s2 = slab(r.orig.y, r.dir.y, c.min@.y, c.max@.y, lo1, hi1);
    let (lo2, hi2) = s2.unwrap();
    let s3 = slab(r.orig.z, r.dir.z, c.min@.z, c.max@.z, lo2, hi2);
    let (lo3, hi3) = s3.unwrap();
    assert(c.interval(r, t_min, t_max) == s3);
    lemma_slab_shrink(r.orig.z, r.dir.z, c.min@.z, c.max@.z, lo2, hi2, b);
    lemma_slab_shrink(r.orig.y, r.dir.y, c.min@.y, c.max@.y, lo1, hi1, b);
    lemma_slab_shrink(r.orig.x, r.dir.x, c.min@.x, c.max@.x, t_min, t_max, b);
    let cut1 = if hi1 < b {
        hi1
    } else {
        b
    };
    let cut2 = if hi2 < b {
        hi2
    } else {
        b
    };
    assert(slab(r.orig.x, r.dir.x, c.min@.x, c.max@.x, t_min, b) == Some((lo1, cut1)));
    assert(slab(r.orig.y, r.dir.y, c.min@.y, c.max@.y, lo1, cut1) == Some((lo2, cut2)));
}

/// A reported hit lies in the interval that was asked about, short of its
/// far end, and in the world, and its normal has unit length.
pub proof fn lemma_cube_hit_sound(c: Cube, r: RayModel, t_min: int, t_max: int)
    ensures
        c.hit_spec(r, t_min, t_max) matches Some(h) ==> h.sound(t_min, t_max) && h.t < t_max
            && h.p.within(WORLD_MAX as int),
{
    if c.hit_spec(r, t_min, t_max) is Some {
        let s1 = slab(r.orig.x, r.dir.x, c.min@.x, c.max@.x, t_min, t_max);
        let (lo1, hi1) = s1.unwrap();
        let s2 = slab(r.orig.y, r.dir.y, c.min@.y, c.max@.y, lo1, hi1);
        let (lo2, hi2) = s2.unwrap();
        lemma_slab_shrink(r.orig.x, r.dir.x, c.min@.x, c.max@.x, t_min, t_max, t_max);
        lemma_slab_shrink(r.orig.y, r.dir.y, c.min@.y, c.max@.y, lo1, hi1, t_max);
        lemma_slab_shrink(r.orig.z, r.dir.z, c.min@.z, c.max@.z, lo2, hi2, t_max);
        let (t, _) = c.interval(r, t_min, t_max).unwrap();
        let n = c.face_normal(r.at(t)).unwrap();
        lemma_axis_is_unit(n);
        lemma_facing_sound(r, r.at(t), t, n, *c.mat);
    }
}

} // verus!
