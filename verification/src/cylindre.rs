//! Upright capped cylinders.
use crate::fixed::{ONE, div_trunc, lemma_mul_bound, lemma_tdiv, mul_wide};
use crate::hittable::{HitModel, HitRecord, hit_view, lemma_facing_sound};
use crate::material::Material;
use crate::quadratic::{
    lemma_nearest_root_grow, lemma_nearest_root_shrink, nearest_root, nearest_root_spec,
};
use crate::ray::{DIR_MAX, Ray, RayModel, SIZE_MAX, WORLD_MAX, arrival};
use crate::vec3::{Point3, V3, Vec3, lemma_axis_is_unit, lemma_unit_is_unit, lemma_unit_within};
use std::rc::Rc;
use vstd::prelude::*;

verus! {

/// A cylinder standing on `base`, reaching `height` upward. The `axis` is
/// kept as given but the surface is always taken to be upright: the
/// intersection looks only at `base`, `radius` and `height`.
pub struct Cylinder {
    pub base: Point3,
    pub axis: Vec3,
    pub radius: i64,
    pub height: i64,
    pub mat: Rc<Material>,
}

impl Cylinder {
    /// The cylinder on `base`, of the given size and material.
    pub fn new(base: Point3, axis: Vec3, radius: i64, height: i64, mat: Rc<Material>) -> (c:
        Cylinder)
        ensures
            c.base == base,
            c.axis == axis,
            c.radius == radius,
            c.height == height,
            c.mat == mat,
    {
        Cylinder { base, axis, radius, height, mat }
    }

    /// The base lies in the world and the sizes are representable.
    pub open spec fn valid(&self) -> bool {
        &&& self.base@.within(WORLD_MAX as int)
        &&& -SIZE_MAX <= self.radius <= SIZE_MAX
        &&& -SIZE_MAX <= self.height <= SIZE_MAX
    }

    /// Height of the top cap.
    pub open spec fn top(&self) -> int {
        self.base@.y + self.height
    }

    /// Squared horizontal distance of `p` from the axis.
    pub open spec fn reach2(&self, p: V3) -> int {
        (p.x - self.base@.x) * (p.x - self.base@.x) + (p.z - self.base@.z) * (p.z - self.base@.z)
    }

    /// Coefficients `(a, h, c)` of the quadratic for the side: the
    /// ray and the circle of the cylinder seen from above, heights ignored.
    pub open spec fn side_coefficients(&self, r: RayModel) -> (int, int, int) {
        let ox = r.orig.x - self.base@.x;
        let oz = r.orig.z - self.base@.z;
        let dx = r.dir.x;
        let dz = r.dir.z;
        (dx * dx + dz * dz, ox * dx + oz * dz, ox * ox + oz * oz - self.radius * self.radius)
    }

    /// The hit on the side: at the nearest root of the quadratic, if the
    /// point there lies between the caps.
    pub open spec fn side_hit(&self, r: RayModel, t_min: int, t_max: int) -> Option<HitModel> {
        let (a, h, c) = self.side_coefficients(r);
        match nearest_root_spec(a, h, c, t_min, t_max) {
            None => None,
            Some(t) => {
                let p = r.at(t);
                let out = V3 { x: p.x - self.base@.x, y: 0, z: p.z - self.base@.z };
                if p.within(WORLD_MAX as int) && self.base@.y <= p.y <= self.top() && out
                    != V3::zero() {
                    Some(HitModel::facing(r, p, t, out.unit(), *self.mat))
                } else {
                    None
                }
            },
        }
    }

    /// The hit on the cap at height `level`, whose outward normal points
    /// along `ny` times the vertical: where the ray crosses that height, if
    /// it does so within the radius. A ray that keeps its height meets no
    /// cap.
    pub open spec fn cap_hit(&self, r: RayModel, t_min: int, t_max: int, level: int, ny: int) -> Option<
        HitModel,
    > {
        if r.dir.y == 0 {
            None
        } else {
            let t = arrival(r.orig.y, r.dir.y, level);
            let p = r.at(t);
            if t_min <= t <= t_max && p.within(WORLD_MAX as int) && self.reach2(p) <= self.radius
                * self.radius {
                Some(HitModel::facing(r, p, t, V3 { x: 0, y: ny, z: 0 }, *self.mat))
            } else {
                None
            }
        }
    }

    /// The intersection of `r` with the cylinder: the first that exists of
    /// the hit on the side, on the bottom cap and on the top cap.
    pub open spec fn hit_spec(&self, r: RayModel, t_min: int, t_max: int) -> Option<HitModel> {
        if !self.valid() || !r.valid() {
            None
        } else if self.side_hit(r, t_min, t_max) is Some {
            self.side_hit(r, t_min, t_max)
        } else if self.cap_hit(r, t_min, t_max, self.base@.y, -ONE) is Some {
            self.cap_hit(r, t_min, t_max, self.base@.y, -ONE)
        } else {
            self.cap_hit(r, t_min, t_max, self.top(), ONE as int)
        }
    }

    /// Decides [`Self::valid`].
    pub fn is_valid(&self) -> (b: bool)
        ensures
            b == self.valid(),
    {
        self.base.fits(WORLD_MAX) && -SIZE_MAX <= self.radius && self.radius <= SIZE_MAX
            && -SIZE_MAX <= self.height && self.height <= SIZE_MAX
    }

    fn side(&self, r: &Ray, t_min: i64, t_max: i64) -> (res: Option<HitRecord>)
        requires
            self.valid(),
            r.valid(),
        ensures
            hit_view(res) == self.side_hit(r@, t_min as int, t_max as int),
            res matches Some(rec) ==> (rec@.sound(t_min as int, t_max as int) && rec.p@.within(
                WORLD_MAX as int,
            )),
    {
        let ox: i64 = r.orig.x - self.base.x;
        let oz: i64 = r.orig.z - self.base.z;
        let dx: i64 = r.dir.x;
        let dz: i64 = r.dir.z;
        proof {
            let w2 = 2 * WORLD_MAX;
            lemma_mul_bound(dx as int, dx as int, DIR_MAX as int, DIR_MAX as int);
            lemma_mul_bound(dz as int, dz as int, DIR_MAX as int, DIR_MAX as int);
            lemma_mul_bound(ox as int, dx as int, w2, DIR_MAX as int);
            lemma_mul_bound(oz as int, dz as int, w2, DIR_MAX as int);
            lemma_mul_bound(ox as int, ox as int, w2, w2);
            lemma_mul_bound(oz as int, oz as int, w2, w2);
            lemma_mul_bound(self.radius as int, self.radius as int, w2, w2);
            assert(dx * dx >= 0 && dz * dz >= 0 && ox * ox >= 0 && oz * oz >= 0 && self.radius
                * self.radius >= 0) by (nonlinear_arith);
        }
        let a: i128 = mul_wide(dx, dx) + mul_wide(dz, dz);
        let h: i128 = mul_wide(ox, dx) + mul_wide(oz, dz);
        let c: i128 = mul_wide(ox, ox) + mul_wide(oz, oz) - mul_wide(self.radius, self.radius);
        proof {
            lemma_mul_bound(h as int, h as int, 2 * (2 * WORLD_MAX * DIR_MAX), 2 * (2 * WORLD_MAX * DIR_MAX));
            lemma_mul_bound(
                a as int,
                c as int,
                2 * (DIR_MAX * DIR_MAX),
                2 * ((2 * WORLD_MAX) * (2 * WORLD_MAX)),
            );
        }
        let t = match nearest_root(a, h, c, t_min, t_max) {
            Some(t) => t,
            None => {
                return None;
            },
        };
        let p = match r.at(t) {
            Some(p) => p,
            None => {
                return None;
            },
        };
        if p.y < self.base.y || (p.y as i128) > (self.base.y as i128) + (self.height as i128) {
            return None;
        }
        let out = Vec3 { x: p.x - self.base.x, y: 0, z: p.z - self.base.z };
        let normal = match out.unit_vector() {
            Some(n) => n,
            None => {
                return None;
            },
        };
        proof {
            lemma_unit_within(normal@);
        }
        let mut rec = HitRecord { p, normal, mat: self.mat.clone(), t, front_face: false };
        rec.set_face_normal(r, normal);
        Some(rec)
    }

    fn cap(&self, r: &Ray, t_min: i64, t_max: i64, level: i64, ny: i64) -> (res: Option<
        HitRecord,
    >)
        requires
            self.valid(),
            r.valid(),
            -4 * WORLD_MAX <= level <= 4 * WORLD_MAX,
            ny == ONE || ny == -ONE,
        ensures
            hit_view(res) == self.cap_hit(r@, t_min as int, t_max as int, level as int, ny as int),
            res matches Some(rec) ==> (rec@.sound(t_min as int, t_max as int) && rec.p@.within(
                WORLD_MAX as int,
            )),
    {
        if r.dir.y == 0 {
            return None;
        }
        proof {
            lemma_tdiv((level - r.orig.y) * ONE, r.dir.y as int);
        }
        let t: i128 = div_trunc(((level - r.orig.y) as i128) * (ONE as i128), r.dir.y as i128);
        if t < (t_min as i128) || t > (t_max as i128) {
            return None;
        }
        let t: i64 = t as i64;
        let p = match r.at(t) {
            Some(p) => p,
            None => {
                return None;
            },
        };
        let ex: i64 = p.x - self.base.x;
        let ez: i64 = p.z - self.base.z;
        proof {
            let w2 = 2 * WORLD_MAX;
            lemma_mul_bound(ex as int, ex as int, w2, w2);
            lemma_mul_bound(ez as int, ez as int, w2, w2);
            lemma_mul_bound(self.radius as int, self.radius as int, w2, w2);
        }
        if mul_wide(ex, ex) + mul_wide(ez, ez) > mul_wide(self.radius, self.radius) {
            return None;
        }
        let normal = Vec3 { x: 0, y: ny, z: 0 };
        proof {
            lemma_axis_is_unit(normal@);
            lemma_unit_within(normal@);
        }
        let mut rec = HitRecord { p, normal, mat: self.mat.clone(), t, front_face: false };
        rec.set_face_normal(r, normal);
        Some(rec)
    }

    /// Intersects the ray with the cylinder over the parameters from
    /// `t_min` to `t_max`.
    pub fn hit(&self, r: &Ray, t_min: i64, t_max: i64) -> (res: Option<HitRecord>)
        ensures
            hit_view(res) == self.hit_spec(r@, t_min as int, t_max as int),
            res matches Some(rec) ==> (rec@.sound(t_min as int, t_max as int) && rec.p@.within(
                WORLD_MAX as int,
            )),
    {
        if !self.is_valid() || !r.is_valid() {
            return None;
        }
        let side = self.side(r, t_min, t_max);
        if side.is_some() {
            return side;
        }
        let bottom = self.cap(r, t_min, t_max, self.base.y, -ONE);
        if bottom.is_some() {
            return bottom;
        }
        self.cap(r, t_min, t_max, self.base.y + self.height, ONE)
    }
}

/// A hit stays the same when the far end of the interval is lowered
/// without passing it.
pub proof fn lemma_cylinder_hit_shrink(c: Cylinder, r: RayModel, t_min: int, t_max: int, b: int)
    requires
        c.hit_spec(r, t_min, t_max) matches Some(g) && g.t <= b,
        b <= t_max,
    ensures
        c.hit_spec(r, t_min, b) == c.hit_spec(r, t_min, t_max),
{
    let (qa, qh, qc) = c.side_coefficients(r);
    if c.side_hit(r, t_min, t_max) is Some {
        lemma_nearest_root_shrink(qa, qh, qc, t_min, t_max, b);
    } else {
        if nearest_root_spec(qa, qh, qc, t_min, b) is Some {
            lemma_nearest_root_grow(qa, qh, qc, t_min, t_max, b);
        }
    }
}

/// A reported hit lies in the interval that was asked about and in the
/// world, and its normal has unit length.
pub proof fn lemma_cylinder_hit_sound(c: Cylinder, r: RayModel, t_min: int, t_max: int)
    ensures
        c.hit_spec(r, t_min, t_max) matches Some(h) ==> h.sound(t_min, t_max) && h.p.within(
            WORLD_MAX as int,
        ),
{
    if c.hit_spec(r, t_min, t_max) is Some {
        if c.side_hit(r, t_min, t_max) is Some {
            let (qa, qh, qc) = c.side_coefficients(r);
            let t = nearest_root_spec(qa, qh, qc, t_min, t_max).unwrap();
            let p = r.at(t);
            let out = V3 { x: p.x - c.base@.x, y: 0, z: p.z - c.base@.z };
            lemma_unit_is_unit(out);
            lemma_facing_sound(r, p, t, out.unit(), *c.mat);
        } else {
            let level = if c.cap_hit(r, t_min, t_max, c.base@.y, -ONE) is Some {
                c.base@.y
            } else {
                c.top()
            };
            let ny = if c.cap_hit(r, t_min, t_max, c.base@.y, -ONE) is Some {
                -ONE
            } else {
                ONE as int
            };
            let t = arrival(r.orig.y, r.dir.y, level);
            let n = V3 { x: 0, y: ny, z: 0 };
            lemma_axis_is_unit(n);
            lemma_facing_sound(r, r.at(t), t, n, *c.mat);
        }
    }
}

} // verus!
