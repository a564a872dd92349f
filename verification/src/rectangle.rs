//! Flat parallelograms.
use crate::fixed::{ONE, lemma_mul_bound, lemma_tdiv, tdiv};
use crate::hittable::{HitModel, HitRecord, hit_view, lemma_facing_sound};
use crate::material::Material;
use crate::plane::{plane_crossing, plane_parameter};
use crate::ray::{Ray, RayModel, SIZE_MAX, WORLD_MAX};
use crate::vec3::{Point3, V3, Vec3, lemma_unit_is_unit, lemma_unit_within};
use std::rc::Rc;
use vstd::prelude::*;

verus! {

/// The parallelogram spanned from `corner` by the edges `size_x` and
/// `size_z`.
pub struct Rectangle {
    pub corner: Point3,
    pub size_x: Vec3,
    pub size_z: Vec3,
    pub mat: Rc<Material>,
}

impl Rectangle {
    /// The parallelogram spanned from `corner` by the two edges.
    pub fn new(corner: Point3, size_x: Vec3, size_z: Vec3, mat: Rc<Material>) -> (r: Rectangle)
        ensures
            r.corner == corner,
            r.size_x == size_x,
            r.size_z == size_z,
            r.mat == mat,
    {
        Rectangle { corner, size_x, size_z, mat }
    }

    /// The corner lies in the world and the edges are representable.
    pub open spec fn valid(&self) -> bool {
        &&& self.corner@.within(WORLD_MAX as int)
        &&& self.size_x@.within(SIZE_MAX as int)
        &&& self.size_z@.within(SIZE_MAX as int)
    }

    /// The edges span a plane: neither they nor their cross product vanish.
    pub open spec fn spans(&self) -> bool {
        &&& self.size_x@ != V3::zero()
        &&& self.size_z@ != V3::zero()
        &&& self.size_x@.cross(self.size_z@) != V3::zero()
    }

    /// The unit normal of the plane of the rectangle.
    pub open spec fn normal(&self) -> V3 {
        self.size_x@.cross(self.size_z@).unit()
    }

    /// Whether `p` lies over the rectangle: its offset from the corner,
    /// projected on the unit direction of each edge, is neither negative
    /// nor longer than that edge. Both sides carry the scale `ONE * ONE`.
    pub open spec fn covers(&self, p: V3) -> bool {
        let v = p.minus(self.corner@);
        let u = v.dot(self.size_x@.unit());
        let w = v.dot(self.size_z@.unit());
        &&& 0 <= u <= self.size_x@.length() * ONE
        &&& 0 <= w <= self.size_z@.length() * ONE
    }

    /// The intersection of `r` with the rectangle: where the ray meets the
    /// plane of the rectangle, if that happens between `t_min` and `t_max`,
    /// both included, and over the rectangle.
    pub open spec fn hit_spec(&self, r: RayModel, t_min: int, t_max: int) -> Option<HitModel> {
        if !self.valid() || !r.valid() || !self.spans() {
            None
        } else {
            match plane_parameter(self.corner@, self.normal(), r.orig, r.dir) {
                Some(t) if t_min <= t <= t_max && r.at(t).within(WORLD_MAX as int)
                    && self.covers(r.at(t)) => Some(
                    HitModel::facing(r, r.at(t), t, self.normal(), *self.mat),
                ),
                _ => None,
            }
        }
    }

    /// Decides [`Self::valid`].
    pub fn is_valid(&self) -> (b: bool)
        ensures
            b == self.valid(),
    {
        self.corner.fits(WORLD_MAX) && self.size_x.fits(SIZE_MAX) && self.size_z.fits(SIZE_MAX)
    }

    /// Intersects the ray with the rectangle over the parameters from
    /// `t_min` to `t_max`.
    pub fn hit(&self, r: &Ray, t_min: i64, t_max: i64) -> (res: Option<HitRecord>)
        ensures
            hit_view(res) == self.hit_spec(r@, t_min as int, t_max as int),
            res matches Some(rec) ==> (rec@.sound(t_min as int, t_max as int) && rec.p@.within(
                WORLD_MAX as int,
            )),
    {
        if !self.is_valid() || !r.is_valid() {
            return None;
        }
        let ux = match self.size_x.unit_vector() {
            Some(u) => u,
            None => {
                return None;
            },
        };
        let uz = match self.size_z.unit_vector() {
            Some(u) => u,
            None => {
                return None;
            },
        };
        let across = self.size_x.cross(self.size_z);
        proof {
            lemma_cross_bound(self.size_x@, self.size_z@);
        }
        let normal = match across.unit_vector() {
            Some(n) => n,
            None => {
                return None;
            },
        };
        proof {
            lemma_unit_within(normal@);
            lemma_unit_within(ux@);
            lemma_unit_within(uz@);
        }
        let t: i128 = match plane_crossing(self.corner, normal, r) {
            Some(t) => t,
            None => {
                return None;
            },
        };
        if t < (t_min as i128) || t > (t_max as i128) {
            return None;
        }
        let t: i64 = t as i64;
        let p = match r.at(t) {
            Some(p) => p,
            None => {
                return None;
            },
        };
        let v = p.minus(self.corner);
        let u: i128 = v.dot(ux);
        let w: i128 = v.dot(uz);
        let len_x: i64 = self.size_x.length();
        let len_z: i64 = self.size_z.length();
        if u < 0 || u > (len_x as i128) * (ONE as i128) || w < 0 || w > (len_z as i128) * (
        ONE as i128) {
            return None;
        }
        let mut rec = HitRecord { p, normal, mat: self.mat.clone(), t, front_face: false };
        rec.set_face_normal(r, normal);
        Some(rec)
    }
}

/// The cross product of two edges of admissible size is small enough to be
/// normalised.
proof fn lemma_cross_bound(a: V3, b: V3)
    requires
        a.within(SIZE_MAX as int),
        b.within(SIZE_MAX as int),
    ensures
        a.cross(b).within(0x1000_0000_0000_0000),
{
    lemma_cross_component(a.y, b.z, a.z, b.y);
    lemma_cross_component(a.z, b.x, a.x, b.z);
    lemma_cross_component(a.x, b.y, a.y, b.x);
}

/// One component of such a cross product.
proof fn lemma_cross_component(p: int, q: int, s: int, t: int)
    requires
        -SIZE_MAX <= p <= SIZE_MAX,
        -SIZE_MAX <= q <= SIZE_MAX,
        -SIZE_MAX <= s <= SIZE_MAX,
        -SIZE_MAX <= t <= SIZE_MAX,
    ensures
        -0x1000_0000_0000_0000 <= tdiv(p * q - s * t, ONE as int) <= 0x1000_0000_0000_0000,
{
    lemma_mul_bound(p, q, SIZE_MAX as int, SIZE_MAX as int);
    lemma_mul_bound(s, t, SIZE_MAX as int, SIZE_MAX as int);
    lemma_tdiv(p * q - s * t, ONE as int);
}

/// A hit stays the same when the far end of the interval is lowered
/// without passing it.
pub proof fn lemma_rectangle_hit_shrink(q: Rectangle, r: RayModel, t_min: int, t_max: int, b: int)
    requires
        q.hit_spec(r, t_min, t_max) matches Some(g) && g.t <= b,
        b <= t_max,
    ensures
        q.hit_spec(r, t_min, b) == q.hit_spec(r, t_min, t_max),
{
}

/// A reported hit lies in the interval that was asked about and in the
/// world, and its normal has unit length.
pub proof fn lemma_rectangle_hit_sound(q: Rectangle, r: RayModel, t_min: int, t_max: int)
    ensures
        q.hit_spec(r, t_min, t_max) matches Some(h) ==> h.sound(t_min, t_max) && h.p.within(
            WORLD_MAX as int,
        ),
{
    if q.hit_spec(r, t_min, t_max) is Some {
        let t = plane_parameter(q.corner@, q.normal(), r.orig, r.dir).unwrap();
        lemma_unit_is_unit(q.size_x@.cross(q.size_z@));
        lemma_facing_sound(r, r.at(t), t, q.normal(), *q.mat);
    }
}

} // verus!
