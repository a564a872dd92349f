//! Infinite planes.
use crate::fixed::{ONE, abs, div_trunc, lemma_tdiv, tdiv};
use crate::hittable::{HitModel, HitRecord, hit_view, lemma_facing_sound};
use crate::material::Material;
use crate::ray::{DIR_MAX, Ray, RayModel, WORLD_MAX};
use crate::vec3::{Point3, V3, Vec3, lemma_dot_bound, lemma_norm2};
use std::rc::Rc;
use vstd::prelude::*;

verus! {

/// A ray whose direction has a dot product with the plane normal of at most
/// this magnitude counts as parallel to the plane: 1e-6, at the scale of a
/// dot product.
pub const PARALLEL_EPS: i128 = 1_000_000;

/// The plane through `point` perpendicular to `normal`.
pub struct Plane {
    pub point: Point3,
    pub normal: Vec3,
    pub mat: Rc<Material>,
}

/// The parameter at which a ray from `orig` along `dir` meets the plane
/// through `point` with normal `normal`, rounded toward zero; `None` if the
/// ray is parallel to it within `PARALLEL_EPS`.
pub open spec fn plane_parameter(point: V3, normal: V3, orig: V3, dir: V3) -> Option<int> {
    let denom = normal.dot(dir);
    if abs(denom) <= PARALLEL_EPS {
        None
    } else {
        Some(tdiv(point.minus(orig).dot(normal) * ONE, denom))
    }
}

/// Computes [`plane_parameter`].
pub fn plane_crossing(point: Point3, normal: Vec3, r: &Ray) -> (t: Option<i128>)
    requires
        point@.within(WORLD_MAX as int),
        normal@.within(DIR_MAX as int),
        r.valid(),
    ensures
        match t {
            Some(v) => plane_parameter(point@, normal@, r@.orig, r@.dir) == Some(v as int),
            None => plane_parameter(point@, normal@, r@.orig, r@.dir) is None,
        },
{
    let denom: i128 = normal.dot(r.dir);
    if -PARALLEL_EPS <= denom && denom <= PARALLEL_EPS {
        return None;
    }
    let gap = point.minus(r.orig);
    let num: i128 = gap.dot(normal);
    proof {
        lemma_dot_bound(gap@, normal@, 2 * WORLD_MAX, DIR_MAX as int);
        lemma_tdiv(num * ONE, denom as int);
    }
    Some(div_trunc(num * (ONE as i128), denom))
}

impl Plane {
    /// The plane through `point` with the given normal and material.
    pub fn new(point: Point3, normal: Vec3, mat: Rc<Material>) -> (p: Plane)
        ensures
            p.point == point,
            p.normal == normal,
            p.mat == mat,
    {
        Plane { point, normal, mat }
    }

    /// The point lies in the world and the normal is of moderate size. The
    /// normal is not required to have unit length.
    pub open spec fn valid(&self) -> bool {
        &&& self.point@.within(WORLD_MAX as int)
        &&& self.normal@.within(DIR_MAX as int)
    }

    /// The intersection of `r` with the plane, if the ray is not parallel
    /// to it, the parameter lies between `t_min` and `t_max`, both
    /// included, and the point lies in the world. The record carries the
    /// plane's own normal, turned against the ray.
    pub open spec fn hit_spec(&self, r: RayModel, t_min: int, t_max: int) -> Option<HitModel> {
        if !self.valid() || !r.valid() {
            None
        } else {
            match plane_parameter(self.point@, self.normal@, r.orig, r.dir) {
                Some(t) if t_min <= t <= t_max && r.at(t).within(WORLD_MAX as int) => Some(
                    HitModel::facing(r, r.at(t), t, self.normal@, *self.mat),
                ),
                _ => None,
            }
        }
    }

    /// Decides [`Self::valid`].
    pub fn is_valid(&self) -> (b: bool)
        ensures
            b == self.valid(),
    {
        self.point.fits(WORLD_MAX) && self.normal.fits(DIR_MAX)
    }

    /// Intersects the ray with the plane over the parameters from `t_min`
    /// to `t_max`.
    pub fn hit(&self, r: &Ray, t_min: i64, t_max: i64) -> (res: Option<HitRecord>)
        ensures
            hit_view(res) == self.hit_spec(r@, t_min as int, t_max as int),
            res matches Some(rec) ==> (t_min <= rec.t <= t_max && rec.p@.within(WORLD_MAX as int)
                && rec.normal@.norm2() == self.normal@.norm2()),
    {
        if !self.is_valid() || !r.is_valid() {
            return None;
        }
        let t: i128 = match plane_crossing(self.point, self.normal, r) {
            Some(t) => t,
            None => {
                return None;
            },
        };
        if t < (t_min as i128) || t > (t_max as i128) {
            return None;
        }
        let t: i64 = t as i64;
        let p = match r.at(t) {
            Some(p) => p,
            None => {
                return None;
            },
        };
        let mut rec = HitRecord { p, normal: self.normal, mat: self.mat.clone(), t, front_face: false };
        rec.set_face_normal(r, self.normal);
        proof {
            lemma_norm2(self.normal@);
        }
        Some(rec)
    }
}

/// A hit stays the same when the far end of the interval is lowered
/// without passing it.
pub proof fn lemma_plane_hit_shrink(p: Plane, r: RayModel, t_min: int, t_max: int, b: int)
    requires
        p.hit_spec(r, t_min, t_max) matches Some(g) && g.t <= b,
        b <= t_max,
    ensures
        p.hit_spec(r, t_min, b) == p.hit_spec(r, t_min, t_max),
{
}

/// A reported hit lies in the interval that was asked about and in the
/// world. Its normal has unit length if the plane was given one of unit
/// length.
pub proof fn lemma_plane_hit_sound(p: Plane, r: RayModel, t_min: int, t_max: int)
    ensures
        p.hit_spec(r, t_min, t_max) matches Some(h) ==> t_min <= h.t <= t_max && h.p.within(
            WORLD_MAX as int,
        ) && (p.normal@.is_unit() ==> h.sound(t_min, t_max)),
{
    if p.hit_spec(r, t_min, t_max) is Some && p.normal@.is_unit() {
        let t = plane_parameter(p.point@, p.normal@, r.orig, r.dir).unwrap();
        lemma_facing_sound(r, r.at(t), t, p.normal@, *p.mat);
    }
}

} // verus!
