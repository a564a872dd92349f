//! The record of an intersection and its mathematical model.
use crate::cube::{Cube, lemma_cube_hit_shrink, lemma_cube_hit_sound};
use crate::cylindre::{Cylinder, lemma_cylinder_hit_shrink, lemma_cylinder_hit_sound};
use crate::material::Material;
use crate::plane::{Plane, lemma_plane_hit_shrink, lemma_plane_hit_sound};
use crate::ray::{Ray, RayModel, WORLD_MAX};
use crate::rectangle::{Rectangle, lemma_rectangle_hit_shrink, lemma_rectangle_hit_sound};
use crate::sphere::{Sphere, lemma_sphere_hit_shrink, lemma_sphere_hit_sound};
use crate::vec3::{LIMIT, Point3, V3, Vec3, lemma_unit_within};
use std::rc::Rc;
use vstd::prelude::*;

verus! {

/// Where and how a ray met a surface.
#[derive(Clone, Debug)]
pub struct HitRecord {
    /// The point of intersection.
    pub p: Point3,
    /// The surface normal there, of unit length and turned against the ray.
    pub normal: Vec3,
    /// The material of the surface, shared with the primitive that was hit.
    pub mat: Rc<Material>,
    /// The ray parameter of the intersection.
    pub t: i64,
    /// Whether the ray met the surface from outside.
    pub front_face: bool,
}

/// The model of a [`HitRecord`]: the same data over mathematical integers.
pub struct HitModel {
    pub p: V3,
    pub normal: V3,
    pub mat: Material,
    pub t: int,
    pub front_face: bool,
}

impl HitModel {
    /// The record of a hit at `p` with outward normal `outward`: the stored
    /// normal is `outward` or its opposite, whichever faces the ray.
    pub open spec fn facing(r: RayModel, p: V3, t: int, outward: V3, mat: Material) -> HitModel {
        let front = r.dir.dot(outward) < 0;
        HitModel {
            p,
            normal: if front {
                outward
            } else {
                outward.neg()
            },
            mat,
            t,
            front_face: front,
        }
    }

    /// What every reported hit satisfies for the queried interval: the
    /// parameter lies in it and the normal has unit length.
    pub open spec fn sound(self, t_min: int, t_max: int) -> bool {
        &&& t_min <= self.t <= t_max
        &&& self.normal.is_unit()
    }
}

impl View for HitRecord {
    type V = HitModel;

    open spec fn view(&self) -> HitModel {
        HitModel {
            p: self.p@,
            normal: self.normal@,
            mat: *self.mat,
            t: self.t as int,
            front_face: self.front_face,
        }
    }
}

/// The model of the outcome of an intersection test.
pub open spec fn hit_view(res: Option<HitRecord>) -> Option<HitModel> {
    match res {
        Some(rec) => Some(rec@),
        None => None,
    }
}

impl HitRecord {
    /// Stores `outward_normal` or its opposite, whichever faces the ray, and
    /// records which it was.
    pub fn set_face_normal(&mut self, r: &Ray, outward_normal: Vec3)
        requires
            r.dir@.within(LIMIT as int),
            outward_normal@.within(LIMIT as int),
        ensures
            final(self)@ == HitModel::facing(
                r@,
                old(self).p@,
                old(self).t as int,
                outward_normal@,
                *old(self).mat,
            ),
    {
        self.front_face = r.dir.dot(outward_normal) < 0;
        self.normal = if self.front_face {
            outward_normal
        } else {
            outward_normal.neg()
        };
    }
}

/// Anything a ray can hit: the closed set of primitives.
pub enum Hittable {
    Sphere(Sphere),
    Plane(Plane),
    Rectangle(Rectangle),
    Cube(Cube),
    Cylinder(Cylinder),
}

impl Hittable {
    /// The intersection of `r` with the primitive for the parameters from
    /// `t_min` to `t_max`, as the primitive defines it.
    pub open spec fn hit_spec(&self, r: RayModel, t_min: int, t_max: int) -> Option<HitModel> {
        match self {
            Hittable::Sphere(s) => s.hit_spec(r, t_min, t_max),
            Hittable::Plane(p) => p.hit_spec(r, t_min, t_max),
            Hittable::Rectangle(q) => q.hit_spec(r, t_min, t_max),
            Hittable::Cube(c) => c.hit_spec(r, t_min, t_max),
            Hittable::Cylinder(c) => c.hit_spec(r, t_min, t_max),
        }
    }

    /// Whether the normals that the primitive reports have unit length.
    /// They always do, except on a plane, which hands out the normal it was
    /// given.
    pub open spec fn unit_normals(&self) -> bool {
        match self {
            Hittable::Plane(p) => p.normal@.is_unit(),
            _ => true,
        }
    }

    /// Intersects the ray with the primitive over the parameters from
    /// `t_min` to `t_max`. A reported hit lies in that interval and in the
    /// world, and its normal has unit length.
    pub fn hit(&self, r: &Ray, t_min: i64, t_max: i64) -> (res: Option<HitRecord>)
        ensures
            hit_view(res) == self.hit_spec(r@, t_min as int, t_max as int),
            res matches Some(rec) ==> (t_min <= rec.t <= t_max && rec.p@.within(WORLD_MAX as int)
                && (self.unit_normals() ==> rec.normal@.is_unit())),
    {
        match self {
            Hittable::Sphere(s) => s.hit(r, t_min, t_max),
            Hittable::Plane(p) => p.hit(r, t_min, t_max),
            Hittable::Rectangle(q) => q.hit(r, t_min, t_max),
            Hittable::Cube(c) => c.hit(r, t_min, t_max),
            Hittable::Cylinder(c) => c.hit(r, t_min, t_max),
        }
    }
}

/// A reported hit lies in the interval that was asked about and in the
/// world, and its normal has unit length, provided the primitive hands out
/// unit normals.
pub proof fn lemma_hit_sound(obj: Hittable, r: RayModel, t_min: int, t_max: int)
    ensures
        obj.hit_spec(r, t_min, t_max) matches Some(h) ==> t_min <= h.t <= t_max && h.p.within(
            WORLD_MAX as int,
        ) && (obj.unit_normals() ==> h.sound(t_min, t_max)),
{
    match obj {
        Hittable::Sphere(s) => lemma_sphere_hit_sound(s, r, t_min, t_max),
        Hittable::Plane(p) => lemma_plane_hit_sound(p, r, t_min, t_max),
        Hittable::Rectangle(q) => lemma_rectangle_hit_sound(q, r, t_min, t_max),
        Hittable::Cube(c) => lemma_cube_hit_sound(c, r, t_min, t_max),
        Hittable::Cylinder(c) => lemma_cylinder_hit_sound(c, r, t_min, t_max),
    }
}

/// A hit stays the same when the far end of the interval is lowered to a
/// value beyond it.
pub proof fn lemma_hit_shrink(obj: Hittable, r: RayModel, t_min: int, t_max: int, b: int)
    requires
        obj.hit_spec(r, t_min, t_max) matches Some(g) && g.t < b,
        b <= t_max,
    ensures
        obj.hit_spec(r, t_min, b) == obj.hit_spec(r, t_min, t_max),
{
    match obj {
        Hittable::Sphere(s) => lemma_sphere_hit_shrink(s, r, t_min, t_max, b),
        Hittable::Plane(p) => lemma_plane_hit_shrink(p, r, t_min, t_max, b),
        Hittable::Rectangle(q) => lemma_rectangle_hit_shrink(q, r, t_min, t_max, b),
        Hittable::Cube(c) => lemma_cube_hit_shrink(c, r, t_min, t_max, b),
        Hittable::Cylinder(c) => lemma_cylinder_hit_shrink(c, r, t_min, t_max, b),
    }
}

/// Turning a unit normal against the ray leaves it a unit normal.
pub proof fn lemma_facing_sound(r: RayModel, p: V3, t: int, outward: V3, mat: Material)
    requires
        outward.is_unit(),
    ensures
        HitModel::facing(r, p, t, outward, mat).normal.is_unit(),
        HitModel::facing(r, p, t, outward, mat).t == t,
        HitModel::facing(r, p, t, outward, mat).p == p,
{
    lemma_unit_within(outward);
}

} // verus!
