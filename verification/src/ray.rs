//! Rays, and the bounded region of space in which the tracer works.
use crate::fixed::{ONE, div_trunc, lemma_mul_bound, lemma_tdiv, mul_wide, tdiv};
use crate::vec3::{Point3, V3, Vec3};
use vstd::prelude::*;

verus! {

/// Largest coordinate magnitude of a point of the world: 16000.0.
/// Geometry outside this cube is never hit.
pub const WORLD_MAX: i64 = 16_000_000_000;

/// Largest magnitude of a radius or a height: twice the world's.
pub const SIZE_MAX: i64 = 32_000_000_000;

/// Largest component magnitude of a ray direction: 64.0.
pub const DIR_MAX: i64 = 64_000_000;

/// The parameter at which a ray that starts at `o` and moves by `d` along
/// an axis reaches `level` on that axis, rounded toward zero.
pub open spec fn arrival(o: int, d: int, level: int) -> int {
    tdiv((level - o) * ONE, d)
}

/// A half-line: the points `origin + t * direction`.
#[derive(Clone, Copy, Debug, PartialEq, Eq, Structural)]
pub struct Ray {
    pub orig: Point3,
    pub dir: Vec3,
}

/// The model of a [`Ray`].
pub struct RayModel {
    pub orig: V3,
    pub dir: V3,
}

impl RayModel {
    /// The origin lies in the world and the direction is of moderate size.
    /// The direction need not have unit length.
    pub open spec fn valid(self) -> bool {
        &&& self.orig.within(WORLD_MAX as int)
        &&& self.dir.within(DIR_MAX as int)
    }

    /// The point at parameter `t`.
    pub open spec fn at(self, t: int) -> V3 {
        self.orig.plus(self.dir.scale(t))
    }
}

impl View for Ray {
    type V = RayModel;

    open spec fn view(&self) -> RayModel {
        RayModel { orig: self.orig@, dir: self.dir@ }
    }
}

impl Ray {
    /// The model of the ray is valid.
    pub open spec fn valid(&self) -> bool {
        self@.valid()
    }

    /// The ray from `origin` along `direction`.
    pub fn new(origin: Point3, direction: Vec3) -> (r: Ray)
        ensures
            r.orig == origin,
            r.dir == direction,
    {
        Ray { orig: origin, dir: direction }
    }

    /// Where the ray starts.
    pub fn origin(&self) -> (p: Point3)
        ensures
            p == self.orig,
    {
        self.orig
    }

    /// Where the ray goes.
    pub fn direction(&self) -> (d: Vec3)
        ensures
            d == self.dir,
    {
        self.dir
    }

    /// Decides [`Self::valid`].
    pub fn is_valid(&self) -> (b: bool)
        ensures
            b == self.valid(),
    {
        self.orig.fits(WORLD_MAX) && self.dir.fits(DIR_MAX)
    }

    /// The point at parameter `t`, if the ray is valid and the point lies in
    /// the world.
    pub fn at(&self, t: i64) -> (p: Option<Point3>)
        ensures
            p is Some <==> self.valid() && self@.at(t as int).within(WORLD_MAX as int),
            p matches Some(q) ==> q@ == self@.at(t as int),
    {
        if !self.is_valid() {
            return None;
        }
        proof {
            lemma_mul_bound(t as int, self.dir.x as int, 0x8000_0000_0000_0000, DIR_MAX as int);
            lemma_mul_bound(t as int, self.dir.y as int, 0x8000_0000_0000_0000, DIR_MAX as int);
            lemma_mul_bound(t as int, self.dir.z as int, 0x8000_0000_0000_0000, DIR_MAX as int);
            lemma_tdiv(t * self.dir.x, ONE as int);
            lemma_tdiv(t * self.dir.y, ONE as int);
            lemma_tdiv(t * self.dir.z, ONE as int);
        }
        let px: i128 = self.orig.x as i128 + div_trunc(mul_wide(t, self.dir.x), ONE as i128);
        let py: i128 = self.orig.y as i128 + div_trunc(mul_wide(t, self.dir.y), ONE as i128);
        let pz: i128 = self.orig.z as i128 + div_trunc(mul_wide(t, self.dir.z), ONE as i128);
        let w: i128 = WORLD_MAX as i128;
        if -w <= px && px <= w && -w <= py && py <= w && -w <= pz && pz <= w {
            Some(Vec3 { x: px as i64, y: py as i64, z: pz as i64 })
        } else {
            None
        }
    }
}

} // verus!
