//! Point lights.
use crate::ray::WORLD_MAX;
use crate::vec3::{Point3, Vec3};
use vstd::prelude::*;

verus! {

/// A light at a point, of one colour and one intensity.
#[derive(Clone, Copy, Debug, PartialEq, Eq, Structural)]
pub struct Light {
    pub position: Point3,
    pub intensity: i64,
    pub color: Vec3,
}

impl Light {
    /// The light at `position`.
    pub fn new(position: Point3, intensity: i64, color: Vec3) -> (l: Light)
        ensures
            l.position == position,
            l.intensity == intensity,
            l.color == color,
    {
        Light { position, intensity, color }
    }

    /// The unit vector from `point` toward the light. There is none if
    /// `point` is where the light is, or if either lies outside the world.
    pub fn direction_to_light(&self, point: &Point3) -> (d: Option<Vec3>)
        ensures
            d is Some <==> self.position@.within(WORLD_MAX as int) && point@.within(
                WORLD_MAX as int,
            ) && self.position@ != point@,
            d matches Some(u) ==> u@ == self.position@.minus(point@).unit() && u@.is_unit(),
    {
        if !self.position.fits(WORLD_MAX) || !point.fits(WORLD_MAX) {
            return None;
        }
        self.position.minus(*point).unit_vector()
    }

    /// The intensity of the light, which does not fall off with distance.
    pub fn get_intensity(&self, _distance: i64) -> (i: i64)
        ensures
            i == self.intensity,
    {
        self.intensity
    }
}

} // verus!
