//! A thin-lens camera: from a place on the screen to a ray.
use crate::fixed::{
    ONE, div_trunc, lemma_mul_bound, lemma_quotient_bound, lemma_tdiv, lemma_times_bound, mul_wide,
    tdiv, times,
};
use crate::random::{MAX_TRIES, RandomStream, disk_sample};
use crate::ray::{DIR_MAX, Ray, RayModel, WORLD_MAX};
use crate::vec3::{Point3, V3, Vec3, lemma_unit_is_unit, lemma_unit_within};
use vstd::prelude::*;

verus! {

/// A camera, fixed once it is made.
pub struct Camera {
    origin: Point3,
    corner: Point3,
    horizontal: Vec3,
    vertical: Vec3,
    u: Vec3,
    v: Vec3,
    lens_radius: i64,
}

/// The model of a [`Camera`].
pub struct CameraModel {
    /// Where the camera stands.
    pub origin: V3,
    /// The lower left corner of the screen, in the plane of focus.
    pub corner: V3,
    /// From the left edge of the screen to the right one.
    pub horizontal: V3,
    /// From the bottom edge of the screen to the top one.
    pub vertical: V3,
    /// Unit vector to the right, in the plane of the lens.
    pub u: V3,
    /// Unit vector upward, in the plane of the lens.
    pub v: V3,
    /// Half the aperture.
    pub lens_radius: int,
}

/// Half of a number, rounded toward zero.
pub open spec fn half(x: int) -> int {
    tdiv(x, 2)
}

impl CameraModel {
    /// The sizes that the camera works within.
    pub open spec fn bounded(self) -> bool {
        &&& self.origin.within(WORLD_MAX as int)
        &&& self.corner.within(0x100_0000_0000)
        &&& self.horizontal.within(0x100_0000_0000)
        &&& self.vertical.within(0x100_0000_0000)
        &&& self.u.within(ONE as int)
        &&& self.v.within(ONE as int)
        &&& 0 <= self.lens_radius <= DIR_MAX
    }

    /// The ray through the place `(s, t)` of the screen, with `s` from 0 at
    /// the left to `ONE` at the right and `t` from 0 at the bottom to `ONE`
    /// at the top. It starts on the lens, off the centre by `lens_radius`
    /// times the point `lens` of the unit disk, and aims at the point of
    /// the plane of focus that `(s, t)` stands for.
    pub open spec fn ray(self, s: int, t: int, lens: V3) -> RayModel {
        let rd = lens.scale(self.lens_radius);
        let offset = self.u.scale(rd.x).plus(self.v.scale(rd.y));
        RayModel {
            orig: self.origin.plus(offset),
            dir: self.corner.plus(self.horizontal.scale(s)).plus(self.vertical.scale(t)).minus(
                self.origin,
            ).minus(offset),
        }
    }
}

/// Whether a camera can be made from these settings: both places lie in
/// the world, the up vector and the four numbers are of moderate size, and
/// the numbers have the sign they must have.
pub open spec fn admissible(
    lookfrom: V3,
    lookat: V3,
    vup: V3,
    tan_half_fov: int,
    aspect_ratio: int,
    aperture: int,
    focus_dist: int,
) -> bool {
    &&& lookfrom.within(WORLD_MAX as int)
    &&& lookat.within(WORLD_MAX as int)
    &&& vup.within(DIR_MAX as int)
    &&& 0 < tan_half_fov <= DIR_MAX
    &&& 0 < aspect_ratio <= DIR_MAX
    &&& 0 <= aperture <= DIR_MAX
    &&& 0 < focus_dist <= DIR_MAX
}

/// The direction from which the camera looks, as a unit vector: from the
/// target back to the camera.
pub open spec fn backward(lookfrom: V3, lookat: V3) -> V3 {
    lookfrom.minus(lookat).unit()
}

/// Whether the three vectors give a frame: the view direction is not
/// zero, and the up vector is not along it.
pub open spec fn framed(lookfrom: V3, lookat: V3, vup: V3) -> bool {
    let w = backward(lookfrom, lookat);
    &&& lookfrom != lookat
    &&& vup.cross(w) != V3::zero()
    &&& w.cross(vup.cross(w).unit()) != V3::zero()
}

/// The camera that the settings describe. The frame `(u, v, w)` is
/// orthonormal up to rounding, with `w` backward, `u` to the right and `v`
/// upward. The screen is `2 * tan_half_fov * focus_dist` high and
/// `aspect_ratio` times as wide, and lies `focus_dist` in front of the
/// camera, centred on the line of sight.
pub open spec fn camera_spec(
    lookfrom: V3,
    lookat: V3,
    vup: V3,
    tan_half_fov: int,
    aspect_ratio: int,
    aperture: int,
    focus_dist: int,
) -> CameraModel {
    let w = backward(lookfrom, lookat);
    let u = vup.cross(w).unit();
    let v = w.cross(u).unit();
    let height = tdiv(2 * tan_half_fov * focus_dist, ONE as int);
    let width = tdiv(height * aspect_ratio, ONE as int);
    let horizontal = u.scale(width);
    let vertical = v.scale(height);
    let ahead = w.scale(focus_dist);
    CameraModel {
        origin: lookfrom,
        corner: V3 {
            x: lookfrom.x - half(horizontal.x) - half(vertical.x) - ahead.x,
            y: lookfrom.y - half(horizontal.y) - half(vertical.y) - ahead.y,
            z: lookfrom.z - half(horizontal.z) - half(vertical.z) - ahead.z,
        },
        horizontal,
        vertical,
        u,
        v,
        lens_radius: half(aperture),
    }
}

impl View for Camera {
    type V = CameraModel;

    closed spec fn view(&self) -> CameraModel {
        CameraModel {
            origin: self.origin@,
            corner: self.corner@,
            horizontal: self.horizontal@,
            vertical: self.vertical@,
            u: self.u@,
            v: self.v@,
            lens_radius: self.lens_radius as int,
        }
    }
}

impl Camera {
    #[verifier::type_invariant]
    spec fn well_formed(self) -> bool {
        self@.bounded()
    }

    /// Makes the camera that stands at `lookfrom` and looks at `lookat`,
    /// with `vup` upward on the screen. `tan_half_fov` is the tangent of
    /// half the vertical field of view. There is no camera if the settings
    /// are out of range or give no frame.
    pub fn new(
        lookfrom: Point3,
        lookat: Point3,
        vup: Vec3,
        tan_half_fov: i64,
        aspect_ratio: i64,
        aperture: i64,
        focus_dist: i64,
    ) -> (res: Option<Camera>)
        ensures
            res is Some <==> admissible(
                lookfrom@,
                lookat@,
                vup@,
                tan_half_fov as int,
                aspect_ratio as int,
                aperture as int,
                focus_dist as int,
            ) && framed(lookfrom@, lookat@, vup@),
            res matches Some(cam) ==> cam@ == camera_spec(
                lookfrom@,
                lookat@,
                vup@,
                tan_half_fov as int,
                aspect_ratio as int,
                aperture as int,
                focus_dist as int,
            ) && cam@.bounded(),
    {
        if !(lookfrom.fits(WORLD_MAX) && lookat.fits(WORLD_MAX) && vup.fits(DIR_MAX) && 0
            < tan_half_fov && tan_half_fov <= DIR_MAX && 0 < aspect_ratio && aspect_ratio
            <= DIR_MAX && 0 <= aperture && aperture <= DIR_MAX && 0 < focus_dist && focus_dist
            <= DIR_MAX) {
            return None;
        }
        let w = match lookfrom.minus(lookat).unit_vector() {
            Some(w) => w,
            None => {
                return None;
            },
        };
        proof {
            lemma_unit_within(w@);
            lemma_cross_small(vup@, w@, DIR_MAX as int, ONE as int, 2 * DIR_MAX);
        }
        let u = match vup.cross(w).unit_vector() {
            Some(u) => u,
            None => {
                return None;
            },
        };
        proof {
            lemma_unit_within(u@);
            lemma_cross_small(w@, u@, ONE as int, ONE as int, 2 * ONE);
        }
        let v = match w.cross(u).unit_vector() {
            Some(v) => v,
            None => {
                return None;
            },
        };
        proof {
            lemma_unit_within(v@);
            lemma_mul_bound(2 * tan_half_fov, focus_dist as int, 2 * DIR_MAX, DIR_MAX as int);
            lemma_times_bound(
                2 * tan_half_fov,
                focus_dist as int,
                2 * DIR_MAX,
                DIR_MAX as int,
                8_192_000_000,
            );
            lemma_tdiv(2 * tan_half_fov * focus_dist, ONE as int);
        }
        let height: i64 = div_trunc(mul_wide(2 * tan_half_fov, focus_dist), ONE as i128) as i64;
        proof {
            lemma_times_bound(
                height as int,
                aspect_ratio as int,
                8_192_000_000,
                DIR_MAX as int,
                524_288_000_000,
            );
        }
        let width: i64 = times(height, aspect_ratio);
        let horizontal = u.scale(width);
        let vertical = v.scale(height);
        let ahead = w.scale(focus_dist);
        proof {
            lemma_times_bound(width as int, u.x as int, 524_288_000_000, ONE as int, 524_288_000_000);
            lemma_times_bound(width as int, u.y as int, 524_288_000_000, ONE as int, 524_288_000_000);
            lemma_times_bound(width as int, u.z as int, 524_288_000_000, ONE as int, 524_288_000_000);
            lemma_times_bound(height as int, v.x as int, 8_192_000_000, ONE as int, 8_192_000_000);
            lemma_times_bound(height as int, v.y as int, 8_192_000_000, ONE as int, 8_192_000_000);
            lemma_times_bound(height as int, v.z as int, 8_192_000_000, ONE as int, 8_192_000_000);
            lemma_times_bound(focus_dist as int, w.x as int, DIR_MAX as int, ONE as int, DIR_MAX as int);
            lemma_times_bound(focus_dist as int, w.y as int, DIR_MAX as int, ONE as int, DIR_MAX as int);
            lemma_times_bound(focus_dist as int, w.z as int, DIR_MAX as int, ONE as int, DIR_MAX as int);
        }
        let corner = Vec3 {
            x: lookfrom.x - horizontal.x / 2 - vertical.x / 2 - ahead.x,
            y: lookfrom.y - horizontal.y / 2 - vertical.y / 2 - ahead.y,
            z: lookfrom.z - horizontal.z / 2 - vertical.z / 2 - ahead.z,
        };
        Some(
            Camera { origin: lookfrom, corner, horizontal, vertical, u, v, lens_radius: aperture / 2 },
        )
    }

    /// The ray through the place `(s, t)` of the screen that starts at the
    /// point of the lens given by `lens`, a point of the unit disk. There
    /// is none if `lens` is no such point or the ray is not valid.
    pub fn ray_through(&self, s: i64, t: i64, lens: Vec3) -> (res: Option<Ray>)
        ensures
            res is Some <==> lens@.within(ONE as int) && self@.ray(s as int, t as int, lens@).valid(),
            res matches Some(r) ==> r@ == self@.ray(s as int, t as int, lens@),
    {
        proof {
            use_type_invariant(self);
        }
        if !lens.fits(ONE) {
            return None;
        }
        proof {
            let radius = self.lens_radius as int;
            lemma_times_bound(radius, lens.x as int, DIR_MAX as int, ONE as int, DIR_MAX as int);
            lemma_times_bound(radius, lens.y as int, DIR_MAX as int, ONE as int, DIR_MAX as int);
            lemma_times_bound(radius, lens.z as int, DIR_MAX as int, ONE as int, DIR_MAX as int);
        }
        let rd = lens.scale(self.lens_radius);
        proof {
            lemma_times_bound(rd.x as int, self.u.x as int, DIR_MAX as int, ONE as int, DIR_MAX as int);
            lemma_times_bound(rd.x as int, self.u.y as int, DIR_MAX as int, ONE as int, DIR_MAX as int);
            lemma_times_bound(rd.x as int, self.u.z as int, DIR_MAX as int, ONE as int, DIR_MAX as int);
            lemma_times_bound(rd.y as int, self.v.x as int, DIR_MAX as int, ONE as int, DIR_MAX as int);
            lemma_times_bound(rd.y as int, self.v.y as int, DIR_MAX as int, ONE as int, DIR_MAX as int);
            lemma_times_bound(rd.y as int, self.v.z as int, DIR_MAX as int, ONE as int, DIR_MAX as int);
        }
        let offset = self.u.scale(rd.x).plus(self.v.scale(rd.y));
        let orig = self.origin.plus(offset);
        let dx = Self::aim(self.corner.x, self.horizontal.x, self.vertical.x, s, t, orig.x);
        let dy = Self::aim(self.corner.y, self.horizontal.y, self.vertical.y, s, t, orig.y);
        let dz = Self::aim(self.corner.z, self.horizontal.z, self.vertical.z, s, t, orig.z);
        let reach: i128 = DIR_MAX as i128;
        if orig.fits(WORLD_MAX) && -reach <= dx && dx <= reach && -reach <= dy && dy <= reach
            && -reach <= dz && dz <= reach {
            Some(Ray { orig, dir: Vec3 { x: dx as i64, y: dy as i64, z: dz as i64 } })
        } else {
            None
        }
    }

    /// One coordinate of the direction from `from` to the place `(s, t)` of
    /// the screen.
    fn aim(corner: i64, horizontal: i64, vertical: i64, s: i64, t: i64, from: i64) -> (d: i128)
        requires
            -0x100_0000_0000 <= corner <= 0x100_0000_0000,
            -0x100_0000_0000 <= horizontal <= 0x100_0000_0000,
            -0x100_0000_0000 <= vertical <= 0x100_0000_0000,
            -0x100_0000_0000 <= from <= 0x100_0000_0000,
        ensures
            d == corner + tdiv(s * horizontal, ONE as int) + tdiv(t * vertical, ONE as int) - from,
    {
        proof {
            lemma_mul_bound(s as int, horizontal as int, 0x8000_0000_0000_0000, 0x100_0000_0000);
            lemma_mul_bound(t as int, vertical as int, 0x8000_0000_0000_0000, 0x100_0000_0000);
            lemma_tdiv(s * horizontal, ONE as int);
            lemma_tdiv(t * vertical, ONE as int);
        }
        corner as i128 + div_trunc(mul_wide(s, horizontal), ONE as i128) + div_trunc(
            mul_wide(t, vertical),
            ONE as i128,
        ) - from as i128
    }

    /// The ray through the place `(s, t)` of the screen from a random point
    /// of the lens.
    pub fn get_ray(&self, s: i64, t: i64, rng: &mut RandomStream) -> (res: Option<Ray>)
        ensures
            final(rng).state == disk_sample(old(rng).state, MAX_TRIES as nat).1,
            res is Some <==> self@.ray(
                s as int,
                t as int,
                disk_sample(old(rng).state, MAX_TRIES as nat).0,
            ).valid(),
            res matches Some(r) ==> r@ == self@.ray(
                s as int,
                t as int,
                disk_sample(old(rng).state, MAX_TRIES as nat).0,
            ),
    {
        let lens = rng.in_unit_disk();
        self.ray_through(s, t, lens)
    }
}

/// The fixed-point cross product of two vectors is bounded by twice the
/// product of their bounds.
proof fn lemma_cross_small(a: V3, b: V3, ba: int, bb: int, bound: int)
    requires
        a.within(ba),
        b.within(bb),
        2 * (ba * bb) <= bound * ONE,
        bound >= 0,
    ensures
        a.cross(b).within(bound),
{
    lemma_cross_part(a.y, b.z, a.z, b.y, ba, bb, bound);
    lemma_cross_part(a.z, b.x, a.x, b.z, ba, bb, bound);
    lemma_cross_part(a.x, b.y, a.y, b.x, ba, bb, bound);
}

proof fn lemma_cross_part(p: int, q: int, s: int, t: int, ba: int, bb: int, bound: int)
    requires
        -ba <= p <= ba,
        -bb <= q <= bb,
        -ba <= s <= ba,
        -bb <= t <= bb,
        2 * (ba * bb) <= bound * ONE,
    ensures
        -bound <= tdiv(p * q - s * t, ONE as int) <= bound,
{
    lemma_mul_bound(p, q, ba, bb);
    lemma_mul_bound(s, t, ba, bb);
    lemma_tdiv(p * q - s * t, ONE as int);
    lemma_quotient_bound(
        p * q - s * t,
        ONE as int,
        tdiv(p * q - s * t, ONE as int),
        bound,
    );
}

/// The three vectors of the frame of a camera have unit length.
pub proof fn lemma_frame_is_unit(
    lookfrom: V3,
    lookat: V3,
    vup: V3,
    tan_half_fov: int,
    aspect_ratio: int,
    aperture: int,
    focus_dist: int,
)
    requires
        framed(lookfrom, lookat, vup),
    ensures
        backward(lookfrom, lookat).is_unit(),
        camera_spec(
            lookfrom,
            lookat,
            vup,
            tan_half_fov,
            aspect_ratio,
            aperture,
            focus_dist,
        ).u.is_unit(),
        camera_spec(
            lookfrom,
            lookat,
            vup,
            tan_half_fov,
            aspect_ratio,
            aperture,
            focus_dist,
        ).v.is_unit(),
{
    let w = backward(lookfrom, lookat);
    lemma_unit_is_unit(lookfrom.minus(lookat));
    lemma_unit_is_unit(vup.cross(w));
    lemma_unit_is_unit(w.cross(vup.cross(w).unit()));
}

} // verus!
