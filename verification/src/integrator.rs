//! Light transport: the colour that arrives along a ray.
use crate::fixed::{ONE, lemma_tdiv, lemma_times_bound, tdiv, times};
use crate::hittable::Hittable;
use crate::hittable_list::{HittableList, nearest};
use crate::material::is_albedo;
use crate::random::RandomStream;
use crate::ray::{Ray, RayModel};
use crate::vec3::{Color, LIMIT, V3, Vec3, lemma_unit_is_unit, lemma_unit_within};
use vstd::prelude::*;

verus! {

/// The nearest distance at which a ray can hit anything: 0.001. It keeps a
/// scattered ray from hitting the surface it starts on.
pub const SHADOW_EPS: i64 = 1_000;

/// The farthest distance at which a ray can hit anything.
pub const FAR: i64 = 0x7fff_ffff_ffff_ffff;

/// Red, green and blue of the sky overhead: `(0.5, 0.7, 1.0)`.
pub open spec fn zenith() -> V3 {
    V3 { x: 500_000, y: 700_000, z: 1_000_000 }
}

/// One channel of the blend of white and `tone` with the weight `t` on
/// `tone`.
pub open spec fn blend(t: int, tone: int) -> int {
    (ONE - t) + tdiv(t * tone, ONE as int)
}

/// The colour of the background seen along `r`: white at the bottom
/// blended into the zenith colour at the top, by half the height of the
/// unit direction plus a half. A ray without a direction sees black.
pub open spec fn sky(r: RayModel) -> V3 {
    if r.dir == V3::zero() || !r.dir.within(LIMIT as int) {
        V3::zero()
    } else {
        let t = tdiv(r.dir.unit().y + ONE, 2);
        V3 { x: blend(t, zenith().x), y: blend(t, zenith().y), z: blend(t, zenith().z) }
    }
}

/// The colour that arrives along `r` from the scene `world` after at most
/// `depth` bounces, with the random numbers taken from a stream in state
/// `state`; and the state the stream is left in.
///
/// With no bounce left the colour is black. A ray that hits a surface is
/// scattered by its material, and the colour is the colour along the
/// scattered ray, with one bounce fewer, times the attenuation; an absorbed
/// ray is black. A ray that hits nothing sees the sky.
pub open spec fn ray_color_spec(r: RayModel, world: Seq<Hittable>, depth: int, state: u64) -> (
    V3,
    u64,
)
    decreases depth,
{
    if depth <= 0 {
        (V3::zero(), state)
    } else {
        match nearest(world, r, SHADOW_EPS as int, FAR as int) {
            Some(hit) => {
                let (outcome, next) = hit.mat.scatter_spec(r, hit, state);
                match outcome {
                    Some(s) => {
                        let (incoming, last) = ray_color_spec(s.scattered, world, depth - 1, next);
                        (s.attenuation.modulate(incoming), last)
                    },
                    None => (V3::zero(), next),
                }
            },
            None => (sky(r), state),
        }
    }
}

/// Computes [`sky`].
pub fn sky_color(r: &Ray) -> (c: Color)
    ensures
        c@ == sky(r@),
        is_albedo(c@),
{
    if !r.dir.fits(LIMIT) {
        return Vec3 { x: 0, y: 0, z: 0 };
    }
    let unit = match r.dir.unit_vector() {
        Some(u) => u,
        None => {
            return Vec3 { x: 0, y: 0, z: 0 };
        },
    };
    proof {
        lemma_unit_within(unit@);
    }
    let t: i64 = (unit.y + ONE) / 2;
    proof {
        lemma_blend(t as int, 500_000);
        lemma_blend(t as int, 700_000);
        lemma_blend(t as int, 1_000_000);
    }
    Vec3 {
        x: (ONE - t) + times(t, 500_000),
        y: (ONE - t) + times(t, 700_000),
        z: (ONE - t) + times(t, 1_000_000),
    }
}

/// A blend of white and a tone is a reflectance.
proof fn lemma_blend(t: int, tone: int)
    requires
        0 <= t <= ONE,
        0 <= tone <= ONE,
    ensures
        0 <= tdiv(t * tone, ONE as int) <= t,
        0 <= blend(t, tone) <= ONE,
{
    lemma_times_bound(t, tone, t, ONE as int, t);
    lemma_tdiv(t * tone, ONE as int);
    assert(t * tone >= 0) by (nonlinear_arith)
        requires
            t >= 0,
            tone >= 0,
    ;
}

/// Attenuating a reflectance by a reflectance gives a reflectance.
pub proof fn lemma_modulate(a: V3, b: V3)
    requires
        is_albedo(a),
        is_albedo(b),
    ensures
        is_albedo(a.modulate(b)),
{
    lemma_blend(a.x, b.x);
    lemma_blend(a.y, b.y);
    lemma_blend(a.z, b.z);
}

/// The colour along a ray is a reflectance: every channel lies between
/// black and full intensity.
pub proof fn lemma_ray_color_bounded(r: RayModel, world: Seq<Hittable>, depth: int, state: u64)
    ensures
        is_albedo(ray_color_spec(r, world, depth, state).0),
    decreases depth,
{
    if depth > 0 {
        match nearest(world, r, SHADOW_EPS as int, FAR as int) {
            Some(hit) => {
                let (outcome, next) = hit.mat.scatter_spec(r, hit, state);
                match outcome {
                    Some(s) => {
                        lemma_ray_color_bounded(s.scattered, world, depth - 1, next);
                        lemma_modulate(
                            s.attenuation,
                            ray_color_spec(s.scattered, world, depth - 1, next).0,
                        );
                    },
                    None => {},
                }
            },
            None => {
                if !(r.dir == V3::zero() || !r.dir.within(LIMIT as int)) {
                    lemma_unit_is_unit(r.dir);
                    let t = tdiv(r.dir.unit().y + ONE, 2);
                    lemma_blend(t, 500_000);
                    lemma_blend(t, 700_000);
                    lemma_blend(t, 1_000_000);
                }
            },
        }
    }
}

/// With a single bounce allowed, a ray that hits anything comes back
/// black: whatever the surface does, no bounce is left to reach a light.
pub proof fn lemma_single_bounce_is_black(r: RayModel, world: Seq<Hittable>, state: u64)
    requires
        nearest(world, r, SHADOW_EPS as int, FAR as int) is Some,
    ensures
        ray_color_spec(r, world, 1, state).0 == V3::zero(),
{
    let hit = nearest(world, r, SHADOW_EPS as int, FAR as int).unwrap();
    let (outcome, next) = hit.mat.scatter_spec(r, hit, state);
    match outcome {
        Some(s) => {
            assert(ray_color_spec(s.scattered, world, 0, next).0 == V3::zero());
            assert(s.attenuation.x * 0 == 0 && s.attenuation.y * 0 == 0 && s.attenuation.z * 0
                == 0) by (nonlinear_arith);
        },
        None => {},
    }
}

/// The colour that arrives along `r` after at most `depth` bounces.
pub fn ray_color(r: &Ray, world: &HittableList, depth: i32, rng: &mut RandomStream) -> (c: Color)
    ensures
        (c@, final(rng).state) == ray_color_spec(
            r@,
            world.objects@,
            depth as int,
            old(rng).state,
        ),
        is_albedo(c@),
    decreases depth,
{
    if depth <= 0 {
        return Vec3 { x: 0, y: 0, z: 0 };
    }
    match world.hit(r, SHADOW_EPS, FAR) {
        Some(rec) => match rec.mat.scatter(r, &rec, rng) {
            Some(s) => {
                let incoming = ray_color(&s.scattered, world, depth - 1, rng);
                proof {
                    lemma_modulate(s.attenuation@, incoming@);
                }
                s.attenuation.modulate(incoming)
            },
            None => Vec3 { x: 0, y: 0, z: 0 },
        },
        None => sky_color(r),
    }
}

} // verus!
