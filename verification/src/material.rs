//! Surface materials and how they scatter light.
use crate::fixed::{
    ONE, abs, clamp, div_trunc, isqrt, lemma_isqrt, lemma_mul_bound, lemma_quotient_bound,
    lemma_tdiv, lemma_times_bound, mul_wide, sqrt_floor, tdiv, times,
};
use crate::hittable::{HitModel, HitRecord};
use crate::random::{MAX_TRIES, RandomStream, ball_sample, direction_sample, fraction, step};
use crate::ray::{DIR_MAX, Ray, RayModel, WORLD_MAX};
use crate::vec3::{
    Color, V3, Vec3, lemma_dot_bound, lemma_norm2, lemma_unit_is_unit, lemma_unit_within,
};
use vstd::prelude::*;

verus! {

/// Smallest refraction index of a usable dielectric: 0.125.
pub const IR_MIN: i64 = 125_000;

/// Largest refraction index of a usable dielectric: 8.0.
pub const IR_MAX: i64 = 8_000_000;

/// A matte surface that scatters light in all directions.
#[derive(Clone, Copy, Debug, PartialEq, Eq, Structural)]
pub struct Lambertian {
    pub albedo: Color,
}

/// A mirror-like surface, blurred by `fuzz`.
#[derive(Clone, Copy, Debug, PartialEq, Eq, Structural)]
pub struct Metal {
    pub albedo: Color,
    pub fuzz: i64,
}

/// A clear surface that both reflects and refracts.
#[derive(Clone, Copy, Debug, PartialEq, Eq, Structural)]
pub struct Dielectric {
    pub ir: i64,
}

/// The closed set of materials.
#[derive(Clone, Copy, Debug, PartialEq, Eq, Structural)]
pub enum Material {
    Lambertian(Lambertian),
    Metal(Metal),
    Dielectric(Dielectric),
}

/// What a surface does to a ray that is not absorbed: the ray goes on as
/// `scattered`, and the light it carries is multiplied by `attenuation`.
#[derive(Clone, Copy, Debug, PartialEq, Eq, Structural)]
pub struct Scatter {
    pub attenuation: Color,
    pub scattered: Ray,
}

/// The model of a [`Scatter`].
pub struct ScatterModel {
    pub attenuation: V3,
    pub scattered: RayModel,
}

impl View for Scatter {
    type V = ScatterModel;

    open spec fn view(&self) -> ScatterModel {
        ScatterModel { attenuation: self.attenuation@, scattered: self.scattered@ }
    }
}

/// The model of the outcome of scattering.
pub open spec fn scatter_view(res: Option<Scatter>) -> Option<ScatterModel> {
    match res {
        Some(s) => Some(s@),
        None => None,
    }
}

/// A colour is a reflectance: each channel lies between nothing and all.
pub open spec fn is_albedo(c: V3) -> bool {
    &&& 0 <= c.x <= ONE
    &&& 0 <= c.y <= ONE
    &&& 0 <= c.z <= ONE
}

/// The ray and the record can be worked with: the ray is valid, the point
/// lies in the world and the normal is of moderate size.
pub open spec fn usable(r_in: RayModel, rec: HitModel) -> bool {
    &&& r_in.valid()
    &&& rec.p.within(WORLD_MAX as int)
    &&& rec.normal.within(DIR_MAX as int)
}

/// The mirror image of `v` at the surface with normal `n`:
/// `v - 2 (v . n) n`, rounded once.
pub open spec fn reflect_spec(v: V3, n: V3) -> V3 {
    let k = 2 * v.dot(n);
    V3 {
        x: v.x - tdiv(k * n.x, ONE * ONE),
        y: v.y - tdiv(k * n.y, ONE * ONE),
        z: v.z - tdiv(k * n.z, ONE * ONE),
    }
}

/// The cosine of the angle between the reversed unit direction `u` and the
/// normal `n`, held within the range of a cosine.
pub open spec fn cos_theta(u: V3, n: V3) -> int {
    clamp(tdiv(-u.dot(n), ONE as int), -ONE, ONE as int)
}

/// The sine that belongs to the cosine `c`.
pub open spec fn sin_theta(c: int) -> int {
    isqrt(ONE * ONE - c * c)
}

/// The direction of `u` after it passes the surface with normal `n` into a
/// medium with `ratio` as the quotient of the refraction indices (Snell's
/// law): the part across the normal is scaled by `ratio`, the part along
/// it makes up the unit length.
pub open spec fn refract_spec(u: V3, n: V3, ratio: int) -> V3 {
    let c = cos_theta(u, n);
    let perp = V3 {
        x: tdiv(ratio * (u.x + tdiv(c * n.x, ONE as int)), ONE as int),
        y: tdiv(ratio * (u.y + tdiv(c * n.y, ONE as int)), ONE as int),
        z: tdiv(ratio * (u.z + tdiv(c * n.z, ONE as int)), ONE as int),
    };
    let k = isqrt(abs(ONE * ONE - perp.norm2()));
    V3 {
        x: perp.x - tdiv(k * n.x, ONE as int),
        y: perp.y - tdiv(k * n.y, ONE as int),
        z: perp.z - tdiv(k * n.z, ONE as int),
    }
}

/// Schlick's approximation of the share of light that a clear surface
/// reflects: `r0 + (1 - r0) (1 - cos)^5` with
/// `r0 = ((1 - ratio) / (1 + ratio))^2`, every product rounded toward zero.
pub open spec fn reflectance_spec(cosine: int, ratio: int) -> int {
    let q = tdiv((ONE - ratio) * ONE, ONE + ratio);
    let r0 = tdiv(q * q, ONE as int);
    let x = ONE - cosine;
    let x2 = tdiv(x * x, ONE as int);
    let x4 = tdiv(x2 * x2, ONE as int);
    let x5 = tdiv(x4 * x, ONE as int);
    r0 + tdiv((ONE - r0) * x5, ONE as int)
}

/// Computes [`reflect_spec`].
pub fn reflect(v: Vec3, n: Vec3) -> (r: Vec3)
    requires
        v@.within(DIR_MAX as int),
        n@.within(DIR_MAX as int),
    ensures
        r@ == reflect_spec(v@, n@),
        r@.within(0x200_0000_0000),
{
    proof {
        lemma_dot_bound(v@, n@, DIR_MAX as int, DIR_MAX as int);
    }
    let k: i128 = 2 * v.dot(n);
    let unit2: i128 = (ONE as i128) * (ONE as i128);
    proof {
        let d = DIR_MAX as int;
        lemma_mul_bound(k as int, n.x as int, 6 * (d * d), d);
        lemma_mul_bound(k as int, n.y as int, 6 * (d * d), d);
        lemma_mul_bound(k as int, n.z as int, 6 * (d * d), d);
        lemma_tdiv(k * n.x, ONE * ONE);
        lemma_tdiv(k * n.y, ONE * ONE);
        lemma_tdiv(k * n.z, ONE * ONE);
        lemma_quotient_bound(k * n.x, ONE * ONE, tdiv(k * n.x, ONE * ONE), 2_000_000_000_000);
        lemma_quotient_bound(k * n.y, ONE * ONE, tdiv(k * n.y, ONE * ONE), 2_000_000_000_000);
        lemma_quotient_bound(k * n.z, ONE * ONE, tdiv(k * n.z, ONE * ONE), 2_000_000_000_000);
    }
    Vec3 {
        x: (v.x as i128 - div_trunc(k * (n.x as i128), unit2)) as i64,
        y: (v.y as i128 - div_trunc(k * (n.y as i128), unit2)) as i64,
        z: (v.z as i128 - div_trunc(k * (n.z as i128), unit2)) as i64,
    }
}

/// Computes [`cos_theta`].
pub fn cosine(u: Vec3, n: Vec3) -> (c: i64)
    requires
        u@.within(ONE as int),
        n@.within(DIR_MAX as int),
    ensures
        c == cos_theta(u@, n@),
        -ONE <= c <= ONE,
{
    let d: i128 = u.dot(n);
    proof {
        lemma_dot_bound(u@, n@, ONE as int, DIR_MAX as int);
        lemma_tdiv(-d, ONE as int);
    }
    let c: i128 = div_trunc(-d, ONE as i128);
    if c < -(ONE as i128) {
        -ONE
    } else if c > ONE as i128 {
        ONE
    } else {
        c as i64
    }
}

/// Computes [`sin_theta`].
pub fn sine(c: i64) -> (s: i64)
    requires
        -ONE <= c <= ONE,
    ensures
        s == sin_theta(c as int),
        0 <= s <= ONE,
{
    proof {
        lemma_mul_bound(c as int, c as int, ONE as int, ONE as int);
        assert(c * c >= 0) by (nonlinear_arith);
    }
    let rest: i128 = (ONE as i128) * (ONE as i128) - mul_wide(c, c);
    let s: u128 = sqrt_floor(rest as u128);
    assert(s <= 1_000_000) by (nonlinear_arith)
        requires
            s * s <= rest,
            rest <= 1_000_000 * 1_000_000,
    ;
    s as i64
}

/// Computes [`refract_spec`].
pub fn refract(u: Vec3, n: Vec3, ratio: i64) -> (r: Vec3)
    requires
        u@.within(ONE as int),
        n@.within(DIR_MAX as int),
        0 <= ratio <= IR_MAX,
    ensures
        r@ == refract_spec(u@, n@, ratio as int),
        r@.within(0x100_0000_0000),
{
    let c = cosine(u, n);
    proof {
        let d = DIR_MAX as int;
        lemma_times_bound(c as int, n.x as int, ONE as int, d, d);
        lemma_times_bound(c as int, n.y as int, ONE as int, d, d);
        lemma_times_bound(c as int, n.z as int, ONE as int, d, d);
    }
    let sx: i64 = u.x + times(c, n.x);
    let sy: i64 = u.y + times(c, n.y);
    let sz: i64 = u.z + times(c, n.z);
    proof {
        lemma_times_bound(ratio as int, sx as int, IR_MAX as int, 65_000_000, 520_000_000);
        lemma_times_bound(ratio as int, sy as int, IR_MAX as int, 65_000_000, 520_000_000);
        lemma_times_bound(ratio as int, sz as int, IR_MAX as int, 65_000_000, 520_000_000);
    }
    let perp = Vec3 { x: times(ratio, sx), y: times(ratio, sy), z: times(ratio, sz) };
    proof {
        lemma_dot_bound(perp@, perp@, 520_000_000, 520_000_000);
        lemma_norm2(perp@);
    }
    let rest: i128 = (ONE as i128) * (ONE as i128) - perp.length_squared();
    let gap: u128 = if rest < 0 {
        (-rest) as u128
    } else {
        rest as u128
    };
    let k: u128 = sqrt_floor(gap);
    assert(k <= 1_000_000_000) by (nonlinear_arith)
        requires
            k * k <= gap,
            gap <= 3 * (520_000_000 * 520_000_000) + 1_000_000 * 1_000_000,
    ;
    let k: i64 = k as i64;
    proof {
        let d = DIR_MAX as int;
        lemma_times_bound(k as int, n.x as int, 1_000_000_000, d, 64_000_000_000);
        lemma_times_bound(k as int, n.y as int, 1_000_000_000, d, 64_000_000_000);
        lemma_times_bound(k as int, n.z as int, 1_000_000_000, d, 64_000_000_000);
    }
    Vec3 {
        x: perp.x - times(k, n.x),
        y: perp.y - times(k, n.y),
        z: perp.z - times(k, n.z),
    }
}

/// Computes [`reflectance_spec`].
pub fn reflectance(cosine: i64, ratio: i64) -> (r: i64)
    requires
        -ONE <= cosine <= ONE,
        0 < ratio <= IR_MAX,
    ensures
        r == reflectance_spec(cosine as int, ratio as int),
        0 <= r <= 33 * ONE,
{
    proof {
        lemma_mul_bound(ONE - ratio, ONE as int, IR_MAX as int, ONE as int);
    }
    let num: i128 = ((ONE - ratio) as i128) * (ONE as i128);
    let den: i128 = (ONE + ratio) as i128;
    proof {
        assert(abs(num as int) <= ONE * abs(den as int)) by (nonlinear_arith)
            requires
                num == (ONE - ratio) * ONE,
                den == ONE + ratio,
                ratio > 0,
                ONE == 1_000_000,
        ;
        lemma_tdiv(num as int, den as int);
        lemma_quotient_bound(num as int, den as int, tdiv(num as int, den as int), ONE as int);
    }
    let q: i64 = div_trunc(num, den) as i64;
    proof {
        lemma_times_bound(q as int, q as int, ONE as int, ONE as int, ONE as int);
        lemma_tdiv(q * q, ONE as int);
        assert(q * q >= 0) by (nonlinear_arith);
    }
    let r0: i64 = times(q, q);
    let x: i64 = ONE - cosine;
    proof {
        lemma_times_bound(x as int, x as int, 2 * ONE, 2 * ONE, 4 * ONE);
        lemma_tdiv(x * x, ONE as int);
        assert(x * x >= 0) by (nonlinear_arith);
    }
    let x2: i64 = times(x, x);
    proof {
        lemma_times_bound(x2 as int, x2 as int, 4 * ONE, 4 * ONE, 16 * ONE);
        lemma_tdiv(x2 * x2, ONE as int);
        assert(x2 * x2 >= 0) by (nonlinear_arith);
    }
    let x4: i64 = times(x2, x2);
    proof {
        lemma_times_bound(x4 as int, x as int, 16 * ONE, 2 * ONE, 32 * ONE);
        lemma_tdiv(x4 * x, ONE as int);
        assert(x4 * x >= 0) by (nonlinear_arith)
            requires
                x4 >= 0,
                x >= 0,
        ;
    }
    let x5: i64 = times(x4, x);
    proof {
        lemma_times_bound(ONE - r0, x5 as int, ONE as int, 32 * ONE, 32 * ONE);
        lemma_tdiv((ONE - r0) * x5, ONE as int);
        assert((ONE - r0) * x5 >= 0) by (nonlinear_arith)
            requires
                ONE - r0 >= 0,
                x5 >= 0,
        ;
    }
    r0 + times(ONE - r0, x5)
}

impl Lambertian {
    /// A matte material of the given albedo.
    pub fn new(albedo: Color) -> (m: Lambertian)
        ensures
            m.albedo == albedo,
    {
        Lambertian { albedo }
    }

    /// The albedo is a reflectance.
    pub open spec fn valid(&self) -> bool {
        is_albedo(self.albedo@)
    }

    /// Diffuse scattering: the ray goes on from the hit point along the
    /// normal plus the random direction `unit`, or along the normal alone
    /// if the two cancel. Light is attenuated by the albedo. Nothing is
    /// ever absorbed.
    pub open spec fn scatter_spec(&self, r_in: RayModel, rec: HitModel, unit: V3) -> Option<
        ScatterModel,
    > {
        if !self.valid() || !usable(r_in, rec) || !unit.within(ONE as int) {
            None
        } else {
            let sum = rec.normal.plus(unit);
            Some(
                ScatterModel {
                    attenuation: self.albedo@,
                    scattered: RayModel {
                        orig: rec.p,
                        dir: if sum == V3::zero() {
                            rec.normal
                        } else {
                            sum
                        },
                    },
                },
            )
        }
    }

    /// Decides [`Self::valid`].
    pub fn is_valid(&self) -> (b: bool)
        ensures
            b == self.valid(),
    {
        albedo_ok(&self.albedo)
    }

    /// Scatters `r_in` at `rec`, with `unit` as the random direction.
    pub fn scatter(&self, r_in: &Ray, rec: &HitRecord, unit: Vec3) -> (res: Option<Scatter>)
        ensures
            scatter_view(res) == self.scatter_spec(r_in@, rec@, unit@),
            res is Some <==> self.valid() && usable(r_in@, rec@) && unit@.within(ONE as int),
    {
        if !self.is_valid() || !record_ok(r_in, rec) || !unit.fits(ONE) {
            return None;
        }
        let sum = rec.normal.plus(unit);
        let direction = if sum.is_zero() {
            rec.normal
        } else {
            sum
        };
        Some(Scatter { attenuation: self.albedo, scattered: Ray::new(rec.p, direction) })
    }
}

/// Decides [`is_albedo`].
pub fn albedo_ok(c: &Color) -> (b: bool)
    ensures
        b == is_albedo(c@),
{
    0 <= c.x && c.x <= ONE && 0 <= c.y && c.y <= ONE && 0 <= c.z && c.z <= ONE
}

/// Decides [`usable`].
pub fn record_ok(r_in: &Ray, rec: &HitRecord) -> (b: bool)
    ensures
        b == usable(r_in@, rec@),
{
    r_in.is_valid() && rec.p.fits(WORLD_MAX) && rec.normal.fits(DIR_MAX)
}

impl Metal {
    /// A metal with the given albedo; `fuzz` is held between 0 and 1.
    pub fn new(albedo: Color, fuzz: i64) -> (m: Metal)
        ensures
            m.albedo == albedo,
            m.fuzz == clamp(fuzz as int, 0, ONE as int),
    {
        Metal {
            albedo,
            fuzz: if fuzz < 0 {
                0
            } else if fuzz > ONE {
                ONE
            } else {
                fuzz
            },
        }
    }

    /// The albedo is a reflectance and the fuzz lies between 0 and 1.
    pub open spec fn valid(&self) -> bool {
        &&& is_albedo(self.albedo@)
        &&& 0 <= self.fuzz <= ONE
    }

    /// The direction in which the ray goes on: its unit direction mirrored
    /// at the surface, plus `fuzz` times the random point `offset` of the
    /// unit ball.
    pub open spec fn direction(&self, r_in: RayModel, rec: HitModel, offset: V3) -> V3 {
        reflect_spec(r_in.dir.unit(), rec.normal).plus(offset.scale(self.fuzz as int))
    }

    /// Mirror-like scattering: the ray goes on from the hit point in
    /// [`Self::direction`], attenuated by the albedo, if that direction
    /// leaves the surface; otherwise it is absorbed.
    pub open spec fn scatter_spec(&self, r_in: RayModel, rec: HitModel, offset: V3) -> Option<
        ScatterModel,
    > {
        if !self.valid() || !usable(r_in, rec) || !offset.within(ONE as int) || r_in.dir
            == V3::zero() {
            None
        } else if self.direction(r_in, rec, offset).dot(rec.normal) > 0 {
            Some(
                ScatterModel {
                    attenuation: self.albedo@,
                    scattered: RayModel { orig: rec.p, dir: self.direction(r_in, rec, offset) },
                },
            )
        } else {
            None
        }
    }

    /// Decides [`Self::valid`].
    pub fn is_valid(&self) -> (b: bool)
        ensures
            b == self.valid(),
    {
        albedo_ok(&self.albedo) && 0 <= self.fuzz && self.fuzz <= ONE
    }

    /// Scatters `r_in` at `rec`, with `offset` as the random point of the
    /// unit ball.
    pub fn scatter(&self, r_in: &Ray, rec: &HitRecord, offset: Vec3) -> (res: Option<Scatter>)
        ensures
            scatter_view(res) == self.scatter_spec(r_in@, rec@, offset@),
    {
        if !self.is_valid() || !record_ok(r_in, rec) || !offset.fits(ONE) {
            return None;
        }
        let unit = match r_in.dir.unit_vector() {
            Some(u) => u,
            None => {
                return None;
            },
        };
        proof {
            lemma_unit_within(unit@);
        }
        let reflected = reflect(unit, rec.normal);
        let blur = offset.scale(self.fuzz);
        proof {
            lemma_times_bound(self.fuzz as int, offset.x as int, ONE as int, ONE as int, ONE as int);
            lemma_times_bound(self.fuzz as int, offset.y as int, ONE as int, ONE as int, ONE as int);
            lemma_times_bound(self.fuzz as int, offset.z as int, ONE as int, ONE as int, ONE as int);
        }
        let direction = reflected.plus(blur);
        if direction.dot(rec.normal) > 0 {
            Some(Scatter { attenuation: self.albedo, scattered: Ray::new(rec.p, direction) })
        } else {
            None
        }
    }
}

impl Dielectric {
    /// A clear material of the given refraction index.
    pub fn new(ir: i64) -> (m: Dielectric)
        ensures
            m.ir == ir,
    {
        Dielectric { ir }
    }

    /// The refraction index lies between `IR_MIN` and `IR_MAX`.
    pub open spec fn valid(&self) -> bool {
        IR_MIN <= self.ir <= IR_MAX
    }

    /// The quotient of the refraction indices of the medium that the ray
    /// leaves and the one it enters: the inverse of the index on the way
    /// in, the index on the way out.
    pub open spec fn ratio(&self, front_face: bool) -> int {
        if front_face {
            tdiv(ONE * ONE, self.ir as int)
        } else {
            self.ir as int
        }
    }

    /// Whether light that arrives with the cosine `c` is reflected in
    /// whole, because Snell's law has no solution: `ratio * sin > 1`.
    pub open spec fn cannot_refract(ratio: int, c: int) -> bool {
        ratio * sin_theta(c) > ONE * ONE
    }

    /// Whether the ray is reflected rather than refracted: whenever it
    /// cannot be refracted, and else with the probability that Schlick's
    /// approximation gives, decided by the random number `draw` from
    /// `0 .. ONE`.
    pub open spec fn reflects(&self, r_in: RayModel, rec: HitModel, draw: int) -> bool {
        let ratio = self.ratio(rec.front_face);
        let c = cos_theta(r_in.dir.unit(), rec.normal);
        Self::cannot_refract(ratio, c) || reflectance_spec(c, ratio) > draw
    }

    /// Clear scattering: the ray goes on from the hit point, reflected or
    /// refracted, and keeps all its light. Nothing is ever absorbed.
    pub open spec fn scatter_spec(&self, r_in: RayModel, rec: HitModel, draw: int) -> Option<
        ScatterModel,
    > {
        if !self.valid() || !usable(r_in, rec) || r_in.dir == V3::zero() {
            None
        } else {
            let u = r_in.dir.unit();
            Some(
                ScatterModel {
                    attenuation: V3 { x: ONE as int, y: ONE as int, z: ONE as int },
                    scattered: RayModel {
                        orig: rec.p,
                        dir: if self.reflects(r_in, rec, draw) {
                            reflect_spec(u, rec.normal)
                        } else {
                            refract_spec(u, rec.normal, self.ratio(rec.front_face))
                        },
                    },
                },
            )
        }
    }

    /// Decides [`Self::valid`].
    pub fn is_valid(&self) -> (b: bool)
        ensures
            b == self.valid(),
    {
        IR_MIN <= self.ir && self.ir <= IR_MAX
    }

    /// Scatters `r_in` at `rec`, with `draw` as the random number that
    /// decides between reflection and refraction.
    pub fn scatter(&self, r_in: &Ray, rec: &HitRecord, draw: i64) -> (res: Option<Scatter>)
        ensures
            scatter_view(res) == self.scatter_spec(r_in@, rec@, draw as int),
            res is Some <==> self.valid() && usable(r_in@, rec@) && r_in.dir@ != V3::zero(),
    {
        if !self.is_valid() || !record_ok(r_in, rec) {
            return None;
        }
        let unit = match r_in.dir.unit_vector() {
            Some(u) => u,
            None => {
                return None;
            },
        };
        proof {
            lemma_unit_within(unit@);
            lemma_tdiv(ONE * ONE, self.ir as int);
            lemma_quotient_bound(
                ONE * ONE,
                self.ir as int,
                tdiv(ONE * ONE, self.ir as int),
                IR_MAX as int,
            );
            lemma_ratio_positive(self.ir as int);
        }
        let ratio: i64 = if rec.front_face {
            div_trunc((ONE as i128) * (ONE as i128), self.ir as i128) as i64
        } else {
            self.ir
        };
        let c = cosine(unit, rec.normal);
        let s = sine(c);
        proof {
            lemma_mul_bound(ratio as int, s as int, IR_MAX as int, ONE as int);
        }
        let blocked = mul_wide(ratio, s) > (ONE as i128) * (ONE as i128);
        let direction = if blocked || reflectance(c, ratio) > draw {
            reflect(unit, rec.normal)
        } else {
            refract(unit, rec.normal, ratio)
        };
        Some(
            Scatter {
                attenuation: Vec3 { x: ONE, y: ONE, z: ONE },
                scattered: Ray::new(rec.p, direction),
            },
        )
    }
}

/// The inverse of a usable refraction index is positive.
proof fn lemma_ratio_positive(ir: int)
    requires
        IR_MIN <= ir <= IR_MAX,
    ensures
        tdiv(ONE * ONE, ir) > 0,
{
    lemma_tdiv(ONE * ONE, ir);
    let q = tdiv(ONE * ONE, ir);
    assert(q > 0) by (nonlinear_arith)
        requires
            q >= 0,
            125_000 <= ir <= 8_000_000,
            1_000_000 * 1_000_000 < (q + 1) * ir,
    ;
}

/// Light that arrives along the normal is never reflected in whole, for
/// any refraction index, and is always scattered, whatever the random
/// number.
pub proof fn lemma_normal_incidence(m: Dielectric, r_in: RayModel, rec: HitModel, draw: int)
    requires
        m.valid(),
        usable(r_in, rec),
        r_in.dir != V3::zero(),
        cos_theta(r_in.dir.unit(), rec.normal) == ONE,
    ensures
        !Dielectric::cannot_refract(m.ratio(rec.front_face), ONE as int),
        m.scatter_spec(r_in, rec, draw) is Some,
        m.reflects(r_in, rec, draw) <==> reflectance_spec(ONE as int, m.ratio(rec.front_face))
            > draw,
{
    let ratio = m.ratio(rec.front_face);
    assert(ONE * ONE - ONE * ONE == 0);
    assert(isqrt(0) == 0);
    assert(ratio * 0 == 0) by (nonlinear_arith);
    assert(0 < ONE * ONE) by (nonlinear_arith);
}

impl Material {
    /// What the material does to the ray `r_in` that hit at `rec`, with
    /// the random numbers it needs drawn from the stream in state `state`:
    /// the scattering, and the state the stream is left in.
    pub open spec fn scatter_spec(&self, r_in: RayModel, rec: HitModel, state: u64) -> (
        Option<ScatterModel>,
        u64,
    ) {
        match self {
            Material::Lambertian(m) => {
                let (unit, next) = direction_sample(state);
                (m.scatter_spec(r_in, rec, unit), next)
            },
            Material::Metal(m) => {
                let (offset, next) = ball_sample(state, MAX_TRIES as nat);
                (m.scatter_spec(r_in, rec, offset), next)
            },
            Material::Dielectric(m) => (
                m.scatter_spec(r_in, rec, fraction(step(state))),
                step(state),
            ),
        }
    }

    /// Scatters `r_in` at `rec`, or absorbs it. The random numbers come
    /// from `rng`.
    pub fn scatter(&self, r_in: &Ray, rec: &HitRecord, rng: &mut RandomStream) -> (res: Option<
        Scatter,
    >)
        ensures
            (scatter_view(res), final(rng).state) == self.scatter_spec(r_in@, rec@, old(rng).state),
    {
        match self {
            Material::Lambertian(m) => {
                let unit = rng.unit_vector();
                m.scatter(r_in, rec, unit)
            },
            Material::Metal(m) => {
                let offset = rng.in_unit_sphere();
                m.scatter(r_in, rec, offset)
            },
            Material::Dielectric(m) => {
                let draw = rng.next_fraction();
                m.scatter(r_in, rec, draw)
            },
        }
    }
}

/// The mirror image of a unit vector at a surface with a normal of unit
/// length is of moderate size.
pub proof fn lemma_reflect_bound(u: V3, n: V3)
    requires
        u.within(ONE as int),
        n.within(ONE as int),
    ensures
        reflect_spec(u, n).within(7 * ONE),
{
    let k = 2 * u.dot(n);
    lemma_dot_bound(u, n, ONE as int, ONE as int);
    lemma_mul_bound(k, n.x, 6 * (ONE * ONE), ONE as int);
    lemma_mul_bound(k, n.y, 6 * (ONE * ONE), ONE as int);
    lemma_mul_bound(k, n.z, 6 * (ONE * ONE), ONE as int);
    lemma_tdiv(k * n.x, ONE * ONE);
    lemma_tdiv(k * n.y, ONE * ONE);
    lemma_tdiv(k * n.z, ONE * ONE);
    lemma_quotient_bound(k * n.x, ONE * ONE, tdiv(k * n.x, ONE * ONE), 6 * ONE);
    lemma_quotient_bound(k * n.y, ONE * ONE, tdiv(k * n.y, ONE * ONE), 6 * ONE);
    lemma_quotient_bound(k * n.z, ONE * ONE, tdiv(k * n.z, ONE * ONE), 6 * ONE);
}

/// A unit vector refracted at a surface with a normal of unit length is of
/// moderate size, whatever the quotient of the refraction indices.
pub proof fn lemma_refract_bound(u: V3, n: V3, ratio: int)
    requires
        u.within(ONE as int),
        n.within(ONE as int),
        0 <= ratio <= IR_MAX,
    ensures
        refract_spec(u, n, ratio).within(44 * ONE),
{
    let one = ONE as int;
    let c = cos_theta(u, n);
    lemma_times_bound(c, n.x, one, one, one);
    lemma_times_bound(c, n.y, one, one, one);
    lemma_times_bound(c, n.z, one, one, one);
    let sx = u.x + tdiv(c * n.x, one);
    let sy = u.y + tdiv(c * n.y, one);
    let sz = u.z + tdiv(c * n.z, one);
    lemma_times_bound(ratio, sx, IR_MAX as int, 2 * one, 16 * one);
    lemma_times_bound(ratio, sy, IR_MAX as int, 2 * one, 16 * one);
    lemma_times_bound(ratio, sz, IR_MAX as int, 2 * one, 16 * one);
    let perp = V3 { x: tdiv(ratio * sx, one), y: tdiv(ratio * sy, one), z: tdiv(ratio * sz, one) };
    lemma_dot_bound(perp, perp, 16 * one, 16 * one);
    lemma_norm2(perp);
    let gap = abs(one * one - perp.norm2());
    lemma_isqrt(gap);
    let k = isqrt(gap);
    assert(k <= 28 * one) by (nonlinear_arith)
        requires
            k >= 0,
            k * k <= gap,
            gap <= 3 * ((16 * one) * (16 * one)) + one * one,
            one == 1_000_000,
    ;
    lemma_times_bound(k, n.x, 28 * one, one, 28 * one);
    lemma_times_bound(k, n.y, 28 * one, one, 28 * one);
    lemma_times_bound(k, n.z, 28 * one, one, 28 * one);
}

/// A surface with a normal of unit length scatters into a valid ray: with
/// unit normals throughout, the rays that the integrator follows never
/// leave the range in which they can hit something.
pub proof fn lemma_scatter_valid(m: Material, r_in: RayModel, rec: HitModel, state: u64)
    requires
        rec.normal.is_unit(),
    ensures
        m.scatter_spec(r_in, rec, state).0 matches Some(s) ==> s.scattered.valid(),
{
    lemma_unit_within(rec.normal);
    if m.scatter_spec(r_in, rec, state).0 is Some {
        match m {
            Material::Lambertian(_) => {
                let (p, _) = ball_sample(state, MAX_TRIES as nat);
                if p != V3::zero() {
                    lemma_unit_is_unit(p);
                }
            },
            Material::Metal(metal) => {
                let (offset, _) = ball_sample(state, MAX_TRIES as nat);
                lemma_unit_is_unit(r_in.dir);
                lemma_reflect_bound(r_in.dir.unit(), rec.normal);
                lemma_times_bound(metal.fuzz as int, offset.x, ONE as int, ONE as int, ONE as int);
                lemma_times_bound(metal.fuzz as int, offset.y, ONE as int, ONE as int, ONE as int);
                lemma_times_bound(metal.fuzz as int, offset.z, ONE as int, ONE as int, ONE as int);
            },
            Material::Dielectric(glass) => {
                lemma_unit_is_unit(r_in.dir);
                lemma_reflect_bound(r_in.dir.unit(), rec.normal);
                lemma_tdiv(ONE * ONE, glass.ir as int);
                lemma_quotient_bound(
                    ONE * ONE,
                    glass.ir as int,
                    tdiv(ONE * ONE, glass.ir as int),
                    IR_MAX as int,
                );
                lemma_refract_bound(r_in.dir.unit(), rec.normal, glass.ratio(rec.front_face));
            },
        }
    }
}

} // verus!
