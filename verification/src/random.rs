//! A seeded stream of pseudo-random numbers and of the random vectors that
//! sampling needs. Equal seeds give equal streams.
use crate::fixed::{ONE, lemma_mul_bound, lemma_square_root_bound};
use crate::vec3::{V3, Vec3, lemma_axis_is_unit, lemma_norm2, lemma_unit_within};
use vstd::prelude::*;

verus! {

/// Multiplier of the generator.
pub const MULTIPLIER: u64 = 6_364_136_223_846_793_005;

/// Increment of the generator.
pub const INCREMENT: u64 = 1_442_695_040_888_963_407;

/// How often a random point is drawn anew before sampling gives up and
/// returns the centre.
pub const MAX_TRIES: u32 = 64;

/// The state that follows `s`: a linear congruential step modulo two to the
/// power 64.
pub open spec fn step(s: u64) -> u64 {
    ((s * MULTIPLIER + INCREMENT) % 0x1_0000_0000_0000_0000) as u64
}

/// The number in `0 .. ONE` that the state `s` stands for: its upper half,
/// scaled.
pub open spec fn fraction(s: u64) -> int {
    ((s as int / 0x1_0000_0000) * ONE) / 0x1_0000_0000
}

/// The number in `-ONE .. ONE` that the state `s` stands for.
pub open spec fn signed_fraction(s: u64) -> int {
    2 * fraction(s) - ONE
}

/// A random point of the unit ball drawn from state `s` in at most `tries`
/// attempts, with the state that is left. Each attempt draws the three
/// coordinates in turn and is kept if the point lies strictly inside the
/// ball; when the attempts run out the centre is returned.
pub open spec fn ball_sample(s: u64, tries: nat) -> (V3, u64)
    decreases tries,
{
    if tries == 0 {
        (V3::zero(), s)
    } else {
        let s1 = step(s);
        let s2 = step(s1);
        let s3 = step(s2);
        let p = V3 { x: signed_fraction(s1), y: signed_fraction(s2), z: signed_fraction(s3) };
        if p.norm2() < ONE * ONE {
            (p, s3)
        } else {
            ball_sample(s3, (tries - 1) as nat)
        }
    }
}

/// A random point of the unit disk in the plane `z = 0`, drawn like
/// [`ball_sample`] from two coordinates.
pub open spec fn disk_sample(s: u64, tries: nat) -> (V3, u64)
    decreases tries,
{
    if tries == 0 {
        (V3::zero(), s)
    } else {
        let s1 = step(s);
        let s2 = step(s1);
        let p = V3 { x: signed_fraction(s1), y: signed_fraction(s2), z: 0 };
        if p.norm2() < ONE * ONE {
            (p, s2)
        } else {
            disk_sample(s2, (tries - 1) as nat)
        }
    }
}

/// A random direction drawn from state `s`: the point from [`ball_sample`]
/// rescaled to unit length, or the x axis if that point is the centre.
pub open spec fn direction_sample(s: u64) -> (V3, u64) {
    let (p, s2) = ball_sample(s, MAX_TRIES as nat);
    if p == V3::zero() {
        (V3 { x: ONE as int, y: 0, z: 0 }, s2)
    } else {
        (p.unit(), s2)
    }
}

/// The points that sampling returns lie in the unit ball.
pub proof fn lemma_ball_sample(s: u64, tries: nat)
    ensures
        ball_sample(s, tries).0.norm2() < ONE * ONE,
        ball_sample(s, tries).0.within(ONE as int),
    decreases tries,
{
    let one = ONE as int;
    assert(0 < one * one) by (nonlinear_arith)
        requires
            one == 1_000_000,
    ;
    if tries > 0 {
        lemma_ball_sample(step(step(step(s))), (tries - 1) as nat);
    }
    let p = ball_sample(s, tries).0;
    lemma_norm2(p);
    lemma_square_root_bound(p.x, one);
    lemma_square_root_bound(p.y, one);
    lemma_square_root_bound(p.z, one);
}

/// The points that sampling returns lie in the unit disk.
pub proof fn lemma_disk_sample(s: u64, tries: nat)
    ensures
        disk_sample(s, tries).0.norm2() < ONE * ONE,
        disk_sample(s, tries).0.within(ONE as int),
        disk_sample(s, tries).0.z == 0,
    decreases tries,
{
    let one = ONE as int;
    assert(0 < one * one) by (nonlinear_arith)
        requires
            one == 1_000_000,
    ;
    if tries > 0 {
        lemma_disk_sample(step(step(s)), (tries - 1) as nat);
    }
    let p = disk_sample(s, tries).0;
    lemma_norm2(p);
    lemma_square_root_bound(p.x, one);
    lemma_square_root_bound(p.y, one);
    lemma_square_root_bound(p.z, one);
}

/// A stream of pseudo-random numbers, determined by its seed.
#[derive(Clone, Copy, Debug, PartialEq, Eq, Structural)]
pub struct RandomStream {
    pub state: u64,
}

impl RandomStream {
    /// The stream that starts from `seed`.
    pub fn new(seed: u64) -> (s: RandomStream)
        ensures
            s.state == seed,
    {
        RandomStream { state: seed }
    }

    /// The next number of the stream, in `0 .. ONE`.
    pub fn next_fraction(&mut self) -> (r: i64)
        ensures
            final(self).state == step(old(self).state),
            r == fraction(final(self).state),
            0 <= r < ONE,
    {
        proof {
            lemma_mul_bound(
                self.state as int,
                MULTIPLIER as int,
                0x1_0000_0000_0000_0000,
                0x8000_0000_0000_0000,
            );
        }
        let wide: u128 = (self.state as u128) * (MULTIPLIER as u128) + (INCREMENT as u128);
        self.state = (wide % 0x1_0000_0000_0000_0000) as u64;
        let upper: u64 = self.state / 0x1_0000_0000;
        proof {
            lemma_mul_bound(upper as int, ONE as int, 0x1_0000_0000, ONE as int);
        }
        ((upper * (ONE as u64)) / 0x1_0000_0000) as i64
    }

    /// The next number of the stream, mapped to `-ONE .. ONE`.
    pub fn next_signed(&mut self) -> (r: i64)
        ensures
            final(self).state == step(old(self).state),
            r == signed_fraction(final(self).state),
            -ONE <= r < ONE,
    {
        2 * self.next_fraction() - ONE
    }

    /// A random point strictly inside the unit ball.
    pub fn in_unit_sphere(&mut self) -> (p: Vec3)
        ensures
            (p@, final(self).state) == ball_sample(old(self).state, MAX_TRIES as nat),
            p@.norm2() < ONE * ONE,
            p@.within(ONE as int),
    {
        let mut left: u32 = MAX_TRIES;
        proof {
            lemma_ball_sample(self.state, MAX_TRIES as nat);
        }
        while left > 0
            invariant
                ball_sample(self.state, left as nat) == ball_sample(
                    old(self).state,
                    MAX_TRIES as nat,
                ),
            decreases left,
        {
            let x = self.next_signed();
            let y = self.next_signed();
            let z = self.next_signed();
            let p = Vec3 { x, y, z };
            if p.length_squared() < (ONE as i128) * (ONE as i128) {
                return p;
            }
            left -= 1;
        }
        Vec3 { x: 0, y: 0, z: 0 }
    }

    /// A random point strictly inside the unit disk of the plane `z = 0`.
    pub fn in_unit_disk(&mut self) -> (p: Vec3)
        ensures
            (p@, final(self).state) == disk_sample(old(self).state, MAX_TRIES as nat),
            p@.norm2() < ONE * ONE,
            p@.within(ONE as int),
            p.z == 0,
    {
        let mut left: u32 = MAX_TRIES;
        proof {
            lemma_disk_sample(self.state, MAX_TRIES as nat);
        }
        while left > 0
            invariant
                disk_sample(self.state, left as nat) == disk_sample(
                    old(self).state,
                    MAX_TRIES as nat,
                ),
            decreases left,
        {
            let x = self.next_signed();
            let y = self.next_signed();
            let p = Vec3 { x, y, z: 0 };
            if p.length_squared() < (ONE as i128) * (ONE as i128) {
                return p;
            }
            left -= 1;
        }
        Vec3 { x: 0, y: 0, z: 0 }
    }

    /// A random direction: a vector of unit length.
    pub fn unit_vector(&mut self) -> (u: Vec3)
        ensures
            (u@, final(self).state) == direction_sample(old(self).state),
            u@.is_unit(),
            u@.within(ONE as int),
    {
        let p = self.in_unit_sphere();
        match p.unit_vector() {
            Some(u) => {
                proof {
                    lemma_unit_within(u@);
                }
                u
            },
            None => {
                let u = Vec3 { x: ONE, y: 0, z: 0 };
                proof {
                    lemma_axis_is_unit(u@);
                    lemma_unit_within(u@);
                }
                u
            },
        }
    }
}

} // verus!
