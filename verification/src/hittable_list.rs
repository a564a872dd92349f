//! The scene: primitives in the order in which they were added.
use crate::hittable::{HitModel, HitRecord, Hittable, hit_view, lemma_hit_shrink, lemma_hit_sound};
use crate::ray::{Ray, RayModel, WORLD_MAX};
use vstd::prelude::*;

verus! {

/// An ordered collection of primitives, queried as one.
pub struct HittableList {
    pub objects: Vec<Hittable>,
}

/// The nearest hit among `objects`, found by asking each in turn for a hit
/// no farther than the nearest so far. Once a hit is held, only a strictly
/// nearer one replaces it: of two hits at the same distance the one of the
/// primitive added first stays.
pub open spec fn nearest(objects: Seq<Hittable>, r: RayModel, t_min: int, t_max: int) -> Option<
    HitModel,
>
    decreases objects.len(),
{
    if objects.len() == 0 {
        None
    } else {
        let before = nearest(objects.drop_last(), r, t_min, t_max);
        match before {
            None => objects.last().hit_spec(r, t_min, t_max),
            Some(held) => match objects.last().hit_spec(r, t_min, held.t) {
                Some(found) if found.t < held.t => Some(found),
                _ => before,
            },
        }
    }
}

/// Whether every primitive in `objects` reports unit normals.
pub open spec fn all_unit_normals(objects: Seq<Hittable>) -> bool {
    forall|i: int| 0 <= i < objects.len() ==> (#[trigger] objects[i]).unit_normals()
}

impl HittableList {
    /// The empty scene.
    pub fn new() -> (list: HittableList)
        ensures
            list.objects@.len() == 0,
    {
        HittableList { objects: Vec::new() }
    }

    /// Appends a primitive.
    pub fn add(&mut self, object: Hittable)
        ensures
            final(self).objects@ == old(self).objects@.push(object),
    {
        self.objects.push(object);
    }

    /// Removes every primitive.
    pub fn clear(&mut self)
        ensures
            final(self).objects@.len() == 0,
    {
        self.objects.clear();
    }

    /// The nearest hit of the ray with the scene for the parameters from
    /// `t_min` to `t_max`, or `None` if it hits nothing.
    pub fn hit(&self, r: &Ray, t_min: i64, t_max: i64) -> (res: Option<HitRecord>)
        ensures
            hit_view(res) == nearest(self.objects@, r@, t_min as int, t_max as int),
            res matches Some(rec) ==> (t_min <= rec.t <= t_max && rec.p@.within(WORLD_MAX as int)
                && (all_unit_normals(self.objects@) ==> rec.normal@.is_unit())),
    {
        let mut best: Option<HitRecord> = None;
        let mut closest: i64 = t_max;
        let mut i: usize = 0;
        while i < self.objects.len()
            invariant
                0 <= i <= self.objects.len(),
                hit_view(best) == nearest(
                    self.objects@.take(i as int),
                    r@,
                    t_min as int,
                    t_max as int,
                ),
                best matches Some(rec) ==> (closest == rec.t && t_min <= rec.t <= t_max
                    && rec.p@.within(WORLD_MAX as int) && (all_unit_normals(self.objects@)
                    ==> rec.normal@.is_unit())),
                best is None ==> closest == t_max,
            decreases self.objects.len() - i,
        {
            proof {
                assert(self.objects@.take(i + 1).drop_last() =~= self.objects@.take(i as int));
                assert(self.objects@.take(i + 1).last() == self.objects@[i as int]);
            }
            let found = self.objects[i].hit(r, t_min, closest);
            match found {
                Some(rec) => {
                    if best.is_none() || rec.t < closest {
                        closest = rec.t;
                        best = Some(rec);
                    }
                },
                None => {},
            }
            i += 1;
        }
        proof {
            assert(self.objects@.take(i as int) =~= self.objects@);
        }
        best
    }
}

/// The hit that the scene reports lies in the interval that was asked
/// about and in the world, and its normal has unit length, provided every
/// primitive hands out unit normals.
pub proof fn lemma_nearest_sound(objects: Seq<Hittable>, r: RayModel, t_min: int, t_max: int)
    ensures
        nearest(objects, r, t_min, t_max) matches Some(h) ==> t_min <= h.t <= t_max && h.p.within(
            WORLD_MAX as int,
        ) && (all_unit_normals(objects) ==> h.sound(t_min, t_max)),
    decreases objects.len(),
{
    if objects.len() > 0 {
        lemma_nearest_sound(objects.drop_last(), r, t_min, t_max);
        assert(all_unit_normals(objects) ==> all_unit_normals(objects.drop_last())
            && objects.last().unit_normals());
        match nearest(objects.drop_last(), r, t_min, t_max) {
            None => lemma_hit_sound(objects.last(), r, t_min, t_max),
            Some(held) => lemma_hit_sound(objects.last(), r, t_min, held.t),
        }
    }
}

/// The scene reports the nearest hit: whenever one of its primitives, asked
/// alone about the whole interval, reports a hit, the scene reports a hit
/// that is no farther.
pub proof fn lemma_nearest_is_nearest(
    objects: Seq<Hittable>,
    r: RayModel,
    t_min: int,
    t_max: int,
    i: int,
)
    requires
        0 <= i < objects.len(),
        objects[i].hit_spec(r, t_min, t_max) is Some,
    ensures
        nearest(objects, r, t_min, t_max) matches Some(h) && h.t <= objects[i].hit_spec(
            r,
            t_min,
            t_max,
        ).unwrap().t,
    decreases objects.len(),
{
    let g = objects[i].hit_spec(r, t_min, t_max).unwrap();
    let before = nearest(objects.drop_last(), r, t_min, t_max);
    if i < objects.len() - 1 {
        lemma_nearest_is_nearest(objects.drop_last(), r, t_min, t_max, i);
    } else {
        match before {
            None => {},
            Some(held) => {
                lemma_nearest_sound(objects.drop_last(), r, t_min, t_max);
                if g.t < held.t {
                    lemma_hit_shrink(objects.last(), r, t_min, t_max, held.t);
                }
            },
        }
    }
}

/// Adding a primitive to the end of the scene changes the answer only to a
/// strictly nearer hit: a hit at the same distance as the one held stays
/// with the primitive that was added earlier.
pub proof fn lemma_first_wins(
    objects: Seq<Hittable>,
    last: Hittable,
    r: RayModel,
    t_min: int,
    t_max: int,
)
    requires
        nearest(objects, r, t_min, t_max) is Some,
    ensures
        ({
            let held = nearest(objects, r, t_min, t_max).unwrap();
            let now = nearest(objects.push(last), r, t_min, t_max);
            now matches Some(h) && (h == held || h.t < held.t)
        }),
{
    assert(objects.push(last).drop_last() =~= objects);
}

/// Whether `h` is what the primitive `k` of `objects` reports for some
/// interval that starts at `t_min` and ends no later than `t_max`.
pub open spec fn reported_by(
    objects: Seq<Hittable>,
    k: int,
    r: RayModel,
    t_min: int,
    t_max: int,
    h: HitModel,
) -> bool {
    &&& 0 <= k < objects.len()
    &&& exists|b: int| b <= t_max && #[trigger] objects[k].hit_spec(r, t_min, b) == Some(h)
}

/// What the scene reports is what one of its primitives reports.
pub proof fn lemma_nearest_is_reported(objects: Seq<Hittable>, r: RayModel, t_min: int, t_max: int)
    ensures
        nearest(objects, r, t_min, t_max) matches Some(h) ==> exists|k: int|
            reported_by(objects, k, r, t_min, t_max, h),
    decreases objects.len(),
{
    if objects.len() > 0 {
        let rest = objects.drop_last();
        let last = objects.len() - 1;
        lemma_nearest_is_reported(rest, r, t_min, t_max);
        lemma_nearest_sound(rest, r, t_min, t_max);
        let before = nearest(rest, r, t_min, t_max);
        let now = nearest(objects, r, t_min, t_max);
        if now is Some {
            let h = now.unwrap();
            if before == now {
                let k = choose|k: int| reported_by(rest, k, r, t_min, t_max, h);
                let b = choose|b: int| b <= t_max && #[trigger] rest[k].hit_spec(r, t_min, b) == Some(h);
                assert(objects[k].hit_spec(r, t_min, b) == Some(h));
                assert(reported_by(objects, k, r, t_min, t_max, h));
            } else {
                let b = match before {
                    None => t_max,
                    Some(held) => held.t,
                };
                assert(objects[last].hit_spec(r, t_min, b) == Some(h));
                assert(reported_by(objects, last, r, t_min, t_max, h));
            }
        }
    }
}

/// The scene reports the hit of the nearest primitive: if one primitive,
/// asked alone about the whole interval, reports a hit that is strictly
/// nearer than anything that any other primitive reports, the scene
/// reports that very hit, with its point, its normal and its material.
pub proof fn lemma_nearest_is_the_nearest_hit(
    objects: Seq<Hittable>,
    r: RayModel,
    t_min: int,
    t_max: int,
    i: int,
)
    requires
        0 <= i < objects.len(),
        objects[i].hit_spec(r, t_min, t_max) is Some,
        forall|k: int, h: HitModel|
            k != i && #[trigger] reported_by(objects, k, r, t_min, t_max, h) ==> h.t > objects[i].hit_spec(
                r,
                t_min,
                t_max,
            ).unwrap().t,
    ensures
        nearest(objects, r, t_min, t_max) == objects[i].hit_spec(r, t_min, t_max),
    decreases objects.len(),
{
    let g = objects[i].hit_spec(r, t_min, t_max).unwrap();
    let rest = objects.drop_last();
    let last = objects.len() - 1;
    let before = nearest(rest, r, t_min, t_max);
    assert forall|k: int, h: HitModel| #[trigger]
        reported_by(rest, k, r, t_min, t_max, h) implies reported_by(
        objects,
        k,
        r,
        t_min,
        t_max,
        h,
    ) by {
        let b = choose|b: int| b <= t_max && #[trigger] rest[k].hit_spec(r, t_min, b) == Some(h);
        assert(objects[k].hit_spec(r, t_min, b) == Some(h));
    }
    if i < last {
        lemma_nearest_is_the_nearest_hit(rest, r, t_min, t_max, i);
        match objects[last].hit_spec(r, t_min, g.t) {
            Some(found) => {
                assert(reported_by(objects, last, r, t_min, t_max, found)) by {
                    lemma_hit_sound(objects[i], r, t_min, t_max);
                }
            },
            None => {},
        }
    } else {
        match before {
            None => {},
            Some(held) => {
                lemma_nearest_is_reported(rest, r, t_min, t_max);
                lemma_nearest_sound(rest, r, t_min, t_max);
                let k = choose|k: int| reported_by(rest, k, r, t_min, t_max, held);
                assert(reported_by(objects, k, r, t_min, t_max, held));
                lemma_hit_shrink(objects[last], r, t_min, t_max, held.t);
            },
        }
    }
}

} // verus!
