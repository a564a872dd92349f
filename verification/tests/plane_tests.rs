use raytracer::fixed::ONE;
use raytracer::integrator::FAR;
use raytracer::material::{Lambertian, Material};
use raytracer::plane::{plane_crossing, Plane};
use raytracer::ray::Ray;
use raytracer::vec3::Vec3;
use std::rc::Rc;

fn grey() -> Rc<Material> {
    Rc::new(Material::Lambertian(Lambertian::new(Vec3::new(500_000, 500_000, 500_000))))
}

fn floor() -> Plane {
    Plane::new(Vec3::new(0, 0, 0), Vec3::new(0, ONE, 0), grey())
}

#[test]
fn plane_ray_from_above_hits_the_front() {
    let r = Ray::new(Vec3::new(0, ONE, 0), Vec3::new(0, -ONE, 0));
    let rec = floor().hit(&r, 1_000, FAR).unwrap();
    assert_eq!(rec.t, ONE);
    assert_eq!(rec.p, Vec3::new(0, 0, 0));
    assert_eq!(rec.normal, Vec3::new(0, ONE, 0));
    assert!(rec.front_face);
}

#[test]
fn plane_ray_from_below_hits_the_back() {
    let r = Ray::new(Vec3::new(ONE, -2 * ONE, 0), Vec3::new(0, ONE, 0));
    let rec = floor().hit(&r, 1_000, FAR).unwrap();
    assert_eq!(rec.t, 2 * ONE);
    assert_eq!(rec.p, Vec3::new(ONE, 0, 0));
    assert_eq!(rec.normal, Vec3::new(0, -ONE, 0));
    assert!(!rec.front_face);
}

#[test]
fn plane_parallel_ray_misses() {
    let r = Ray::new(Vec3::new(0, ONE, 0), Vec3::new(ONE, 0, 0));
    assert!(floor().hit(&r, 1_000, FAR).is_none());
}

#[test]
fn plane_nearly_parallel_ray_misses_up_to_the_threshold() {
    // A slope of one part in a million is at the threshold and still counts as parallel.
    let at_threshold = Ray::new(Vec3::new(0, -2, 0), Vec3::new(ONE, 1, 0));
    assert!(floor().hit(&at_threshold, 0, FAR).is_none());
    let beyond = Ray::new(Vec3::new(0, -2, 0), Vec3::new(ONE, 2, 0));
    let rec = floor().hit(&beyond, 0, FAR).unwrap();
    assert_eq!(rec.t, ONE);
    assert_eq!(rec.p, Vec3::new(ONE, 0, 0));
}

#[test]
fn plane_behind_the_ray_is_missed() {
    let r = Ray::new(Vec3::new(0, ONE, 0), Vec3::new(0, ONE, 0));
    assert!(floor().hit(&r, 1_000, FAR).is_none());
}

#[test]
fn plane_both_ends_of_the_interval_count() {
    let r = Ray::new(Vec3::new(0, ONE, 0), Vec3::new(0, -ONE, 0));
    assert!(floor().hit(&r, ONE, ONE).is_some());
    assert!(floor().hit(&r, ONE + 1, FAR).is_none());
    assert!(floor().hit(&r, 0, ONE - 1).is_none());
}

#[test]
fn plane_the_stored_normal_is_handed_out_as_it_is() {
    let p = Plane::new(Vec3::new(0, 0, 0), Vec3::new(0, 2 * ONE, 0), grey());
    let r = Ray::new(Vec3::new(0, ONE, 0), Vec3::new(0, -ONE, 0));
    let rec = p.hit(&r, 1_000, FAR).unwrap();
    assert_eq!(rec.t, ONE);
    assert_eq!(rec.normal, Vec3::new(0, 2 * ONE, 0));
}

#[test]
fn plane_hit_outside_the_world_is_none() {
    let r = Ray::new(Vec3::new(1, 16_000 * ONE, 0), Vec3::new(ONE, -ONE, 0));
    assert!(floor().hit(&r, 0, FAR).is_none());
    let inside = Ray::new(Vec3::new(0, 16_000 * ONE, 0), Vec3::new(ONE, -ONE, 0));
    assert_eq!(floor().hit(&inside, 0, FAR).unwrap().p, Vec3::new(16_000 * ONE, 0, 0));
}

#[test]
fn plane_crossing_parameter() {
    let r = Ray::new(Vec3::new(0, 3 * ONE, 0), Vec3::new(0, -2 * ONE, 0));
    assert_eq!(plane_crossing(Vec3::new(0, 0, 0), Vec3::new(0, ONE, 0), &r), Some(1_500_000));
    let level = Ray::new(Vec3::new(0, 3 * ONE, 0), Vec3::new(ONE, 0, 0));
    assert_eq!(plane_crossing(Vec3::new(0, 0, 0), Vec3::new(0, ONE, 0), &level), None);
}
