use raytracer::fixed::ONE;
use raytracer::integrator::FAR;
use raytracer::material::{Dielectric, Material};
use raytracer::ray::Ray;
use raytracer::rectangle::Rectangle;
use raytracer::vec3::Vec3;
use std::rc::Rc;

fn glass() -> Rc<Material> {
    Rc::new(Material::Dielectric(Dielectric::new(1_500_000)))
}

fn pane() -> Rectangle {
    Rectangle::new(Vec3::new(0, 0, 0), Vec3::new(2 * ONE, 0, 0), Vec3::new(0, 0, -2 * ONE), glass())
}

fn down_from(x: i64, z: i64) -> Ray {
    Ray::new(Vec3::new(x, ONE, z), Vec3::new(0, -ONE, 0))
}

#[test]
fn rectangle_ray_onto_the_middle_hits() {
    let rec = pane().hit(&down_from(ONE, -ONE), 1_000, FAR).unwrap();
    assert_eq!(rec.t, ONE);
    assert_eq!(rec.p, Vec3::new(ONE, 0, -ONE));
    assert_eq!(rec.normal, Vec3::new(0, ONE, 0));
    assert!(rec.front_face);
    assert_eq!(*rec.mat, Material::Dielectric(Dielectric::new(1_500_000)));
}

#[test]
fn rectangle_ray_from_below_hits_the_back() {
    let r = Ray::new(Vec3::new(ONE, -ONE, -ONE), Vec3::new(0, ONE, 0));
    let rec = pane().hit(&r, 1_000, FAR).unwrap();
    assert_eq!(rec.normal, Vec3::new(0, -ONE, 0));
    assert!(!rec.front_face);
}

#[test]
fn rectangle_the_edges_belong_to_the_rectangle() {
    assert!(pane().hit(&down_from(0, 0), 1_000, FAR).is_some());
    assert!(pane().hit(&down_from(2 * ONE, 0), 1_000, FAR).is_some());
    assert!(pane().hit(&down_from(2 * ONE, -2 * ONE), 1_000, FAR).is_some());
    assert!(pane().hit(&down_from(0, -2 * ONE), 1_000, FAR).is_some());
}

#[test]
fn rectangle_ray_beside_the_rectangle_misses() {
    assert!(pane().hit(&down_from(2 * ONE + 1, -ONE), 1_000, FAR).is_none());
    assert!(pane().hit(&down_from(-1, -ONE), 1_000, FAR).is_none());
    assert!(pane().hit(&down_from(ONE, 1), 1_000, FAR).is_none());
    assert!(pane().hit(&down_from(ONE, -2 * ONE - 1), 1_000, FAR).is_none());
}

#[test]
fn rectangle_parallel_ray_misses() {
    let r = Ray::new(Vec3::new(-ONE, 0, -ONE), Vec3::new(ONE, 0, 0));
    assert!(pane().hit(&r, 1_000, FAR).is_none());
}

#[test]
fn rectangle_without_area_is_never_hit() {
    let flat = Rectangle::new(Vec3::new(0, 0, 0), Vec3::new(0, 0, 0), Vec3::new(0, 0, -2 * ONE), glass());
    assert!(flat.hit(&down_from(0, -ONE), 1_000, FAR).is_none());
    let line = Rectangle::new(
        Vec3::new(0, 0, 0),
        Vec3::new(2 * ONE, 0, 0),
        Vec3::new(ONE, 0, 0),
        glass(),
    );
    assert!(line.hit(&down_from(ONE, 0), 1_000, FAR).is_none());
}

#[test]
fn rectangle_both_ends_of_the_interval_count() {
    assert!(pane().hit(&down_from(ONE, -ONE), ONE, ONE).is_some());
    assert!(pane().hit(&down_from(ONE, -ONE), ONE + 1, FAR).is_none());
    assert!(pane().hit(&down_from(ONE, -ONE), 0, ONE - 1).is_none());
}

#[test]
fn rectangle_the_pane_of_the_stock_scenes() {
    let q = Rectangle::new(
        Vec3::new(0, -100, -2 * ONE),
        Vec3::new(2 * ONE, 0, 0),
        Vec3::new(0, 0, -2 * ONE),
        glass(),
    );
    let r = Ray::new(Vec3::new(ONE, ONE, -3 * ONE), Vec3::new(0, -ONE, 0));
    let rec = q.hit(&r, 1_000, FAR).unwrap();
    assert_eq!(rec.t, ONE + 100);
    assert_eq!(rec.p, Vec3::new(ONE, -100, -3 * ONE));
    assert_eq!(rec.normal, Vec3::new(0, ONE, 0));
}
