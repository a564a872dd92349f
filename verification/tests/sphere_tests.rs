use raytracer::fixed::ONE;
use raytracer::integrator::FAR;
use raytracer::material::{Lambertian, Material};
use raytracer::ray::Ray;
use raytracer::sphere::Sphere;
use raytracer::vec3::Vec3;
use std::rc::Rc;

fn grey() -> Rc<Material> {
    Rc::new(Material::Lambertian(Lambertian::new(Vec3::new(500_000, 500_000, 500_000))))
}

fn unit_ball() -> Sphere {
    Sphere::new(Vec3::new(0, 0, 0), ONE, grey())
}

#[test]
fn sphere_ray_aimed_at_the_centre_hits_at_distance_less_radius() {
    let r = Ray::new(Vec3::new(0, 0, 5 * ONE), Vec3::new(0, 0, -ONE));
    let rec = unit_ball().hit(&r, 1_000, FAR).unwrap();
    assert_eq!(rec.t, 4 * ONE);
    assert_eq!(rec.p, Vec3::new(0, 0, ONE));
    assert_eq!(rec.normal, Vec3::new(0, 0, ONE));
    assert!(rec.front_face);
    assert_eq!(*rec.mat, *grey());
}

#[test]
fn sphere_ray_aimed_at_the_centre_along_a_slanted_unit_direction() {
    // (0.6, 0.8, 0) has length exactly one; the centre lies 10 along it.
    let s = Sphere::new(Vec3::new(6 * ONE, 8 * ONE, 0), 3 * ONE, grey());
    let r = Ray::new(Vec3::new(0, 0, 0), Vec3::new(600_000, 800_000, 0));
    let rec = s.hit(&r, 0, FAR).unwrap();
    assert_eq!(rec.t, 7 * ONE);
    assert_eq!(rec.p, Vec3::new(4_200_000, 5_600_000, 0));
    assert_eq!(rec.normal, Vec3::new(-600_000, -800_000, 0));
    assert!(rec.front_face);
}

#[test]
fn sphere_ray_from_inside_hits_the_far_side_from_behind() {
    let r = Ray::new(Vec3::new(0, 0, 0), Vec3::new(0, 0, -ONE));
    let rec = unit_ball().hit(&r, 1_000, FAR).unwrap();
    assert_eq!(rec.t, ONE);
    assert_eq!(rec.p, Vec3::new(0, 0, -ONE));
    assert_eq!(rec.normal, Vec3::new(0, 0, ONE));
    assert!(!rec.front_face);
}

#[test]
fn sphere_ray_off_the_axis() {
    let s = Sphere::new(Vec3::new(0, 0, -ONE), 500_000, grey());
    let r = Ray::new(Vec3::new(0, 0, 0), Vec3::new(100_000, 200_000, -ONE));
    let rec = s.hit(&r, 1_000, FAR).unwrap();
    assert_eq!(rec.t, 513_355);
    assert_eq!(rec.p, Vec3::new(51_335, 102_671, -513_355));
    assert_eq!(rec.normal, Vec3::new(102_670, 205_342, 973_290));
    assert!(rec.front_face);
}

#[test]
fn sphere_ray_that_passes_by_misses() {
    let r = Ray::new(Vec3::new(0, 2 * ONE, 5 * ONE), Vec3::new(0, 0, -ONE));
    assert!(unit_ball().hit(&r, 1_000, FAR).is_none());
}

#[test]
fn sphere_ray_that_points_away_misses() {
    let r = Ray::new(Vec3::new(0, 0, 5 * ONE), Vec3::new(0, 0, ONE));
    assert!(unit_ball().hit(&r, 1_000, FAR).is_none());
}

#[test]
fn sphere_both_ends_of_the_interval_count() {
    let r = Ray::new(Vec3::new(0, 0, 5 * ONE), Vec3::new(0, 0, -ONE));
    assert_eq!(unit_ball().hit(&r, 4 * ONE, 4 * ONE).unwrap().t, 4 * ONE);
    assert_eq!(unit_ball().hit(&r, 4 * ONE + 1, FAR).unwrap().t, 6 * ONE);
    assert!(unit_ball().hit(&r, 0, 4 * ONE - 1).is_none());
    assert!(unit_ball().hit(&r, 4 * ONE + 1, 6 * ONE - 1).is_none());
    assert_eq!(unit_ball().hit(&r, 4 * ONE + 1, 6 * ONE).unwrap().t, 6 * ONE);
}

#[test]
fn sphere_negative_radius_turns_the_normal_inward() {
    let s = Sphere::new(Vec3::new(0, 0, 0), -ONE, grey());
    let r = Ray::new(Vec3::new(0, 0, 5 * ONE), Vec3::new(0, 0, -ONE));
    let rec = s.hit(&r, 1_000, FAR).unwrap();
    assert_eq!(rec.t, 4 * ONE);
    assert_eq!(rec.normal, Vec3::new(0, 0, ONE));
    assert!(!rec.front_face);
}

#[test]
fn sphere_ray_without_direction_misses() {
    let r = Ray::new(Vec3::new(0, 0, 0), Vec3::new(0, 0, 0));
    assert!(unit_ball().hit(&r, 0, FAR).is_none());
}

#[test]
fn sphere_geometry_outside_the_world_is_not_hit() {
    let far = Sphere::new(Vec3::new(0, 0, 16_000_000_001), ONE, grey());
    let r = Ray::new(Vec3::new(0, 0, 15_999_000_000), Vec3::new(0, 0, ONE));
    assert!(far.hit(&r, 0, FAR).is_none());
    assert!(!far.is_valid());
    let huge = Sphere::new(Vec3::new(0, 0, 0), 32_000_000_001, grey());
    assert!(!huge.is_valid());
}

#[test]
fn sphere_the_ground_sphere_of_the_stock_scenes() {
    let s = Sphere::new(Vec3::new(0, -1_000_000_000, 0), 1_000_000_000, grey());
    let r = Ray::new(Vec3::new(0, 10 * ONE, 0), Vec3::new(0, -ONE, 0));
    let rec = s.hit(&r, 1_000, FAR).unwrap();
    assert_eq!(rec.t, 10 * ONE);
    assert_eq!(rec.p, Vec3::new(0, 0, 0));
    assert_eq!(rec.normal, Vec3::new(0, ONE, 0));
}

#[test]
fn sphere_reported_normals_have_unit_length() {
    let s = Sphere::new(Vec3::new(300_000, -200_000, -3 * ONE), 1_234_567, grey());
    let lo = ((ONE - 2) as i128) * ((ONE - 2) as i128);
    let hi = ((ONE + 1) as i128) * ((ONE + 1) as i128);
    let mut hits = 0;
    for i in -5..=5 {
        for j in -5..=5 {
            let r = Ray::new(Vec3::new(0, 0, 0), Vec3::new(i * 100_000, j * 100_000, -ONE));
            if let Some(rec) = s.hit(&r, 1_000, FAR) {
                hits += 1;
                assert!(1_000 <= rec.t);
                let n = rec.normal.length_squared();
                assert!(lo <= n && n < hi);
            }
        }
    }
    assert!(hits > 10);
}
