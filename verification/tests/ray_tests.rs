use raytracer::fixed::ONE;
use raytracer::ray::{Ray, DIR_MAX, WORLD_MAX};
use raytracer::vec3::Vec3;

#[test]
fn ray_origin_and_direction_come_back() {
    let r = Ray::new(Vec3::new(1, 2, 3), Vec3::new(4, 5, 6));
    assert_eq!(r.origin(), Vec3::new(1, 2, 3));
    assert_eq!(r.direction(), Vec3::new(4, 5, 6));
}

#[test]
fn ray_point_along_the_ray() {
    let r = Ray::new(Vec3::new(ONE, 2 * ONE, 3 * ONE), Vec3::new(0, -ONE, 500_000));
    assert_eq!(r.at(0), Some(Vec3::new(ONE, 2 * ONE, 3 * ONE)));
    assert_eq!(r.at(2 * ONE), Some(Vec3::new(ONE, 0, 4 * ONE)));
    assert_eq!(r.at(-ONE), Some(Vec3::new(ONE, 3 * ONE, 2_500_000)));
    assert_eq!(r.at(1), Some(Vec3::new(ONE, 2 * ONE - 1, 3 * ONE)));
    assert_eq!(r.at(-1), Some(Vec3::new(ONE, 2 * ONE + 1, 3 * ONE)));
}

#[test]
fn ray_point_outside_the_world_is_none() {
    let r = Ray::new(Vec3::new(0, 0, 0), Vec3::new(ONE, 0, 0));
    assert_eq!(r.at(WORLD_MAX), Some(Vec3::new(WORLD_MAX, 0, 0)));
    assert_eq!(r.at(WORLD_MAX + 1), None);
    assert_eq!(r.at(i64::MAX), None);
    assert_eq!(r.at(i64::MIN), None);
}

#[test]
fn ray_validity_of_rays() {
    assert!(Ray::new(Vec3::new(WORLD_MAX, 0, 0), Vec3::new(DIR_MAX, 0, 0)).is_valid());
    assert!(!Ray::new(Vec3::new(WORLD_MAX + 1, 0, 0), Vec3::new(ONE, 0, 0)).is_valid());
    assert!(!Ray::new(Vec3::new(0, 0, 0), Vec3::new(0, DIR_MAX + 1, 0)).is_valid());
    assert_eq!(Ray::new(Vec3::new(0, 0, 0), Vec3::new(0, DIR_MAX + 1, 0)).at(0), None);
}
