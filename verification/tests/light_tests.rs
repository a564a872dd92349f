use raytracer::fixed::ONE;
use raytracer::light::Light;
use raytracer::vec3::Vec3;

fn lamp() -> Light {
    Light::new(Vec3::new(0, 10 * ONE, 0), 750_000, Vec3::new(ONE, ONE, 900_000))
}

#[test]
fn light_keeps_what_it_was_made_with() {
    let l = lamp();
    assert_eq!(l.position, Vec3::new(0, 10 * ONE, 0));
    assert_eq!(l.intensity, 750_000);
    assert_eq!(l.color, Vec3::new(ONE, ONE, 900_000));
}

#[test]
fn light_direction_is_the_unit_vector_toward_it() {
    assert_eq!(lamp().direction_to_light(&Vec3::new(0, 0, 0)), Some(Vec3::new(0, ONE, 0)));
    assert_eq!(lamp().direction_to_light(&Vec3::new(3 * ONE, 6 * ONE, 0)), Some(Vec3::new(-600_000, 800_000, 0)));
    assert_eq!(lamp().direction_to_light(&Vec3::new(0, 20 * ONE, 0)), Some(Vec3::new(0, -ONE, 0)));
}

#[test]
fn light_has_no_direction_from_its_own_place() {
    assert_eq!(lamp().direction_to_light(&Vec3::new(0, 10 * ONE, 0)), None);
}

#[test]
fn light_has_no_direction_from_outside_the_world() {
    assert_eq!(lamp().direction_to_light(&Vec3::new(0, 16_000_000_001, 0)), None);
    let far = Light::new(Vec3::new(-16_000_000_001, 0, 0), ONE, Vec3::new(ONE, ONE, ONE));
    assert_eq!(far.direction_to_light(&Vec3::new(0, 0, 0)), None);
}

#[test]
fn light_intensity_does_not_fall_off() {
    assert_eq!(lamp().get_intensity(0), 750_000);
    assert_eq!(lamp().get_intensity(1_000 * ONE), 750_000);
    assert_eq!(lamp().get_intensity(-1), 750_000);
}
