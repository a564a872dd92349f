use raytracer::color::{encode, write_color, CHANNEL_MAX};
use raytracer::fixed::ONE;
use raytracer::vec3::Vec3;

#[test]
fn color_encode_takes_the_square_root() {
    assert_eq!(encode(0), 0);
    assert_eq!(encode(1), 0);
    assert_eq!(encode(250_000), 128);
    assert_eq!(encode(500_000), 181);
    assert_eq!(encode(10_000), 25);
    assert_eq!(encode(640_000), 204);
}

#[test]
fn color_encode_never_reaches_256() {
    assert_eq!(CHANNEL_MAX, 999_000);
    assert_eq!(encode(999_999), 255);
    assert_eq!(encode(ONE), 255);
    assert_eq!(encode(2 * ONE), 255);
    assert_eq!(encode(i64::MAX), 255);
    // The square root of 0.998001 is 0.999, the first value that is held back.
    assert_eq!(encode(998_001), 255);
    assert_eq!(encode(992_000), 254);
}

#[test]
fn color_encode_of_a_negative_value_is_zero() {
    assert_eq!(encode(-1), 0);
    assert_eq!(encode(-5 * ONE), 0);
    assert_eq!(encode(i64::MIN), 0);
}

#[test]
fn color_encode_is_the_floor_of_the_formula() {
    for c in (0..=ONE).step_by(997) {
        let root = ((c as f64) / 1e6).sqrt();
        let exact = (256.0 * root.clamp(0.0, 0.999)).floor() as i64;
        let got = encode(c) as i64;
        // The fixed-point root is rounded down to six places before it is scaled.
        assert!(got == exact || got + 1 == exact, "{}: {} against {}", c, got, exact);
    }
}

#[test]
fn color_encode_never_decreases() {
    let mut last = 0;
    for c in (0..=ONE).step_by(313) {
        let b = encode(c);
        assert!(last <= b);
        last = b;
    }
    assert_eq!(last, 255);
}

#[test]
fn color_write_color_averages_the_samples() {
    let mut out = vec![7u8];
    write_color(&mut out, Vec3::new(ONE, 2 * ONE, 0), 4);
    assert_eq!(out, vec![7, 128, 181, 0]);
    write_color(&mut out, Vec3::new(ONE, ONE, ONE), 1);
    assert_eq!(out, vec![7, 128, 181, 0, 255, 255, 255]);
    write_color(&mut out, Vec3::new(100 * ONE, 25 * ONE, 1), 100);
    assert_eq!(&out[7..], &[255, 128, 0]);
}

#[test]
fn color_write_color_without_samples_is_black() {
    let mut out = Vec::new();
    write_color(&mut out, Vec3::new(ONE, ONE, ONE), 0);
    write_color(&mut out, Vec3::new(ONE, ONE, ONE), -2);
    assert_eq!(out, vec![0, 0, 0, 0, 0, 0]);
}
