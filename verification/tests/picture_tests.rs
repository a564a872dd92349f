use raytracer::camera::Camera;
use raytracer::fixed::ONE;
use raytracer::render::{render, Film};
use raytracer::selection::SceneKind;
use raytracer::vec3::Vec3;

fn camera(aperture: i64, focus_dist: i64) -> Camera {
    Camera::new(
        Vec3::new(6 * ONE, 8 * ONE, -20 * ONE),
        Vec3::new(-7 * ONE, ONE, 0),
        Vec3::new(0, ONE, 0),
        363_970,
        1_777_778,
        aperture,
        focus_dist,
    )
    .unwrap()
}

fn film(image_width: i32, image_height: i32, samples_per_pixel: i32, max_depth: i32) -> Film {
    Film { image_width, image_height, samples_per_pixel, max_depth }
}

/// A fingerprint of a picture: the 64-bit FNV-1a hash of its bytes.
fn fingerprint(image: &[u8]) -> u64 {
    let mut h: u64 = 0xcbf2_9ce4_8422_2325;
    for b in image {
        h ^= *b as u64;
        h = h.wrapping_mul(0x0000_0100_0000_01b3);
    }
    h
}

#[test]
fn picture_of_the_full_scene() {
    let image = render(&camera(0, 10 * ONE), &SceneKind::Scene.build(), &film(48, 27, 4, 12), 99);
    assert_eq!(image.len(), 3_888);
    assert_eq!(&image[..12], &[219, 234, 255, 219, 234, 255, 219, 234, 255, 219, 234, 255]);
    assert_eq!(fingerprint(&image), 7_205_823_400_233_785_182);
}

#[test]
fn picture_through_an_open_lens() {
    let image = render(&camera(400_000, 22 * ONE), &SceneKind::Scene.build(), &film(32, 18, 3, 50), 5);
    assert_eq!(image.len(), 1_728);
    assert_eq!(&image[..12], &[219, 234, 255, 218, 234, 255, 219, 234, 255, 219, 234, 255]);
    assert_eq!(fingerprint(&image), 8_327_050_466_910_355_541);
}

#[test]
fn picture_of_each_smaller_scene() {
    let cases = [
        (SceneKind::Cube, 13_577_711_838_635_010_007u64),
        (SceneKind::Cylinder, 17_199_915_002_050_131_097),
        (SceneKind::Sphere, 6_907_056_351_738_453_154),
        (SceneKind::Flat, 18_244_455_924_382_339_011),
        (SceneKind::FlatAndCube, 12_661_607_465_573_676_696),
    ];
    for (kind, expected) in cases {
        let image = render(&camera(0, 10 * ONE), &kind.build(), &film(24, 14, 2, 10), 31);
        assert_eq!(image.len(), 1_008);
        assert_eq!(fingerprint(&image), expected, "{:?}", kind);
    }
}
