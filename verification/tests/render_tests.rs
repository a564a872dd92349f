use raytracer::camera::Camera;
use raytracer::fixed::ONE;
use raytracer::hittable_list::HittableList;
use raytracer::random::RandomStream;
use raytracer::render::{coordinate, pixel, render, sample, Film};
use raytracer::scenes::{
    create_cube_scene, create_cylinder_scene, create_flat_plane_and_cube, create_ground_scene,
    create_plane_scene, create_sphere_scene, create_world_with_scene,
};
use raytracer::selection::render_all_individual_images;
use raytracer::vec3::Vec3;

fn plain() -> Camera {
    Camera::new(Vec3::new(0, 0, 0), Vec3::new(0, 0, -ONE), Vec3::new(0, ONE, 0), ONE, ONE, 0, ONE).unwrap()
}

fn stock() -> Camera {
    Camera::new(
        Vec3::new(6 * ONE, 8 * ONE, -20 * ONE),
        Vec3::new(-7 * ONE, ONE, 0),
        Vec3::new(0, ONE, 0),
        363_970,
        1_777_778,
        0,
        10 * ONE,
    )
    .unwrap()
}

fn film(image_width: i32, image_height: i32, samples_per_pixel: i32, max_depth: i32) -> Film {
    Film { image_width, image_height, samples_per_pixel, max_depth }
}

#[test]
fn render_coordinate_spreads_the_pixels_over_the_screen() {
    assert_eq!(coordinate(0, 0, 5), 0);
    assert_eq!(coordinate(4, 0, 5), ONE);
    assert_eq!(coordinate(2, 0, 5), 500_000);
    assert_eq!(coordinate(1, 500_000, 4), 500_000);
    assert_eq!(coordinate(3, 999_999, 4), 1_333_333);
    assert_eq!(coordinate(399, 0, 400), ONE);
    assert_eq!(coordinate(200, 250_000, 400), 501_879);
}

#[test]
fn render_coordinate_of_a_single_pixel_is_zero() {
    assert_eq!(coordinate(0, 500_000, 1), 0);
    assert_eq!(coordinate(0, 500_000, 0), 0);
    assert_eq!(coordinate(3, 0, -4), 0);
}

#[test]
fn render_of_the_sky_alone() {
    let image = render(&plain(), &HittableList::new(), &film(4, 3, 2, 5), 1);
    assert_eq!(
        image,
        vec![
            190, 218, 255, 190, 219, 255, 189, 218, 255, 193, 220, 255, 211, 230, 255, 206, 227,
            255, 209, 229, 255, 210, 229, 255, 228, 239, 255, 245, 249, 255, 234, 243, 255, 236,
            244, 255
        ]
    );
}

#[test]
fn render_puts_the_top_row_first() {
    let image = render(&plain(), &HittableList::new(), &film(3, 5, 4, 5), 9);
    assert_eq!(image.len(), 3 * 5 * 3);
    // The sky is bluest at the top: red grows from the first row to the last.
    for row in 1..5 {
        for column in 0..3 {
            assert!(image[((row - 1) * 3 + column) * 3] < image[(row * 3 + column) * 3]);
        }
    }
}

#[test]
fn render_of_the_ground() {
    let image = render(&stock(), &create_ground_scene(), &film(4, 3, 2, 5), 1);
    assert_eq!(
        image,
        vec![
            214, 231, 255, 216, 233, 255, 211, 230, 255, 212, 231, 255, 190, 203, 221, 138, 156,
            181, 139, 157, 181, 222, 236, 255, 136, 155, 181, 137, 156, 181, 144, 160, 181, 141,
            158, 181
        ]
    );
}

#[test]
fn render_of_the_box_on_the_ground() {
    let image = render(&stock(), &create_cube_scene(), &film(5, 3, 2, 6), 3);
    assert_eq!(
        image,
        vec![
            215, 232, 255, 210, 230, 255, 212, 230, 255, 213, 231, 255, 215, 232, 255, 222, 236,
            255, 184, 200, 221, 183, 199, 221, 136, 155, 181, 222, 236, 255, 142, 159, 181, 134,
            154, 181, 141, 158, 181, 134, 154, 181, 137, 156, 181
        ]
    );
}

#[test]
fn render_of_the_full_scene() {
    let image = render(&stock(), &create_world_with_scene(), &film(6, 4, 3, 8), 2024);
    assert_eq!(
        image,
        vec![
            217, 233, 255, 215, 232, 255, 215, 232, 255, 215, 232, 255, 217, 233, 255, 215, 232,
            255, 223, 237, 255, 223, 236, 255, 197, 212, 233, 199, 213, 233, 224, 237, 255, 196,
            212, 233, 144, 159, 181, 139, 157, 181, 131, 138, 155, 141, 158, 181, 133, 154, 181,
            146, 160, 181, 137, 156, 181, 140, 157, 181, 133, 154, 181, 136, 155, 181, 141, 158,
            181, 130, 152, 181
        ]
    );
}

#[test]
fn render_is_decided_by_the_seed() {
    let world = create_world_with_scene();
    let f = film(8, 5, 2, 10);
    let first = render(&stock(), &world, &f, 77);
    assert_eq!(first, render(&stock(), &world, &f, 77));
    assert!(first != render(&stock(), &world, &f, 78));
}

#[test]
fn render_without_pixels_is_empty() {
    let world = create_ground_scene();
    assert!(render(&stock(), &world, &film(0, 4, 2, 5), 1).is_empty());
    assert!(render(&stock(), &world, &film(4, 0, 2, 5), 1).is_empty());
    assert!(render(&stock(), &world, &film(-3, 4, 2, 5), 1).is_empty());
    assert!(render(&stock(), &world, &film(4, -1, 2, 5), 1).is_empty());
}

#[test]
fn render_without_samples_is_black() {
    let image = render(&stock(), &create_ground_scene(), &film(2, 2, 0, 5), 1);
    assert_eq!(image, vec![0; 12]);
    let image = render(&stock(), &create_ground_scene(), &film(2, 2, -7, 5), 1);
    assert_eq!(image, vec![0; 12]);
}

#[test]
fn render_without_bounces_is_black() {
    let image = render(&stock(), &create_world_with_scene(), &film(3, 2, 4, 0), 5);
    assert_eq!(image, vec![0; 18]);
}

#[test]
fn render_pixel_adds_up_its_samples() {
    let world = create_ground_scene();
    let f = film(4, 3, 3, 5);
    let mut rng = RandomStream::new(12);
    let sum = pixel(&stock(), &world, &f, 1, 2, &mut rng);
    let after = rng.state;
    let mut rng = RandomStream::new(12);
    let mut by_hand = Vec3::new(0, 0, 0);
    for _ in 0..3 {
        let c = sample(&stock(), &world, &f, 1, 2, &mut rng);
        by_hand = Vec3::new(by_hand.x + c.x, by_hand.y + c.y, by_hand.z + c.z);
    }
    assert_eq!(sum, by_hand);
    assert_eq!(after, rng.state);
}

#[test]
fn render_sample_where_the_camera_has_no_ray_is_black() {
    // Screen 256 wide at distance 1: the rays to the left and right edges are too steep to be valid.
    let wide = Camera::new(Vec3::new(0, 0, 0), Vec3::new(0, 0, -ONE), Vec3::new(0, ONE, 0), 2 * ONE, 64 * ONE, 0, ONE).unwrap();
    let f = film(1_001, 3, 1, 5);
    for seed in 0..20 {
        let mut rng = RandomStream::new(seed);
        assert_eq!(sample(&wide, &HittableList::new(), &f, 0, 1, &mut rng), Vec3::new(0, 0, 0));
        assert_eq!(sample(&wide, &HittableList::new(), &f, 1_000, 1, &mut rng), Vec3::new(0, 0, 0));
        let c = sample(&wide, &HittableList::new(), &f, 500, 1, &mut rng);
        assert_eq!(c.z, ONE);
        assert!(c.x > 0);
    }
}

#[test]
fn render_all_individual_images_renders_the_six_scenes_in_order() {
    let f = film(4, 3, 1, 4);
    let images = render_all_individual_images(&stock(), &f, 5);
    assert_eq!(images.len(), 6);
    assert_eq!(images[0], render(&stock(), &create_cube_scene(), &f, 5));
    assert_eq!(images[1], render(&stock(), &create_cylinder_scene(), &f, 5));
    assert_eq!(images[2], render(&stock(), &create_sphere_scene(), &f, 5));
    assert_eq!(images[3], render(&stock(), &create_plane_scene(), &f, 5));
    assert_eq!(images[4], render(&stock(), &create_world_with_scene(), &f, 5));
    assert_eq!(images[5], render(&stock(), &create_flat_plane_and_cube(), &f, 5));
    for image in &images {
        assert_eq!(image.len(), 36);
    }
}
