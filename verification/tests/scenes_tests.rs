use raytracer::fixed::ONE;
use raytracer::hittable::Hittable;
use raytracer::material::{Dielectric, Lambertian, Material, Metal};
use raytracer::scenes::{
    create_cube_scene, create_cylinder_scene, create_flat_plane_and_cube, create_ground_scene,
    create_plane_scene, create_sphere_scene, create_world_with_scene,
};
use raytracer::vec3::Vec3;

fn is_ground(h: &Hittable) -> bool {
    match h {
        Hittable::Sphere(s) => {
            s.center == Vec3::new(0, -1_000 * ONE, 0)
                && s.radius == 1_000 * ONE
                && *s.mat == Material::Lambertian(Lambertian::new(Vec3::new(500_000, 500_000, 500_000)))
        }
        _ => false,
    }
}

fn is_box(h: &Hittable) -> bool {
    match h {
        Hittable::Cube(c) => {
            c.min == Vec3::new(-ONE, 0, -ONE)
                && c.max == Vec3::new(ONE, 2 * ONE, ONE)
                && *c.mat == Material::Metal(Metal::new(Vec3::new(800_000, 300_000, 300_000), 100_000))
        }
        _ => false,
    }
}

fn is_column(h: &Hittable) -> bool {
    match h {
        Hittable::Cylinder(c) => {
            c.base == Vec3::new(-4 * ONE, 0, 0)
                && c.axis == Vec3::new(0, ONE, 0)
                && c.radius == 800_000
                && c.height == 4 * ONE
                && *c.mat == Material::Lambertian(Lambertian::new(Vec3::new(400_000, 200_000, 100_000)))
        }
        _ => false,
    }
}

fn is_ball(h: &Hittable, fuzz: i64) -> bool {
    match h {
        Hittable::Sphere(s) => {
            s.center == Vec3::new(4 * ONE, ONE, 0)
                && s.radius == ONE
                && *s.mat == Material::Metal(Metal::new(Vec3::new(700_000, 600_000, 500_000), fuzz))
        }
        _ => false,
    }
}

fn is_pane(h: &Hittable) -> bool {
    match h {
        Hittable::Rectangle(q) => {
            q.corner == Vec3::new(0, -100, -2 * ONE)
                && q.size_x == Vec3::new(2 * ONE, 0, 0)
                && q.size_z == Vec3::new(0, 0, -2 * ONE)
                && *q.mat == Material::Dielectric(Dielectric::new(300_000))
        }
        _ => false,
    }
}

#[test]
fn scenes_ground() {
    let world = create_ground_scene();
    assert_eq!(world.objects.len(), 1);
    assert!(is_ground(&world.objects[0]));
}

#[test]
fn scenes_cube() {
    let world = create_cube_scene();
    assert_eq!(world.objects.len(), 2);
    assert!(is_ground(&world.objects[0]));
    assert!(is_box(&world.objects[1]));
}

#[test]
fn scenes_cylinder() {
    let world = create_cylinder_scene();
    assert_eq!(world.objects.len(), 2);
    assert!(is_ground(&world.objects[0]));
    assert!(is_column(&world.objects[1]));
}

#[test]
fn scenes_sphere() {
    let world = create_sphere_scene();
    assert_eq!(world.objects.len(), 2);
    assert!(is_ground(&world.objects[0]));
    assert!(is_ball(&world.objects[1], 200_000));
}

#[test]
fn scenes_plane() {
    let world = create_plane_scene();
    assert_eq!(world.objects.len(), 2);
    assert!(is_ground(&world.objects[0]));
    assert!(is_pane(&world.objects[1]));
}

#[test]
fn scenes_flat_plane_and_cube() {
    let world = create_flat_plane_and_cube();
    assert_eq!(world.objects.len(), 3);
    assert!(is_ground(&world.objects[0]));
    assert!(is_box(&world.objects[1]));
    assert!(is_pane(&world.objects[2]));
}

#[test]
fn scenes_world() {
    let world = create_world_with_scene();
    assert_eq!(world.objects.len(), 5);
    assert!(is_ground(&world.objects[0]));
    assert!(is_box(&world.objects[1]));
    assert!(is_column(&world.objects[2]));
    assert!(is_ball(&world.objects[3], 0));
    assert!(is_pane(&world.objects[4]));
}
