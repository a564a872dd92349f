use raytracer::cube::Cube;
use raytracer::cylindre::Cylinder;
use raytracer::fixed::ONE;
use raytracer::hittable::{HitRecord, Hittable};
use raytracer::hittable_list::HittableList;
use raytracer::integrator::FAR;
use raytracer::material::{Dielectric, Lambertian, Material, Metal};
use raytracer::plane::Plane;
use raytracer::ray::Ray;
use raytracer::rectangle::Rectangle;
use raytracer::sphere::Sphere;
use raytracer::vec3::Vec3;
use std::rc::Rc;

fn matte(level: i64) -> Rc<Material> {
    Rc::new(Material::Lambertian(Lambertian::new(Vec3::new(level, level, level))))
}

fn mirror() -> Rc<Material> {
    Rc::new(Material::Metal(Metal::new(Vec3::new(ONE, ONE, ONE), 0)))
}

fn ball_at(z: i64, mat: Rc<Material>) -> Hittable {
    Hittable::Sphere(Sphere::new(Vec3::new(0, 0, z), ONE, mat))
}

fn forward() -> Ray {
    Ray::new(Vec3::new(0, 0, 0), Vec3::new(0, 0, -ONE))
}

#[test]
fn hittable_list_empty_scene_hits_nothing() {
    let world = HittableList::new();
    assert_eq!(world.objects.len(), 0);
    assert!(world.hit(&forward(), 1_000, FAR).is_none());
}

#[test]
fn hittable_list_reports_the_nearer_of_two_spheres() {
    let mut world = HittableList::new();
    world.add(ball_at(-10 * ONE, matte(100_000)));
    world.add(ball_at(-5 * ONE, mirror()));
    let rec = world.hit(&forward(), 1_000, FAR).unwrap();
    assert_eq!(rec.t, 4 * ONE);
    assert_eq!(*rec.mat, *mirror());
    assert_eq!(rec.p, Vec3::new(0, 0, -4 * ONE));
}

#[test]
fn hittable_list_reports_the_nearer_sphere_whatever_the_order() {
    let mut world = HittableList::new();
    world.add(ball_at(-5 * ONE, mirror()));
    world.add(ball_at(-10 * ONE, matte(100_000)));
    let rec = world.hit(&forward(), 1_000, FAR).unwrap();
    assert_eq!(rec.t, 4 * ONE);
    assert_eq!(*rec.mat, *mirror());
}

#[test]
fn hittable_list_of_two_hits_at_the_same_distance_keeps_the_first() {
    let mut world = HittableList::new();
    world.add(ball_at(-5 * ONE, matte(100_000)));
    world.add(ball_at(-5 * ONE, mirror()));
    let rec = world.hit(&forward(), 1_000, FAR).unwrap();
    assert_eq!(rec.t, 4 * ONE);
    assert_eq!(*rec.mat, *matte(100_000));

    let mut world = HittableList::new();
    world.add(ball_at(-5 * ONE, mirror()));
    world.add(ball_at(-5 * ONE, matte(100_000)));
    assert_eq!(*world.hit(&forward(), 1_000, FAR).unwrap().mat, *mirror());
}

#[test]
fn hittable_list_tie_between_a_plane_and_a_sphere_keeps_the_first() {
    let wall = Hittable::Plane(Plane::new(Vec3::new(0, 0, -4 * ONE), Vec3::new(0, 0, ONE), matte(200_000)));
    let mut world = HittableList::new();
    world.add(ball_at(-5 * ONE, mirror()));
    world.add(wall);
    assert_eq!(*world.hit(&forward(), 1_000, FAR).unwrap().mat, *mirror());
}

#[test]
fn hittable_list_respects_the_interval() {
    let mut world = HittableList::new();
    world.add(ball_at(-5 * ONE, mirror()));
    world.add(ball_at(-10 * ONE, matte(100_000)));
    assert!(world.hit(&forward(), 1_000, 3 * ONE).is_none());
    let rec = world.hit(&forward(), 7 * ONE, FAR).unwrap();
    assert_eq!(rec.t, 9 * ONE);
    assert_eq!(*rec.mat, *matte(100_000));
}

#[test]
fn hittable_list_clear_empties_the_scene() {
    let mut world = HittableList::new();
    world.add(ball_at(-5 * ONE, mirror()));
    assert!(world.hit(&forward(), 1_000, FAR).is_some());
    world.clear();
    assert_eq!(world.objects.len(), 0);
    assert!(world.hit(&forward(), 1_000, FAR).is_none());
}

#[test]
fn hittable_list_materials_are_shared_not_copied() {
    let shared = mirror();
    let mut world = HittableList::new();
    world.add(ball_at(-5 * ONE, shared.clone()));
    world.add(ball_at(-10 * ONE, shared.clone()));
    let rec = world.hit(&forward(), 1_000, FAR).unwrap();
    assert!(Rc::ptr_eq(&rec.mat, &shared));
    assert_eq!(Rc::strong_count(&shared), 4);
}

#[test]
fn hittable_list_mixes_all_primitives() {
    let mut world = HittableList::new();
    world.add(Hittable::Cylinder(Cylinder::new(
        Vec3::new(0, -ONE, -20 * ONE),
        Vec3::new(0, ONE, 0),
        ONE,
        2 * ONE,
        matte(300_000),
    )));
    world.add(Hittable::Cube(Cube::new(
        Vec3::new(-ONE, -ONE, -16 * ONE),
        Vec3::new(ONE, ONE, -15 * ONE),
        matte(400_000),
    )));
    world.add(Hittable::Rectangle(Rectangle::new(
        Vec3::new(-ONE, -ONE, -12 * ONE),
        Vec3::new(2 * ONE, 0, 0),
        Vec3::new(0, 2 * ONE, 0),
        Rc::new(Material::Dielectric(Dielectric::new(1_500_000))),
    )));
    world.add(Hittable::Plane(Plane::new(Vec3::new(0, 0, -30 * ONE), Vec3::new(0, 0, ONE), matte(500_000))));
    world.add(ball_at(-8 * ONE, mirror()));
    let r = forward();
    assert_eq!(world.hit(&r, 1_000, FAR).unwrap().t, 7 * ONE);
    assert_eq!(world.hit(&r, 9 * ONE + 1, FAR).unwrap().t, 12 * ONE);
    assert_eq!(world.hit(&r, 12 * ONE + 1, FAR).unwrap().t, 15 * ONE);
    assert_eq!(world.hit(&r, 16 * ONE, FAR).unwrap().t, 19 * ONE);
    assert_eq!(world.hit(&r, 21 * ONE + 1, FAR).unwrap().t, 30 * ONE);
    assert!(world.hit(&r, 30 * ONE + 1, FAR).is_none());
}

fn check_sound(rec: &HitRecord, t_min: i64, t_max: i64) {
    assert!(t_min <= rec.t && rec.t <= t_max);
    let n = rec.normal.length_squared();
    let lo = ((ONE - 2) as i128) * ((ONE - 2) as i128);
    let hi = ((ONE + 1) as i128) * ((ONE + 1) as i128);
    assert!(lo <= n && n < hi, "normal {:?}", rec.normal);
}

#[test]
fn hittable_list_every_hit_lies_in_the_interval_and_has_a_unit_normal() {
    let mut world = HittableList::new();
    world.add(Hittable::Sphere(Sphere::new(Vec3::new(0, -1_000 * ONE, 0), 1_000 * ONE, matte(500_000))));
    world.add(Hittable::Cube(Cube::new(Vec3::new(-ONE, 0, -ONE), Vec3::new(ONE, 2 * ONE, ONE), mirror())));
    world.add(Hittable::Cylinder(Cylinder::new(
        Vec3::new(-4 * ONE, 0, 0),
        Vec3::new(0, ONE, 0),
        800_000,
        4 * ONE,
        matte(300_000),
    )));
    world.add(Hittable::Sphere(Sphere::new(Vec3::new(4 * ONE, ONE, 0), ONE, mirror())));
    world.add(Hittable::Rectangle(Rectangle::new(
        Vec3::new(0, -100, -2 * ONE),
        Vec3::new(2 * ONE, 0, 0),
        Vec3::new(0, 0, -2 * ONE),
        matte(100_000),
    )));
    let origin = Vec3::new(6 * ONE, 8 * ONE, -20 * ONE);
    let mut hits = 0;
    for i in -20..=20 {
        for j in -20..=20 {
            let direction = Vec3::new(-5_200_000 + i * 400_000, -2_800_000 + j * 300_000, 8 * ONE);
            let r = Ray::new(origin, direction);
            for (t_min, t_max) in [(1_000, FAR), (1_000, 2_500_000), (2_400_000, 3 * ONE)] {
                if let Some(rec) = world.hit(&r, t_min, t_max) {
                    hits += 1;
                    check_sound(&rec, t_min, t_max);
                    for object in &world.objects {
                        if let Some(alone) = object.hit(&r, t_min, t_max) {
                            assert!(rec.t <= alone.t);
                        }
                    }
                }
            }
        }
    }
    assert!(hits > 500);
}

#[test]
fn hittable_dispatches_to_its_primitive() {
    let r = forward();
    let s = Sphere::new(Vec3::new(0, 0, -5 * ONE), ONE, mirror());
    let alone = s.hit(&r, 1_000, FAR).unwrap();
    let wrapped = Hittable::Sphere(s).hit(&r, 1_000, FAR).unwrap();
    assert_eq!((alone.t, alone.p, alone.normal, alone.front_face), (wrapped.t, wrapped.p, wrapped.normal, wrapped.front_face));
    let c = Cube::new(Vec3::new(-ONE, -ONE, -6 * ONE), Vec3::new(ONE, ONE, -5 * ONE), mirror());
    assert_eq!(Hittable::Cube(c).hit(&r, 1_000, FAR).unwrap().normal, Vec3::new(0, 0, ONE));
}

#[test]
fn hit_record_set_face_normal_turns_the_normal_against_the_ray() {
    let mut rec = HitRecord { p: Vec3::new(0, 0, 0), normal: Vec3::new(0, 0, 0), mat: mirror(), t: 5, front_face: false };
    let down = Ray::new(Vec3::new(0, ONE, 0), Vec3::new(0, -ONE, 0));
    rec.set_face_normal(&down, Vec3::new(0, ONE, 0));
    assert!(rec.front_face);
    assert_eq!(rec.normal, Vec3::new(0, ONE, 0));
    rec.set_face_normal(&down, Vec3::new(0, -ONE, 0));
    assert!(!rec.front_face);
    assert_eq!(rec.normal, Vec3::new(0, ONE, 0));
    let level = Ray::new(Vec3::new(0, ONE, 0), Vec3::new(ONE, 0, 0));
    rec.set_face_normal(&level, Vec3::new(0, ONE, 0));
    assert!(!rec.front_face);
    assert_eq!(rec.normal, Vec3::new(0, -ONE, 0));
    assert_eq!(rec.t, 5);
}
