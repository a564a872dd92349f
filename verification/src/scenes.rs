//! The stock scenes.
use crate::cube::Cube;
use crate::cylindre::Cylinder;
use crate::hittable::Hittable;
use crate::hittable_list::HittableList;
use crate::material::{Dielectric, Lambertian, Material, Metal};
use crate::rectangle::Rectangle;
use crate::sphere::Sphere;
use crate::vec3::Vec3;
use std::rc::Rc;
use vstd::prelude::*;

verus! {

/// The vector with the given components.
pub open spec fn point(x: int, y: int, z: int) -> Vec3 {
    Vec3 { x: x as i64, y: y as i64, z: z as i64 }
}

/// The ground: a grey matte sphere of radius 1000 whose top touches the
/// origin.
pub open spec fn ground_spec() -> Hittable {
    Hittable::Sphere(
        Sphere {
            center: point(0, -1_000_000_000, 0),
            radius: 1_000_000_000,
            mat: Rc::new(
                Material::Lambertian(
                    Lambertian { albedo: point(500_000, 500_000, 500_000) },
                ),
            ),
        },
    )
}

/// The red metal box: from `(-1, 0, -1)` to `(1, 2, 1)`, fuzz 0.1.
pub open spec fn box_spec() -> Hittable {
    Hittable::Cube(
        Cube {
            min: point(-1_000_000, 0, -1_000_000),
            max: point(1_000_000, 2_000_000, 1_000_000),
            mat: Rc::new(
                Material::Metal(
                    Metal { albedo: point(800_000, 300_000, 300_000), fuzz: 100_000 },
                ),
            ),
        },
    )
}

/// The brown matte column: on `(-4, 0, 0)`, radius 0.8, height 4.
pub open spec fn column_spec() -> Hittable {
    Hittable::Cylinder(
        Cylinder {
            base: point(-4_000_000, 0, 0),
            axis: point(0, 1_000_000, 0),
            radius: 800_000,
            height: 4_000_000,
            mat: Rc::new(
                Material::Lambertian(
                    Lambertian { albedo: point(400_000, 200_000, 100_000) },
                ),
            ),
        },
    )
}

/// The metal ball: around `(4, 1, 0)`, radius 1, with the given fuzz.
pub open spec fn ball_spec(fuzz: i64) -> Hittable {
    Hittable::Sphere(
        Sphere {
            center: point(4_000_000, 1_000_000, 0),
            radius: 1_000_000,
            mat: Rc::new(
                Material::Metal(
                    Metal { albedo: point(700_000, 600_000, 500_000), fuzz },
                ),
            ),
        },
    )
}

/// The clear pane: just below the ground level, from `(0, -0.0001, -2)`
/// two to the right and two to the back, refraction index 0.3.
pub open spec fn pane_spec() -> Hittable {
    Hittable::Rectangle(
        Rectangle {
            corner: point(0, -100, -2_000_000),
            size_x: point(2_000_000, 0, 0),
            size_z: point(0, 0, -2_000_000),
            mat: Rc::new(Material::Dielectric(Dielectric { ir: 300_000 })),
        },
    )
}

fn ground() -> (h: Hittable)
    ensures
        h == ground_spec(),
{
    let mat = Rc::new(Material::Lambertian(Lambertian::new(Vec3::new(500_000, 500_000, 500_000))));
    Hittable::Sphere(Sphere::new(Vec3::new(0, -1_000_000_000, 0), 1_000_000_000, mat))
}

fn red_box() -> (h: Hittable)
    ensures
        h == box_spec(),
{
    let mat = Rc::new(Material::Metal(Metal::new(Vec3::new(800_000, 300_000, 300_000), 100_000)));
    Hittable::Cube(
        Cube::new(Vec3::new(-1_000_000, 0, -1_000_000), Vec3::new(1_000_000, 2_000_000, 1_000_000), mat),
    )
}

fn column() -> (h: Hittable)
    ensures
        h == column_spec(),
{
    let mat = Rc::new(Material::Lambertian(Lambertian::new(Vec3::new(400_000, 200_000, 100_000))));
    Hittable::Cylinder(
        Cylinder::new(Vec3::new(-4_000_000, 0, 0), Vec3::new(0, 1_000_000, 0), 800_000, 4_000_000, mat),
    )
}

fn ball(fuzz: i64) -> (h: Hittable)
    requires
        0 <= fuzz <= 1_000_000,
    ensures
        h == ball_spec(fuzz),
{
    let mat = Rc::new(Material::Metal(Metal::new(Vec3::new(700_000, 600_000, 500_000), fuzz)));
    Hittable::Sphere(Sphere::new(Vec3::new(4_000_000, 1_000_000, 0), 1_000_000, mat))
}

fn pane() -> (h: Hittable)
    ensures
        h == pane_spec(),
{
    let mat = Rc::new(Material::Dielectric(Dielectric::new(300_000)));
    Hittable::Rectangle(
        Rectangle::new(
            Vec3::new(0, -100, -2_000_000),
            Vec3::new(2_000_000, 0, 0),
            Vec3::new(0, 0, -2_000_000),
            mat,
        ),
    )
}

/// The ground alone.
pub fn create_ground_scene() -> (world: HittableList)
    ensures
        world.objects@ == seq![ground_spec()],
{
    let mut world = HittableList::new();
    world.add(ground());
    proof {
        assert(world.objects@ =~= seq![ground_spec()]);
    }
    world
}

/// The ground and the box.
pub fn create_cube_scene() -> (world: HittableList)
    ensures
        world.objects@ == seq![ground_spec(), box_spec()],
{
    let mut world = create_ground_scene();
    world.add(red_box());
    proof {
        assert(world.objects@ =~= seq![ground_spec(), box_spec()]);
    }
    world
}

/// The ground and the column.
pub fn create_cylinder_scene() -> (world: HittableList)
    ensures
        world.objects@ == seq![ground_spec(), column_spec()],
{
    let mut world = create_ground_scene();
    world.add(column());
    proof {
        assert(world.objects@ =~= seq![ground_spec(), column_spec()]);
    }
    world
}

/// The ground and the ball, with fuzz 0.2.
pub fn create_sphere_scene() -> (world: HittableList)
    ensures
        world.objects@ == seq![ground_spec(), ball_spec(200_000)],
{
    let mut world = create_ground_scene();
    world.add(ball(200_000));
    proof {
        assert(world.objects@ =~= seq![ground_spec(), ball_spec(200_000)]);
    }
    world
}

/// The ground and the pane.
pub fn create_plane_scene() -> (world: HittableList)
    ensures
        world.objects@ == seq![ground_spec(), pane_spec()],
{
    let mut world = create_ground_scene();
    world.add(pane());
    proof {
        assert(world.objects@ =~= seq![ground_spec(), pane_spec()]);
    }
    world
}

/// The ground, the box and the pane.
pub fn create_flat_plane_and_cube() -> (world: HittableList)
    ensures
        world.objects@ == seq![ground_spec(), box_spec(), pane_spec()],
{
    let mut world = create_ground_scene();
    world.add(red_box());
    world.add(pane());
    proof {
        assert(world.objects@ =~= seq![ground_spec(), box_spec(), pane_spec()]);
    }
    world
}

/// Everything: the ground, the box, the column, the ball as a perfect
/// mirror, and the pane.
pub fn create_world_with_scene() -> (world: HittableList)
    ensures
        world.objects@ == seq![ground_spec(), box_spec(), column_spec(), ball_spec(0), pane_spec()],
{
    let mut world = create_ground_scene();
    world.add(red_box());
    world.add(column());
    world.add(ball(0));
    world.add(pane());
    proof {
        assert(world.objects@ =~= seq![
            ground_spec(),
            box_spec(),
            column_spec(),
            ball_spec(0),
            pane_spec(),
        ]);
    }
    world
}

} // verus!
