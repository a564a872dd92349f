use raytracer::scenes::{
    create_cube_scene, create_cylinder_scene, create_flat_plane_and_cube, create_plane_scene,
    create_sphere_scene, create_world_with_scene,
};
use raytracer::selection::{batch_kinds, same_text, SceneKind, Selection};

#[test]
fn selection_knows_the_seven_names() {
    assert_eq!(Selection::from_name("sphere"), Some(Selection::One(SceneKind::Sphere)));
    assert_eq!(Selection::from_name("cube"), Some(Selection::One(SceneKind::Cube)));
    assert_eq!(Selection::from_name("cylinder"), Some(Selection::One(SceneKind::Cylinder)));
    assert_eq!(Selection::from_name("flat"), Some(Selection::One(SceneKind::Flat)));
    assert_eq!(Selection::from_name("scene"), Some(Selection::One(SceneKind::Scene)));
    assert_eq!(Selection::from_name("flat_and_cube"), Some(Selection::One(SceneKind::FlatAndCube)));
    assert_eq!(Selection::from_name("all"), Some(Selection::All));
}

#[test]
fn selection_knows_no_other_name() {
    for name in ["", "Sphere", "sphere ", " sphere", "spher", "spheres", "plane", "flat-plane", "ALL", "flat_and_cub", "cubé"] {
        assert_eq!(Selection::from_name(name), None, "{:?}", name);
    }
}

#[test]
fn selection_same_text_compares_whole_texts() {
    assert!(same_text("", ""));
    assert!(same_text("abc", "abc"));
    assert!(!same_text("abc", "abd"));
    assert!(!same_text("abc", "ab"));
    assert!(!same_text("ab", "abc"));
    assert!(same_text("é", "é"));
    assert!(!same_text("e", "é"));
}

#[test]
fn selection_file_names() {
    assert_eq!(SceneKind::Sphere.file_name(), "image/sphere.ppm");
    assert_eq!(SceneKind::Cube.file_name(), "image/cube.ppm");
    assert_eq!(SceneKind::Cylinder.file_name(), "image/cylinder.ppm");
    assert_eq!(SceneKind::Flat.file_name(), "image/flat-plane.ppm");
    assert_eq!(SceneKind::Scene.file_name(), "image/scene.ppm");
    assert_eq!(SceneKind::FlatAndCube.file_name(), "image/flat_and_cube.ppm");
}

#[test]
fn selection_file_names_in_a_batch() {
    assert_eq!(SceneKind::Flat.batch_file_name(), "image/plane.ppm");
    for kind in [SceneKind::Sphere, SceneKind::Cube, SceneKind::Cylinder, SceneKind::Scene, SceneKind::FlatAndCube] {
        assert_eq!(kind.batch_file_name(), kind.file_name());
    }
}

#[test]
fn selection_batch_order() {
    assert_eq!(
        batch_kinds(),
        vec![
            SceneKind::Cube,
            SceneKind::Cylinder,
            SceneKind::Sphere,
            SceneKind::Flat,
            SceneKind::Scene,
            SceneKind::FlatAndCube
        ]
    );
}

#[test]
fn selection_builds_the_scene_of_its_name() {
    let cases = [
        (SceneKind::Sphere, create_sphere_scene()),
        (SceneKind::Cube, create_cube_scene()),
        (SceneKind::Cylinder, create_cylinder_scene()),
        (SceneKind::Flat, create_plane_scene()),
        (SceneKind::Scene, create_world_with_scene()),
        (SceneKind::FlatAndCube, create_flat_plane_and_cube()),
    ];
    for (kind, expected) in cases {
        let world = kind.build();
        assert_eq!(world.objects.len(), expected.objects.len());
        let r = raytracer::ray::Ray::new(
            raytracer::vec3::Vec3::new(6_000_000, 8_000_000, -20_000_000),
            raytracer::vec3::Vec3::new(-5_229_360, -2_815_810, 8_045_180),
        );
        let a = world.hit(&r, 1_000, i64::MAX).map(|h| (h.t, h.p, h.normal, *h.mat));
        let b = expected.hit(&r, 1_000, i64::MAX).map(|h| (h.t, h.p, h.normal, *h.mat));
        assert_eq!(a, b);
    }
}
