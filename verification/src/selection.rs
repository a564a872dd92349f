//! What to render: the names by which the stock scenes are chosen, and the
//! files their pictures go to.
use crate::camera::Camera;
use crate::hittable::Hittable;
use crate::hittable_list::HittableList;
use crate::render::{Film, picture, render};
use crate::scenes::{
    ball_spec, box_spec, column_spec, create_cube_scene, create_cylinder_scene,
    create_flat_plane_and_cube, create_plane_scene, create_sphere_scene, create_world_with_scene,
    ground_spec, pane_spec,
};
use vstd::prelude::*;
use vstd::string::*;

verus! {

/// One of the stock scenes.
#[derive(Clone, Copy, Debug, PartialEq, Eq, Structural)]
pub enum SceneKind {
    Sphere,
    Cube,
    Cylinder,
    Flat,
    Scene,
    FlatAndCube,
}

/// A choice of what to render: one scene, or all of them.
#[derive(Clone, Copy, Debug, PartialEq, Eq, Structural)]
pub enum Selection {
    One(SceneKind),
    All,
}

/// Whether two texts are the same.
pub fn same_text(a: &str, b: &str) -> (same: bool)
    ensures
        same == (a@ == b@),
{
    let n = a.unicode_len();
    if n != b.unicode_len() {
        return false;
    }
    let mut i: usize = 0;
    while i < n
        invariant
            0 <= i <= n,
            n == a@.len(),
            n == b@.len(),
            forall|k: int| 0 <= k < i ==> a@[k] == b@[k],
        decreases n - i,
    {
        if a.get_char(i) != b.get_char(i) {
            return false;
        }
        i += 1;
    }
    proof {
        assert(a@ =~= b@);
    }
    true
}

impl SceneKind {
    /// The primitives of the scene, in the order in which they are added.
    pub open spec fn objects(self) -> Seq<Hittable> {
        match self {
            SceneKind::Sphere => seq![ground_spec(), ball_spec(200_000)],
            SceneKind::Cube => seq![ground_spec(), box_spec()],
            SceneKind::Cylinder => seq![ground_spec(), column_spec()],
            SceneKind::Flat => seq![ground_spec(), pane_spec()],
            SceneKind::Scene => seq![
                ground_spec(),
                box_spec(),
                column_spec(),
                ball_spec(0),
                pane_spec(),
            ],
            SceneKind::FlatAndCube => seq![ground_spec(), box_spec(), pane_spec()],
        }
    }

    /// The name by which the scene is chosen.
    pub open spec fn name(self) -> Seq<char> {
        match self {
            SceneKind::Sphere => "sphere"@,
            SceneKind::Cube => "cube"@,
            SceneKind::Cylinder => "cylinder"@,
            SceneKind::Flat => "flat"@,
            SceneKind::Scene => "scene"@,
            SceneKind::FlatAndCube => "flat_and_cube"@,
        }
    }

    /// The file name for the scene rendered alone.
    pub open spec fn file_name_spec(self) -> Seq<char> {
        match self {
            SceneKind::Sphere => "image/sphere.ppm"@,
            SceneKind::Cube => "image/cube.ppm"@,
            SceneKind::Cylinder => "image/cylinder.ppm"@,
            SceneKind::Flat => "image/flat-plane.ppm"@,
            SceneKind::Scene => "image/scene.ppm"@,
            SceneKind::FlatAndCube => "image/flat_and_cube.ppm"@,
        }
    }

    /// The file name for the scene rendered with all the others.
    pub open spec fn batch_file_name_spec(self) -> Seq<char> {
        match self {
            SceneKind::Flat => "image/plane.ppm"@,
            _ => self.file_name_spec(),
        }
    }

    /// Builds the scene.
    pub fn build(&self) -> (world: HittableList)
        ensures
            world.objects@ == self.objects(),
    {
        match self {
            SceneKind::Sphere => create_sphere_scene(),
            SceneKind::Cube => create_cube_scene(),
            SceneKind::Cylinder => create_cylinder_scene(),
            SceneKind::Flat => create_plane_scene(),
            SceneKind::Scene => create_world_with_scene(),
            SceneKind::FlatAndCube => create_flat_plane_and_cube(),
        }
    }

    /// The file that the picture of the scene goes to when the scene is
    /// rendered alone.
    pub fn file_name(&self) -> (name: &'static str)
        ensures
            name@ == self.file_name_spec(),
    {
        match self {
            SceneKind::Sphere => "image/sphere.ppm",
            SceneKind::Cube => "image/cube.ppm",
            SceneKind::Cylinder => "image/cylinder.ppm",
            SceneKind::Flat => "image/flat-plane.ppm",
            SceneKind::Scene => "image/scene.ppm",
            SceneKind::FlatAndCube => "image/flat_and_cube.ppm",
        }
    }

    /// The file that the picture of the scene goes to when all scenes are
    /// rendered. It is the same as for the scene alone, except for the
    /// flat scene.
    pub fn batch_file_name(&self) -> (name: &'static str)
        ensures
            name@ == self.batch_file_name_spec(),
    {
        match self {
            SceneKind::Flat => "image/plane.ppm",
            _ => self.file_name(),
        }
    }

}

impl Selection {
    /// The choice that `name` stands for, if it is one of the seven names.
    pub open spec fn named(name: Seq<char>) -> Option<Selection> {
        if name == "all"@ {
            Some(Selection::All)
        } else if name == SceneKind::Sphere.name() {
            Some(Selection::One(SceneKind::Sphere))
        } else if name == SceneKind::Cube.name() {
            Some(Selection::One(SceneKind::Cube))
        } else if name == SceneKind::Cylinder.name() {
            Some(Selection::One(SceneKind::Cylinder))
        } else if name == SceneKind::Flat.name() {
            Some(Selection::One(SceneKind::Flat))
        } else if name == SceneKind::Scene.name() {
            Some(Selection::One(SceneKind::Scene))
        } else if name == SceneKind::FlatAndCube.name() {
            Some(Selection::One(SceneKind::FlatAndCube))
        } else {
            None
        }
    }

    /// Reads a choice from its name. Any other text stands for nothing.
    pub fn from_name(name: &str) -> (choice: Option<Selection>)
        ensures
            choice == Self::named(name@),
    {
        if same_text(name, "all") {
            Some(Selection::All)
        } else if same_text(name, "sphere") {
            Some(Selection::One(SceneKind::Sphere))
        } else if same_text(name, "cube") {
            Some(Selection::One(SceneKind::Cube))
        } else if same_text(name, "cylinder") {
            Some(Selection::One(SceneKind::Cylinder))
        } else if same_text(name, "flat") {
            Some(Selection::One(SceneKind::Flat))
        } else if same_text(name, "scene") {
            Some(Selection::One(SceneKind::Scene))
        } else if same_text(name, "flat_and_cube") {
            Some(Selection::One(SceneKind::FlatAndCube))
        } else {
            None
        }
    }
}

/// The scenes that are rendered when all are asked for, in the order in
/// which they are rendered.
pub open spec fn batch() -> Seq<SceneKind> {
    seq![
        SceneKind::Cube,
        SceneKind::Cylinder,
        SceneKind::Sphere,
        SceneKind::Flat,
        SceneKind::Scene,
        SceneKind::FlatAndCube,
    ]
}

/// Lists [`batch`].
pub fn batch_kinds() -> (kinds: Vec<SceneKind>)
    ensures
        kinds@ == batch(),
{
    let mut kinds: Vec<SceneKind> = Vec::new();
    kinds.push(SceneKind::Cube);
    kinds.push(SceneKind::Cylinder);
    kinds.push(SceneKind::Sphere);
    kinds.push(SceneKind::Flat);
    kinds.push(SceneKind::Scene);
    kinds.push(SceneKind::FlatAndCube);
    proof {
        assert(kinds@ =~= batch());
    }
    kinds
}

/// The pictures of all the scenes of [`batch`], in that order, each
/// rendered with the same camera, film and seed.
pub fn render_all_individual_images(cam: &Camera, film: &Film, seed: u64) -> (images: Vec<Vec<u8>>)
    ensures
        images@.len() == batch().len(),
        forall|k: int|
            0 <= k < batch().len() ==> (#[trigger] images@[k])@ == picture(
                cam@,
                batch()[k].objects(),
                *film,
                seed,
            ),
{
    let kinds = batch_kinds();
    let mut images: Vec<Vec<u8>> = Vec::new();
    let mut i: usize = 0;
    while i < kinds.len()
        invariant
            0 <= i <= kinds.len(),
            kinds@ == batch(),
            images@.len() == i,
            forall|k: int|
                0 <= k < i ==> (#[trigger] images@[k])@ == picture(
                    cam@,
                    batch()[k].objects(),
                    *film,
                    seed,
                ),
        decreases kinds.len() - i,
    {
        let world = kinds[i].build();
        images.push(render(cam, &world, film, seed));
        i += 1;
    }
    images
}

} // verus!
