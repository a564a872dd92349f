//! A Monte Carlo path tracer over fixed-point numbers: ray and primitive
//! intersection, material scattering, a thin-lens camera and the
//! light-transport integrator.
//!
//! # Numbers
//!
//! Every coordinate, length, colour channel and ray parameter is an `i64`
//! that counts millionths: [`fixed::ONE`] stands for 1.0. Products are
//! formed exactly in 128 bits and rounded toward zero once, when they are
//! brought back to that scale. Dot products and squared lengths stay exact
//! and carry the scale `ONE * ONE`.
//!
//! # The world
//!
//! Points lie within [`ray::WORLD_MAX`] of the origin on every axis and ray
//! directions within [`ray::DIR_MAX`]. Whatever falls outside is treated as
//! not there: a primitive out of range is never hit, a hit out of range is
//! no hit, and a material out of range absorbs. Nothing overflows and
//! nothing panics.
//!
//! # Contracts
//!
//! Each type has a model over the mathematical integers ([`vec3::V3`],
//! [`ray::RayModel`], [`hittable::HitModel`], ...), and each operation is
//! specified by a function on the models that says what it computes,
//! rounding included. What holds of these functions in general, such as
//! that normals have unit length or that the scene reports the nearest
//! hit, is proved beside them.
//!
//! # Chance
//!
//! Random numbers come from a seeded [`random::RandomStream`] that is
//! handed to whatever needs them, so that a picture is a function of the
//! scene, the camera and the seed.
pub mod camera;
pub mod color;
pub mod cube;
pub mod cylindre;
pub mod fixed;
pub mod hittable;
pub mod hittable_list;
pub mod integrator;
pub mod light;
pub mod material;
pub mod plane;
pub mod ppm;
pub mod quadratic;
pub mod random;
pub mod ray;
pub mod rectangle;
pub mod render;
pub mod scenes;
pub mod selection;
pub mod sphere;
pub mod vec3;
