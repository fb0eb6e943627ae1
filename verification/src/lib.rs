//! A Monte-Carlo path tracer core over fixed-point arithmetic.
//!
//! Scenes of spheres with diffuse, metallic and dielectric materials are
//! intersected by time-stamped rays, either through a flat list or through a
//! bounding-volume hierarchy, and a recursive integrator accumulates the
//! colour carried by each sampled light path.

pub mod fixed;
pub mod vec3;
pub mod interval;
pub mod ray;
pub mod hitrecord;
pub mod aabb;
pub mod texture;
pub mod color;
pub mod rng;
pub mod material;
pub mod hit;
pub mod sphere;
pub mod movingsphere;
pub mod bvh;
pub mod camera;
pub mod render;
