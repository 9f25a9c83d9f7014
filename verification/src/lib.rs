//! A small Monte-Carlo path tracer over fixed-point arithmetic.
//!
//! Geometry and color are carried as signed 64-bit fixed-point numbers with
//! sixteen fractional bits, so every arithmetic step of the renderer has an
//! exact integer meaning that the contracts below pin down: vector algebra,
//! ray-sphere intersection, nearest-hit scene aggregation, the three surface
//! materials, camera ray generation, the bounce-bounded path integrator, and
//! plain-text image serialization.

pub mod fx;
pub mod vec3;
pub mod ray;
pub mod hit;
pub mod material;
pub mod sphere;
pub mod hittable_list;
pub mod rng;
pub mod color;
pub mod camera;
pub mod render;
pub mod ppm;
pub mod scene;
pub mod arg;
