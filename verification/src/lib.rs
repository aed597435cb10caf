//! A path-tracing renderer over exact fixed-point arithmetic.
//!
//! Scene geometry, materials, the camera model and the shading integrator
//! all compute in signed 16.16 fixed-point numbers, so every operation has
//! an exact, deterministic mathematical meaning that the contracts state
//! and the verifier checks.

pub mod fixed;
pub mod rtweekend;
pub mod vec3;
pub mod ray;
pub mod interval;
pub mod color;
pub mod material;
pub mod sphere;
pub mod camera;
