//! A path-tracing renderer over fixed-point arithmetic.
//!
//! Geometry and radiance are carried as 64-bit integers scaled by
//! `num::FX_ONE`, so that every stage of the pipeline — vector algebra,
//! ray/sphere intersection, closest-hit search, camera ray generation,
//! the bounce integrator, and the image encoders — has an exact
//! mathematical contract.

pub mod bmp;
pub mod camera;
pub mod format;
pub mod image;
pub mod num;
pub mod ppm;
pub mod ray;
pub mod render;
pub mod rng;
pub mod scene;
pub mod sphere;
pub mod vec3;
