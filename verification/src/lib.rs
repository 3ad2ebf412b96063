//! A path tracer whose geometric and radiometric core is verified.
//!
//! All scalar quantities (coordinates, colors, ray parameters, times) are
//! fixed-point numbers: an `i64` holding the real value scaled by `SCALE`.
//! Every operation on them is exact integer arithmetic, so contracts can
//! pin results down to the bit.

pub mod fx;
pub mod rng;
pub mod vec3;
pub mod ray;
pub mod aabb;
pub mod hit;
pub mod sphere;
pub mod bvh;
pub mod util;
pub mod texture;
pub mod material;
pub mod camera;
pub mod trace;
pub mod render;
