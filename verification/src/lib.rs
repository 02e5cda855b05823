//! A small ray tracer verified with Verus.
//!
//! Scalars are fixed-point numbers: signed 64-bit multiples of `1/SCALE`.
//! Every geometric operation carries an exact contract over the mathematical
//! integers, so the whole intersection / shading / bounce kernel is verified
//! down to the rounding of each product.

pub mod camera;
pub mod fixed;
pub mod hittable;
pub mod materials;
pub mod ray;
pub mod render;
pub mod rng;
pub mod scene;
pub mod shapes;
pub mod utilities;
pub mod vector;
