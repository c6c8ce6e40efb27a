//! A Monte Carlo path tracer over fixed-point arithmetic.
//!
//! Every scalar is a signed decimal fixed-point number held in an `i128`,
//! with one unit equal to `1 / 1_000_000`; all geometry, material
//! scattering and the recursive integrator are verified against exact
//! integer specifications of that arithmetic.

pub mod camera;
pub mod fp;
pub mod hit;
pub mod materials;
pub mod ray;
pub mod render;
pub mod rng;
pub mod utils;
pub mod vec;
