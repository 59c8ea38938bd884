//! An offline stochastic ray tracer over exact fixed-point arithmetic.
//!
//! All scalar quantities (coordinates, directions, tolerances, angles,
//! reflectances) are fixed-point numbers: `i64` values denoting the real
//! number `raw / SCALE`.  Every arithmetic step is an exactly specified
//! integer operation, so the whole render pipeline - camera sampling,
//! intersection search, recursive light transport, pixel averaging and the
//! image / mesh codecs - carries exact contracts.

pub mod camera;
pub mod color;
pub mod fx;
pub mod laws;
pub mod materials;
pub mod mesh;
pub mod numtext;
pub mod objects;
pub mod plane;
pub mod ppm;
pub mod ray;
mod rng;
pub mod sphere;
pub mod triangle;
pub mod vec3;
pub mod world;
