//! A small verified ray tracer core.
//!
//! The renderer works over a fixed-point model of the real numbers: every
//! coordinate, colour channel and ray parameter is an `i64` holding the real
//! value scaled by `fixed::SCALE`. All geometry, shading and quantization is
//! carried out and verified over that representation; only the random source
//! and the parallel scanline iteration are trusted wrappers around outside
//! crates, and all file output lives with the caller.
//!
//! The general laws live beside the types they concern: dot-product symmetry,
//! cross-product antisymmetry, the binomial expansion of a sum's squared
//! length, the unit-vector length law and the reflection involution in
//! `vec3`; the head-on and aimed-away intersection laws in `sphere`; and the
//! closest-hit law in `hittable_list`.

pub mod fixed;
pub mod vec3;
pub mod ray;
pub mod interval;
pub mod color;
pub mod rtweekend;
pub mod material;
pub mod hittable;
pub mod sphere;
pub mod hittable_list;
pub mod camera;
