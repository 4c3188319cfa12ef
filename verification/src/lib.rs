//! A small ray caster over exact fixed-point arithmetic.
//!
//! For each pixel of an image a ray is cast from the eye through the view
//! plane and tested against spheres; where it hits, the ray that the sphere
//! reflects tells how bright the pixel is.
//!
//! Every number is a signed fixed-point value with 40 fractional bits
//! ([`fixed::Fixed`]), so that each operation has a precise integer meaning
//! and every function of the crate is a total, deterministic function of
//! its arguments: nothing fails, results that do not fit saturate, and
//! quotients round toward zero. Directions are brought to unit length
//! whatever their length, to within one raw unit in each coordinate.
//!
//! - [`isqrt`]: integer square roots.
//! - [`fixed`], [`fixed_lemmas`]: the numbers and what holds of them.
//! - [`geometry`]: vectors, rays, spheres, the camera, scenes and colors,
//!   each with a module of lemmas beside it.
pub mod fixed;
pub mod fixed_lemmas;
pub mod geometry;
pub mod isqrt;
