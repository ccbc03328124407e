//! The skeleton of a path tracer for scenes of spheres.
//!
//! A path tracer is sums, products and square roots of doubles, and between
//! them decisions and loops: which of two roots is the hit, which member of
//! the scene is hit first, whether a ray is scattered or swallowed, how a
//! path goes on from hit to hit and when it ends, what whole number a
//! brightness is written as, in which order the pixels are written. This
//! library is the decisions and the loops. It holds every double by its
//! bits and compares doubles by their bits. The arithmetic is its caller's:
//! the caller implements `Hittable` and `Material` with it, and the library
//! asks through them.

pub mod color;
pub mod hittable;
pub mod integrator;
pub mod material;
pub mod math;
pub mod raster;
pub mod ray;
pub mod scalar;
pub mod vec3;
