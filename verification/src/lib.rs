//! The verified core of a Monte Carlo path tracer.
//!
//! Scalars are IEEE-754 single-precision numbers carried by their bit
//! patterns. The library decides everything that is a matter of order,
//! structure and indexing: the bounding-volume hierarchy and its traversal,
//! the slab test, the closest-hit scan, the noise lattice, texel lookup and
//! the bookkeeping of pixels and paths. Arithmetic on scalars is the caller's
//! business: the library hands out questions and takes the answers back.

pub mod aabb;
pub mod bvh_node;
pub mod closest;
pub mod hitable;
pub mod material;
pub mod perlin;
pub mod renderer;
mod sampling;
pub mod scalar;
pub mod scene;
pub mod sorting;
pub mod sphere;
pub mod texture;
pub mod traversal;
pub mod vec;
pub mod xy_rect;
