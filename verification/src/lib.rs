//! Core of an offline Monte-Carlo path tracer.
//!
//! All geometry and radiance arithmetic is carried out in signed 64-bit
//! fixed-point numbers with [`SCALE`] fractional steps per unit, so that
//! every routine has an exact, machine-checked contract.

use vstd::prelude::*;

pub mod fx;
pub mod vec3;
pub mod rng;
pub mod ray;
pub mod aabb;
pub mod sphere;
pub mod bvh;
pub mod texture;
pub mod material;
pub mod camera;
pub mod integrator;

verus! {

/// Number of fixed-point steps per real unit.
pub const SCALE: i64 = 65536;

} // verus!
