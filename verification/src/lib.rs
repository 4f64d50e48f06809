//! A stochastic path tracer over fixed-point arithmetic.
//!
//! Scalars are signed 64-bit integers scaled by `fixed::FX_ONE`: the integer
//! `v` stands for the real number `v / FX_ONE`.  All geometry, shading and
//! radiance computation is carried out on this grid, so every function's
//! behaviour is stated exactly in its contract.

pub mod camera;
pub mod fixed;
pub mod hittable;
pub mod laws;
pub mod material;
pub mod world;
pub mod random;
pub mod tracer;
pub mod vec3;

use vstd::prelude::*;

verus! {

} // verus!
