//! A 2D vector type for geometry code, with fixed-point components.
//!
//! Components are stored as signed 64-bit counts of billionths of a unit,
//! so every operation has an exact integer meaning that is stated in its
//! contract.  Equality between vectors is tolerance-based: two vectors are
//! equal when each pair of components differs by less than one millionth
//! of a unit.

pub mod arith;
pub mod laws;
pub mod vector;
