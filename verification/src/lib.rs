//! A first-person tile-grid raycasting core.
//!
//! The library resolves where a ray cast through a rectangular tile grid
//! first strikes a surface (solid cubes, doors, thin and thick walls,
//! pillars, diagonals), animates door state, and slides a moving disk
//! along static segment obstacles.  All geometry is computed exactly over
//! scaled integers and rational numbers, so every result is deterministic
//! and free of rounding surprises; callers working in floating point
//! convert at the boundary.

pub mod fixed;
pub mod door;
pub mod collision;
pub mod map;
pub mod shape;
pub mod raycast;
pub mod texture;
pub mod render;

pub use fixed::{Frac, SCALE};
