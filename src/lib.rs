//! Procedural generation of a multi-floor house layout on a fixed 3D tile grid,
//! and the neighbourhood rules that turn that grid into structural placements.

pub mod decorator;
pub mod generator;
pub mod grid;
mod random;
pub mod util;
