//! Diffusion-limited aggregation on a small rectangular grid.
//!
//! Particles wander over the grid one cell at a time and freeze for good as
//! soon as they touch the frozen structure that grows from a single seed.

pub mod board;
pub mod cell;
pub mod chance;
pub mod driver;
pub mod grid;
pub mod laws;
pub mod store;
pub mod text;
