//! Rotating cubes of points, bounced around a box and drawn as a grid of
//! coloured characters.
//!
//! - `fixed`: fixed-point scalars, products and quotients;
//! - `linalg`: vectors, 4x4 matrices, rotations, translations and
//!   projections, with the laws that relate them;
//! - `cube`: the cubes' point clouds, their motion and collision test,
//!   and their placement in view space;
//! - `raster`: projection, clipping and depth compositing into a frame;
//! - `spawn`: the random placement of cubes at start.
pub mod fixed;
pub mod linalg;
pub mod cube;
pub mod raster;
pub mod spawn;
