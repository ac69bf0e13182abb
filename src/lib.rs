//! Halftone rendering: a source raster is tiled into square cells, and each
//! cell receives an ink pattern whose density follows the source pixel's
//! coverage (and, for the hue-multiplexed style, its hue).
//!
//! The library decides every mark that a cell receives; drawing those marks
//! onto a raster is left to the caller.

pub mod pixel;
pub mod random;
pub mod mask;
pub mod halton;
pub mod pattern;
pub mod compose;
