//! Conversion of raster images into Game Boy 2-bits-per-pixel tile data.

pub mod color;
pub mod emit;
pub mod image;
pub mod palette;
pub mod tile;
