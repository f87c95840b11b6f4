//! A single-purpose image filter: composites two raster images through a
//! grid-of-circles mask whose circle diameter shrinks linearly from the top
//! of the image to the bottom.
//!
//! The mask arithmetic is carried out exactly, over rational numbers held as
//! integer numerator/denominator pairs, so every per-pixel decision is a pure
//! function of the pixel coordinates and the configured size ratio.

pub mod cli;
pub mod compose;
pub mod mask;
pub mod raster;
pub mod ratio;
