//! Randomized ordered dithering of RGBA images.
//!
//! A square matrix of random thresholds is tiled over an image; every pixel
//! whose luma lies below its threshold is replaced, either by a flat colour
//! or by the pixel of a second image at the same place.

pub mod compose;
pub mod dither;
pub mod entropy;
pub mod error;
pub mod matrix;
pub mod raster;

pub use crate::compose::{add_layer, compose, random_dither};
pub use crate::dither::{black_dither, composite, layer_dither, Mode};
pub use crate::error::DitherError;
pub use crate::matrix::{create_matrix, matrix_from_words, Matrix};
pub use crate::raster::{Color, Image};
