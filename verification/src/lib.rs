//! A verified grayscale raster library.
//!
//! The library offers a row-major 8-bit image container with exact bilinear
//! rescaling by a rational factor, a pixel-format normalization pipeline that
//! maps typed sample buffers to 8-bit grayscale, and the page-navigation
//! arithmetic used by a display layer.

pub mod dispatch;
pub mod image;
pub mod normalize;
pub mod viewer;
