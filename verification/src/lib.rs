//! Kernel convolution and per-pixel transforms over 8-bit raster images.
//!
//! An [`image::Image`] is a flat byte buffer with a width, a height and a
//! channel layout. The transforms of [`image`] (grayscale, channel split and
//! merge, threshold) and the convolution of [`filter`] never change their
//! input: each returns a fresh buffer. [`window`] holds the geometry of a
//! kernel laid on a pixel, [`kernels`] the kernels that come with the library,
//! [`error`] the ways in which an operation fails.
//!
//! Every operation expects images that are well formed, as [`image::Image::new`]
//! builds them and [`image::Image::is_valid`] tells.

pub mod error;
pub mod filter;
pub mod image;
pub mod kernels;
pub mod window;
