//! Binary morphological image processing on a rectangular raster of boolean
//! pixels: dilation and erosion against a rectangular kernel.
//!
//! - `grid` holds the image, [`Vec2d`], and `raster` its mathematical model.
//! - `footprint` says which pixels lie under a kernel, and `engine` runs the
//!   neighbourhood test over an image: [`dilate`] and [`erode`].
//! - `laws` states what holds of dilation and erosion in general.
//! - `text` renders an image as lines of `'0'` and `'1'`.

pub mod engine;
pub mod footprint;
pub mod grid;
pub mod laws;
pub mod raster;
pub mod text;

pub use engine::{check_neighbours, dilate, erode};
pub use grid::Vec2d;
