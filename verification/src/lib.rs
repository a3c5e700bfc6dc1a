//! Image editing operations (mirroring, rotation, zooming, luminance,
//! tone quantization, histograms and 3x3 convolution) over an in-memory
//! raster whose pixels are seen as 8-bit RGBA samples.
pub mod raster;
pub mod point;
pub mod geometry;
pub mod convolution;
pub mod histogram;
pub mod operations;
pub mod saving;
pub mod codec;
