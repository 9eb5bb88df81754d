//! A software triangle rasterizer that streams its frame buffer to a terminal
//! as inline images.
//!
//! Screen-space geometry is fixed point (see [`raster`]), the frame buffer is a
//! grid of [`color::Color`] cells with integer upscaling (see [`screen`]), and
//! frames leave the library as escape-coded graphics commands (see
//! [`protocol`]).
pub mod color;
pub mod mesh;
pub mod raster;
pub mod screen;
pub mod payload;
pub mod protocol;
pub mod session;
