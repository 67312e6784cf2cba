//! Snap colors onto a fixed palette: palette file formats, palette lookup,
//! the integer side of pixel quantization and dithering, and the decisions
//! about where and how output is written.

pub mod encode;
pub mod files;
pub mod laws;
pub mod palette;
pub mod paths;
pub mod quantize;
pub mod text;
