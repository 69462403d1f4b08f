//! Converts a raster image into per-pixel rectangle plot expressions for an
//! online graphing calculator, and assembles the calculator's save document.

pub mod text;
pub mod desmos;
pub mod hash;
pub mod json;
pub mod document;
pub mod upload;
