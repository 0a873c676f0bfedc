//! Conversion of decoded raster images between pixel representations
//! (indexed-palette, grayscale, grayscale+alpha, RGB, RGBA) and derivation
//! of simple per-image features (mean brightness, a 15-bucket RGB colour
//! histogram) together with a textual histogram rendering.
//!
//! The container codec (reading and writing the compressed file format) is an
//! external collaborator: this crate only consumes and produces in-memory
//! image records.

pub mod color;
pub mod convert;
pub mod depalette;
pub mod error;
pub mod features;
pub mod image;
pub mod render;
