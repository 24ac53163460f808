//! Converts a monochrome bitmap holding a grid of fixed-size font glyphs into
//! packed byte arrays, rendered as source code in one of several dialects.
//!
//! The pipeline: a pixel source (`image`) answers boolean pixel queries over a
//! decoded raster, the bit packer (`convert`) walks the glyph grid and packs
//! each glyph row into bytes, and the format emitter (`bytewriter`) renders the
//! structural tokens of the chosen output dialect around those bytes.
#![allow(unused_imports)]

pub mod bytewriter;
pub mod config;
pub mod convert;
pub mod image;
pub mod numfmt;
