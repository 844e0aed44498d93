//! Renders a raster image as a grid of text glyphs.
//!
//! The core is a pure conversion pipeline: an image is cut into rectangular
//! tiles, each tile's sampled pixels are averaged, the average is mapped to a
//! perceptual lightness value, and the lightness selects a glyph from a fixed
//! ramp of characters ordered from darkest to brightest.  Around that core sit
//! small verified helpers for resolving a comic source to an image URL and for
//! styling the rendered cells.

pub mod ascii;
pub mod glyph;
pub mod luminance;
pub mod opt;
pub mod raster;
pub mod render;
pub mod source;
pub mod roots;
