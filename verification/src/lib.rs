//! Text layout and glyph compositing planner.
//!
//! Given per-glyph metrics and coverage masks, this library computes the
//! exact sequence of blit operations needed to draw a line of text:
//! where each glyph lands, and the RGBA pixels of each glyph image.
//! Rasterization is delegated to a font engine; executing the blits is
//! left to whatever graphics backend the caller uses.

pub mod color;
pub mod glyph;
pub mod layout;

pub use color::Color;
