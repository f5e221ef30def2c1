//! Decoding of TrueType font files into glyph outlines and a
//! codepoint-to-glyph mapping, and what a viewer needs to put them on the
//! screen.
//!
//! The table directory is parsed first; glyph outlines and the character
//! map are then decoded from the tables it names. Every read of the font
//! buffer is bounds-checked and reported as [`error::FontError`].
//!
//! For a viewer, [`text`] keeps the text that is typed and places the
//! glyph of each character, and [`buffers`] packs glyphs into the lists of
//! numbers that a shader reads.

pub mod buffers;
pub mod cmap;
pub mod error;
pub mod font_loader;
pub mod glyph;
pub mod outline;
pub mod text;
pub mod utils;
