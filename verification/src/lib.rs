//! A raster image rendered as a grid of Unicode braille glyphs.
//!
//! The core is the braille pattern encoding: a 2-column by 4-row block of
//! on/off pixels becomes one of the 256 codepoints U+2800..=U+28FF and its
//! fixed three-byte UTF-8 encoding. Around it, a frame renderer samples a
//! dithered bitmap block by block, and a small state machine interprets
//! keyboard events that resize the requested grid.

pub mod braille;
pub mod render;
