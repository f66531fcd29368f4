//! Software rasterizer: the wire format, the textures and the damage planning.
//!
//! Coordinates are IEEE-754 single precision numbers and are held as their bit
//! patterns, so that everything that compares or rounds them is exact.

pub mod band;
pub mod bands;
pub mod codec;
pub mod float;
pub mod measure;
pub mod meta;
pub mod rect;
pub mod redraw;
pub mod renderer;
pub mod triangle;
pub mod winding;
pub mod wire;
