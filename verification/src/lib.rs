//! A text shaping engine: it turns a run of styled text into positioned
//! glyphs, with font fallback, and keeps what a line breaker needs to reuse
//! the result for parts of the text.
//!
//! Text is shaped by [`shaped::shape`], which gives a [`shaped::ShapedText`].
//! A run can be measured, cut into parts that share its glyphs where that is
//! safe, given a hyphen, and built into a [`frame::Frame`].
//!
//! The engine decides; it does not run the OpenType shaper. Where it needs
//! a text shaped with a face, it stops with a [`shaper::Request`]. The
//! caller runs the shaper on that text, adds what it made to the results,
//! and starts the engine again with them, until the run is done. What the
//! engine gives is stated over those results, whatever they hold, and
//! glyphs that do not describe their text are not used.
//!
//! Lengths are fixed-point numbers that saturate ([`geom`]); clusters are
//! byte offsets into UTF-8 text ([`text`]).
//!
//! Everything here is verified but for four calls that are taken on trust:
//! the lookup of a character's glyph and of a glyph's advance in a font
//! file ([`font`]), and the two changes of letter case ([`style`]).

pub mod adjust;
pub mod font;
pub mod frame;
pub mod geom;
pub mod measure;
pub mod shaped;
pub mod shaper;
pub mod shaping;
pub mod style;
pub mod text;
