//! Inspect what a byte sequence looks like under a character encoding.
//!
//! A byte buffer is decoded into a sequence of units: each unit is either a
//! successfully decoded character together with the bytes it came from, or a
//! single byte that the encoding could not interpret.  The unit sequence can
//! then be rendered as column-aligned rows — the bytes as hex, the characters
//! as glyphs — and wrapped into lines of a bounded display width.

pub mod codec;
pub mod decoding;
pub mod hex;
pub mod unit;

pub use codec::DecodeError;
pub use codec::EncodingId;
pub use decoding::DecodedString;
pub use unit::Atom;
pub use unit::DecodedCharacter;
