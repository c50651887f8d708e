//! The encoding capability: the supported character encodings and the
//! trusted boundary to the `encoding` crate that implements them.
//!
//! Decoding and re-encoding are deterministic, so what the crate returns is
//! described by two named functions of the inputs, [`decode_step_of`] and
//! [`char_encoding`], about which the wrappers below state only what the
//! crate's source shows.

use vstd::prelude::*;

verus! {

/// Identifies one of the supported character encodings.
///
/// `Latin1` is the Latin-1 family label; as in the WHATWG encoding standard,
/// it resolves to the windows-1252 code page.
#[derive(Clone, Copy, PartialEq, Eq, Structural, Debug)]
pub enum EncodingId {
    Utf8,
    Latin1,
}

impl EncodingId {
    /// The canonical name of the encoding, as reported by its implementation.
    pub open spec fn name_spec(self) -> Seq<char> {
        match self {
            EncodingId::Utf8 => "utf-8"@,
            EncodingId::Latin1 => "windows-1252"@,
        }
    }

    /// The canonical name of the encoding.
    pub fn name(&self) -> (r: &'static str)
        ensures
            r@ == self.name_spec(),
    {
        match self {
            EncodingId::Utf8 => "utf-8",
            EncodingId::Latin1 => "windows-1252",
        }
    }
}

/// A fault of the encoding capability itself.  Per-byte decode failures are
/// not errors: they become invalid units inline.  No such fault arises for
/// the supported encodings, so decoding in fact always succeeds.
#[derive(Clone, Copy, Debug)]
pub struct DecodeError;

/// What one decode pass returns for a given encoding and byte sequence: the
/// characters decoded from an initial run of the bytes, and the offset of the
/// first byte that was not turned into a character.  Deterministic, hence a
/// function of the arguments alone.
pub uninterp spec fn decode_step_of(enc: EncodingId, bytes: Seq<u8>) -> (Seq<char>, nat);

/// The bytes that one character encodes to under an encoding, with an
/// unrepresentable character falling back to the replacement policy.
/// Deterministic, hence a function of the arguments alone.
pub uninterp spec fn char_encoding(enc: EncodingId, c: char) -> Seq<u8>;

/// A character sequence encoded character by character, in order.
pub open spec fn encode_all(enc: EncodingId, chars: Seq<char>) -> Seq<u8>
    decreases chars.len(),
{
    if chars.len() == 0 {
        Seq::empty()
    } else {
        char_encoding(enc, chars[0]) + encode_all(enc, chars.skip(1))
    }
}

/// Relies on the `encoding` crate's `Encoding::raw_decoder` and
/// `RawDecoder::raw_feed`: feeding a byte slice to a fresh decoder pushes the
/// characters decoded from an initial run of the slice and returns the offset
/// of the first byte not decoded (`bytes.len()` when every byte was).  For
/// the supported encodings the decoded characters re-encode, in order, to
/// exactly that initial run, and the outcome depends on the encoding and the
/// bytes alone.
#[verifier::external_body]
pub(crate) fn decode_step(enc: EncodingId, bytes: &[u8]) -> (r: (Vec<char>, usize))
    ensures
        (r.0@, r.1 as nat) == decode_step_of(enc, bytes@),
        r.1 <= bytes@.len(),
        encode_all(enc, r.0@) == bytes@.subrange(0, r.1 as int),
{
    let e: encoding::types::EncodingRef = match enc {
        EncodingId::Utf8 => encoding::all::UTF_8,
        EncodingId::Latin1 => encoding::all::WINDOWS_1252,
    };
    let mut out = String::new();
    let (offset, _) = e.raw_decoder().raw_feed(bytes, &mut out);
    (out.chars().collect(), offset)
}

/// Relies on the `encoding` crate's `Encoding::encode` with the replacement
/// trap: for the supported encodings it never fails, one character becomes
/// one to four bytes, and the bytes depend on the encoding and the character
/// alone.  Under UTF-8 the encoder writes out the character's own UTF-8
/// bytes, which are the standard encoding of its scalar value.
#[verifier::external_body]
pub(crate) fn encode_char(enc: EncodingId, c: char) -> (r: Vec<u8>)
    ensures
        r@ == char_encoding(enc, c),
        1 <= r@.len() <= 4,
        enc == EncodingId::Utf8 ==> r@ == vstd::utf8::encode_scalar(c as u32),
{
    let e: encoding::types::EncodingRef = match enc {
        EncodingId::Utf8 => encoding::all::UTF_8,
        EncodingId::Latin1 => encoding::all::WINDOWS_1252,
    };
    e.encode(&c.to_string(), encoding::EncoderTrap::Replace).unwrap()
}

/// Relies on `String`'s `FromIterator<char>` implementation: collecting
/// characters builds the string of exactly those characters, in order.
#[verifier::external_body]
pub(crate) fn chars_to_string(chars: &Vec<char>) -> (r: String)
    ensures
        r@ == chars@,
{
    chars.iter().collect()
}

} // verus!
