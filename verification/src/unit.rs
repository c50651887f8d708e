//! One decoded logical unit: either a character together with the bytes it
//! was decoded from, or a single byte the encoding could not interpret.

use vstd::prelude::*;

use crate::codec::char_encoding;
use crate::codec::encode_char;
use crate::codec::chars_to_string;
use crate::codec::EncodingId;
use crate::hex::bytes_hex;
use crate::hex::codepoint_hex;
use crate::hex::codepoint_hex_chars;
use crate::hex::lemma_bytes_hex_len;
use crate::hex::push_byte_hex;

verus! {

/// The mathematical value of a [`DecodedCharacter`].
pub struct CharacterView {
    pub character: char,
    pub bytes: Seq<u8>,
}

/// The mathematical value of an [`Atom`].
pub enum AtomView {
    Character(CharacterView),
    InvalidCodeUnit(u8),
}

/// A character that has been decoded from some bytes of the input.
#[derive(Debug, Clone)]
pub struct DecodedCharacter {
    pub character: char,
    pub bytes: Vec<u8>,
}

/// One decoded unit.  On a decoding error the first invalid byte is captured
/// as its own unit and decoding continues after it.
#[derive(Debug, Clone)]
pub enum Atom {
    Character(DecodedCharacter),
    InvalidCodeUnit(u8),
}

impl View for DecodedCharacter {
    type V = CharacterView;

    open spec fn view(&self) -> CharacterView {
        CharacterView { character: self.character, bytes: self.bytes@ }
    }
}

impl View for Atom {
    type V = AtomView;

    open spec fn view(&self) -> AtomView {
        match self {
            Atom::Character(c) => AtomView::Character(c@),
            Atom::InvalidCodeUnit(b) => AtomView::InvalidCodeUnit(*b),
        }
    }
}

/// A run of `n` spaces.
pub open spec fn spaces(n: nat) -> Seq<char> {
    Seq::new(n, |i: int| ' ')
}

/// `s` padded on the right with spaces to width `w`; text wider than `w`
/// stays as it is.
pub open spec fn space_pad(s: Seq<char>, w: nat) -> Seq<char> {
    if s.len() >= w {
        s
    } else {
        s + spaces((w - s.len()) as nat)
    }
}

/// The escape-sequence rendering of one of the three escapable control
/// characters: tab, carriage return, newline.
pub open spec fn escape_text(c: char) -> Seq<char> {
    seq!['\\', if c == '\t' { 't' } else if c == '\r' { 'r' } else { 'n' }]
}

/// Whether a character is rendered as itself: printable ASCII, space through
/// tilde.
pub open spec fn is_printable_ascii(c: char) -> bool {
    0x20 <= c as u32 <= 0x7e
}

/// Whether a character is rendered as an escape sequence.
pub open spec fn is_escapable(c: char) -> bool {
    c == '\t' || c == '\r' || c == '\n'
}

/// The glyph rendering of a decoded character at width `w`: escapable
/// controls as their escape sequence and a space, printable ASCII as itself,
/// anything else as its codepoint in hex and a space; all padded to `w`.
pub open spec fn char_glyph(c: char, w: nat) -> Seq<char> {
    if is_escapable(c) {
        space_pad(escape_text(c) + seq![' '], w)
    } else if is_printable_ascii(c) {
        space_pad(seq![c], w)
    } else {
        space_pad(codepoint_hex(c as u32 as nat) + seq![' '], w)
    }
}

impl CharacterView {
    /// Validity: the source bytes are never empty, and the unit's width in
    /// display columns fits the machine word.
    pub open spec fn wf(self) -> bool {
        1 <= self.bytes.len() && 3 * self.bytes.len() <= usize::MAX
    }

    /// Display columns needed for the unit: three per source byte.
    pub open spec fn width(self) -> int {
        3 * self.bytes.len() as int
    }
}

impl AtomView {
    pub open spec fn wf(self) -> bool {
        match self {
            AtomView::Character(c) => c.wf(),
            AtomView::InvalidCodeUnit(_) => true,
        }
    }

    /// Display columns needed for the unit; an invalid unit renders as the
    /// single-width replacement placeholder and a space.
    pub open spec fn width(self) -> int {
        match self {
            AtomView::Character(c) => c.width(),
            AtomView::InvalidCodeUnit(_) => 2,
        }
    }

    /// The bytes of the input this unit stands for.
    pub open spec fn bytes(self) -> Seq<u8> {
        match self {
            AtomView::Character(c) => c.bytes,
            AtomView::InvalidCodeUnit(b) => seq![b],
        }
    }

    /// The unit's row of hex bytes.
    pub open spec fn bytes_text(self) -> Seq<char> {
        bytes_hex(self.bytes())
    }

    /// The unit's glyph row: an invalid unit shows the replacement
    /// placeholder and a space.
    pub open spec fn glyph(self) -> Seq<char> {
        match self {
            AtomView::Character(c) => char_glyph(c.character, (3 * c.bytes.len()) as nat),
            AtomView::InvalidCodeUnit(_) => seq!['\u{FFFD}', ' '],
        }
    }

    /// The unit as a plain character: the decoded character, or the
    /// replacement character for an invalid unit.
    pub open spec fn character(self) -> char {
        match self {
            AtomView::Character(c) => c.character,
            AtomView::InvalidCodeUnit(_) => '\u{FFFD}',
        }
    }
}

/// The concatenated source bytes of a unit sequence.
pub open spec fn units_bytes(s: Seq<AtomView>) -> Seq<u8>
    decreases s.len(),
{
    if s.len() == 0 {
        Seq::empty()
    } else {
        s[0].bytes() + units_bytes(s.skip(1))
    }
}

pub proof fn lemma_units_bytes_concat(a: Seq<AtomView>, b: Seq<AtomView>)
    ensures
        units_bytes(a + b) == units_bytes(a) + units_bytes(b),
    decreases a.len(),
{
    if a.len() == 0 {
        assert(a + b =~= b);
        assert(units_bytes(a) + units_bytes(b) =~= units_bytes(b));
    } else {
        lemma_units_bytes_concat(a.skip(1), b);
        assert((a + b).skip(1) =~= a.skip(1) + b);
        assert(units_bytes(a + b) =~= units_bytes(a) + units_bytes(b));
    }
}

pub proof fn lemma_units_bytes_push(s: Seq<AtomView>, a: AtomView)
    ensures
        units_bytes(s.push(a)) == units_bytes(s) + a.bytes(),
{
    assert(s.push(a) =~= s + seq![a]);
    lemma_units_bytes_concat(s, seq![a]);
    assert(seq![a].skip(1) =~= Seq::<AtomView>::empty());
    assert(units_bytes(Seq::<AtomView>::empty()) =~= Seq::<u8>::empty());
    assert(units_bytes(seq![a]) =~= a.bytes() + units_bytes(seq![a].skip(1)));
    assert(units_bytes(seq![a]) =~= a.bytes());
}

/// Copies a byte vector element by element.
pub(crate) fn copy_bytes(v: &Vec<u8>) -> (r: Vec<u8>)
    ensures
        r@ == v@,
{
    let mut r: Vec<u8> = Vec::new();
    let mut i: usize = 0;
    while i < v.len()
        invariant
            i <= v@.len(),
            r@ == v@.subrange(0, i as int),
        decreases v@.len() - i,
    {
        r.push(v[i]);
        i = i + 1;
        assert(r@ =~= v@.subrange(0, i as int));
    }
    assert(r@ =~= v@);
    r
}

/// Appends spaces until the text is `w` columns wide.
pub(crate) fn pad_to(out: &mut Vec<char>, w: usize)
    ensures
        final(out)@ == space_pad(old(out)@, w as nat),
{
    while out.len() < w
        invariant
            out@.len() <= old(out)@.len() || out@.len() <= w,
            out@ == space_pad(old(out)@, out@.len() as nat),
        decreases w - out@.len(),
    {
        out.push(' ');
        assert(out@ =~= space_pad(old(out)@, out@.len() as nat));
    }
    assert(final(out)@ =~= space_pad(old(out)@, w as nat));
}

impl DecodedCharacter {
    /// Decodes gave us `character`; recover the exact byte span it came from
    /// by encoding it again under the same encoding.  This is the stated
    /// byte-provenance step: it attributes the right bytes exactly when
    /// encoding is the left inverse of decoding, which holds for the
    /// supported encodings.
    pub fn new(character: char, encoding: EncodingId) -> (r: DecodedCharacter)
        ensures
            r@ == (CharacterView { character, bytes: char_encoding(encoding, character) }),
            r@.wf(),
            encoding == EncodingId::Utf8 ==> r@.bytes == vstd::utf8::encode_scalar(
                character as u32,
            ),
    {
        let bytes_for_character = encode_char(encoding, character);
        DecodedCharacter { character, bytes: bytes_for_character }
    }

    /// The number of columns required to format this character in the output.
    pub fn width(&self) -> (w: usize)
        requires
            self@.wf(),
        ensures
            w == self@.width(),
    {
        self.bytes.len() * 3
    }

    /// The character formatted for the glyph row: escapable controls as
    /// escape sequences, printable ASCII as itself, anything else as its
    /// codepoint in lowercase hex; padded to the unit's width.
    pub fn format_character(&self) -> (r: String)
        requires
            self@.wf(),
        ensures
            r@ == char_glyph(self@.character, (3 * self@.bytes.len()) as nat),
    {
        let chars = self.format_character_chars();
        chars_to_string(&chars)
    }

    /// The glyph-row text of the character, as characters.
    pub(crate) fn format_character_chars(&self) -> (r: Vec<char>)
        requires
            self@.wf(),
        ensures
            r@ == char_glyph(self@.character, (3 * self@.bytes.len()) as nat),
    {
        let char_size = self.width();
        let character = self.character;
        let mut out: Vec<char> = Vec::new();
        if character == '\t' || character == '\r' || character == '\n' {
            out.push('\\');
            out.push(
                if character == '\t' {
                    't'
                } else if character == '\r' {
                    'r'
                } else {
                    'n'
                },
            );
            out.push(' ');
            assert(out@ =~= escape_text(character) + seq![' ']);
        } else if character as u32 >= 0x20 && character as u32 <= 0x7e {
            out.push(character);
            assert(out@ =~= seq![character]);
        } else {
            let mut digits = codepoint_hex_chars(character as u32);
            out.append(&mut digits);
            out.push(' ');
            assert(out@ =~= codepoint_hex(character as u32 as nat) + seq![' ']);
        }
        pad_to(&mut out, char_size);
        out
    }

    /// The byte span of the character rendered as hex.
    pub fn format_bytes(&self) -> (r: String)
        ensures
            r@ == bytes_hex(self@.bytes),
    {
        let chars = self.format_bytes_chars();
        chars_to_string(&chars)
    }

    /// The hex-row text of the character, as characters.
    pub(crate) fn format_bytes_chars(&self) -> (r: Vec<char>)
        ensures
            r@ == bytes_hex(self@.bytes),
    {
        let mut buffer: Vec<char> = Vec::new();
        let mut i: usize = 0;
        while i < self.bytes.len()
            invariant
                i <= self.bytes@.len(),
                buffer@ == bytes_hex(self.bytes@.subrange(0, i as int)),
            decreases self.bytes@.len() - i,
        {
            proof {
                crate::hex::lemma_bytes_hex_push(
                    self.bytes@.subrange(0, i as int),
                    self.bytes@[i as int],
                );
                assert(self.bytes@.subrange(0, i as int).push(self.bytes@[i as int])
                    =~= self.bytes@.subrange(0, i + 1));
            }
            push_byte_hex(&mut buffer, self.bytes[i]);
            i = i + 1;
        }
        assert(self.bytes@.subrange(0, self.bytes@.len() as int) =~= self.bytes@);
        buffer
    }
}

impl Atom {
    /// The byte representation of the unit rendered as hex.
    pub fn format_bytes(&self) -> (r: String)
        ensures
            r@ == self@.bytes_text(),
    {
        let chars = self.format_bytes_chars();
        chars_to_string(&chars)
    }

    /// The hex-row text of the unit, as characters.
    pub(crate) fn format_bytes_chars(&self) -> (r: Vec<char>)
        ensures
            r@ == self@.bytes_text(),
    {
        match self {
            Atom::Character(c) => c.format_bytes_chars(),
            Atom::InvalidCodeUnit(b) => {
                let mut buffer: Vec<char> = Vec::new();
                push_byte_hex(&mut buffer, *b);
                proof {
                    assert(bytes_hex(seq![*b].skip(1)) =~= bytes_hex(Seq::<u8>::empty()));
                    assert(bytes_hex(Seq::<u8>::empty()) =~= Seq::<char>::empty());
                    assert(buffer@ =~= bytes_hex(seq![*b]));
                }
                buffer
            },
        }
    }

    /// The unit formatted for the glyph row; an invalid unit renders as the
    /// replacement placeholder and a space.
    pub fn format_character(&self) -> (r: String)
        requires
            self@.wf(),
        ensures
            r@ == self@.glyph(),
    {
        let chars = self.format_character_chars();
        chars_to_string(&chars)
    }

    /// The glyph-row text of the unit, as characters.
    pub(crate) fn format_character_chars(&self) -> (r: Vec<char>)
        requires
            self@.wf(),
        ensures
            r@ == self@.glyph(),
    {
        match self {
            Atom::Character(c) => c.format_character_chars(),
            Atom::InvalidCodeUnit(_) => {
                let mut out: Vec<char> = Vec::new();
                out.push('\u{FFFD}');
                out.push(' ');
                assert(out@ =~= seq!['\u{FFFD}', ' ']);
                out
            },
        }
    }

    /// The unit as a plain character.
    pub fn to_char(&self) -> (c: char)
        ensures
            c == self@.character(),
    {
        match self {
            Atom::Character(c) => c.character,
            Atom::InvalidCodeUnit(_) => '\u{FFFD}',
        }
    }

    /// The bytes of the input this unit stands for.
    pub fn to_bytes(&self) -> (r: Vec<u8>)
        ensures
            r@ == self@.bytes(),
    {
        match self {
            Atom::Character(c) => copy_bytes(&c.bytes),
            Atom::InvalidCodeUnit(b) => {
                let mut r: Vec<u8> = Vec::new();
                r.push(*b);
                assert(r@ =~= seq![*b]);
                r
            },
        }
    }

    /// The number of columns required to format this unit in the output.
    pub fn width(&self) -> (w: usize)
        requires
            self@.wf(),
        ensures
            w == self@.width(),
    {
        match self {
            Atom::Character(c) => c.width(),
            Atom::InvalidCodeUnit(_) => 2,
        }
    }

    /// A structural copy of the unit.
    pub(crate) fn duplicate(&self) -> (r: Atom)
        ensures
            r@ == self@,
    {
        match self {
            Atom::Character(c) => Atom::Character(
                DecodedCharacter { character: c.character, bytes: copy_bytes(&c.bytes) },
            ),
            Atom::InvalidCodeUnit(b) => Atom::InvalidCodeUnit(*b),
        }
    }
}

/// Whether the glyph text of a valid unit fits within the unit's width.  The
/// codepoint of a character can need more hex digits than its byte span is
/// wide — a known display limitation — and then the glyph row runs over.
pub open spec fn glyph_fits(c: CharacterView) -> bool {
    is_escapable(c.character) || is_printable_ascii(c.character) || codepoint_hex(
        c.character as u32 as nat,
    ).len() + 1 <= 3 * c.bytes.len()
}

/// Law: for a valid unit whose glyph fits its width, the byte row and the
/// glyph row are exactly as wide as each other, so the two rows stay aligned
/// column for column.  An invalid unit's byte row is three columns against a
/// glyph row of two, and a codepoint whose hex is wider than its byte span
/// overruns; those are the stated display limitations.
pub proof fn lemma_width_alignment(c: CharacterView)
    requires
        c.wf(),
        glyph_fits(c),
    ensures
        AtomView::Character(c).bytes_text().len() == AtomView::Character(c).glyph().len(),
{
    lemma_bytes_hex_len(c.bytes);
}

/// Under UTF-8, every valid unit of the sequence fits its width: see
/// [`lemma_utf8_glyph_fits`].  Under another encoding nothing is claimed.
pub open spec fn utf8_glyphs_fit(enc: EncodingId, s: Seq<AtomView>) -> bool {
    enc == EncodingId::Utf8 ==> forall|i: int|
        0 <= i < s.len() ==> ((#[trigger] s[i]) matches AtomView::Character(cv) ==> glyph_fits(cv))
}

/// A character whose bytes are its own UTF-8 encoding always fits: its
/// codepoint needs at most two hex digits per encoded byte.  Every valid
/// unit that UTF-8 decoding produces is of this shape, so under UTF-8 the
/// byte and glyph rows of valid units always align.
pub proof fn lemma_utf8_glyph_fits(c: CharacterView)
    requires
        c.bytes == vstd::utf8::encode_scalar(c.character as u32),
    ensures
        c.wf(),
        glyph_fits(c),
{
    vstd::utf8::char_is_scalar(c.character);
    let s = (c.character as u32) as nat;
    assert(crate::hex::exp16(0) == 1);
    assert(crate::hex::exp16(1) == 16);
    assert(crate::hex::exp16(2) == 256);
    assert(crate::hex::exp16(3) == 4096);
    assert(crate::hex::exp16(4) == 65536);
    assert(crate::hex::exp16(5) == 1048576);
    assert(crate::hex::exp16(6) == 16777216);
    if vstd::utf8::has_width_1_encoding(c.character as u32) {
        assert(c.bytes.len() == 1);
        crate::hex::lemma_codepoint_hex_len_bound(s, 2);
    } else if vstd::utf8::has_width_2_encoding(c.character as u32) {
        assert(c.bytes.len() == 2);
        crate::hex::lemma_codepoint_hex_len_bound(s, 3);
    } else if vstd::utf8::has_width_3_encoding(c.character as u32) {
        assert(c.bytes.len() == 3);
        crate::hex::lemma_codepoint_hex_len_bound(s, 4);
    } else {
        assert(c.bytes.len() == 4);
        crate::hex::lemma_codepoint_hex_len_bound(s, 6);
    }
}

} // verus!
