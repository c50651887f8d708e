//! Decoding a byte buffer into a unit sequence, and rendering that sequence
//! as column-aligned, line-wrapped display rows.

use vstd::prelude::*;

use crate::codec::char_encoding;
use crate::codec::chars_to_string;
use crate::codec::decode_step;
use crate::codec::decode_step_of;
use crate::codec::encode_all;
use crate::codec::DecodeError;
use crate::codec::EncodingId;
use crate::hex::bytes_hex;
use crate::unit::glyph_fits;
use crate::unit::lemma_units_bytes_concat;
use crate::unit::lemma_utf8_glyph_fits;
use crate::unit::utf8_glyphs_fit;
use crate::unit::lemma_units_bytes_push;
use crate::unit::units_bytes;
use crate::unit::Atom;
use crate::unit::AtomView;
use crate::unit::CharacterView;
use crate::unit::DecodedCharacter;

verus! {

/// The mathematical value of a [`DecodedString`]: the encoding it was
/// decoded under and the values of its units.
pub struct DecodedStringView {
    pub encoding: EncodingId,
    pub atoms: Seq<AtomView>,
}

/// A byte buffer decoded under a particular character encoding: an ordered
/// sequence of units.  Concatenating the units' bytes in order reproduces
/// the original input byte for byte, decode errors included.
pub struct DecodedString {
    pub encoding: EncodingId,
    pub atoms: Vec<Atom>,
}

/// The values of a unit vector's elements.
pub open spec fn units_view(s: Seq<Atom>) -> Seq<AtomView> {
    s.map_values(|a: Atom| a@)
}

impl View for DecodedString {
    type V = DecodedStringView;

    open spec fn view(&self) -> DecodedStringView {
        DecodedStringView { encoding: self.encoding, atoms: units_view(self.atoms@) }
    }
}

/// The valid unit for one decoded character: the character paired with the
/// bytes it re-encodes to.
pub open spec fn character_unit(enc: EncodingId, c: char) -> AtomView {
    AtomView::Character(CharacterView { character: c, bytes: char_encoding(enc, c) })
}

/// The valid units produced by one decode pass.
pub open spec fn character_units(enc: EncodingId, chars: Seq<char>) -> Seq<AtomView> {
    Seq::new(chars.len(), |i: int| character_unit(enc, chars[i]))
}

/// The unit sequence that decoding a byte sequence produces: the characters
/// of one decode pass, then — if the pass stopped before the end — one
/// invalid unit holding the byte it stopped at, then the decoding of the
/// rest, the cursor having advanced a single byte past the offending one.
pub open spec fn decode_units(enc: EncodingId, bytes: Seq<u8>) -> Seq<AtomView>
    decreases bytes.len(),
{
    let step = decode_step_of(enc, bytes);
    let consumed = step.1;
    let valid = character_units(enc, step.0);
    if consumed >= bytes.len() {
        valid
    } else {
        valid + seq![AtomView::InvalidCodeUnit(bytes[consumed as int])] + decode_units(
            enc,
            bytes.skip(consumed as int + 1),
        )
    }
}

pub proof fn lemma_character_units_bytes(enc: EncodingId, chars: Seq<char>)
    ensures
        units_bytes(character_units(enc, chars)) == encode_all(enc, chars),
    decreases chars.len(),
{
    if chars.len() == 0 {
        assert(character_units(enc, chars).len() == 0);
        assert(units_bytes(character_units(enc, chars)) =~= encode_all(enc, chars));
    } else {
        let cu = character_units(enc, chars);
        assert forall|i: int| 0 <= i < cu.skip(1).len() implies cu.skip(1)[i] == character_units(
            enc,
            chars.skip(1),
        )[i] by {
            assert(cu.skip(1)[i] == cu[i + 1]);
            assert(chars.skip(1)[i] == chars[i + 1]);
        }
        assert(cu.skip(1) =~= character_units(enc, chars.skip(1)));
        lemma_character_units_bytes(enc, chars.skip(1));
        assert(units_bytes(cu) == cu[0].bytes() + units_bytes(cu.skip(1)));
        assert(encode_all(enc, chars) == char_encoding(enc, chars[0]) + encode_all(
            enc,
            chars.skip(1),
        ));
        assert(cu[0].bytes() == char_encoding(enc, chars[0]));
    }
}

impl DecodedString {
    /// Validity of every unit in the sequence.
    pub open spec fn wf(&self) -> bool {
        forall|i: int| 0 <= i < self@.atoms.len() ==> (#[trigger] self@.atoms[i]).wf()
    }

    /// Decodes a byte buffer under an encoding.
    ///
    /// Bytes the encoding cannot interpret never fail the operation: each
    /// becomes an invalid unit in place, and decoding resumes at the next
    /// byte.  The units are a function of the input and the encoding alone,
    /// and their bytes concatenate back to exactly the input.  The error
    /// case is reserved for faults of the encoding capability itself and
    /// does not arise for the supported encodings: the result is always
    /// `Ok`.
    pub fn decode(string: &[u8], encoding: EncodingId) -> (r: Result<DecodedString, DecodeError>)
        ensures
            r is Ok,
            r matches Ok(d) ==> {
                &&& d.encoding == encoding
                &&& d@.atoms == decode_units(encoding, string@)
                &&& units_bytes(d@.atoms) == string@
                &&& d.wf()
                &&& utf8_glyphs_fit(encoding, d@.atoms)
            },
    {
        let mut result: Vec<Atom> = Vec::new();
        let mut pos: usize = 0;
        proof {
            assert(units_view(result@) =~= Seq::<AtomView>::empty());
            assert(string@.skip(0) =~= string@);
            assert(units_view(result@) + decode_units(encoding, string@) =~= decode_units(
                encoding,
                string@,
            ));
            assert(units_bytes(units_view(result@)) =~= string@.subrange(0, 0));
        }
        loop
            invariant_except_break
                units_view(result@) + decode_units(encoding, string@.skip(pos as int))
                    == decode_units(encoding, string@),
                units_bytes(units_view(result@)) == string@.subrange(0, pos as int),
            invariant
                pos <= string@.len(),
                forall|i: int|
                    0 <= i < result@.len() ==> (#[trigger] units_view(result@)[i]).wf(),
                utf8_glyphs_fit(encoding, units_view(result@)),
            ensures
                units_view(result@) == decode_units(encoding, string@),
                units_bytes(units_view(result@)) == string@,
                forall|i: int|
                    0 <= i < result@.len() ==> (#[trigger] units_view(result@)[i]).wf(),
                utf8_glyphs_fit(encoding, units_view(result@)),
            decreases string@.len() - pos,
        {
            let ghost rest_view = string@.skip(pos as int);
            let remaining = vstd::slice::slice_subrange(string, pos, string.len());
            proof {
                assert(remaining@ =~= rest_view);
            }
            let (chars, offset) = decode_step(encoding, remaining);

            let ghost before = units_view(result@);
            proof {
                assert(units_view(result@) =~= before + character_units(
                    encoding,
                    chars@.subrange(0, 0),
                ));
            }
            let mut k: usize = 0;
            while k < chars.len()
                invariant
                    k <= chars@.len(),
                    units_view(result@) == before + character_units(
                        encoding,
                        chars@.subrange(0, k as int),
                    ),
                    forall|i: int|
                        0 <= i < result@.len() ==> (#[trigger] units_view(result@)[i]).wf(),
                    utf8_glyphs_fit(encoding, units_view(result@)),
                decreases chars@.len() - k,
            {
                let c = chars[k];
                let unit = DecodedCharacter::new(c, encoding);
                let ghost prev = result@;
                result.push(Atom::Character(unit));
                proof {
                    assert(units_view(result@) =~= units_view(prev).push(
                        AtomView::Character(unit@),
                    ));
                    assert(AtomView::Character(unit@) == character_unit(
                        encoding,
                        chars@[k as int],
                    ));
                    assert(chars@.subrange(0, k as int + 1) =~= chars@.subrange(
                        0,
                        k as int,
                    ).push(chars@[k as int]));
                    assert(character_units(encoding, chars@.subrange(0, k as int + 1))
                        =~= character_units(encoding, chars@.subrange(0, k as int)).push(
                        AtomView::Character(unit@),
                    ));
                    assert(units_view(result@) =~= before + character_units(
                        encoding,
                        chars@.subrange(0, k as int + 1),
                    ));
                    if encoding == EncodingId::Utf8 {
                        lemma_utf8_glyph_fits(unit@);
                    }
                    assert forall|i: int|
                        0 <= i < result@.len() implies (#[trigger] units_view(
                        result@,
                    )[i]).wf() && (encoding == EncodingId::Utf8 ==> (units_view(
                        result@,
                    )[i] matches AtomView::Character(cv) ==> glyph_fits(cv))) by {
                        if i < prev.len() {
                            assert(units_view(result@)[i] == units_view(prev)[i]);
                        } else {
                            assert(units_view(result@)[i] == AtomView::Character(unit@));
                        }
                    }
                }
                k = k + 1;
            }
            proof {
                assert(chars@.subrange(0, chars@.len() as int) =~= chars@);
                lemma_units_bytes_concat(before, character_units(encoding, chars@));
                lemma_character_units_bytes(encoding, chars@);
            }

            if pos + offset < string.len() {
                let b = *vstd::slice::slice_index_get(string, pos + offset);
                result.push(Atom::InvalidCodeUnit(b));
                proof {
                    let mid = before + character_units(encoding, chars@);
                    lemma_units_bytes_push(mid, AtomView::InvalidCodeUnit(b));
                    assert(units_view(result@) =~= mid.push(AtomView::InvalidCodeUnit(b)));
                    // the bytes seen so far concatenate to the input up to the new cursor
                    assert(rest_view.subrange(0, offset as int) == encode_all(encoding, chars@));
                    assert(units_bytes(units_view(result@)) =~= string@.subrange(
                        0,
                        pos as int + offset as int + 1,
                    ));
                    // one unfolding of the decoding of the remaining bytes
                    assert(rest_view.skip(offset as int + 1) =~= string@.skip(
                        pos as int + offset as int + 1,
                    ));
                    assert(decode_units(encoding, rest_view) == character_units(encoding, chars@)
                        + seq![AtomView::InvalidCodeUnit(b)] + decode_units(
                        encoding,
                        string@.skip(pos as int + offset as int + 1),
                    ));
                    assert(units_view(result@) + decode_units(
                        encoding,
                        string@.skip(pos as int + offset as int + 1),
                    ) =~= before + decode_units(encoding, rest_view));
                }
                pos = pos + offset + 1;
            } else {
                proof {
                    assert(offset as int == rest_view.len());
                    assert(rest_view.subrange(0, offset as int) =~= rest_view);
                    assert(decode_units(encoding, rest_view) == character_units(encoding, chars@));
                    assert(units_view(result@) == before + decode_units(encoding, rest_view));
                    assert(units_view(result@) =~= decode_units(encoding, string@));
                    assert(units_bytes(units_view(result@)) =~= string@);
                }
                break ;
            }
        }
        Ok(DecodedString { encoding, atoms: result })
    }
}

/// The glyph rows of a unit sequence, concatenated.
pub open spec fn units_glyphs(s: Seq<AtomView>) -> Seq<char>
    decreases s.len(),
{
    if s.len() == 0 {
        Seq::empty()
    } else {
        s[0].glyph() + units_glyphs(s.skip(1))
    }
}

pub proof fn lemma_units_glyphs_push(s: Seq<AtomView>, a: AtomView)
    ensures
        units_glyphs(s.push(a)) == units_glyphs(s) + a.glyph(),
    decreases s.len(),
{
    if s.len() == 0 {
        assert(s.push(a)[0] == a);
        assert(s.push(a).skip(1) =~= Seq::<AtomView>::empty());
        assert(units_glyphs(Seq::<AtomView>::empty()) =~= Seq::<char>::empty());
        assert(units_glyphs(s.push(a)) =~= units_glyphs(s) + a.glyph());
    } else {
        lemma_units_glyphs_push(s.skip(1), a);
        assert(s.push(a).skip(1) =~= s.skip(1).push(a));
        assert(units_glyphs(s.push(a)) =~= units_glyphs(s) + a.glyph());
    }
}

/// The plain characters of a unit sequence, in order.
pub open spec fn units_chars(s: Seq<AtomView>) -> Seq<char> {
    s.map_values(|a: AtomView| a.character())
}

/// The greedy line-wrap of a unit sequence, carried out with an accumulating
/// line `cur` of width `cur_width`: a unit that would push the line past
/// `max` closes it and starts a new one; a unit wider than `max` on its own
/// is never split, it stands alone on an over-wide line.
pub open spec fn wrap_rec(
    units: Seq<AtomView>,
    max: int,
    cur: Seq<AtomView>,
    cur_width: int,
) -> Seq<Seq<AtomView>>
    decreases units.len(),
{
    if units.len() == 0 {
        if cur.len() > 0 {
            seq![cur]
        } else {
            Seq::empty()
        }
    } else {
        let u = units[0];
        if cur_width + u.width() > max && cur.len() > 0 {
            seq![cur] + wrap_rec(units.skip(1), max, seq![u], u.width())
        } else {
            wrap_rec(units.skip(1), max, cur.push(u), cur_width + u.width())
        }
    }
}

/// The greedy line-wrap of a unit sequence into lines of width at most `max`.
pub open spec fn wrap_units(units: Seq<AtomView>, max: int) -> Seq<Seq<AtomView>> {
    wrap_rec(units, max, Seq::empty(), 0)
}

/// The unit sequences of a sequence of lines.
pub open spec fn lines_view(s: Seq<DecodedString>) -> Seq<Seq<AtomView>> {
    s.map_values(|d: DecodedString| d@.atoms)
}

proof fn lemma_wrap_rec_flatten(units: Seq<AtomView>, max: int, cur: Seq<AtomView>, cur_width: int)
    ensures
        wrap_rec(units, max, cur, cur_width).flatten() == cur + units,
    decreases units.len(),
{
    if units.len() == 0 {
        if cur.len() > 0 {
            seq![cur].lemma_flatten_one_element();
            assert(wrap_rec(units, max, cur, cur_width).flatten() =~= cur + units);
        } else {
            assert(wrap_rec(units, max, cur, cur_width).flatten() =~= cur + units);
        }
    } else {
        let u = units[0];
        if cur_width + u.width() > max && cur.len() > 0 {
            lemma_wrap_rec_flatten(units.skip(1), max, seq![u], u.width());
            vstd::seq_lib::lemma_flatten_concat(
                seq![cur],
                wrap_rec(units.skip(1), max, seq![u], u.width()),
            );
            seq![cur].lemma_flatten_one_element();
            assert(seq![u] + units.skip(1) =~= units);
            assert(wrap_rec(units, max, cur, cur_width).flatten() =~= cur + units);
        } else {
            lemma_wrap_rec_flatten(units.skip(1), max, cur.push(u), cur_width + u.width());
            assert(cur.push(u) + units.skip(1) =~= cur + units);
        }
    }
}

/// Law: the byte row of a unit sequence — every unit's bytes as lowercase
/// hex, concatenated, as [`DecodedString::format_bytes`] renders it — read
/// back as digit pairs with the separator spaces stripped, is exactly the
/// concatenated bytes of the units.  [`DecodedString::decode`] ensures those
/// bytes are the original input, so the byte row reconstructs the input
/// exactly, for any input and any encoding, decode errors included.
pub proof fn lemma_byte_row_round_trip(atoms: Seq<AtomView>)
    ensures
        crate::hex::unhex_text(bytes_hex(units_bytes(atoms))) == units_bytes(atoms),
{
    crate::hex::lemma_bytes_hex_round_trip(units_bytes(atoms));
}

/// Law: greedy wrapping only regroups the units: flattening the wrapped
/// lines in order gives back exactly the unit sequence, so no unit is lost,
/// duplicated or reordered, and the byte and glyph rows of the lines cover
/// the whole input.
pub proof fn lemma_wrap_preserves_units(units: Seq<AtomView>, max: int)
    ensures
        wrap_units(units, max).flatten() == units,
{
    lemma_wrap_rec_flatten(units, max, Seq::empty(), 0);
    assert(Seq::<AtomView>::empty() + units =~= units);
}

impl DecodedString {
    /// The byte row: every unit's bytes rendered as hex, concatenated in
    /// order.  Together with [`DecodedString::decode`], the row renders
    /// exactly the bytes the sequence was decoded from.
    pub fn format_bytes(&self) -> (r: String)
        ensures
            r@ == bytes_hex(units_bytes(self@.atoms)),
    {
        let mut buffer: Vec<char> = Vec::new();
        let mut i: usize = 0;
        while i < self.atoms.len()
            invariant
                i <= self.atoms@.len(),
                buffer@ == bytes_hex(units_bytes(units_view(self.atoms@).subrange(0, i as int))),
            decreases self.atoms@.len() - i,
        {
            let mut piece = (&self.atoms[i]).format_bytes_chars();
            proof {
                let uv = units_view(self.atoms@);
                assert(uv.subrange(0, i as int + 1) =~= uv.subrange(0, i as int).push(
                    uv[i as int],
                ));
                lemma_units_bytes_push(uv.subrange(0, i as int), uv[i as int]);
                crate::hex::lemma_bytes_hex_concat(
                    units_bytes(uv.subrange(0, i as int)),
                    uv[i as int].bytes(),
                );
            }
            buffer.append(&mut piece);
            i = i + 1;
        }
        proof {
            assert(units_view(self.atoms@).subrange(0, self.atoms@.len() as int) =~= units_view(
                self.atoms@,
            ));
        }
        chars_to_string(&buffer)
    }

    /// The glyph row: every unit's glyph rendering, concatenated in order,
    /// column-aligned with the byte row.
    pub fn format_characters(&self) -> (r: String)
        requires
            self.wf(),
        ensures
            r@ == units_glyphs(self@.atoms),
    {
        let mut buffer: Vec<char> = Vec::new();
        let mut i: usize = 0;
        while i < self.atoms.len()
            invariant
                i <= self.atoms@.len(),
                self.wf(),
                buffer@ == units_glyphs(units_view(self.atoms@).subrange(0, i as int)),
            decreases self.atoms@.len() - i,
        {
            proof {
                let uv = units_view(self.atoms@);
                assert(self@.atoms[i as int].wf());
                assert(uv[i as int].wf());
            }
            let mut piece = (&self.atoms[i]).format_character_chars();
            proof {
                let uv = units_view(self.atoms@);
                assert(uv.subrange(0, i as int + 1) =~= uv.subrange(0, i as int).push(
                    uv[i as int],
                ));
                lemma_units_glyphs_push(uv.subrange(0, i as int), uv[i as int]);
            }
            buffer.append(&mut piece);
            i = i + 1;
        }
        proof {
            assert(units_view(self.atoms@).subrange(0, self.atoms@.len() as int) =~= units_view(
                self.atoms@,
            ));
        }
        chars_to_string(&buffer)
    }

    /// The plain-text reconstruction: every unit as a single character, an
    /// invalid unit as the replacement character.
    pub fn to_string(&self) -> (r: String)
        ensures
            r@ == units_chars(self@.atoms),
    {
        let mut chars: Vec<char> = Vec::new();
        let mut i: usize = 0;
        while i < self.atoms.len()
            invariant
                i <= self.atoms@.len(),
                chars@ == units_chars(units_view(self.atoms@).subrange(0, i as int)),
            decreases self.atoms@.len() - i,
        {
            chars.push((&self.atoms[i]).to_char());
            proof {
                let uv = units_view(self.atoms@);
                assert(chars@ =~= units_chars(uv.subrange(0, i as int + 1)));
            }
            i = i + 1;
        }
        proof {
            assert(units_view(self.atoms@).subrange(0, self.atoms@.len() as int) =~= units_view(
                self.atoms@,
            ));
        }
        chars_to_string(&chars)
    }

    /// Splits the sequence into lines so that the byte and glyph rows of
    /// each line fit within `max_line_width` columns, greedily: a unit that
    /// would overrun the budget starts a new line, and a single unit wider
    /// than the whole budget stands alone on an over-wide line.
    pub fn wrap_lines(&self, max_line_width: usize) -> (r: Vec<DecodedString>)
        requires
            self.wf(),
        ensures
            lines_view(r@) == wrap_units(self@.atoms, max_line_width as int),
            forall|j: int|
                0 <= j < r@.len() ==> (#[trigger] r@[j]).encoding == self.encoding && r@[j].wf(),
    {
        let ghost uv = units_view(self.atoms@);
        let mut lines: Vec<DecodedString> = Vec::new();
        let mut characters_in_line: Vec<Atom> = Vec::new();
        let mut line_size: usize = 0;
        let mut i: usize = 0;
        proof {
            assert(uv.skip(0) =~= uv);
            assert(units_view(characters_in_line@) =~= Seq::<AtomView>::empty());
            assert(lines_view(lines@) =~= Seq::<Seq<AtomView>>::empty());
            assert(lines_view(lines@) + wrap_rec(uv, max_line_width as int, Seq::empty(), 0)
                =~= wrap_units(uv, max_line_width as int));
        }
        while i < self.atoms.len()
            invariant
                i <= self.atoms@.len(),
                self.wf(),
                uv == units_view(self.atoms@),
                lines_view(lines@) + wrap_rec(
                    uv.skip(i as int),
                    max_line_width as int,
                    units_view(characters_in_line@),
                    line_size as int,
                ) == wrap_units(uv, max_line_width as int),
                characters_in_line@.len() == 0 ==> line_size == 0,
                line_size as int <= usize::MAX,
                forall|j: int|
                    0 <= j < characters_in_line@.len() ==> (#[trigger] units_view(
                        characters_in_line@,
                    )[j]).wf(),
                forall|j: int|
                    0 <= j < lines@.len() ==> (#[trigger] lines@[j]).encoding == self.encoding
                        && lines@[j].wf(),
            decreases self.atoms@.len() - i,
        {
            proof {
                assert(self@.atoms[i as int].wf());
                assert(uv[i as int].wf());
                assert(uv.skip(i as int)[0] == uv[i as int]);
                assert(uv.skip(i as int).skip(1) =~= uv.skip(i as int + 1));
            }
            let unit = &self.atoms[i];
            let char_output_width = unit.width();
            let ghost cur = units_view(characters_in_line@);
            let ghost cur_width = line_size as int;
            if characters_in_line.len() > 0 && (char_output_width > max_line_width || line_size
                > max_line_width - char_output_width) {
                proof {
                    assert(cur_width + uv[i as int].width() > max_line_width as int);
                }
                let closed = DecodedString { atoms: characters_in_line, encoding: self.encoding };
                lines.push(closed);
                characters_in_line = Vec::new();
                line_size = 0;
                proof {
                    assert(lines_view(lines@) =~= lines_view(lines@.drop_last()).push(cur));
                    assert(units_view(characters_in_line@) =~= Seq::<AtomView>::empty());
                }
            } else {
                proof {
                    assert(cur.len() > 0 ==> cur_width + uv[i as int].width()
                        <= max_line_width as int);
                }
            }
            let ghost cur2 = units_view(characters_in_line@);
            characters_in_line.push(unit.duplicate());
            line_size = line_size + char_output_width;
            proof {
                assert(units_view(characters_in_line@) =~= cur2.push(uv[i as int]));
            }
            i = i + 1;
        }
        proof {
            assert(uv.skip(i as int) =~= Seq::<AtomView>::empty());
        }
        if characters_in_line.len() > 0 {
            let closed = DecodedString { atoms: characters_in_line, encoding: self.encoding };
            lines.push(closed);
            proof {
                assert(lines_view(lines@) =~= lines_view(lines@.drop_last()).push(
                    units_view(lines@.last().atoms@),
                ));
            }
        }
        lines
    }
}

} // verus!

