use string_inspector::Atom;
use string_inspector::DecodedString;
use string_inspector::EncodingId;

#[test]
fn invalid_byte_is_isolated() {
    // A lone invalid byte becomes exactly one invalid unit carrying that
    // byte, rendered as the replacement placeholder.
    let decoding = DecodedString::decode(&[0xC0], EncodingId::Utf8).unwrap();
    assert_eq!(decoding.atoms.len(), 1);
    assert!(matches!(decoding.atoms[0], Atom::InvalidCodeUnit(0xC0)));
    assert_eq!(decoding.atoms[0].to_bytes(), vec![0xC0]);
    assert_eq!(decoding.atoms[0].to_char(), '\u{FFFD}');
    assert_eq!(decoding.atoms[0].width(), 2);
    assert_eq!(decoding.format_bytes(), "c0 ");
    assert_eq!(decoding.format_characters(), "\u{FFFD} ");
}

#[test]
fn multi_byte_unit_is_one_unit_of_width_six() {
    // "é" is C3 A9 in UTF-8: one valid unit, two source bytes, width six,
    // glyph row the codepoint hex padded to the width.
    let decoding = DecodedString::decode("\u{e9}".as_bytes(), EncodingId::Utf8).unwrap();
    assert_eq!(decoding.atoms.len(), 1);
    assert_eq!(decoding.atoms[0].to_char(), '\u{e9}');
    assert_eq!(decoding.atoms[0].to_bytes(), vec![0xC3, 0xA9]);
    assert_eq!(decoding.atoms[0].width(), 6);
    assert_eq!(decoding.atoms[0].format_bytes(), "c3 a9 ");
    assert_eq!(decoding.atoms[0].format_character(), "e9    ");
    assert_eq!(decoding.format_bytes(), "c3 a9 ");
    assert_eq!(decoding.format_characters(), "e9    ");
}

#[test]
fn unit_rows_are_equally_wide() {
    // Byte row and glyph row of a unit are padded to the same width.
    let decoding = DecodedString::decode("a\u{e9}\t".as_bytes(), EncodingId::Utf8).unwrap();
    for atom in decoding.atoms.iter() {
        assert_eq!(atom.format_bytes().chars().count(), atom.format_character().chars().count());
    }
}

#[test]
fn decoding_twice_gives_the_same_result() {
    // Decoding is a pure function of the bytes and the encoding: a second
    // pass over the same buffer yields a structurally identical sequence.
    let buffer: Vec<u8> = vec![0x61, 0xC0, 0xC3, 0xA9, 0xF5, 0x21];
    let first = DecodedString::decode(&buffer, EncodingId::Utf8).unwrap();
    let second = DecodedString::decode(&buffer, EncodingId::Utf8).unwrap();
    assert_eq!(first.atoms.len(), second.atoms.len());
    for (a, b) in first.atoms.iter().zip(second.atoms.iter()) {
        assert_eq!(a.to_bytes(), b.to_bytes());
        assert_eq!(a.to_char(), b.to_char());
    }
    assert_eq!(first.format_bytes(), second.format_bytes());
    assert_eq!(first.format_characters(), second.format_characters());
    assert_eq!(first.to_string(), second.to_string());
}

#[test]
fn bytes_round_trip_through_decode_errors() {
    // Concatenating every unit's bytes reproduces the input exactly, even
    // when decoding stumbled in the middle.
    let buffer: Vec<u8> = vec![0x61, 0xC0, 0xC3, 0xA9, 0xF5, 0x80, 0x21];
    let decoding = DecodedString::decode(&buffer, EncodingId::Utf8).unwrap();
    let mut recovered: Vec<u8> = Vec::new();
    for atom in decoding.atoms.iter() {
        recovered.extend(atom.to_bytes());
    }
    assert_eq!(recovered, buffer);

    // The same recovery, through the rendered byte row.
    let rendered = decoding.format_bytes();
    let parsed: Vec<u8> = rendered
        .split_whitespace()
        .map(|pair| u8::from_str_radix(pair, 16).unwrap())
        .collect();
    assert_eq!(parsed, buffer);
}

#[test]
fn truncated_sequence_at_end_of_input_degrades_byte_by_byte() {
    // A multi-byte sequence cut off by the end of the input never vanishes:
    // every leftover byte becomes its own invalid unit.
    let decoding = DecodedString::decode(&[0xC3], EncodingId::Utf8).unwrap();
    assert_eq!(decoding.format_bytes(), "c3 ");
    assert_eq!(decoding.format_characters(), "\u{FFFD} ");

    let decoding = DecodedString::decode(&[0xE2, 0x82], EncodingId::Utf8).unwrap();
    assert_eq!(decoding.format_bytes(), "e2 82 ");
    assert_eq!(decoding.format_characters(), "\u{FFFD} \u{FFFD} ");
}

#[test]
fn latin1_decodes_every_byte() {
    // The Latin-1 family label resolves to windows-1252, under which every
    // byte decodes to some character.
    let decoding = DecodedString::decode(&[0x41, 0xE9], EncodingId::Latin1).unwrap();
    assert_eq!(decoding.atoms.len(), 2);
    assert_eq!(decoding.to_string(), "A\u{e9}");
    assert_eq!(decoding.format_bytes(), "41 e9 ");
    assert_eq!(decoding.format_characters(), "A  e9 ");
}

#[test]
fn latin1_euro_sign_overruns_its_column() {
    // Byte 0x80 is the euro sign in windows-1252: a one-byte unit whose
    // codepoint hex is wider than the three-column byte span — the stated
    // display limitation for wide codepoints.
    let decoding = DecodedString::decode(&[0x80], EncodingId::Latin1).unwrap();
    assert_eq!(decoding.to_string(), "\u{20ac}");
    assert_eq!(decoding.format_bytes(), "80 ");
    assert_eq!(decoding.format_characters(), "20ac ");
}

#[test]
fn empty_input_decodes_to_no_units() {
    let decoding = DecodedString::decode(&[], EncodingId::Utf8).unwrap();
    assert_eq!(decoding.atoms.len(), 0);
    assert_eq!(decoding.format_bytes(), "");
    assert_eq!(decoding.format_characters(), "");
    assert_eq!(decoding.to_string(), "");
    assert_eq!(decoding.wrap_lines(80).len(), 0);
}

#[test]
fn oversized_unit_stands_alone() {
    // A single unit wider than the whole budget is never split: it stands
    // alone on an over-wide line.
    let decoding = DecodedString::decode("\u{e9}a".as_bytes(), EncodingId::Utf8).unwrap();
    let lines = decoding.wrap_lines(1);
    assert_eq!(lines.len(), 2);
    assert_eq!(lines[0].format_bytes(), "c3 a9 ");
    assert_eq!(lines[1].format_bytes(), "61 ");
}

#[test]
fn wrapping_keeps_every_unit_in_order() {
    let decoding =
        DecodedString::decode("abcdef".as_bytes(), EncodingId::Utf8).unwrap();
    let lines = decoding.wrap_lines(6);
    assert_eq!(lines.len(), 3);
    let mut rebuilt = String::new();
    for line in lines.iter() {
        rebuilt.push_str(&line.to_string());
    }
    assert_eq!(rebuilt, "abcdef");
}

#[test]
fn encoding_names() {
    assert_eq!(EncodingId::Utf8.name(), "utf-8");
    assert_eq!(EncodingId::Latin1.name(), "windows-1252");
}

#[test]
fn plain_text_shows_replacement_for_invalid_units() {
    let decoding = DecodedString::decode(&[0x68, 0x69, 0xC0], EncodingId::Utf8).unwrap();
    assert_eq!(decoding.to_string(), "hi\u{FFFD}");
}
