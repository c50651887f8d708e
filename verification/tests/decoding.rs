use string_inspector::DecodedCharacter;
use string_inspector::DecodedString;
use string_inspector::EncodingId;

#[test]
fn ascii_printables() {
    let decoding = DecodedString::decode("!aA1".as_bytes(), EncodingId::Utf8).unwrap();
    assert_eq!(decoding.format_bytes(), "21 61 41 31 ");
    assert_eq!(decoding.format_characters(), "!  a  A  1  ");
}

#[test]
fn ascii_escapables() {
    let decoding = DecodedString::decode("\n\r\t".as_bytes(), EncodingId::Utf8).unwrap();
    assert_eq!(decoding.format_bytes(), "0a 0d 09 ");
    assert_eq!(decoding.format_characters(), "\\n \\r \\t ");
}

#[test]
fn ascii_non_printables() {
    let decoding = DecodedString::decode("\u{00}\u{7f}".as_bytes(), EncodingId::Utf8).unwrap();
    assert_eq!(decoding.format_bytes(), "00 7f ");
    assert_eq!(decoding.format_characters(), "00 7f ");
}

#[test]
fn extra_latin_letters() {
    let decoding = DecodedString::decode("\u{e9}\u{df}".as_bytes(), EncodingId::Utf8).unwrap();
    assert_eq!(decoding.format_bytes(), "c3 a9 c3 9f ");
    assert_eq!(decoding.format_characters(), "e9    df    ");
}

#[test]
fn overlong_utf8_code_units_are_not_decoded() {
    // The bytes C0 and C1 are not valid in UTF-8.  The only way you could
    // get these as leading bytes is by padding codepoints below U+007F with
    // leading zeros (overlong encoding), which does not happen in normal
    // UTF-8.
    let decoding = DecodedString::decode(&[0xc0], EncodingId::Utf8).unwrap();
    assert_eq!(decoding.format_bytes(), "c0 ");
    assert_eq!(decoding.format_characters(), "\u{FFFD} ");
}

#[test]
fn modified_utf8_null_byte_is_not_decoded_in_utf8() {
    // "Modified UTF-8" encodes U+0000 as C0 80 so that null-terminated
    // string functions can process the data.  In regular UTF-8 this is
    // completely invalid, because 80 is only meaningful as a continuation
    // byte.
    let decoding = DecodedString::decode(&[0xc0, 0x80], EncodingId::Utf8).unwrap();
    assert_eq!(decoding.format_bytes(), "c0 80 ");
    assert_eq!(decoding.format_characters(), "\u{FFFD} \u{FFFD} ");
}

#[test]
fn cannot_escape_unicode_space_in_utf8() {
    // Leading bytes from F5 to FD are invalid because they would encode
    // points larger than the U+10FFFF limit of Unicode.
    let decoding = DecodedString::decode(&[0xf5, 0x80, 0x80, 0x80], EncodingId::Utf8).unwrap();
    assert_eq!(decoding.format_bytes(), "f5 80 80 80 ");
    assert_eq!(decoding.format_characters(), "\u{FFFD} \u{FFFD} \u{FFFD} \u{FFFD} ");
}

#[test]
fn edge_of_unicode_in_utf8() {
    // U+10FFFF is the highest character in Unicode.  It is in a private use
    // area.
    let decoding = DecodedString::decode(&[0xF4, 0x8f, 0xBF, 0xBF], EncodingId::Utf8).unwrap();
    assert_eq!(decoding.format_bytes(), "f4 8f bf bf ");
    assert_eq!(decoding.format_characters(), "10ffff      ");
}

#[test]
fn just_outside_of_unicode_in_utf8() {
    // A leading byte of F4 may or may not start a valid UTF-8 sequence.
    // The first invalid one corresponds to U+110000, which does not exist.
    let decoding = DecodedString::decode(&[0xF4, 0x90, 0x80, 0x80], EncodingId::Utf8).unwrap();
    assert_eq!(decoding.format_bytes(), "f4 90 80 80 ");
    assert_eq!(decoding.format_characters(), "\u{FFFD} \u{FFFD} \u{FFFD} \u{FFFD} ");
}

#[test]
fn nobody_expects_the_unexpected_continuation_byte() {
    let decoding = DecodedString::decode(&[0xC2, 0xA3, 0xA3, 0xA3], EncodingId::Utf8).unwrap();
    assert_eq!(decoding.format_bytes(), "c2 a3 a3 a3 ");
    assert_eq!(decoding.format_characters(), "a3    \u{FFFD} \u{FFFD} ");
}

#[test]
fn display_width_single_byte() {
    let decoded_character = DecodedCharacter { character: 'a', bytes: "a".as_bytes().to_owned() };
    assert_eq!(decoded_character.width(), 3);
}

#[test]
fn display_width_two_bytes() {
    let decoded_character =
        DecodedCharacter { character: '\u{df}', bytes: "\u{df}".as_bytes().to_owned() };
    assert_eq!(decoded_character.width(), 6);
}

#[test]
fn line_wrapping_if_it_fits() {
    let text = "aaaaa";
    let screen_width = 15;
    let decoding = DecodedString::decode(text.as_bytes(), EncodingId::Utf8).unwrap();
    assert_eq!(decoding.format_bytes(), "61 61 61 61 61 ");
    assert_eq!(decoding.format_characters(), "a  a  a  a  a  ");

    let lines = decoding.wrap_lines(screen_width);
    assert_eq!(lines.len(), 1);
    assert_eq!(lines[0].format_bytes(), "61 61 61 61 61 ");
    assert_eq!(lines[0].format_characters(), "a  a  a  a  a  ");
}

#[test]
fn line_wrapping_wraps_to_exact_number_of_lines() {
    let text = "aaaaabbbbb";
    let screen_width = 15;
    let decoding = DecodedString::decode(text.as_bytes(), EncodingId::Utf8).unwrap();
    let lines = decoding.wrap_lines(screen_width);

    assert_eq!(lines.len(), 2);

    assert_eq!(lines[0].format_bytes(), "61 61 61 61 61 ");
    assert_eq!(lines[0].format_characters(), "a  a  a  a  a  ");

    assert_eq!(lines[1].format_bytes(), "62 62 62 62 62 ");
    assert_eq!(lines[1].format_characters(), "b  b  b  b  b  ");
}

#[test]
fn line_wrapping_wraps_to_inexact_number_of_lines() {
    let text = "aaaaabbbbbcc";
    let screen_width = 15;
    let decoding = DecodedString::decode(text.as_bytes(), EncodingId::Utf8).unwrap();
    let lines = decoding.wrap_lines(screen_width);

    assert_eq!(lines.len(), 3);

    assert_eq!(lines[0].format_bytes(), "61 61 61 61 61 ");
    assert_eq!(lines[0].format_characters(), "a  a  a  a  a  ");

    assert_eq!(lines[1].format_bytes(), "62 62 62 62 62 ");
    assert_eq!(lines[1].format_characters(), "b  b  b  b  b  ");

    assert_eq!(lines[2].format_bytes(), "63 63 ");
    assert_eq!(lines[2].format_characters(), "c  c  ");
}
