use win1252_conv::convert;
use win1252_conv::multibyte::num_utf8_chars;
use win1252_conv::table::convert_win1252_byte;
use win1252_conv::ConvertError;

#[test]
fn convert_test() {
    // It handles ASCII correctly
    assert!(convert(vec![0x61, 0x62, 0x63, 0x64]).unwrap() == "abcd");

    // It converts WIN-1252 to UTF-8
    assert!(convert(vec![0x61, 0x86, 0x63, 0x64]).unwrap() == "a†cd");

    // It preserves UTF-8 values
    assert!(convert(vec![0x61, 0xE2, 0x80, 0xA0, 0x63, 0x64]).unwrap() == "a†cd");

    // It handles both WIN-1252 and UTF-8 values in the same string
    assert!(convert(vec![0x99, 0xE2, 0x84, 0xA2, 0x99]).unwrap() == "™™™");
}

#[test]
fn empty_input() {
    assert_eq!(convert(vec![]).unwrap(), "");
}

#[test]
fn ascii_identity() {
    assert_eq!(convert(vec![0x00, 0x09, 0x41, 0x7E, 0x7F]).unwrap(), "\u{0}\tA~\u{7f}");
}

#[test]
fn legacy_boundaries() {
    assert_eq!(convert(vec![0x80]).unwrap(), "€");
    assert_eq!(convert(vec![0x9F]).unwrap(), "Ÿ");
    assert_eq!(convert(vec![0xA0]).unwrap(), "\u{a0}");
    assert_eq!(convert(vec![0xFF]).unwrap(), "ÿ");
}

#[test]
fn legacy_irregular_range() {
    assert_eq!(convert(vec![0x82, 0x8C, 0x91, 0x9C]).unwrap(), "‚Œ‘œ");
}

#[test]
fn undefined_legacy_bytes_fail() {
    for b in [0x81u8, 0x8D, 0x8F, 0x90, 0x9D] {
        assert_eq!(convert(vec![b]), Err(ConvertError::InvalidLegacyByte));
    }
}

#[test]
fn two_byte_sequence_preserved() {
    assert_eq!(convert(vec![0xC3, 0xA9]).unwrap(), "é");
    assert_eq!(convert(vec![0xC2, 0x80]).unwrap(), "\u{80}");
}

#[test]
fn four_byte_sequence_preserved() {
    assert_eq!(convert(vec![0x61, 0xF0, 0x9F, 0x98, 0x80, 0x62]).unwrap(), "a😀b");
}

#[test]
fn fallback_resumes_at_next_byte() {
    // 0xE2 wants two continuation bytes; 0x28 breaks the sequence, so 0xE2
    // is read as legacy 'â' and scanning resumes at 0x28, not three bytes on.
    assert_eq!(convert(vec![0xE2, 0x28, 0xA1]).unwrap(), "â(¡");
}

#[test]
fn truncated_sequence_falls_back() {
    assert_eq!(convert(vec![0xE2, 0x82]).unwrap(), "â‚");
}

#[test]
fn overlong_encoding_falls_back() {
    // [0xC0, 0xAF] would encode 0x2F in two bytes: overlong, so both bytes
    // are read as legacy characters.
    assert_eq!(convert(vec![0xC0, 0xAF]).unwrap(), "À¯");
}

#[test]
fn surrogate_encoding_falls_back() {
    // [0xED, 0xA0, 0x80] would encode the surrogate 0xD800.
    assert_eq!(convert(vec![0xED, 0xA0, 0x80]).unwrap(), "í\u{a0}€");
}

#[test]
fn beyond_unicode_falls_back_then_fails() {
    // [0xF4, 0x90, 0x80, 0x80] would encode 0x110000, past the last scalar:
    // 0xF4 falls back to 'ô', and then 0x90 has no table entry.
    assert_eq!(convert(vec![0xF4, 0x90, 0x80, 0x80]), Err(ConvertError::InvalidLegacyByte));
}

#[test]
fn concatenation_matches() {
    let a = vec![0x61, 0x86];
    let b = vec![0xE2, 0x84, 0xA2];
    let mut joined = a.clone();
    joined.extend(b.clone());
    let left = convert(a).unwrap();
    let right = convert(b).unwrap();
    assert_eq!(convert(joined).unwrap(), format!("{}{}", left, right));
}

#[test]
fn convert_win1252_byte_cases() {
    assert_eq!(convert_win1252_byte(0x61), Some('a'));
    assert_eq!(convert_win1252_byte(0x80), Some('€'));
    assert_eq!(convert_win1252_byte(0x99), Some('™'));
    assert_eq!(convert_win1252_byte(0xA5), Some('¥'));
    assert_eq!(convert_win1252_byte(0xFF), Some('ÿ'));
    assert_eq!(convert_win1252_byte(0x81), None);
    assert_eq!(convert_win1252_byte(0x9D), None);
}

#[test]
fn num_utf8_chars_cases() {
    assert_eq!(num_utf8_chars(0x41), None);
    assert_eq!(num_utf8_chars(0x80), None);
    assert_eq!(num_utf8_chars(0xBF), None);
    assert_eq!(num_utf8_chars(0xC0), Some(2));
    assert_eq!(num_utf8_chars(0xDF), Some(2));
    assert_eq!(num_utf8_chars(0xE0), Some(3));
    assert_eq!(num_utf8_chars(0xEF), Some(3));
    assert_eq!(num_utf8_chars(0xF0), Some(4));
    assert_eq!(num_utf8_chars(0xF7), Some(4));
    assert_eq!(num_utf8_chars(0xF8), None);
    assert_eq!(num_utf8_chars(0xFF), None);
}
