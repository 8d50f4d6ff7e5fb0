use ftl::utf8::{char_len, code_point, Reader, Utf8Error};

#[test]
fn read_one_byte_utf8_character() {
    let mut reader = Reader::new("A".as_bytes());
    assert_eq!(reader.read_utf8_char().unwrap(), 'A');
}

#[test]
fn read_two_byte_utf8_character() {
    let mut reader = Reader::new("ß".as_bytes());
    assert_eq!(reader.read_utf8_char().unwrap(), 'ß');
}

#[test]
fn read_three_byte_utf8_character() {
    let mut reader = Reader::new("€".as_bytes());
    assert_eq!(reader.read_utf8_char().unwrap(), '€');
}

#[test]
fn read_four_byte_utf8_character() {
    let mut reader = Reader::new("💣".as_bytes());
    assert_eq!(reader.read_utf8_char().unwrap(), '💣');
}

#[test]
fn reading_multiple_utf8_characters() {
    let mut reader = Reader::new("💣ℝßA".as_bytes());
    assert_eq!(reader.read_utf8_char().unwrap(), '💣');
    assert_eq!(reader.read_utf8_char().unwrap(), 'ℝ');
    assert_eq!(reader.read_utf8_char().unwrap(), 'ß');
    assert_eq!(reader.read_utf8_char().unwrap(), 'A');
}

#[test]
fn reading_past_returns_unexpected_eof() {
    let mut reader = Reader::new("".as_bytes());
    assert!(match reader.read_utf8_char() {
        Err(Utf8Error::UnexpectedEof) => true,
        _ => false,
    });
}

#[test]
fn char_len_of_each_leading_byte() {
    assert_eq!(char_len(&[0x41]), Ok(1));
    assert_eq!(char_len(&[0xC3]), Ok(2));
    assert_eq!(char_len(&[0xE2]), Ok(3));
    assert_eq!(char_len(&[0xF0]), Ok(4));
    assert_eq!(char_len(&[0x80]), Err(Utf8Error::InvalidLeadingByte(0x80)));
}

#[test]
fn code_point_of_multibyte_characters() {
    assert_eq!(code_point("ß".as_bytes()), 0xDF);
    assert_eq!(code_point("€".as_bytes()), 0x20AC);
    assert_eq!(code_point("💣".as_bytes()), 0x1F4A3);
}

#[test]
fn truncated_and_malformed_characters_are_errors() {
    let mut reader = Reader::new(&[0xE2, 0x82]);
    assert_eq!(reader.read_utf8_char(), Err(Utf8Error::UnexpectedEof));
    let mut reader = Reader::new(&[0xC3, 0x41]);
    assert_eq!(reader.read_utf8_char(), Err(Utf8Error::InvalidContinuationByte(0x41)));
    let mut reader = Reader::new(&[0xED, 0xA0, 0x80]);
    assert_eq!(reader.read_utf8_char(), Err(Utf8Error::InvalidCodePoint(0xD800)));
}
