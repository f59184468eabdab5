use m3u8_core::hex::{hex_to_bytes, HexError};

#[test]
fn decodes_pairs_of_digits() {
    assert_eq!(hex_to_bytes("0011ff"), Ok(vec![0x00, 0x11, 0xff]));
}

#[test]
fn decodes_upper_case_digits() {
    assert_eq!(hex_to_bytes("ABcdEF09"), Ok(vec![0xab, 0xcd, 0xef, 0x09]));
}

#[test]
fn empty_string_decodes_to_no_bytes() {
    assert_eq!(hex_to_bytes(""), Ok(vec![]));
}

#[test]
fn odd_length_is_refused() {
    assert_eq!(hex_to_bytes("abc"), Err(HexError::OddLength));
}

#[test]
fn other_characters_are_refused() {
    assert_eq!(hex_to_bytes("zz"), Err(HexError::InvalidDigit));
    assert_eq!(hex_to_bytes("0g"), Err(HexError::InvalidDigit));
    assert_eq!(hex_to_bytes("+f"), Err(HexError::InvalidDigit));
    assert_eq!(hex_to_bytes("é0"), Err(HexError::InvalidDigit));
}
