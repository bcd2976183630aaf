use fi_stdlib::decode::mbtowc;

#[test]
fn test_ascii_char() {
    let s = b"A";
    let ret = mbtowc(s).unwrap();
    assert_eq!(ret.0, 'A' as u16); // Unicode codepoint
    assert_eq!(ret.1, 1);
}

#[test]
fn test_2byte_utf8() {
    let s = "é".as_bytes(); // UTF-8: 0xC3 0xA9
    let ret = mbtowc(s).unwrap();
    assert_eq!(ret.0, 0xE9); // Unicode codepoint
    assert_eq!(ret.1, 2);
}

#[test]
fn test_3byte_utf8() {
    let s = "€".as_bytes(); // UTF-8: 0xE2 0x82 0xAC
    let ret = mbtowc(s).unwrap();
    assert_eq!(ret.0, 0x20AC); // Unicode codepoint for €
    assert_eq!(ret.1, 3);
}

#[test]
fn test_invalid_utf8() {
    let s = &[0xFFu8]; // Invalid UTF-8
    let ret = mbtowc(s);
    assert!(ret.is_err());
}

#[test]
fn test_empty_string_mbtowc() {
    let s: &[u8] = &[];
    let ret = mbtowc(s);
    assert!(ret.is_err());
}

#[test]
fn test_insufficient_bytes() {
    let s = "€".as_bytes(); // 3-byte char
    // Pass only 2 bytes
    let ret = mbtowc(&s[..2]);
    assert!(ret.is_err());
}
