use fi_stdlib::decode::mbtowc;
use fi_stdlib::parse::{
    atoi, atol, check_sign, is_digit, is_end_of_num, is_hex_lower, is_hex_upper, str_null_checks,
    strtol, ToIntErr,
};

fn wide(s: &str) -> Vec<u16> {
    s.chars().map(|c| c as u16).collect()
}

#[test]
fn test_error_kinds_distinguishable() {
    // "" vs "-" vs "xyz" report different, identifiable failures.
    assert_eq!(strtol(&[], 10), Err(ToIntErr::FoundNullPtr));
    assert_eq!(strtol(&wide("-"), 10), Err(ToIntErr::InvalidStart));
    assert_eq!(strtol(&wide("xyz"), 10), Err(ToIntErr::InvalidStart));
    assert_eq!(atol(&[]), Err(ToIntErr::FoundNullPtr));
    assert_eq!(atol(&wide("-")), Err(ToIntErr::InvalidStart));
    assert_eq!(atol(&wide("xyz")), Err(ToIntErr::InvalidStart));
}

#[test]
fn test_leading_terminator() {
    assert_eq!(strtol(&wide("\u{0}55"), 10), Err(ToIntErr::EndOfStr));
}

#[test]
fn test_invalid_char_mid_number() {
    assert_eq!(strtol(&wide("12!4"), 10), Err(ToIntErr::InvalidInput));
    // 'A' passes the start check for base 10 but is no decimal digit.
    assert_eq!(strtol(&wide("1A"), 10), Err(ToIntErr::InvalidInput));
}

#[test]
fn test_embedded_terminator_truncates() {
    assert_eq!(strtol(&wide("55\u{0}99"), 10).unwrap(), 55);
    assert_eq!(strtol(&wide("55"), 10).unwrap(), 55);
    assert_eq!(strtol(&wide("55\u{0}"), 10).unwrap(), 55);
}

#[test]
fn test_hex_case_insensitive() {
    let lower = strtol(&wide("1a3f"), 16).unwrap();
    let upper = strtol(&wide("1A3F"), 16).unwrap();
    assert_eq!(lower, upper);
    assert_eq!(lower, 6719);
}

#[test]
fn test_octal_digit_range() {
    // '8' is no octal digit: the start check rejects it, the walk errs on it.
    assert_eq!(strtol(&wide("8"), 8), Err(ToIntErr::InvalidStart));
    assert_eq!(strtol(&wide("78"), 8), Err(ToIntErr::InvalidInput));
    assert_eq!(strtol(&wide("77"), 8).unwrap(), 0o77);
}

#[test]
fn test_overflow_boundary() {
    assert_eq!(strtol(&wide("9223372036854775807"), 10).unwrap(), i64::MAX);
    assert_eq!(
        strtol(&wide("9223372036854775808"), 10),
        Err(ToIntErr::Overflow)
    );
    assert_eq!(
        strtol(&wide("-9223372036854775808"), 10),
        Err(ToIntErr::Overflow)
    );
}

#[test]
fn test_atoi_in_range() {
    assert_eq!(atoi(&wide("12345")).unwrap(), 12345);
    assert_eq!(atoi(&wide("-0x10")).unwrap(), -16);
    assert_eq!(atoi(&wide("2147483647")).unwrap(), i32::MAX);
    assert_eq!(atoi(&wide("-2147483648")).unwrap(), i32::MIN);
}

#[test]
fn test_atoi_larger_than_i32() {
    assert_eq!(atoi(&wide("2147483648")), Err(ToIntErr::LargerThanI32));
    assert_eq!(atoi(&wide("-2147483649")), Err(ToIntErr::LargerThanI32));
}

#[test]
fn test_embedded_base_mark() {
    // The base scan is not anchored at the start: a later 0x wins.
    assert_eq!(atol(&wide("120x31")).unwrap(), 0x31);
    // ... and a later octal pattern re-scans the digits as octal.
    assert_eq!(atol(&wide("707")).unwrap(), 0o707);
}

#[test]
fn test_reparse_round_trip() {
    let first = strtol(&wide("12345"), 10).unwrap();
    let again = strtol(&wide(&format!("{}", first)), 10).unwrap();
    assert_eq!(again, first);

    let neg = strtol(&wide("-987"), 10).unwrap();
    let neg_again = strtol(&wide(&format!("{}", neg)), 10).unwrap();
    assert_eq!(neg_again, neg);

    let auto = atol(&wide("0x1A3F")).unwrap();
    let auto_again = strtol(&wide(&format!("{}", auto)), 10).unwrap();
    assert_eq!(auto_again, auto);
}

#[test]
fn test_classifiers() {
    let s = wide("09aAfFgG-");
    assert!(is_digit(&s, 0, 10));
    assert!(is_digit(&s, 1, 10));
    assert!(!is_digit(&s, 2, 10));
    assert!(!is_digit(&s, 1, 8));
    assert!(is_hex_lower(&s, 2, 16));
    assert!(!is_hex_lower(&s, 2, 10));
    assert!(!is_hex_lower(&s, 3, 16));
    assert!(is_hex_upper(&s, 3, 16));
    assert!(is_hex_upper(&s, 5, 16));
    assert!(!is_hex_upper(&s, 6, 16));
    assert!(is_hex_lower(&s, 4, 16));
    assert!(!is_hex_lower(&s, 6, 16));
    assert!(!is_end_of_num(&s, 0, 10));
    assert!(is_end_of_num(&s, 8, 10));
    assert!(is_end_of_num(&s, 42, 10));
    assert!(is_end_of_num(&s, 2, 10) == false); // 'a' starts a base-10 scan
    assert!(is_end_of_num(&s, 7, 16)); // 'G' is past 'F'
}

#[test]
fn test_check_sign_and_null_checks() {
    assert_eq!(check_sign(&wide("-1")), (-1, 1));
    assert_eq!(check_sign(&wide("1")), (1, 0));
    assert_eq!(str_null_checks(&[]), Err(ToIntErr::FoundNullPtr));
    assert_eq!(str_null_checks(&wide("\u{0}")), Err(ToIntErr::EndOfStr));
    assert_eq!(str_null_checks(&wide("1")), Ok(()));
}

#[test]
fn test_4byte_utf8_rejected() {
    let s = "\u{10348}".as_bytes(); // UTF-8: 0xF0 0x90 0x8D 0x88
    let ret = mbtowc(s);
    assert!(ret.is_err());
}

#[test]
fn test_surrogate_encoding_rejected() {
    let s = &[0xEDu8, 0xA0, 0x80]; // encodes a surrogate, not valid UTF-8
    let ret = mbtowc(s);
    assert!(ret.is_err());
}

#[test]
fn test_trailing_garbage_rejected() {
    let s = &[b'A', 0xFF]; // valid leading scalar, malformed window
    let ret = mbtowc(s);
    assert!(ret.is_err());
}

#[test]
fn test_overlong_encoding_rejected() {
    let s = &[0xC0u8, 0xAF]; // overlong form of '/'
    let ret = mbtowc(s);
    assert!(ret.is_err());
}
