use fi_stdlib::parse::strtol;

#[test]
fn test_decimal_positive_str() {
    let buf = ['1' as u16, '2' as u16, '3' as u16, '4' as u16, '5' as u16, '\0' as u16];

    let res = strtol(&buf, 10).unwrap();
    assert_eq!(res, 12345);
}

#[test]
fn test_negative_decimal() {
    let buf = ['-' as u16, '9' as u16, '8' as u16, '7' as u16];

    let res = strtol(&buf, 10).unwrap();
    assert_eq!(res, -987);
}

#[test]
fn test_hex_lowercase_str() {
    let buf = ['1' as u16, 'a' as u16, '3' as u16, 'f' as u16];

    let res = strtol(&buf, 16).unwrap();
    assert_eq!(res, 0x1a3f);
}

#[test]
fn test_hex_uppercase_str() {
    let buf = ['F' as u16, 'F' as u16];

    let res = strtol(&buf, 16).unwrap();
    assert_eq!(res, 255);
}

#[test]
fn test_errs_at_invalid_char() {
    let buf = ['1' as u16, '2' as u16, '3' as u16, 'x' as u16, 'y' as u16, 'z' as u16];

    let res = strtol(&buf, 10);
    assert!(res.is_err());
}

#[test]
fn test_invalid_start() {
    let buf = ['x' as u16, '1' as u16, '2' as u16, '3' as u16];

    let res = strtol(&buf, 10);
    assert!(res.is_err());
}

#[test]
fn test_null_pointer() {
    assert!(strtol(&[], 10).is_err());
}

#[test]
fn test_end_ptr_null_is_allowed() {
    let buf = ['5' as u16, '5' as u16];

    let res = strtol(&buf, 10).unwrap();
    assert_eq!(res, 55);
    // Should not crash without a trailing terminator
}
