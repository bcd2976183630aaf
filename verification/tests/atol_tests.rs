use fi_stdlib::parse::atol;

#[test]
fn test_decimal_positive() {
    let s = ['1' as u16, '2' as u16, '3' as u16, '4' as u16, '5' as u16];
    let result = atol(&s).unwrap();
    assert_eq!(result, 12345);
}

#[test]
fn test_decimal_negative() {
    let s = ['-' as u16, '6' as u16, '7' as u16, '8' as u16, '9' as u16];
    let result = atol(&s).unwrap();
    assert_eq!(result, -6789);
}

#[test]
fn test_hex_uppercase() {
    let s = ['0' as u16, 'x' as u16, '1' as u16, 'A' as u16, '3' as u16, 'F' as u16];
    let result = atol(&s).unwrap();
    assert_eq!(result, 0x1A3F);
}

#[test]
fn test_hex_lowercase() {
    let s = [
        '0' as u16, 'x' as u16, 'd' as u16, 'e' as u16, 'a' as u16, 'd' as u16, 'b' as u16,
        'e' as u16, 'e' as u16, 'f' as u16,
    ];
    let result = atol(&s).unwrap();
    assert_eq!(result, 0xDEADBEEF);
}

#[test]
fn test_octal() {
    let s = ['0' as u16, '7' as u16, '7' as u16, '7' as u16];
    let result = atol(&s).unwrap();
    assert_eq!(result, 0o777);
}

#[test]
fn test_leading_zero_decimal() {
    let s = ['0' as u16, '1' as u16, '2' as u16, '3' as u16]; // Should be interpreted as octal
    let result = atol(&s).unwrap();
    assert_eq!(result, 0o123);
}

#[test]
fn test_invalid_input() {
    let s = ['x' as u16, 'y' as u16, 'z' as u16];
    let result = atol(&s);
    assert!(result.is_err());
}

#[test]
fn test_empty_string() {
    let s: [u16; 0] = [];
    let result = atol(&s);
    assert!(result.is_err());
}

#[test]
fn test_only_sign() {
    let s = ['-' as u16];
    let result = atol(&s);
    assert!(result.is_err());
}

#[test]
fn test_zero() {
    let s = ['0' as u16];
    let result = atol(&s).unwrap();
    assert_eq!(result, 0);
}

#[test]
fn test_negative_hex() {
    let s = ['-' as u16, '0' as u16, 'x' as u16, '1' as u16, '0' as u16];
    let result = atol(&s).unwrap();
    assert_eq!(result, -16);
}

#[test]
fn test_negative_octal() {
    let s = ['-' as u16, '0' as u16, '7' as u16, '7' as u16];
    let result = atol(&s).unwrap();
    assert_eq!(result, -0o77);
}
