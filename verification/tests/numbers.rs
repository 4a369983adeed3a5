//! Numeric parsing and rendering: decimal and hexadecimal forms, rejection
//! of malformed input, and overflow.

use uboot_shell::num::{dec_bytes, hex_bytes, parse_int};

#[test]
fn parses_decimal_strings() {
    assert_eq!(parse_int("0"), Some(0));
    assert_eq!(parse_int("123"), Some(123));
    assert_eq!(parse_int("  42  "), Some(42));
    assert_eq!(parse_int("+7"), Some(7));
    assert_eq!(parse_int("18446744073709551615"), Some(usize::MAX));
}

#[test]
fn parses_hexadecimal_strings() {
    assert_eq!(parse_int("0x0"), Some(0));
    assert_eq!(parse_int("0x1f"), Some(31));
    assert_eq!(parse_int("0xFF"), Some(255));
    assert_eq!(parse_int(" 0x80000000 "), Some(0x8000_0000));
    assert_eq!(parse_int("0xffffffffffffffff"), Some(usize::MAX));
}

#[test]
fn rejects_non_numeric_input() {
    assert_eq!(parse_int(""), None);
    assert_eq!(parse_int("   "), None);
    assert_eq!(parse_int("abc"), None);
    assert_eq!(parse_int("12a"), None);
    assert_eq!(parse_int("0x"), None);
    assert_eq!(parse_int("0xg1"), None);
    assert_eq!(parse_int("-5"), None);
    assert_eq!(parse_int("1 2"), None);
}

#[test]
fn rejects_overflowing_values() {
    assert_eq!(parse_int("18446744073709551616"), None);
    assert_eq!(parse_int("0x10000000000000000"), None);
    assert_eq!(parse_int("99999999999999999999999999"), None);
}

#[test]
fn renders_decimal_digit_strings() {
    assert_eq!(dec_bytes(0), b"0");
    assert_eq!(dec_bytes(5), b"5");
    assert_eq!(dec_bytes(1024), b"1024");
    assert_eq!(dec_bytes(usize::MAX), b"18446744073709551615");
}

#[test]
fn renders_hexadecimal_digit_strings() {
    assert_eq!(hex_bytes(0), b"0");
    assert_eq!(hex_bytes(10), b"a");
    assert_eq!(hex_bytes(0x80000000), b"80000000");
    assert_eq!(hex_bytes(0xdeadbeef), b"deadbeef");
}

#[test]
fn parse_inverts_rendering() {
    for n in [0usize, 1, 9, 10, 127, 128, 1023, 1024, 65535, 123456789] {
        let d = String::from_utf8(dec_bytes(n)).unwrap();
        assert_eq!(parse_int(d.as_str()), Some(n));
        let h = format!("0x{}", String::from_utf8(hex_bytes(n)).unwrap());
        assert_eq!(parse_int(h.as_str()), Some(n));
    }
}
