use resp_store::decimal::{parse_decimal, write_decimal};
use resp_store::text::{decimal_string, decode_text};

#[test]
fn parses_decimal_digits() {
    assert_eq!(parse_decimal(b"0"), Some(0));
    assert_eq!(parse_decimal(b"007"), Some(7));
    assert_eq!(parse_decimal(b"18446744073709551615"), Some(u64::MAX));
    assert_eq!(parse_decimal(b"18446744073709551616"), None);
    assert_eq!(parse_decimal(b""), None);
    assert_eq!(parse_decimal(b"+5"), None);
    assert_eq!(parse_decimal(b"1a"), None);
}

#[test]
fn writes_decimal_digits() {
    let mut v = b"n=".to_vec();
    write_decimal(9050, &mut v);
    assert_eq!(v, b"n=9050".to_vec());
    assert_eq!(decimal_string(0), "0");
    assert_eq!(decimal_string(u64::MAX), "18446744073709551615");
}

#[test]
fn decodes_utf8_text() {
    assert_eq!(decode_text("ünï".as_bytes().to_vec()), Some("ünï".to_string()));
    assert_eq!(decode_text(vec![0xff]), None);
}
