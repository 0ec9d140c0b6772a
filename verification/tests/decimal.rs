use port_scan::decimal::{parse_u16, u16_string};

#[test]
fn parse_plain_numerals() {
    assert_eq!(parse_u16("4"), Some(4));
    assert_eq!(parse_u16("0"), Some(0));
    assert_eq!(parse_u16("0004"), Some(4));
    assert_eq!(parse_u16("65535"), Some(65535));
}

#[test]
fn parse_signed_numerals() {
    assert_eq!(parse_u16("+12"), Some(12));
    assert_eq!(parse_u16("+"), None);
    assert_eq!(parse_u16("-1"), None);
}

#[test]
fn parse_rejects_garbage() {
    assert_eq!(parse_u16(""), None);
    assert_eq!(parse_u16("abc"), None);
    assert_eq!(parse_u16("4x"), None);
    assert_eq!(parse_u16("1 2"), None);
    assert_eq!(parse_u16(" 4"), None);
    assert_eq!(parse_u16("65536"), None);
    assert_eq!(parse_u16("999999"), None);
}

#[test]
fn parse_agrees_with_std() {
    for s in ["", "+", "4", "+4", "65535", "65536", "abc", "0", "007", "1e3", "٤"] {
        assert_eq!(parse_u16(s), s.parse::<u16>().ok());
    }
}

#[test]
fn numerals_render_canonically() {
    assert_eq!(u16_string(0), "0");
    assert_eq!(u16_string(7), "7");
    assert_eq!(u16_string(10), "10");
    assert_eq!(u16_string(5000), "5000");
    assert_eq!(u16_string(65535), "65535");
}

#[test]
fn numerals_round_trip() {
    for n in [0u16, 1, 9, 10, 99, 100, 5000, 65534, 65535] {
        assert_eq!(parse_u16(&u16_string(n)), Some(n));
    }
}
