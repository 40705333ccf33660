use squeezed::bytes::{
    append_be16, append_be32, append_le32, append_le64, read_le32, read_le64,
};
use squeezed::text::{append_hex2, decimal_text, has_prefix, parse_number, same_text};

fn parse(s: &str) -> Option<u64> {
    let chars: Vec<char> = s.chars().collect();
    parse_number(&chars)
}

#[test]
fn numbers_read_back() {
    for n in [0u64, 7, 10, 99, 100, 1_000_000, u64::MAX] {
        assert_eq!(decimal_text(n), n.to_string());
        assert_eq!(parse(&decimal_text(n)), Some(n));
    }
}

#[test]
fn numerals_are_parsed_as_the_standard_library_does() {
    for s in ["", "+", "-", "-0", "+0", "00012", "1a", " 1", "18446744073709551615",
        "18446744073709551616", "99999999999999999999", "+7", "++7", "\u{661}"]
    {
        assert_eq!(parse(s), s.parse::<u64>().ok(), "{s:?}");
    }
}

#[test]
fn bytes_in_hex() {
    let mut out = String::new();
    for b in [0u8, 9, 10, 0x7f, 0xa0, 255] {
        append_hex2(&mut out, b);
    }
    assert_eq!(out, "00090a7fa0ff");
}

#[test]
fn texts_are_compared() {
    assert!(same_text("abc", "abc"));
    assert!(!same_text("abc", "abd"));
    assert!(has_prefix(&['a', 'b'], &['a']));
    assert!(!has_prefix(&['a'], &['a', 'b']));
    assert!(has_prefix(&['a'], &[]));
}

#[test]
fn integers_in_both_byte_orders() {
    let mut out = Vec::new();
    append_be16(&mut out, 0x0102);
    append_be32(&mut out, 0x03040506);
    append_le32(&mut out, 0x0a090807);
    append_le64(&mut out, 0x1211100f0e0d0c0b);
    assert_eq!(out, (1u8..=18).collect::<Vec<u8>>());
    assert_eq!(read_le32(&out, 6), 0x0a090807);
    assert_eq!(read_le64(&out, 10), 0x1211100f0e0d0c0b);
}
