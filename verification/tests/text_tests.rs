use xrayctl::text::{chars_of, decimal_string, is_whitespace, parse_usize, trim};

#[test]
fn trim_removes_surrounding_whitespace() {
    assert_eq!(trim("  a b \n"), "a b");
    assert_eq!(trim("\t\r\nvalue\r\n"), "value");
    assert_eq!(trim(""), "");
    assert_eq!(trim(" \n\t "), "");
    assert_eq!(trim("x"), "x");
}

#[test]
fn trim_handles_unicode_whitespace_like_std() {
    let samples = [
        "\u{3000}x\u{a0}",
        "\u{2000}\u{200a}mid dle\u{2028}\u{2029}",
        "\u{85}y\u{1680}",
        "\u{202f}z\u{205f}",
        "\u{200b}keep\u{200b}",
        "  plain  ",
    ];
    for s in samples {
        assert_eq!(trim(s), s.trim());
    }
}

#[test]
fn whitespace_agrees_with_std() {
    for code in 0u32..0x3100 {
        if let Some(c) = char::from_u32(code) {
            assert_eq!(is_whitespace(c), c.is_whitespace(), "char {:#x}", code);
        }
    }
}

#[test]
fn chars_of_keeps_order() {
    assert_eq!(chars_of("héllo"), vec!['h', 'é', 'l', 'l', 'o']);
    assert_eq!(chars_of(""), Vec::<char>::new());
}

#[test]
fn parse_usize_matches_std() {
    let samples = [
        "42", "+7", "-1", "", "+", "-", "0", "007", " 5", "5 ", "1a", "++1",
        "18446744073709551615", "18446744073709551616", "99999999999999999999999",
        "4294967295", "4294967296",
    ];
    for s in samples {
        assert_eq!(parse_usize(s), s.parse::<usize>().ok(), "input {:?}", s);
    }
    assert_eq!(parse_usize("42"), Some(42));
    assert_eq!(parse_usize("+7"), Some(7));
    assert_eq!(parse_usize("-1"), None);
}

#[test]
fn decimal_string_writes_digits() {
    assert_eq!(decimal_string(0), "0");
    assert_eq!(decimal_string(7), "7");
    assert_eq!(decimal_string(443), "443");
    assert_eq!(decimal_string(1000), "1000");
    assert_eq!(decimal_string(u64::MAX), u64::MAX.to_string());
}
