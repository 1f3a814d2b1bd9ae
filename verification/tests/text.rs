use kv_server::text::{
    chars_of, decimal_string, is_space, parse_decimal, str_eq, take_bytes, trim,
};

#[test]
fn str_eq_compares_texts() {
    assert!(str_eq("", ""));
    assert!(str_eq("ping", "ping"));
    assert!(!str_eq("ping", "pong"));
    assert!(!str_eq("ping", "pin"));
    assert!(!str_eq("pin", "ping"));
    assert!(str_eq("ключ", "ключ"));
    assert!(!str_eq("ключ", "ключи"));
}

#[test]
fn chars_of_lists_the_characters() {
    assert_eq!(chars_of(""), Vec::<char>::new());
    assert_eq!(chars_of("a€b"), vec!['a', '€', 'b']);
}

#[test]
fn is_space_knows_unicode_white_space() {
    let spaces = [
        '\t', '\n', '\u{0B}', '\u{0C}', '\r', ' ', '\u{85}', '\u{A0}', '\u{1680}', '\u{2000}',
        '\u{2005}', '\u{200A}', '\u{2028}', '\u{2029}', '\u{202F}', '\u{205F}', '\u{3000}',
    ];
    for c in spaces {
        assert!(is_space(c), "{:?}", c);
    }
    let others = ['a', '0', '*', '$', '\u{08}', '\u{0E}', '\u{1F}', '\u{200B}', '\u{180E}', '\u{FEFF}'];
    for c in others {
        assert!(!is_space(c), "{:?}", c);
    }
}

#[test]
fn is_space_agrees_with_the_standard_library() {
    let mut code: u32 = 0;
    while code <= 0x10FFFF {
        if let Some(c) = char::from_u32(code) {
            assert_eq!(is_space(c), c.is_whitespace(), "{:?}", c);
        }
        code += 1;
    }
}

#[test]
fn trim_removes_white_space_at_both_ends() {
    assert_eq!(trim(""), "");
    assert_eq!(trim(" \t\r\n"), "");
    assert_eq!(trim("abc"), "abc");
    assert_eq!(trim("  abc"), "abc");
    assert_eq!(trim("abc\r\n"), "abc");
    assert_eq!(trim(" a b \n"), "a b");
    assert_eq!(trim("\u{3000}ключ\u{A0}"), "ключ");
    assert_eq!(trim("x"), "x");
}

#[test]
fn parse_decimal_reads_unsigned_numbers() {
    assert_eq!(parse_decimal("0", 10), Some(0));
    assert_eq!(parse_decimal("10", 10), Some(10));
    assert_eq!(parse_decimal("11", 10), None);
    assert_eq!(parse_decimal("3000", u128::MAX), Some(3000));
    assert_eq!(parse_decimal("+42", 100), Some(42));
    assert_eq!(parse_decimal("007", 100), Some(7));
    assert_eq!(
        parse_decimal("340282366920938463463374607431768211455", u128::MAX),
        Some(u128::MAX)
    );
    assert_eq!(parse_decimal("340282366920938463463374607431768211456", u128::MAX), None);
    assert_eq!(parse_decimal("3402823669209384634633746074317682114550", u128::MAX), None);
}

#[test]
fn parse_decimal_refuses_what_is_no_number() {
    assert_eq!(parse_decimal("", 10), None);
    assert_eq!(parse_decimal("+", 10), None);
    assert_eq!(parse_decimal("-1", 10), None);
    assert_eq!(parse_decimal("-0", 10), None);
    assert_eq!(parse_decimal("++1", 10), None);
    assert_eq!(parse_decimal("1+", 10), None);
    assert_eq!(parse_decimal(" 1", 10), None);
    assert_eq!(parse_decimal("1 ", 10), None);
    assert_eq!(parse_decimal("1a", 10), None);
    assert_eq!(parse_decimal("٣", 10), None);
    assert_eq!(parse_decimal("0", 0), Some(0));
    assert_eq!(parse_decimal("1", 0), None);
}

#[test]
fn parse_decimal_agrees_with_the_standard_library() {
    let samples = [
        "", "+", "-", "0", "+0", "-0", "00", "1", "+1", "255", "256", "4294967295",
        "4294967296", "99999999999", "1_000", "0x10", "12 ", " 12", "1.5", "＋1", "+-1",
    ];
    for sample in samples {
        assert_eq!(
            parse_decimal(sample, u32::MAX as u128),
            sample.parse::<u32>().ok().map(|v| v as u128),
            "{:?}",
            sample
        );
        assert_eq!(parse_decimal(sample, u128::MAX), sample.parse::<u128>().ok(), "{:?}", sample);
    }
}

#[test]
fn decimal_string_writes_numbers() {
    assert_eq!(decimal_string(0), "0");
    assert_eq!(decimal_string(7), "7");
    assert_eq!(decimal_string(10), "10");
    assert_eq!(decimal_string(3000), "3000");
    assert_eq!(decimal_string(1234567890), "1234567890");
    assert_eq!(decimal_string(u128::MAX), "340282366920938463463374607431768211455");
}

#[test]
fn decimal_string_is_read_back() {
    for n in [0u128, 1, 9, 10, 99, 100, 4294967295, u64::MAX as u128, u128::MAX] {
        assert_eq!(parse_decimal(&decimal_string(n), u128::MAX), Some(n));
    }
}

#[test]
fn take_bytes_cuts_between_characters() {
    assert_eq!(take_bytes("hello\r\n", 5), Some("hello"));
    assert_eq!(take_bytes("hello", 0), Some(""));
    assert_eq!(take_bytes("hello", 5), Some("hello"));
    assert_eq!(take_bytes("hello", 6), None);
    assert_eq!(take_bytes("", 0), Some(""));
    assert_eq!(take_bytes("", 1), None);
    assert_eq!(take_bytes("a€b", 1), Some("a"));
    assert_eq!(take_bytes("a€b", 2), None);
    assert_eq!(take_bytes("a€b", 3), None);
    assert_eq!(take_bytes("a€b", 4), Some("a€"));
    assert_eq!(take_bytes("a€b", 5), Some("a€b"));
    assert_eq!(take_bytes("a€b", usize::MAX), None);
}
