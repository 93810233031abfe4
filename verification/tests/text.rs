use chatlog::decimal::{decimal, parse_i64, two_digits};
use chatlog::text::{bytes_to_text, is_whitespace, starts_with, str_eq, to_chars, trim_end, trim_start};

#[test]
fn whitespace_is_what_std_calls_whitespace() {
    for code in 0u32..=0x3100 {
        if let Some(c) = char::from_u32(code) {
            assert_eq!(is_whitespace(c), c.is_whitespace(), "at {code:#x}");
        }
    }
    assert!(!is_whitespace('\u{10FFFF}'));
}

#[test]
fn trimming() {
    assert_eq!(trim_end("abc \r\n"), "abc");
    assert_eq!(trim_end("abc\u{3000}\u{85}"), "abc");
    assert_eq!(trim_end("  abc"), "  abc");
    assert_eq!(trim_end(" \t "), "");
    assert_eq!(trim_end(""), "");
    assert_eq!(trim_end("h\u{e9}\n"), "h\u{e9}");
    assert_eq!(trim_start("  abc "), "abc ");
    assert_eq!(trim_start("\u{a0}\u{e9}"), "\u{e9}");
    assert_eq!(trim_start(""), "");
    for s in ["", " ", "a", " a ", "\n\u{2003}x y\u{2028}\r\n", "\u{1F600} "] {
        assert_eq!(trim_end(s), s.trim_end());
        assert_eq!(trim_start(s), s.trim_start());
    }
}

#[test]
fn equality_and_prefix() {
    assert!(str_eq("", ""));
    assert!(str_eq("h\u{e9}", "h\u{e9}"));
    assert!(!str_eq("a", "b"));
    assert!(!str_eq("a", "ab"));
    assert!(starts_with("abc", ""));
    assert!(starts_with("abc", "ab"));
    assert!(starts_with("abc", "abc"));
    assert!(!starts_with("abc", "abcd"));
    assert!(!starts_with("abc", "b"));
    assert!(starts_with("\u{e9}t\u{e9}", "\u{e9}t"));
    assert_eq!(to_chars("h\u{e9}!"), vec!['h', '\u{e9}', '!']);
}

#[test]
fn decimal_writing() {
    assert_eq!(decimal(0), "0");
    assert_eq!(decimal(7), "7");
    assert_eq!(decimal(10), "10");
    assert_eq!(decimal(1234567890), "1234567890");
    assert_eq!(decimal(u64::MAX), "18446744073709551615");
    assert_eq!(two_digits(0), "00");
    assert_eq!(two_digits(9), "09");
    assert_eq!(two_digits(10), "10");
    assert_eq!(two_digits(4294967295), "4294967295");
}

#[test]
fn decimal_reading() {
    assert_eq!(parse_i64("0"), Some(0));
    assert_eq!(parse_i64("-0"), Some(0));
    assert_eq!(parse_i64("+17"), Some(17));
    assert_eq!(parse_i64("0017"), Some(17));
    assert_eq!(parse_i64("1686947117960"), Some(1686947117960));
    assert_eq!(parse_i64("9223372036854775807"), Some(i64::MAX));
    assert_eq!(parse_i64("9223372036854775808"), None);
    assert_eq!(parse_i64("-9223372036854775808"), Some(i64::MIN));
    assert_eq!(parse_i64("-9223372036854775809"), None);
    assert_eq!(parse_i64("000000000000000000000000000000000000001"), Some(1));
    assert_eq!(parse_i64("99999999999999999999999999999999999999"), None);
    assert_eq!(parse_i64(""), None);
    assert_eq!(parse_i64("-"), None);
    assert_eq!(parse_i64("+"), None);
    assert_eq!(parse_i64(" 1"), None);
    assert_eq!(parse_i64("1 "), None);
    assert_eq!(parse_i64("1_0"), None);
    assert_eq!(parse_i64("--1"), None);
    assert_eq!(parse_i64("\u{661}"), None);
    for s in ["", "+", "-", "12", "-12", "+0", "1e3", "0x10", "18446744073709551615", "-00"] {
        assert_eq!(parse_i64(s), s.parse::<i64>().ok(), "at {s:?}");
    }
}

#[test]
fn bytes_as_text() {
    assert_eq!(bytes_to_text(b"hello"), Some("hello"));
    assert_eq!(bytes_to_text("h\u{e9}".as_bytes()), Some("h\u{e9}"));
    assert_eq!(bytes_to_text(b""), Some(""));
    assert_eq!(bytes_to_text(&[0xC3]), None);
    assert_eq!(bytes_to_text(&[0xFF, 0x41]), None);
    assert_eq!(bytes_to_text(&[0xED, 0xA0, 0x80]), None);
}
