use rustbits::text::{find_first, find_last, is_whitespace, parse_i32, parse_u16, parse_u32, same_text, trim};

#[test]
fn trim_removes_unicode_whitespace_at_both_ends() {
    assert_eq!(trim("  hello world \t\n"), "hello world");
    assert_eq!(trim("\u{3000}x\u{2009}"), "x");
    assert_eq!(trim("   "), "");
    assert_eq!(trim(""), "");
    assert_eq!(trim("a b"), "a b");
}

#[test]
fn trim_twice_is_trim_once() {
    for s in ["  a  ", "\u{a0}\u{85}b c\u{2028}", "", "   ", "x"] {
        assert_eq!(trim(trim(s)), trim(s));
    }
}

#[test]
fn whitespace_matches_std() {
    for c in ['\t', '\n', ' ', '\u{85}', '\u{a0}', '\u{1680}', '\u{2000}', '\u{200a}', '\u{3000}', 'a', '\u{200b}', '0'] {
        assert_eq!(is_whitespace(c), c.is_whitespace());
    }
}

#[test]
fn find_first_and_last_positions() {
    assert_eq!(find_first("a:b:c", ':'), Some(1));
    assert_eq!(find_last("a:b:c", ':'), Some(3));
    assert_eq!(find_first("abc", ':'), None);
    assert_eq!(find_last("", ':'), None);
    assert_eq!(find_first("é:x", ':'), Some(1));
}

#[test]
fn same_text_compares_characters() {
    assert!(same_text("yes", "yes"));
    assert!(!same_text("yes", "ye"));
    assert!(!same_text("y", "n"));
    assert!(same_text("", ""));
}

#[test]
fn parse_u32_follows_std() {
    for s in ["0", "42", "+7", "4294967295", "4294967296", "", "+", "-1", "-0", " 1", "1a", "007", "٣"] {
        assert_eq!(parse_u32(s), s.parse::<u32>().ok(), "input {s:?}");
    }
}

#[test]
fn parse_u16_follows_std() {
    for s in ["80", "443", "65535", "65536", "+1", "-1", "", "port"] {
        assert_eq!(parse_u16(s), s.parse::<u16>().ok(), "input {s:?}");
    }
}

#[test]
fn parse_i32_follows_std() {
    for s in ["5", "-5", "+5", "2147483647", "2147483648", "-2147483648", "-2147483649", "-", "+", "", "--1", "+-1", "1_0"] {
        assert_eq!(parse_i32(s), s.parse::<i32>().ok(), "input {s:?}");
    }
}
