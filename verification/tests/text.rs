use smolvm::digits::{parse_unsigned, to_decimal, to_signed_decimal};
use smolvm::text::{
    contains, contains_char, is_control, is_whitespace, join, rsplit_once, same, split, split_once,
    split_whitespace, stands_before, starts_with, strip_prefix, trim, trim_matches,
};

#[test]
fn searching() {
    assert!(same("åb", "åb"));
    assert!(!same("a", "ab"));
    assert!(contains("abcabd", "abd"));
    assert!(!contains("ab", "abc"));
    assert!(contains("ab", ""));
    assert!(contains_char("a:b", ':'));
    assert!(starts_with("s3://x", "s3://"));
    assert_eq!(strip_prefix("s3://x", "s3://"), Some("x"));
    assert_eq!(strip_prefix("s3:/x", "s3://"), None);
}

#[test]
fn splitting() {
    assert_eq!(split_once("a/b/c", '/'), Some(("a", "b/c")));
    assert_eq!(rsplit_once("a/b/c", '/'), Some(("a/b", "c")));
    assert_eq!(split_once("abc", '/'), None);
    for s in ["", ",", "a,b", "a,,b,", "äö,ü"] {
        let expected: Vec<&str> = s.split(',').collect();
        assert_eq!(split(s, ','), expected);
    }
    for s in ["", "  ", "a", " a  bc\td\n", "x\u{2003}y\u{a0}"] {
        let expected: Vec<&str> = s.split_whitespace().collect();
        assert_eq!(split_whitespace(s), expected);
    }
    assert_eq!(join(&vec!["a".into(), "b".into(), "c".into()], " && "), "a && b && c");
    assert_eq!(join(&vec![], ","), "");
}

#[test]
fn trimming() {
    for s in ["", "  ", " a b ", "\u{3000}x\u{1680}", "\u{200b}x"] {
        assert_eq!(trim(s), s.trim());
    }
    for s in ["", "///", "/a//b/", "a"] {
        assert_eq!(trim_matches(s, '/'), s.trim_matches('/'));
    }
}

#[test]
fn character_classes() {
    for n in 0..0x11000u32 {
        if let Some(c) = char::from_u32(n) {
            assert_eq!(is_whitespace(c), c.is_whitespace(), "{n:x}");
            assert_eq!(is_control(c), c.is_control(), "{n:x}");
        }
    }
}

#[test]
fn ordering() {
    let words = ["", "a", "ab", "b", "B", "ä", "\u{10000}", "\u{ffff}"];
    for x in words {
        for y in words {
            assert_eq!(stands_before(x, y), x < y, "{x} {y}");
        }
    }
}

#[test]
fn numerals() {
    for n in [0, 7, 10, 4096, u64::MAX] {
        assert_eq!(to_decimal(n), n.to_string());
        assert_eq!(parse_unsigned(&to_decimal(n), u64::MAX), Some(n));
    }
    for n in [0, -1, i32::MIN, i32::MAX] {
        assert_eq!(to_signed_decimal(n), n.to_string());
    }
    for s in ["", "+", "+5", "-5", "05", "5 ", "255", "256", "18446744073709551616", "++1"] {
        assert_eq!(parse_unsigned(s, u64::MAX), s.parse::<u64>().ok(), "{s}");
        assert_eq!(parse_unsigned(s, 255), s.parse::<u8>().ok().map(u64::from), "{s}");
    }
}
