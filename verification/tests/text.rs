use ssh_sync::text;

#[test]
fn white_space_is_that_of_unicode() {
    for c in '\0'..=char::MAX {
        assert_eq!(text::is_whitespace(c), c.is_whitespace(), "{c:?}");
    }
}

#[test]
fn trimming() {
    for s in ["", "  ", " a b ", "\u{a0}x\u{3000}", "a", "\t\r\n x"] {
        assert_eq!(text::trim(s), s.trim());
    }
    assert_eq!(text::trim_end_matches("http://x///", '/'), "http://x");
}

#[test]
fn searching() {
    assert!(text::contains("abcabd", "abd"));
    assert!(text::contains("abc", ""));
    assert!(!text::contains("abc", "abd"));
    assert!(text::starts_with("https://x", "https://"));
    assert!(!text::starts_with("http", "http://"));
    assert_eq!(text::replace("aXbXX", "X", "--"), "a--b----");
    assert_eq!(text::replace("aaa", "aa", "b"), "ba");
    assert_eq!(
        text::split_once("a:b:c", ':'),
        Some(("a".to_string(), "b:c".to_string()))
    );
    assert_eq!(text::split_once("abc", ':'), None);
}

#[test]
fn numbers() {
    for n in [0u64, 7, 10, 99, 65535, u64::MAX] {
        assert_eq!(text::decimal_text(n), n.to_string());
        assert_eq!(text::hexadecimal_text(n), format!("{n:x}"));
    }
    for s in ["", "0", "22", "65535", "65536", "+5", "-0", "-5", "1a", "+", " 1", "00022"] {
        assert_eq!(text::parse_u16(s), s.parse::<u16>().ok(), "{s:?}");
    }
    for s in [
        "",
        "-",
        "-9223372036854775808",
        "-9223372036854775809",
        "9223372036854775807",
        "9223372036854775808",
        "+12",
        "0012",
        "x",
    ] {
        let v: Vec<char> = s.chars().collect();
        assert_eq!(text::parse_i64(&v), s.parse::<i64>().ok(), "{s:?}");
    }
}
