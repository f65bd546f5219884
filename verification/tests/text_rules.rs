use imgren::text::{contains, is_white_space, parse_usize, text_eq, trim, zero_pad};

#[test]
fn zero_pad_pads_to_width() {
    assert_eq!(zero_pad(1, 3), "001");
    assert_eq!(zero_pad(42, 3), "042");
    assert_eq!(zero_pad(999, 3), "999");
}

#[test]
fn zero_pad_never_cuts_long_numbers() {
    assert_eq!(zero_pad(1234, 3), "1234");
    assert_eq!(zero_pad(0, 0), "0");
    assert_eq!(zero_pad(7, 1), "7");
    assert_eq!(zero_pad(5, 6), "000005");
}

#[test]
fn zero_pad_matches_std_formatting() {
    for n in [0usize, 1, 9, 10, 99, 100, 12345, usize::MAX] {
        for w in 0usize..8 {
            assert_eq!(zero_pad(n, w), format!("{:0width$}", n, width = w));
        }
    }
}

#[test]
fn parse_accepts_digits_and_plus() {
    assert_eq!(parse_usize("42"), Some(42));
    assert_eq!(parse_usize("+7"), Some(7));
    assert_eq!(parse_usize("007"), Some(7));
    assert_eq!(parse_usize("0"), Some(0));
}

#[test]
fn parse_rejects_other_text() {
    assert_eq!(parse_usize(""), None);
    assert_eq!(parse_usize("+"), None);
    assert_eq!(parse_usize("-1"), None);
    assert_eq!(parse_usize(" 5"), None);
    assert_eq!(parse_usize("3a"), None);
    assert_eq!(parse_usize("３"), None);
}

#[test]
fn parse_rejects_overflow() {
    let too_big = format!("{}0", usize::MAX);
    assert_eq!(parse_usize(&too_big), None);
    assert_eq!(parse_usize(&usize::MAX.to_string()), Some(usize::MAX));
}

#[test]
fn parse_matches_std_parse() {
    for s in ["", "+", "-", "-0", "+0", "12", "1_0", "99999999999999999999", "+12", "++1", "0x1"] {
        assert_eq!(parse_usize(s), s.parse::<usize>().ok());
    }
}

#[test]
fn parse_reads_back_padded_numbers() {
    for n in [0usize, 3, 42, 100000] {
        assert_eq!(parse_usize(&zero_pad(n, 4)), Some(n));
    }
}

#[test]
fn trim_removes_unicode_white_space() {
    assert_eq!(trim("  abc \n"), "abc");
    assert_eq!(trim("\u{3000}照片\t"), "照片");
    assert_eq!(trim("   "), "");
    assert_eq!(trim("a b"), "a b");
}

#[test]
fn trim_matches_std_trim_and_is_idempotent() {
    for s in ["", " x ", "\r\n5\r\n", "\u{a0}y\u{2003}", "no"] {
        assert_eq!(trim(s), s.trim());
        assert_eq!(trim(&trim(s)), trim(s));
    }
}

#[test]
fn contains_finds_patterns() {
    assert!(contains("旅行{P}_{N}", "{P}"));
    assert!(!contains("旅行{N}", "{P}"));
    assert!(contains("abc", ""));
    assert!(!contains("ab", "abc"));
}

#[test]
fn text_eq_compares_characters() {
    assert!(text_eq("NumberOnly", "NumberOnly"));
    assert!(!text_eq("NumberOnly", "numberonly"));
    assert!(!text_eq("a", "ab"));
}

#[test]
fn white_space_matches_std_for_every_char() {
    for c in (0u32..=0x10FFFF).filter_map(char::from_u32) {
        assert_eq!(is_white_space(c), c.is_whitespace(), "{:?}", c);
    }
    assert!(is_white_space('\n'));
    assert!(!is_white_space('a'));
}
