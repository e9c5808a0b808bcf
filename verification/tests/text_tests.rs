use aip::text::{
    is_whitespace,
    int_text, join_strings, nat_text, parse_int, same_text, str_contains, trim_str,
};

#[test]
fn trim_removes_surrounding_white_space() {
    assert_eq!(trim_str("  a b \n\t"), "a b");
    assert_eq!(trim_str("   "), "");
    assert_eq!(trim_str("\u{3000}가나\u{3000}"), "가나");
}

#[test]
fn trim_twice_is_trim_once() {
    let once = trim_str("  x  y  ");
    assert_eq!(trim_str(&once), once);
}

#[test]
fn decimal_texts() {
    assert_eq!(nat_text(0), "0");
    assert_eq!(nat_text(1234), "1234");
    assert_eq!(nat_text(u64::MAX), "18446744073709551615");
    assert_eq!(int_text(-42), "-42");
    assert_eq!(int_text(i64::MIN), "-9223372036854775808");
    assert_eq!(int_text(7), "7");
}

#[test]
fn parse_like_std() {
    assert_eq!(parse_int("+7"), Some(7));
    assert_eq!(parse_int("-15"), Some(-15));
    assert_eq!(parse_int("0042"), Some(42));
    assert_eq!(parse_int("-"), None);
    assert_eq!(parse_int("+"), None);
    assert_eq!(parse_int(""), None);
    assert_eq!(parse_int("12a"), None);
    assert_eq!(parse_int("9223372036854775807"), Some(i64::MAX));
    assert_eq!(parse_int("9223372036854775808"), None);
    assert_eq!(parse_int("-9223372036854775808"), Some(i64::MIN));
    assert_eq!(parse_int("-9223372036854775809"), None);
    for s in ["1", "-0", "+3", "x", "99999999999999999999", "１"] {
        assert_eq!(parse_int(s), s.parse::<i64>().ok(), "{}", s);
    }
}

#[test]
fn parse_of_decimal_gives_the_number_back() {
    for n in [0i64, 5, -5, 1000, i64::MAX, i64::MIN] {
        assert_eq!(parse_int(&int_text(n)), Some(n));
    }
}

#[test]
fn join_and_search() {
    let parts = vec!["a".to_string(), "b".to_string(), "c".to_string()];
    assert_eq!(join_strings(&parts, ", "), "a, b, c");
    assert_eq!(join_strings(&Vec::new(), ", "), "");
    assert!(str_contains("hello world", "o w"));
    assert!(str_contains("abc", ""));
    assert!(!str_contains("abc", "abcd"));
    assert!(same_text("가", "가"));
    assert!(!same_text("a", "A"));
}

#[test]
fn white_space_as_std_sees_it() {
    for c in ['\t', '\n', '\u{0b}', '\u{0c}', '\r', ' ', '\u{85}', '\u{a0}', '\u{1680}', '\u{2000}', '\u{200a}', '\u{2028}', '\u{2029}', '\u{202f}', '\u{205f}', '\u{3000}'] {
        assert!(is_whitespace(c), "{:?}", c);
        assert_eq!(is_whitespace(c), c.is_whitespace());
    }
    for c in ['a', '0', '_', '\u{200b}', '\u{feff}', '\u{180e}', '가'] {
        assert!(!is_whitespace(c), "{:?}", c);
        assert_eq!(is_whitespace(c), c.is_whitespace());
    }
    for u in 0u32..=0x10ffff {
        if let Some(c) = char::from_u32(u) {
            assert_eq!(is_whitespace(c), c.is_whitespace(), "{:x}", u);
        }
    }
}
