use copper::text::{
    chars_of, int_text, parse_bool, parse_int, parse_uint, range_is, string_of, trim, uint_text,
    Sources,
};

#[test]
fn numbers_to_digits() {
    assert_eq!(uint_text(0), "0");
    assert_eq!(uint_text(7), "7");
    assert_eq!(uint_text(10), "10");
    assert_eq!(uint_text(1234567890), "1234567890");
    assert_eq!(uint_text(u64::MAX), "18446744073709551615");
    assert_eq!(int_text(0), "0");
    assert_eq!(int_text(-1), "-1");
    assert_eq!(int_text(i64::MAX), "9223372036854775807");
    assert_eq!(int_text(i64::MIN), "-9223372036854775808");
}

#[test]
fn digits_to_numbers() {
    assert_eq!(parse_uint("0"), Some(0));
    assert_eq!(parse_uint("+17"), Some(17));
    assert_eq!(parse_uint("007"), Some(7));
    assert_eq!(parse_uint("18446744073709551615"), Some(u64::MAX));
    assert_eq!(parse_uint("18446744073709551616"), None);
    assert_eq!(parse_uint("-0"), None);
    assert_eq!(parse_uint(""), None);
    assert_eq!(parse_uint("+"), None);
    assert_eq!(parse_uint("1 "), None);
    assert_eq!(parse_uint("1_0"), None);
    assert_eq!(parse_int("-0"), Some(0));
    assert_eq!(parse_int("+9"), Some(9));
    assert_eq!(parse_int("-45"), Some(-45));
    assert_eq!(parse_int("9223372036854775807"), Some(i64::MAX));
    assert_eq!(parse_int("9223372036854775808"), None);
    assert_eq!(parse_int("-9223372036854775808"), Some(i64::MIN));
    assert_eq!(parse_int("-9223372036854775809"), None);
    assert_eq!(parse_int("-"), None);
    assert_eq!(parse_int("--1"), None);
    assert_eq!(parse_int("+-1"), None);
    assert_eq!(parse_int("१२"), None);
    assert_eq!(parse_int("1.5"), None);
}

#[test]
fn they_agree_with_the_standard_library() {
    for text in ["", "0", "-0", "+0", "12", "-12", "+12", "0012", "1e3", " 1", "9223372036854775808", "-9223372036854775808", "99999999999999999999", "+", "-", "٣"] {
        assert_eq!(parse_int(text), text.parse::<i64>().ok(), "{:?}", text);
        assert_eq!(parse_uint(text), text.parse::<u64>().ok(), "{:?}", text);
    }
    for n in [0i64, 1, -1, 9, 10, -10, 99, 100, 12345, i64::MAX, i64::MIN] {
        assert_eq!(int_text(n), n.to_string());
    }
    for n in [0u64, 9, 10, 11, 1000, u64::MAX] {
        assert_eq!(uint_text(n), n.to_string());
    }
    for text in ["", " ", " a ", "\t\n a b \r\n", "\u{a0}x\u{3000}", "\u{2003}\u{85}y", "\u{200b}z ", "a\u{1680}"] {
        assert_eq!(trim(text), text.trim(), "{:?}", text);
    }
}

#[test]
fn white_space_is_trimmed_at_both_ends_only() {
    assert_eq!(trim("  a b  "), "a b");
    assert_eq!(trim("\n\t"), "");
    assert_eq!(trim("x"), "x");
}

#[test]
fn truth_values() {
    assert_eq!(parse_bool("true"), Some(true));
    assert_eq!(parse_bool("false"), Some(false));
    assert_eq!(parse_bool("TRUE"), None);
    assert_eq!(parse_bool(""), None);
}

#[test]
fn characters_and_ranges() {
    let v = chars_of("héllo");
    assert_eq!(v, vec!['h', 'é', 'l', 'l', 'o']);
    assert_eq!(string_of(&v, 1, 4), "éll");
    assert_eq!(string_of(&v, 2, 2), "");
    assert!(range_is(&v, 2, 5, "llo"));
    assert!(!range_is(&v, 2, 5, "ll"));
    assert!(!range_is(&v, 0, 3, "hel"));
}

#[test]
fn first_stored_text_wins() {
    let mut sources = Sources::new();
    sources.add("a".to_string(), "one".to_string());
    sources.add("b".to_string(), "two".to_string());
    sources.add("a".to_string(), "three".to_string());
    assert_eq!(sources.find(&"a".to_string()), Some(0));
    assert_eq!(sources.find(&"b".to_string()), Some(1));
    assert_eq!(sources.find(&"c".to_string()), None);
    let copy = sources.duplicate();
    assert_eq!(copy.files.len(), 3);
    assert_eq!(copy.files[2].text, "three");
}
