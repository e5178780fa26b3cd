use intersections::numbers::{decimal_string, parse_i32, parse_trimmed_i32};
use intersections::text::{
    concatenate, normalize_answer, normalize_batch_translation, normalize_phrase, normalize_translation, str_equal,
    trim_str,
};

#[test]
fn decimal_string_writes_like_format() {
    for n in [0, 7, 10, 42, -1, -42, 1000, 2147483647, -2147483648, 99999, -10] {
        assert_eq!(decimal_string(n), format!("{}", n));
    }
}

#[test]
fn parse_i32_reads_signs_and_digits() {
    assert_eq!(parse_i32("42"), Some(42));
    assert_eq!(parse_i32("+7"), Some(7));
    assert_eq!(parse_i32("-0"), Some(0));
    assert_eq!(parse_i32("-2147483648"), Some(i32::MIN));
    assert_eq!(parse_i32("2147483647"), Some(i32::MAX));
    assert_eq!(parse_i32("007"), Some(7));
}

#[test]
fn parse_i32_refuses_what_std_refuses() {
    assert_eq!(parse_i32(""), None);
    assert_eq!(parse_i32("-"), None);
    assert_eq!(parse_i32("+"), None);
    assert_eq!(parse_i32("1a"), None);
    assert_eq!(parse_i32(" 1"), None);
    assert_eq!(parse_i32("2147483648"), None);
    assert_eq!(parse_i32("-2147483649"), None);
    assert_eq!(parse_i32("99999999999999999999"), None);
    assert_eq!(parse_i32("--1"), None);
}

#[test]
fn parse_i32_agrees_with_std() {
    let cases = [
        "0", "12", "-12", "+12", "", "x", "1 ", "٣", "2147483647", "2147483648", "-2147483648", "+-1", "00",
        "-00012",
    ];
    for c in cases {
        assert_eq!(parse_i32(c), c.parse::<i32>().ok(), "input {:?}", c);
    }
}

#[test]
fn written_numbers_read_back() {
    for n in [0, 5, -5, 123456, -987654, i32::MAX, i32::MIN] {
        assert_eq!(parse_i32(&decimal_string(n)), Some(n));
    }
}

#[test]
fn parse_trimmed_i32_trims_first() {
    assert_eq!(parse_trimmed_i32("  17\n"), Some(17));
    assert_eq!(parse_trimmed_i32("\t-3 "), Some(-3));
    assert_eq!(parse_trimmed_i32(" 1 2 "), None);
}

#[test]
fn phrases_are_lowercased_trimmed_and_slash_free() {
    assert_eq!(normalize_phrase("  He/Him  "), "hehim");
    assert_eq!(normalize_phrase("Gen X"), "gen x");
    assert_eq!(normalize_phrase("/"), "");
}

#[test]
fn translations_are_trimmed_lowercased_and_slash_free() {
    assert_eq!(normalize_translation("  Il/Lui "), "illui");
    assert_eq!(normalize_batch_translation(" Il/Lui "), " illui ");
}

#[test]
fn answers_are_lowercased_and_trimmed() {
    assert_eq!(normalize_answer("  Tired / Happy "), "tired / happy");
    assert_eq!(normalize_answer("ÉTÉ"), "été");
}

#[test]
fn trim_and_concat_and_equality() {
    assert_eq!(trim_str("\u{a0} a b \u{3000}"), "a b");
    assert_eq!(trim_str("   "), "");
    assert_eq!(concatenate("ab", "cd"), "abcd");
    assert!(str_equal("été", "été"));
    assert!(!str_equal("a", "ab"));
}
