use zj_status_bar::util::char_count;
use zj_status_bar::util::dec_string;
use zj_status_bar::util::parse_u32;

#[test]
fn dec_string_renders_decimal() {
    assert_eq!(dec_string(0).as_str(), "0");
    assert_eq!(dec_string(7).as_str(), "7");
    assert_eq!(dec_string(10).as_str(), "10");
    assert_eq!(dec_string(12345).as_str(), "12345");
    assert_eq!(dec_string(1000000).as_str(), "1000000");
}

#[test]
fn char_count_counts_characters_not_bytes() {
    assert_eq!(char_count(""), 0);
    assert_eq!(char_count("abc"), 3);
    assert_eq!(char_count("h\u{e9}llo"), 5);
    assert_eq!(char_count("\u{2026}"), 1);
}

#[test]
fn parse_u32_accepts_digits() {
    assert_eq!(parse_u32("0"), Some(0));
    assert_eq!(parse_u32("42"), Some(42));
    assert_eq!(parse_u32("007"), Some(7));
    assert_eq!(parse_u32("4294967295"), Some(u32::MAX));
}

#[test]
fn parse_u32_rejects_bad_input() {
    assert_eq!(parse_u32(""), None);
    assert_eq!(parse_u32("abc"), None);
    assert_eq!(parse_u32("12x"), None);
    assert_eq!(parse_u32("-1"), None);
    assert_eq!(parse_u32("4294967296"), None);
    assert_eq!(parse_u32("\u{ff14}\u{ff12}"), None);
}
