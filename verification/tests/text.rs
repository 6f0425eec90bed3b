use rust_claw::number::{i64_text, parse_i32, parse_i64, parse_u32, parse_u64, u128_text, u64_text};
use rust_claw::paths::join_path;
use rust_claw::text::{
    count_words, head_chars, join, lines, replace, split_at_char, split_once, strip_prefix,
    strip_suffix, tail_chars, text_before, to_ascii_lower, to_ascii_upper, trim, trim_end_of,
    truncate_bytes,
};

#[test]
fn texts_are_cut_and_joined() {
    assert_eq!(trim(" \u{3000}a b\n"), "a b");
    assert_eq!(trim_end_of("a//", '/'), "a");
    assert_eq!(split_at_char("a,,b", ','), vec!["a", "", "b"]);
    assert_eq!(
        split_once("k=v=w", '='),
        Some(("k".to_string(), "v=w".to_string()))
    );
    assert_eq!(lines("a\r\nb\n\nc"), vec!["a", "b", "", "c"]);
    assert_eq!(join(&vec!["a".to_string(), "b".to_string()], ", "), "a, b");
    assert_eq!(replace("aaa", "aa", "b"), "ba");
    assert_eq!(count_words(" a  b\tc "), 3);
    assert_eq!(head_chars("한글a", 2), "한글");
    assert_eq!(tail_chars("한글a", 2), "글a");
    assert_eq!(truncate_bytes("한글", 5), "한");
    assert_eq!(strip_prefix("abc", "a").as_deref(), Some("bc"));
    assert_eq!(strip_suffix("abc", "b"), None);
    assert_eq!(to_ascii_upper("aÀz"), "AÀZ");
    assert_eq!(to_ascii_lower("AÀZ"), "aÀz");
    assert!(text_before("a", "ab") && text_before("ab", "b") && !text_before("b", "b"));
}

#[test]
fn numbers_are_read_and_written() {
    assert_eq!(parse_u64("18446744073709551615"), Some(u64::MAX));
    assert_eq!(parse_u64("18446744073709551616"), None);
    assert_eq!(parse_u64("+7"), Some(7));
    assert_eq!(parse_u64("-0"), None);
    assert_eq!(parse_u32("4294967296"), None);
    assert_eq!(parse_i64("-9223372036854775808"), Some(i64::MIN));
    assert_eq!(parse_i32("-"), None);
    assert_eq!(parse_i32("2147483648"), None);
    assert_eq!(u64_text(u64::MAX), "18446744073709551615");
    assert_eq!(i64_text(i64::MIN), "-9223372036854775808");
    assert_eq!(u128_text(0), "0");
}

#[test]
fn paths_are_joined() {
    assert_eq!(join_path("a", "b"), "a/b");
    assert_eq!(join_path("a/", "b"), "a/b");
    assert_eq!(join_path("a", "/b"), "/b");
    assert_eq!(join_path("", "b"), "b");
}

#[test]
fn written_numbers_read_back() {
    for n in [0, 7, 10, 1_000_000_007, u64::MAX] {
        assert_eq!(parse_u64(&u64_text(n)), Some(n));
    }
}
