use netease_toolkit::text::{
    before_char, contains_str, ends_with_str, hex_lower, i64_to_decimal, join, replace_all,
    replace_char, starts_with_str, str_eq, str_to_chars, string_from_chars, trim,
};

#[test]
fn hex_is_lower_case_two_digits_per_byte() {
    assert_eq!(hex_lower(&[0x00, 0x0f, 0xab, 0xff]), "000fabff");
    assert_eq!(hex_lower(&[]), "");
}

#[test]
fn replace_scans_from_the_left_without_overlap() {
    assert_eq!(replace_all("aaa", "aa", "b"), "ba");
    assert_eq!(replace_all("xabyab", "ab", "-"), "x-y-");
    assert_eq!(
        replace_all("https://interface3.music.163.com/eapi/song/x", "https://interface3.music.163.com/eapi/", "/api/"),
        "/api/song/x"
    );
    assert_eq!(replace_char("a/b+c", '/', '_'), "a_b+c");
}

#[test]
fn decimal_text_of_integers() {
    assert_eq!(i64_to_decimal(0), "0");
    assert_eq!(i64_to_decimal(12345), "12345");
    assert_eq!(i64_to_decimal(-7), "-7");
    assert_eq!(i64_to_decimal(i64::MIN), "-9223372036854775808");
    assert_eq!(i64_to_decimal(i64::MAX), "9223372036854775807");
}

#[test]
fn trim_drops_unicode_whitespace() {
    assert_eq!(trim("  a b \t\n"), "a b");
    assert_eq!(trim("\u{3000}x\u{A0}"), "x");
    assert_eq!(trim("   "), "");
}

#[test]
fn small_text_helpers() {
    assert_eq!(before_char("a=b; Path=/", ';'), "a=b");
    assert_eq!(before_char("abc", ';'), "abc");
    assert!(contains_str("xMUSIC_U=y", "MUSIC_U="));
    assert!(!contains_str("MUSIC", "MUSIC_U="));
    assert!(contains_str("", ""));
    assert!(starts_with_str("path=/", "path="));
    assert!(ends_with_str("a.png", ".png"));
    assert!(!ends_with_str("png", ".png"));
    assert!(str_eq("é", "é"));
    assert!(!str_eq("a", "ab"));
    assert_eq!(join(&vec!["a".to_string(), "b".to_string()], " / "), "a / b");
    assert_eq!(join(&vec![], "/"), "");
    assert_eq!(string_from_chars(&str_to_chars("日本")), "日本");
}
