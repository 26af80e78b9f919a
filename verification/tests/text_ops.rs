use cpkg::text::{
    contains, contains_ignore_ascii_case, decimal_string, eq_ignore_ascii_case, is_whitespace,
    join, lines, prefix_before, split_char, split_whitespace, starts_with, str_equal,
    suffix_after_last, trim, trim_end_matches,
};

#[test]
fn trim_removes_surrounding_unicode_white_space() {
    assert_eq!(trim("  \t hello world \n"), "hello world");
    assert_eq!(trim("\u{3000}x\u{a0}"), "x");
    assert_eq!(trim("   "), "");
    assert_eq!(trim(""), "");
}

#[test]
fn is_whitespace_agrees_with_std_on_all_chars() {
    for code in 0u32..=0x10FFFF {
        if let Some(c) = char::from_u32(code) {
            assert_eq!(is_whitespace(c), c.is_whitespace(), "code point {code:#x}");
        }
    }
}

#[test]
fn trim_end_matches_strips_every_repetition() {
    assert_eq!(trim_end_matches("app.json.json", ".json"), "app");
    assert_eq!(trim_end_matches("app", ".json"), "app");
    assert_eq!(trim_end_matches("a.jso", ".json"), "a.jso");
    assert_eq!(trim_end_matches("abc", ""), "abc");
}

#[test]
fn prefix_and_suffix_checks() {
    assert!(starts_with("https://github.com/x", "https://github.com/"));
    assert!(!starts_with("http://github.com/x", "https://github.com/"));
    assert!(contains("a/releases/latest/download/b", "/releases/latest/download/"));
    assert!(!contains("a/releases/download/b", "/releases/latest/download/"));
    assert!(contains("abc", ""));
    assert!(str_equal("abc", "abc"));
    assert!(!str_equal("abc", "abd"));
}

#[test]
fn splitting_matches_std() {
    assert_eq!(split_char("a;;b;", ';'), "a;;b;".split(';').collect::<Vec<_>>());
    assert_eq!(split_char("", ';'), vec![""]);
    assert_eq!(prefix_before("x?y?z", '?'), "x");
    assert_eq!(suffix_after_last("a/b/c", '/'), "c");
    assert_eq!(suffix_after_last("abc", '/'), "abc");
    let s = "  Path    REG_EXPAND_SZ   C:\\a;C:\\b  ";
    assert_eq!(split_whitespace(s), s.split_whitespace().collect::<Vec<_>>());
    let t = "one\r\ntwo\n\nthree\r";
    assert_eq!(lines(t), t.lines().collect::<Vec<_>>());
    assert_eq!(lines("a\n"), vec!["a"]);
    assert_eq!(lines(""), Vec::<&str>::new());
    assert_eq!(join(&["a", "b", "c"], " "), "a b c");
    assert_eq!(join(&[], " "), "");
}

#[test]
fn ascii_case_comparisons() {
    assert!(eq_ignore_ascii_case("CPKG", "cpkg"));
    assert!(!eq_ignore_ascii_case("cpkg2", "cpkg"));
    assert!(contains_ignore_ascii_case("v1.2-NIGHTLY.3", "-nightly."));
    assert!(!contains_ignore_ascii_case("v1.2-nightly", "-nightly."));
}

#[test]
fn decimal_notation() {
    assert_eq!(decimal_string(0), "0");
    assert_eq!(decimal_string(7), "7");
    assert_eq!(decimal_string(1234567890), "1234567890");
    assert_eq!(decimal_string(u64::MAX), u64::MAX.to_string());
}
