use speech_translator::text::{
    capitalize_first, decimal_string, join2, matches_at, starts_with, str_equals, str_less,
    trim_end_matches, trim_str,
};

#[test]
fn trim_removes_surrounding_whitespace() {
    assert_eq!(trim_str("  hello world \t\n"), "hello world");
    assert_eq!(trim_str("\u{3000}text\u{a0}"), "text");
    assert_eq!(trim_str("   "), "");
    assert_eq!(trim_str(""), "");
    assert_eq!(trim_str("inner  space"), "inner  space");
}

#[test]
fn trim_is_idempotent_on_examples() {
    for s in ["  a b  ", "\n\nx", "y\t", "", " \u{2003} "] {
        let once = trim_str(s);
        assert_eq!(trim_str(once), once);
        assert_eq!(once, s.trim());
    }
}

#[test]
fn trim_end_matches_strips_every_repetition() {
    assert_eq!(trim_end_matches("zoom.exe", ".exe"), "zoom");
    assert_eq!(trim_end_matches("app.exe.exe", ".exe"), "app");
    assert_eq!(trim_end_matches("spotify", ".exe"), "spotify");
    assert_eq!(trim_end_matches(".exe", ".exe"), "");
    assert_eq!(trim_end_matches("a.exe.b", ".exe"), "a.exe.b");
    assert_eq!(trim_end_matches("abc", ""), "abc");
    assert_eq!(trim_end_matches("abc", ""), "abc".trim_end_matches(""));
}

#[test]
fn capitalize_first_upper_cases_first_character() {
    assert_eq!(capitalize_first("zoom"), "Zoom");
    assert_eq!(capitalize_first("Brave"), "Brave");
    assert_eq!(capitalize_first(""), "");
    assert_eq!(capitalize_first("éclair"), "Éclair");
    assert_eq!(capitalize_first("ßig"), "SSig");
    assert_eq!(capitalize_first("1password"), "1password");
}

#[test]
fn string_comparisons() {
    assert!(str_equals("abc", "abc"));
    assert!(!str_equals("abc", "abd"));
    assert!(!str_equals("ab", "abc"));
    assert!(str_less("Brave", "Zoom"));
    assert!(!str_less("Zoom", "Brave"));
    assert!(str_less("ab", "abc"));
    assert!(!str_less("abc", "abc"));
    assert!(str_less("Z", "a"));
    assert!(starts_with("[Music playing]", "[Music"));
    assert!(!starts_with("[Mus", "[Music"));
    assert!(matches_at("hello", 1, "ell"));
    assert!(!matches_at("hello", 4, "lo!"));
}

#[test]
fn decimal_formatting_and_joining() {
    assert_eq!(decimal_string(0), "0");
    assert_eq!(decimal_string(7), "7");
    assert_eq!(decimal_string(429), "429");
    assert_eq!(decimal_string(u32::MAX), "4294967295");
    assert_eq!(join2("Token ", "abc"), "Token abc");
}
