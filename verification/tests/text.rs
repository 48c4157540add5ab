use codeoid::text::{ascii_lower, chars_eq_ignore_case, chars_of, lower_chars, string_from_chars, trim_chars};

#[test]
fn lowercase_touches_ascii_letters_only() {
    assert_eq!(ascii_lower('Q'), 'q');
    assert_eq!(ascii_lower('q'), 'q');
    assert_eq!(ascii_lower('É'), 'É');
    assert_eq!(lower_chars(&chars_of("AbC-1")), chars_of("abc-1"));
}

#[test]
fn trimming_removes_unicode_white_space() {
    assert_eq!(trim_chars(&chars_of(" \t rs \n")), chars_of("rs"));
    assert_eq!(trim_chars(&chars_of("\u{2003}a b\u{2029}")), chars_of("a b"));
    assert_eq!(trim_chars(&chars_of("   ")), Vec::<char>::new());
}

#[test]
fn case_insensitive_comparison() {
    assert!(chars_eq_ignore_case(&chars_of("Help"), &chars_of("hELP")));
    assert!(!chars_eq_ignore_case(&chars_of("help"), &chars_of("helps")));
    assert!(!chars_eq_ignore_case(&chars_of("É"), &chars_of("é")));
}

#[test]
fn substring_from_characters() {
    let v = chars_of("héllo");
    assert_eq!(string_from_chars(&v, 1, 4), "éll");
}
