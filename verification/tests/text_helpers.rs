use backend_rust::text::{
    contains_str, format_i64, str_eq, str_eq_ignore_ascii_case, to_hex_lower, trim_str,
};

#[test]
fn trim_removes_unicode_white_space() {
    assert_eq!(trim_str(" \t\u{a0}abc d\u{3000}\n"), "abc d");
    assert_eq!(trim_str("   "), "");
    assert_eq!(trim_str("x"), "x");
}

#[test]
fn contains_finds_runs() {
    assert!(contains_str("nguyen van a", "van"));
    assert!(contains_str("abc", ""));
    assert!(!contains_str("ab", "abc"));
    assert!(!contains_str("0901", "0902"));
}

#[test]
fn format_i64_writes_decimal() {
    assert_eq!(format_i64(0), "0");
    assert_eq!(format_i64(1234), "1234");
    assert_eq!(format_i64(-56), "-56");
    assert_eq!(format_i64(i64::MIN), "-9223372036854775808");
    assert_eq!(format_i64(i64::MAX), "9223372036854775807");
}

#[test]
fn hex_is_lower_case_two_digits_per_byte() {
    assert_eq!(to_hex_lower(&vec![0x00, 0x0a, 0xff, 0x5e]), "000aff5e");
}

#[test]
fn comparisons_of_text() {
    assert!(str_eq_ignore_ascii_case("DeSc", "desc"));
    assert!(!str_eq_ignore_ascii_case("descending", "desc"));
    assert!(str_eq("Sale", "Sale"));
    assert!(!str_eq("Sale", "sale"));
}
