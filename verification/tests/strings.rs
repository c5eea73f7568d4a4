use orgstats::strings::{
    replace_newlines, str_contains, str_eq, str_le, str_lt, str_prefix, u64_to_string,
};

#[test]
fn lexicographic_order_of_timestamps() {
    assert!(str_le("2024-01-01", "2024-01-02"));
    assert!(!str_le("2024-01-02", "2024-01-01"));
    assert!(str_le("2024-01-01", "2024-01-01"));
    assert!(str_lt("2024-01-01", "2024-01-01T00:00:00+00:00"));
    assert!(str_le("", "2024"));
    assert!(!str_le("2024", ""));
    // a date bound sorts below any timestamp of that day, and above the
    // previous day's timestamps
    assert!(str_le("2024-05-03", "2024-05-03T00:00:00+00:00"));
    assert!(str_lt("2024-05-02T23:59:59+00:00", "2024-05-03"));
}

#[test]
fn prefixes_truncate_or_keep() {
    assert_eq!(str_prefix("2024-05-03T00:00:00+00:00", 7), "2024-05");
    assert_eq!(str_prefix("2024-05-03T00:00:00+00:00", 4), "2024");
    assert_eq!(str_prefix("abc", 7), "abc");
    assert_eq!(str_prefix("abc", 0), "");
}

#[test]
fn substring_search() {
    assert!(str_contains("New Crowdin updates today", "Crowdin"));
    assert!(str_contains("abc", ""));
    assert!(!str_contains("abc", "abcd"));
    assert!(str_contains("aaab", "aab"));
    assert!(!str_contains("merge", "Merge"));
}

#[test]
fn newline_flattening() {
    assert_eq!(replace_newlines("a\nb\nc"), "a b c");
    assert_eq!(replace_newlines("plain"), "plain");
    assert_eq!(replace_newlines("\n"), " ");
}

#[test]
fn decimal_rendering() {
    assert_eq!(u64_to_string(0), "0");
    assert_eq!(u64_to_string(7), "7");
    assert_eq!(u64_to_string(65535), "65535");
    assert_eq!(u64_to_string(u64::MAX), "18446744073709551615");
}

#[test]
fn string_equality() {
    assert!(str_eq("abc", "abc"));
    assert!(!str_eq("abc", "abd"));
    assert!(!str_eq("abc", "ab"));
    assert!(str_eq("", ""));
}
