use devendra::text::{chars_of, format_i64, format_u64, join, replace_all_chars};

fn chars(s: &str) -> Vec<char> {
    s.chars().collect()
}

fn replaced(s: &str, from: &str, to: &str) -> String {
    let r = replace_all_chars(&chars(s), &chars(from), &chars(to));
    r.into_iter().collect()
}

#[test]
fn replace_matches_std_replace() {
    for (s, from, to) in [
        ("aaa", "aa", "b"),
        ("${A}-${A}", "${A}", "x"),
        ("abc", "d", "e"),
        ("", "a", "b"),
        ("abab", "ab", ""),
        ("xyz", "xyz", "${xyz}"),
    ] {
        assert_eq!(replaced(s, from, to), s.replace(from, to));
    }
}

#[test]
fn replace_scans_left_to_right_without_overlap() {
    assert_eq!(replaced("aaaa", "aa", "b"), "bb");
    assert_eq!(replaced("aaa", "aa", "b"), "ba");
}

#[test]
fn empty_pattern_leaves_text_unchanged() {
    assert_eq!(replaced("abc", "", "x"), "abc");
}

#[test]
fn chars_round_trip() {
    let s = "héllo ${X}";
    assert_eq!(chars_of(s).into_iter().collect::<String>(), s);
}

#[test]
fn decimal_formatting() {
    assert_eq!(format_u64(0), "0");
    assert_eq!(format_u64(7), "7");
    assert_eq!(format_u64(1234567890), "1234567890");
    assert_eq!(format_u64(u64::MAX), u64::MAX.to_string());
    assert_eq!(format_i64(-42), "-42");
    assert_eq!(format_i64(i64::MIN), i64::MIN.to_string());
    assert_eq!(format_i64(i64::MAX), i64::MAX.to_string());
}

#[test]
fn join_with_separator() {
    let parts = vec!["nginx".to_string(), "curl".to_string(), "git".to_string()];
    assert_eq!(join(&parts, ", "), "nginx, curl, git");
    assert_eq!(join(&vec!["one".to_string()], ", "), "one");
    assert_eq!(join(&Vec::new(), ", "), "");
}
