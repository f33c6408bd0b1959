use rshell::text::{chars_eq, copy_range, splice, trim_chars};

fn chars(s: &str) -> Vec<char> {
    s.chars().collect()
}

#[test]
fn trim_removes_surrounding_whitespace_only() {
    assert_eq!(trim_chars(&chars("  a b\t\n")), chars("a b"));
    assert_eq!(trim_chars(&chars("plain")), chars("plain"));
    assert_eq!(trim_chars(&chars(" \t\r\n")), chars(""));
}

#[test]
fn equality_compares_contents() {
    assert!(chars_eq(&chars("abc"), &chars("abc")));
    assert!(!chars_eq(&chars("abc"), &chars("abd")));
    assert!(!chars_eq(&chars("abc"), &chars("ab")));
}

#[test]
fn copy_range_takes_the_half_open_range() {
    assert_eq!(copy_range(&chars("abcdef"), 1, 4), chars("bcd"));
    assert_eq!(copy_range(&chars("abc"), 2, 2), chars(""));
}

#[test]
fn splice_replaces_the_middle() {
    assert_eq!(splice(&chars("a$Xb"), 1, 3, &chars("foo")), chars("afoob"));
    assert_eq!(splice(&chars("abc"), 0, 3, &chars("")), chars(""));
}
