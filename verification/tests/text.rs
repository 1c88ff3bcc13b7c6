use tmtidy::text::{str_contains, trimmed};

#[test]
fn trims_unicode_whitespace() {
    assert_eq!(trimmed("  501\n"), "501");
    assert_eq!(trimmed("\u{2003}x y\u{205f}"), "x y");
    assert_eq!(trimmed(" \t "), "");
}

#[test]
fn substring_search() {
    assert!(str_contains("abcdef", "cde"));
    assert!(str_contains("abc", ""));
    assert!(!str_contains("abc", "abcd"));
    assert!(!str_contains("abc", "ac"));
}
