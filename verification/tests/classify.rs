use lsproj::order::str_lex_le;
use lsproj::project::{classify_remote, HostKind};
use lsproj::text::{contains_substr, pad_right};

#[test]
fn substring_found_and_missed() {
    assert!(contains_substr("https://github.com/x/y", "github.com"));
    assert!(!contains_substr("https://gitlab.com/x/y", "github.com"));
    assert!(contains_substr("abc", ""));
    assert!(!contains_substr("ab", "abc"));
    assert!(contains_substr("aab", "ab"));
}

#[test]
fn substring_in_path_segment_counts() {
    // a match anywhere in the URL counts, the host is not singled out
    assert!(contains_substr("https://example.com/github.com/mirror", "github.com"));
}

#[test]
fn classify_keeps_url_and_marks_primary() {
    let info = classify_remote("https://github.com/x/y".to_string());
    assert_eq!(info.url, "https://github.com/x/y");
    assert!(matches!(info.host_kind, HostKind::Primary));
}

#[test]
fn classify_marks_other_hosts() {
    let info = classify_remote("git@sr.ht:~u/proj".to_string());
    assert_eq!(info.url, "git@sr.ht:~u/proj");
    assert!(matches!(info.host_kind, HostKind::Other));
}

#[test]
fn lexicographic_order_on_names() {
    assert!(str_lex_le("alpha", "beta"));
    assert!(!str_lex_le("beta", "alpha"));
    assert!(str_lex_le("a", "ab"));
    assert!(!str_lex_le("ab", "a"));
    assert!(str_lex_le("same", "same"));
    // upper-case code points come before lower-case ones
    assert!(str_lex_le("Zebra", "apple"));
}

#[test]
fn padding_fills_to_width() {
    assert_eq!(pad_right("abc", 7), "abc    ");
    assert_eq!(pad_right("abc", 3), "abc");
    assert_eq!(pad_right("abcd", 2), "abcd");
    assert_eq!(pad_right("", 2), "  ");
}
