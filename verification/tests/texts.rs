use minihttp::search::{find, matches_at};
use minihttp::text::{same_text, split, split_once, strip_prefix};

#[test]
fn find_gives_the_first_occurrence() {
    assert_eq!(find(b"abcabc", b"bc"), Some(1));
    assert_eq!(find(b"abcabc", b"abc"), Some(0));
    assert_eq!(find(b"aaab", b"aab"), Some(1));
    assert_eq!(find(b"abc", b"c"), Some(2));
    assert_eq!(find(b"abc", b"abc"), Some(0));
    assert_eq!(find(b"abc", b""), Some(0));
    assert_eq!(find(b"", b""), Some(0));
    assert_eq!(find(b"abc", b"abcd"), None);
    assert_eq!(find(b"abc", b"d"), None);
    assert_eq!(find(b"", b"a"), None);
    assert_eq!(find(b"ab", b"ba"), None);
}

#[test]
fn matches_at_compares_in_place() {
    assert!(matches_at(b"abcd", b"bc", 1));
    assert!(matches_at(b"abcd", b"", 4));
    assert!(matches_at(b"abcd", b"abcd", 0));
    assert!(!matches_at(b"abcd", b"bc", 0));
    assert!(!matches_at(b"abcd", b"bd", 1));
    assert!(!matches_at(b"abcd", b"cd", 3));
    assert!(!matches_at(b"abcd", b"", 5));
    assert!(!matches_at(b"abcd", b"d", usize::MAX));
    assert!(!matches_at(b"", b"a", 0));
}

#[test]
fn same_text_compares_letter_for_letter() {
    assert!(same_text("", ""));
    assert!(same_text("abc", "abc"));
    assert!(same_text("caf\u{e9}", "caf\u{e9}"));
    assert!(!same_text("abc", "abd"));
    assert!(!same_text("abc", "ab"));
    assert!(!same_text("ab", "abc"));
    assert!(!same_text("abc", "ABC"));
    assert!(!same_text("cafe", "caf\u{e9}"));
}

#[test]
fn split_once_cuts_at_the_first_occurrence() {
    assert_eq!(split_once("a: b: c", ": "), Some(("a", "b: c")));
    assert_eq!(split_once(": x", ": "), Some(("", "x")));
    assert_eq!(split_once("x: ", ": "), Some(("x", "")));
    assert_eq!(split_once("a:b", ": "), None);
    assert_eq!(split_once("", ": "), None);
    assert_eq!(split_once("abc", ""), Some(("", "abc")));
    assert_eq!(split_once("\u{e9}=\u{65e5}=\u{1f600}", "="), Some(("\u{e9}", "\u{65e5}=\u{1f600}")));
    assert_eq!(split_once("a\u{65e5}b\u{65e5}c", "\u{65e5}"), Some(("a", "b\u{65e5}c")));
}

#[test]
fn split_cuts_at_every_occurrence() {
    assert_eq!(split("a&b&c", "&"), vec!["a", "b", "c"]);
    assert_eq!(split("a", "&"), vec!["a"]);
    assert_eq!(split("", "&"), vec![""]);
    assert_eq!(split("&", "&"), vec!["", ""]);
    assert_eq!(split("a&&b&", "&"), vec!["a", "", "b", ""]);
    assert_eq!(split("a\r\nb\r\n\r\nc", "\r\n"), vec!["a", "b", "", "c"]);
    assert_eq!(split("aaa", "aa"), vec!["", "a"]);
    assert_eq!(split("abc", ""), vec!["abc"]);
    assert_eq!(split("\u{e9}&\u{1f600}", "&"), vec!["\u{e9}", "\u{1f600}"]);
}

#[test]
fn strip_prefix_takes_the_prefix_off() {
    assert_eq!(strip_prefix("\nHost: h", "\n"), Some("Host: h"));
    assert_eq!(strip_prefix("\n", "\n"), Some(""));
    assert_eq!(strip_prefix("abc", ""), Some("abc"));
    assert_eq!(strip_prefix("Host\n", "\n"), None);
    assert_eq!(strip_prefix("", "\n"), None);
    assert_eq!(strip_prefix("ab", "abc"), None);
    assert_eq!(strip_prefix("\u{e9}t\u{e9}", "\u{e9}"), Some("t\u{e9}"));
}
