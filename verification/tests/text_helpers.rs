//! Tests for the character-level text helpers.

use restack::text::find_char;
use restack::text::find_last;
use restack::text::has_prefix;
use restack::text::str_eq;
use restack::text::strip_prefix_or_self;
use restack::text::trim;
use restack::text::trim_end_ascii;

#[test]
fn find_char_basics() {
    assert_eq!(4, find_char("pick abc", ' ', 0));
    assert_eq!(8, find_char("pick abc", ' ', 5));
    assert_eq!(3, find_char("a b c", ' ', 2));
}

#[test]
fn str_eq_basics() {
    assert!(str_eq("pick", "pick"));
    assert!(!str_eq("pick", "p"));
    assert!(!str_eq("pick", "pics"));
    assert!(str_eq("", ""));
}

#[test]
fn has_prefix_basics() {
    assert!(has_prefix("refs/heads/main", "refs/heads/"));
    assert!(!has_prefix("refs/tags/v1", "refs/heads/"));
    assert!(!has_prefix("re", "refs/heads/"));
}

#[test]
fn strip_prefix_basics() {
    assert_eq!("main", strip_prefix_or_self("refs/heads/main", "refs/heads/"));
    assert_eq!("refs/tags/v1", strip_prefix_or_self("refs/tags/v1", "refs/heads/"));
}

#[test]
fn trim_basics() {
    assert_eq!("feature", trim("  feature\n"));
    assert_eq!("a b", trim("\ta b\r\n"));
    assert_eq!("", trim("   "));
}

#[test]
fn trim_end_ascii_basics() {
    assert_eq!(".git", trim_end_ascii(".git\n"));
    assert_eq!("  .git", trim_end_ascii("  .git  "));
}

#[test]
fn find_last_basics() {
    assert_eq!(Some(3), find_last("a/b/c.sh", '/'));
    assert_eq!(Some(5), find_last("a/b/c.sh", '.'));
    assert_eq!(None, find_last("abc", '/'));
}
