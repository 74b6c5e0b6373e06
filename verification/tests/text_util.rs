//! Byte-utility behavior: prefixes, substrings, trimming, digits.

use crawler::text::ascii_lower_bytes;
use crawler::text::bytes_contains;
use crawler::text::bytes_eq;
use crawler::text::bytes_starts_with;
use crawler::text::check_all_digits;
use crawler::text::find_byte;
use crawler::text::parse_digits_bounded;
use crawler::text::split_lines;
use crawler::text::trim_bytes;

#[test]
fn bytes_eq_basics() {
    assert!(bytes_eq(b"abc", b"abc"));
    assert!(!bytes_eq(b"abc", b"abd"));
    assert!(!bytes_eq(b"abc", b"ab"));
    assert!(bytes_eq(b"", b""));
}

#[test]
fn prefix_basics() {
    assert!(bytes_starts_with(b"/private/x", b"/private"));
    assert!(!bytes_starts_with(b"/pub", b"/private"));
    assert!(bytes_starts_with(b"anything", b""));
    assert!(!bytes_starts_with(b"a", b"ab"));
}

#[test]
fn contains_basics() {
    assert!(bytes_contains(b"text/html; charset=utf-8", b"text/html"));
    assert!(!bytes_contains(b"application/json", b"text/html"));
    assert!(bytes_contains(b"abc", b""));
    assert!(bytes_contains(b"aaab", b"aab"));
    assert!(!bytes_contains(b"ab", b"abc"));
}

#[test]
fn trim_and_lower() {
    assert_eq!(trim_bytes(b"  hello\r\n"), b"hello".to_vec());
    assert_eq!(trim_bytes(b"\t\t"), Vec::<u8>::new());
    assert_eq!(trim_bytes(b"x"), b"x".to_vec());
    assert_eq!(ascii_lower_bytes(b"User-AGENT"), b"user-agent".to_vec());
    assert_eq!(ascii_lower_bytes(b"123{}"), b"123{}".to_vec());
}

#[test]
fn find_and_split() {
    assert_eq!(find_byte(b"a:b:c", b':'), Some(1));
    assert_eq!(find_byte(b"abc", b':'), None);
    let lines = split_lines(b"a\nb\n\nc");
    assert_eq!(lines.len(), 4);
    assert_eq!(lines[0], b"a".to_vec());
    assert_eq!(lines[1], b"b".to_vec());
    assert_eq!(lines[2], Vec::<u8>::new());
    assert_eq!(lines[3], b"c".to_vec());
    let one = split_lines(b"");
    assert_eq!(one.len(), 1);
    assert_eq!(one[0], Vec::<u8>::new());
}

#[test]
fn digits_parsing() {
    assert!(check_all_digits(b"0123456789"));
    assert!(!check_all_digits(b"12a"));
    assert_eq!(parse_digits_bounded(b"1234", 10_000), Some(1234));
    assert_eq!(parse_digits_bounded(b"1234", 1000), None);
    assert_eq!(parse_digits_bounded(b"", 1000), None);
    assert_eq!(parse_digits_bounded(b"12x", 1000), None);
    assert_eq!(parse_digits_bounded(b"0", 0), Some(0));
}
