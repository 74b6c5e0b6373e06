//! URL canonicalization against the real `url` crate: scheme filtering,
//! fragment dropping, host lower-casing, trailing-slash trimming, ports
//! and queries, and the fixed point on re-normalization.

use crawler::urlnorm::host_or_empty;
use crawler::urlnorm::normalize_url;
use crawler::urlnorm::origin_of;
use crawler::urlnorm::str_eq;

#[test]
fn normalize_drops_fragment_and_lowercases_host() {
    assert_eq!(normalize_url("http://T/a#frag"), Some("http://t/a".to_string()));
}

#[test]
fn normalize_trims_one_trailing_slash() {
    assert_eq!(normalize_url("http://t/"), Some("http://t".to_string()));
    assert_eq!(normalize_url("http://t/a/"), Some("http://t/a".to_string()));
}

#[test]
fn normalize_keeps_port_and_query() {
    assert_eq!(
        normalize_url("https://example.com:8080/x/?q=1#sec"),
        Some("https://example.com:8080/x?q=1".to_string())
    );
    // a default port is dropped by the parser itself
    assert_eq!(normalize_url("https://example.com:443/x"), Some("https://example.com/x".to_string()));
}

#[test]
fn normalize_rejects_non_http_schemes() {
    assert_eq!(normalize_url("ftp://example.com/x"), None);
    assert_eq!(normalize_url("mailto:someone@example.com"), None);
    assert_eq!(normalize_url("not a url at all"), None);
}

#[test]
fn dedup_by_canonical_form() {
    // three spellings of the same page collapse to one canonical URL
    let a = normalize_url("http://T/a#frag").unwrap();
    let b = normalize_url("http://t/a/").unwrap();
    let c = normalize_url("http://t/a").unwrap();
    assert_eq!(a, b);
    assert_eq!(b, c);
}

#[test]
fn normalize_is_fixed_point_on_own_output() {
    for u in [
        "http://T/a#frag",
        "http://t/",
        "https://example.com:8080/x/?q=1",
        "http://t/a/b/c",
    ] {
        let once = normalize_url(u).unwrap();
        let twice = normalize_url(&once).unwrap();
        assert_eq!(once, twice);
    }
}

#[test]
fn origin_and_host() {
    assert_eq!(origin_of("http://Example.COM/a/b?q"), Some("http://example.com".to_string()));
    assert_eq!(origin_of(":::"), None);
    assert_eq!(host_or_empty("https://sub.example.org/x"), "sub.example.org".to_string());
    assert_eq!(host_or_empty("not a url"), String::new());
}

#[test]
fn str_eq_follows_contents() {
    assert!(str_eq("abc", "abc"));
    assert!(!str_eq("abc", "abd"));
    assert!(str_eq("", ""));
}
