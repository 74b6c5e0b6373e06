//! robots.txt parsing, path matching, crawl delays, and the cache.

use crawler::robots::parse_delay_ms;
use crawler::robots::parse_robots;
use crawler::robots::RobotsChecker;
use crawler::robots::RobotsRecord;

const UA: &[u8] = b"RustCrawler/1.0 (https://example.com/bot)";

#[test]
fn parse_wildcard_group() {
    let r = parse_robots(b"User-agent: *\nDisallow: /private\nAllow: /private/ok\n", UA);
    assert_eq!(r.disallow, vec![b"/private".to_vec()]);
    assert_eq!(r.allow, vec![b"/private/ok".to_vec()]);
    assert_eq!(r.crawl_delay_ms, None);
}

#[test]
fn parse_skips_other_agents() {
    let r = parse_robots(
        b"User-agent: OtherBot\nDisallow: /\n\nUser-agent: *\nDisallow: /tmp\n",
        UA,
    );
    assert_eq!(r.disallow, vec![b"/tmp".to_vec()]);
}

#[test]
fn parse_exact_agent_group() {
    let r = parse_robots(
        b"User-agent: RustCrawler/1.0 (https://example.com/bot)\nDisallow: /only\n",
        UA,
    );
    assert_eq!(r.disallow, vec![b"/only".to_vec()]);
}

#[test]
fn exact_group_stands_alone() {
    // with an exact-agent group present, the wildcard group's rules do
    // not apply
    let r = parse_robots(
        b"User-agent: *\nDisallow: /all\nCrawl-delay: 9\n\nUser-agent: RustCrawler/1.0 (https://example.com/bot)\nDisallow: /mine\n",
        UA,
    );
    assert_eq!(r.disallow, vec![b"/mine".to_vec()]);
    assert_eq!(r.crawl_delay_ms, None);
}

#[test]
fn preamble_directives_belong_to_no_group() {
    let r = parse_robots(b"Disallow: /x\nUser-agent: *\nDisallow: /y\n", UA);
    assert_eq!(r.disallow, vec![b"/y".to_vec()]);
}

#[test]
fn parse_ignores_comments_blanks_and_empty_disallow() {
    let r = parse_robots(
        b"# a comment\n\nUser-agent: *\nDisallow:\nDisallow: /x\n# more\nAllow: /x/y\n",
        UA,
    );
    assert_eq!(r.disallow, vec![b"/x".to_vec()]);
    assert_eq!(r.allow, vec![b"/x/y".to_vec()]);
}

#[test]
fn parse_crawl_delay_seconds_and_fractions() {
    let r = parse_robots(b"User-agent: *\nCrawl-delay: 2\n", UA);
    assert_eq!(r.crawl_delay_ms, Some(2000));
    let r = parse_robots(b"User-agent: *\nCrawl-delay: 0.5\n", UA);
    assert_eq!(r.crawl_delay_ms, Some(500));
    let r = parse_robots(b"User-agent: *\nCrawl-delay: 1.2345\n", UA);
    assert_eq!(r.crawl_delay_ms, Some(1234));
    let r = parse_robots(b"User-agent: *\nCrawl-delay: .25\n", UA);
    assert_eq!(r.crawl_delay_ms, Some(250));
    // malformed values are ignored, including negatives and exponents
    let r = parse_robots(b"User-agent: *\nCrawl-delay: -1\n", UA);
    assert_eq!(r.crawl_delay_ms, None);
    let r = parse_robots(b"User-agent: *\nCrawl-delay: 1e3\n", UA);
    assert_eq!(r.crawl_delay_ms, None);
}

#[test]
fn parse_twice_yields_equal_records() {
    let content: &[u8] =
        b"User-agent: *\nDisallow: /a\nAllow: /a/b\nCrawl-delay: 1.5\nDisallow: /c\n";
    let r1 = parse_robots(content, UA);
    let r2 = parse_robots(content, UA);
    assert_eq!(r1.allow, r2.allow);
    assert_eq!(r1.disallow, r2.disallow);
    assert_eq!(r1.crawl_delay_ms, r2.crawl_delay_ms);
}

#[test]
fn path_matching_longest_allow_wins() {
    let r = parse_robots(b"User-agent: *\nDisallow: /private\nAllow: /private/ok\n", UA);
    assert!(!r.is_path_allowed(b"/private/x"));
    assert!(r.is_path_allowed(b"/private/ok/page"));
    assert!(r.is_path_allowed(b"/public"));
}

#[test]
fn path_matching_is_longest_prefix() {
    // the longest matching disallow decides: /abcd matches /abcde and
    // no allow prefix is strictly longer, so an override of the shorter
    // /a does not help
    let r = parse_robots(
        b"User-agent: *\nDisallow: /a\nDisallow: /abcd\nAllow: /abc\n",
        UA,
    );
    assert!(!r.is_path_allowed(b"/abcde"));
    // /abc itself matches only the short disallow, which /abc overrides
    assert!(r.is_path_allowed(b"/abc"));
}

#[test]
fn path_matching_allow_must_be_strictly_longer() {
    // an allow prefix no longer than the disallow prefix does not override
    let r = parse_robots(b"User-agent: *\nDisallow: /priv\nAllow: /pri\n", UA);
    assert!(!r.is_path_allowed(b"/priv/x"));
}

#[test]
fn permissive_record_allows_everything() {
    let r = RobotsRecord::permissive();
    assert!(r.is_path_allowed(b"/anything"));
    assert_eq!(r.crawl_delay_ms, None);
}

#[test]
fn cache_is_allowed_flow() {
    let mut checker = RobotsChecker::new();
    let ua = "RustCrawler/1.0 (https://example.com/bot)";
    // nothing cached yet: the caller must fetch first
    assert_eq!(checker.is_allowed("http://t/private/x", ua), None);
    let rec = parse_robots(b"User-agent: *\nDisallow: /private\n", UA);
    checker.insert("http://t".to_string(), rec);
    assert_eq!(checker.is_allowed("http://t/private/x", ua), Some(false));
    assert_eq!(checker.is_allowed("http://t/public", ua), Some(true));
    // unparseable URLs stay undecided
    assert_eq!(checker.is_allowed(":::", ua), None);
}

#[test]
fn cache_is_write_once() {
    let mut checker = RobotsChecker::new();
    let ua = "x";
    let strict = parse_robots(b"User-agent: *\nDisallow: /\n", b"x");
    checker.insert("http://t".to_string(), strict);
    // a second insertion for the same origin is ignored
    let lax = RobotsRecord::permissive();
    checker.insert("http://t".to_string(), lax);
    assert_eq!(checker.is_allowed("http://t/x", ua), Some(false));
}

#[test]
fn crawl_delay_lookup_by_origin() {
    let mut checker = RobotsChecker::new();
    let ua = "x";
    let rec = parse_robots(b"User-agent: *\nCrawl-delay: 1.5\n", b"x");
    checker.insert("http://t".to_string(), rec);
    assert_eq!(checker.get_crawl_delay("http://t", ua), Some(1500));
    assert_eq!(checker.get_crawl_delay("http://other", ua), None);
}

#[test]
fn empty_robots_file_is_permissive() {
    let r = parse_robots(b"", UA);
    assert!(r.allow.is_empty());
    assert!(r.disallow.is_empty());
    assert_eq!(r.crawl_delay_ms, None);
    assert!(r.is_path_allowed(b"/anything"));
}

#[test]
fn delay_value_parsing() {
    assert_eq!(parse_delay_ms(b"10"), Some(10_000));
    assert_eq!(parse_delay_ms(b"0.001"), Some(1));
    assert_eq!(parse_delay_ms(b"5."), Some(5000));
    assert_eq!(parse_delay_ms(b"."), None);
    assert_eq!(parse_delay_ms(b""), None);
    assert_eq!(parse_delay_ms(b"1.2.3"), None);
    // a seconds part too large for the millisecond representation
    assert_eq!(parse_delay_ms(b"99999999999999999999"), None);
}
