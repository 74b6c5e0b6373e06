//! Crawler configuration.
//!
//! Durations are carried as integer milliseconds, which is also how they
//! are persisted.

use vstd::prelude::*;
use vstd::string::StringExecFns;

verus! {

/// Tunable limits and policies of a crawl.
#[derive(Debug, Clone)]
pub struct CrawlerConfig {
    /// Children of a page at this depth are never enqueued; pages at
    /// exactly this depth are admitted but not fetched.
    pub max_depth: u32,
    /// Upper bound on concurrently active fetches.
    pub concurrent_tasks: usize,
    /// Per-request timeout, in milliseconds.
    pub request_timeout_ms: u64,
    /// Global deadline for the whole crawl, in milliseconds.
    pub crawl_timeout_ms: u64,
    /// Politeness delay between fetches by one worker, in milliseconds.
    pub delay_between_requests_ms: u64,
    /// User agent sent with every request and matched in robots.txt.
    pub user_agent: String,
    /// Whether robots.txt is consulted before fetching.
    pub respect_robots_txt: bool,
    /// Whether the HTTP client follows redirects (up to 10 hops).
    pub follow_redirects: bool,
    /// When non-empty, only hosts containing one of these substrings are
    /// enqueued.
    pub allowed_domains: Vec<String>,
    /// URLs containing one of these substrings are never enqueued.
    pub excluded_paths: Vec<String>,
    /// When set, at most this many URLs are dispatched per host.
    pub max_urls_per_domain: Option<usize>,
    /// When set, dispatching stops once this many URLs were admitted.
    pub max_total_urls: Option<usize>,
}

impl Default for CrawlerConfig {
    /// The stock configuration: depth 2, 8 workers, 10 s requests,
    /// 120 s crawl, 100 ms politeness, robots respected, redirects
    /// followed, no domain or total caps.
    fn default() -> (c: Self)
        ensures
            c.max_depth == 2,
            c.concurrent_tasks == 8,
            c.request_timeout_ms == 10000,
            c.crawl_timeout_ms == 120000,
            c.delay_between_requests_ms == 100,
            c.user_agent@ == "RustCrawler/1.0 (https://example.com/bot)"@,
            c.respect_robots_txt,
            c.follow_redirects,
            c.allowed_domains@.len() == 0,
            c.excluded_paths@.len() == 0,
            c.max_urls_per_domain is None,
            c.max_total_urls is None,
    {
        CrawlerConfig {
            max_depth: 2,
            concurrent_tasks: 8,
            request_timeout_ms: 10000,
            crawl_timeout_ms: 120000,
            delay_between_requests_ms: 100,
            user_agent: String::from_str("RustCrawler/1.0 (https://example.com/bot)"),
            respect_robots_txt: true,
            follow_redirects: true,
            allowed_domains: Vec::new(),
            excluded_paths: Vec::new(),
            max_urls_per_domain: None,
            max_total_urls: None,
        }
    }
}

/// The politeness delay before releasing a worker: the larger of the
/// configured delay and the robots.txt crawl delay, if any.
pub fn politeness_delay_ms(configured_ms: u64, robots_ms: Option<u64>) -> (r: u64)
    ensures
        r == (match robots_ms {
            Some(d) => if d > configured_ms {
                d
            } else {
                configured_ms
            },
            None => configured_ms,
        }),
{
    match robots_ms {
        Some(d) => if d > configured_ms {
            d
        } else {
            configured_ms
        },
        None => configured_ms,
    }
}

} // verus!
