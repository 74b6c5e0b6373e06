//! Configuration defaults, politeness, page builders, error messages,
//! extraction, and the persistable result shape.

use crawler::config::politeness_delay_ms;
use crawler::config::CrawlerConfig;
use crawler::engine::Dispatch;
use crawler::engine::Engine;
use crawler::error::CrawlerError;
use crawler::extract::extract_links_and_title;
use crawler::page::Page;
use crawler::storage::to_stored;

#[test]
fn default_config_values() {
    let c = CrawlerConfig::default();
    assert_eq!(c.max_depth, 2);
    assert_eq!(c.concurrent_tasks, 8);
    assert_eq!(c.request_timeout_ms, 10_000);
    assert_eq!(c.crawl_timeout_ms, 120_000);
    assert_eq!(c.delay_between_requests_ms, 100);
    assert_eq!(c.user_agent, "RustCrawler/1.0 (https://example.com/bot)");
    assert!(c.respect_robots_txt);
    assert!(c.follow_redirects);
    assert!(c.allowed_domains.is_empty());
    assert!(c.excluded_paths.is_empty());
    assert_eq!(c.max_urls_per_domain, None);
    assert_eq!(c.max_total_urls, None);
}

#[test]
fn politeness_takes_the_larger_delay() {
    assert_eq!(politeness_delay_ms(100, None), 100);
    assert_eq!(politeness_delay_ms(100, Some(50)), 100);
    assert_eq!(politeness_delay_ms(100, Some(1500)), 1500);
    assert_eq!(politeness_delay_ms(0, Some(0)), 0);
}

#[test]
fn page_builders_set_fields() {
    let p = Page::new("http://t/x".to_string(), 3)
        .with_links(vec!["http://t/y".to_string()])
        .with_title("Hi".to_string())
        .with_content_type("text/html".to_string())
        .with_status_code(200)
        .with_size(512)
        .mark_crawled();
    assert_eq!(p.url, "http://t/x");
    assert_eq!(p.depth, 3);
    assert_eq!(p.links, vec!["http://t/y".to_string()]);
    assert_eq!(p.title, Some("Hi".to_string()));
    assert_eq!(p.content_type, Some("text/html".to_string()));
    assert_eq!(p.status_code, Some(200));
    assert_eq!(p.size, Some(512));
    assert!(p.crawled_at.is_some());
}

#[test]
fn error_messages_name_their_kind() {
    assert_eq!(
        CrawlerError::RobotsError("boom".to_string()).message(),
        "Robots.txt error: boom"
    );
    assert_eq!(
        CrawlerError::ConfigError("bad".to_string()).message(),
        "Config error: bad"
    );
    assert_eq!(
        CrawlerError::UrlParseError("x".to_string()).message(),
        "URL parsing failed: x"
    );
    assert_eq!(CrawlerError::RequestError("t".to_string()).message(), "HTTP request failed: t");
    assert_eq!(CrawlerError::IoError("i".to_string()).message(), "IO error: i");
    assert_eq!(CrawlerError::JoinError("j".to_string()).message(), "Task join error: j");
    assert_eq!(CrawlerError::StorageError("s".to_string()).message(), "Storage error: s");
    assert_eq!(
        CrawlerError::VisualizationError("v".to_string()).message(),
        "Visualization error: v"
    );
}

#[test]
fn extraction_orders_and_filters_links() {
    let html = "<html><head><title>Page</title></head><body>\
                <a href=\"/b\">b</a>\
                <a href=\"mailto:x@y\">mail</a>\
                <a href=\"https://other.org/z#f\">z</a>\
                <a href=\"a/\">a</a>\
                <a name=\"no-href\">none</a>\
                </body></html>";
    let (links, title) = extract_links_and_title(html, "http://t/base/");
    assert_eq!(title, Some("Page".to_string()));
    assert_eq!(
        links,
        vec![
            "http://t/b".to_string(),
            "https://other.org/z".to_string(),
            "http://t/base/a".to_string(),
        ]
    );
}

#[test]
fn extraction_without_title_or_links() {
    let (links, title) = extract_links_and_title("<p>plain</p>", "http://t/");
    assert!(links.is_empty());
    assert_eq!(title, None);
}

#[test]
fn stored_result_carries_counts() {
    let mut e = Engine::new(CrawlerConfig::default(), "http://t/").unwrap();
    let (slot, _, _) = match e.dispatch() {
        Dispatch::Fetch { slot, url, depth } => (slot, url, depth),
        _ => panic!("expected a fetch"),
    };
    e.on_html_page(
        slot,
        200,
        "text/html".to_string(),
        44,
        "<html><title>T</title><a href=\"/a\">a</a></html>",
    );
    let (slot, _, _) = match e.dispatch() {
        Dispatch::Fetch { slot, url, depth } => (slot, url, depth),
        _ => panic!("expected a fetch"),
    };
    e.on_http_status(slot, 404);
    loop {
        match e.dispatch() {
            Dispatch::Idle => break,
            Dispatch::Skip => continue,
            _ => panic!("expected the crawl to drain"),
        }
    }
    let stored = to_stored(e.into_result());
    assert_eq!(stored.pages_count, 2);
    assert_eq!(stored.links_count, 1);
    assert_eq!(stored.success_count, 1);
    assert_eq!(stored.error_count, 0);
    assert_eq!(stored.pages.len(), 2);
    assert_eq!(stored.pages[0].url, "http://t");
    assert_eq!(stored.pages[0].links_count, 1);
    assert_eq!(stored.pages[1].url, "http://t/a");
    assert_eq!(stored.pages[1].status_code, Some(404));
    assert_eq!(stored.graph.get("http://t"), Some(&vec!["http://t/a".to_string()]));
}
