//! The crawl engine driven through full scenarios: dispatch, admission,
//! commitment, caps, and the assembled result.

use crawler::config::CrawlerConfig;
use crawler::engine::classify_response;
use crawler::engine::CrawlResult;
use crawler::engine::Dispatch;
use crawler::engine::Engine;
use crawler::engine::ResponseClass;
use crawler::error::CrawlerError;

fn fetch_or_panic(e: &mut Engine) -> (usize, String, u32) {
    match e.dispatch() {
        Dispatch::Fetch { slot, url, depth } => (slot, url, depth),
        other => panic!("expected a fetch, got {:?}", kind(&other)),
    }
}

fn kind(d: &Dispatch) -> &'static str {
    match d {
        Dispatch::Fetch { .. } => "Fetch",
        Dispatch::Skip => "Skip",
        Dispatch::Wait => "Wait",
        Dispatch::Stop => "Stop",
        Dispatch::Idle => "Idle",
    }
}

fn finish(mut e: Engine) -> CrawlResult {
    loop {
        match e.dispatch() {
            Dispatch::Idle | Dispatch::Stop => return e.into_result(),
            Dispatch::Skip => continue,
            Dispatch::Wait => panic!("no worker active, yet told to wait"),
            Dispatch::Fetch { .. } => panic!("unexpected fetch while draining"),
        }
    }
}

#[test]
fn seed_is_normalized_and_queued() {
    let mut e = Engine::new(CrawlerConfig::default(), "http://T/#frag").unwrap();
    let (_, url, depth) = fetch_or_panic(&mut e);
    assert_eq!(url, "http://t");
    assert_eq!(depth, 0);
}

#[test]
fn invalid_seed_is_rejected() {
    match Engine::new(CrawlerConfig::default(), "not a url") {
        Err(CrawlerError::UrlParseError(m)) => assert_eq!(m, "not a url"),
        _ => panic!("expected a URL parse error"),
    }
    assert!(Engine::new(CrawlerConfig::default(), "ftp://t/").is_err());
}

#[test]
fn trivial_single_page_crawl() {
    // one page linking to one broken child: the 404 is not an error
    let mut e = Engine::new(CrawlerConfig::default(), "http://t/").unwrap();
    let (slot, url, _) = fetch_or_panic(&mut e);
    assert_eq!(url, "http://t");
    e.on_html_page(
        slot,
        200,
        "text/html".to_string(),
        47,
        "<html><title>T</title><a href=\"/a\">a</a></html>",
    );
    let (slot, url, depth) = fetch_or_panic(&mut e);
    assert_eq!(url, "http://t/a");
    assert_eq!(depth, 1);
    e.on_http_status(slot, 404);
    let r = finish(e);
    assert_eq!(r.pages.len(), 2);
    assert_eq!(r.pages[0].url, "http://t");
    assert_eq!(r.pages[0].title, Some("T".to_string()));
    assert_eq!(r.pages[0].links, vec!["http://t/a".to_string()]);
    assert_eq!(r.pages[1].url, "http://t/a");
    assert_eq!(r.pages[1].status_code, Some(404));
    assert_eq!(r.graph.get("http://t"), Some(&vec!["http://t/a".to_string()]));
    assert_eq!(r.graph.get("http://t/a"), None);
    assert_eq!(r.total_links, 1);
    assert_eq!(r.stats.success_count, 1);
    assert_eq!(r.stats.error_count, 0);
}

#[test]
fn depth_limit_stops_expansion() {
    // a chain / -> /a -> /b -> /c with max_depth 2: /b is admitted but
    // never fetched, /c never appears
    let mut cfg = CrawlerConfig::default();
    cfg.max_depth = 2;
    let mut e = Engine::new(cfg, "http://t/").unwrap();
    let (slot, url, _) = fetch_or_panic(&mut e);
    assert_eq!(url, "http://t");
    e.on_html_page(slot, 200, "text/html".to_string(), 20, "<a href=\"/a\">a</a>");
    let (slot, url, depth) = fetch_or_panic(&mut e);
    assert_eq!(url, "http://t/a");
    assert_eq!(depth, 1);
    e.on_html_page(slot, 200, "text/html".to_string(), 20, "<a href=\"/b\">b</a>");
    // /b sits at depth 2 == max_depth: it is skipped, not fetched
    match e.dispatch() {
        Dispatch::Skip => {},
        other => panic!("expected a skip, got {:?}", kind(&other)),
    }
    let r = finish(e);
    assert_eq!(r.pages.len(), 2);
    assert!(r.pages.iter().all(|p| p.url != "http://t/b"));
    assert!(r.pages.iter().all(|p| p.depth < 2));
}

#[test]
fn cycle_terminates_with_both_edges() {
    let mut e = Engine::new(CrawlerConfig::default(), "http://t/").unwrap();
    let (slot, _, _) = fetch_or_panic(&mut e);
    e.on_html_page(slot, 200, "text/html".to_string(), 20, "<a href=\"/a\">a</a>");
    let (slot, url, _) = fetch_or_panic(&mut e);
    assert_eq!(url, "http://t/a");
    e.on_html_page(slot, 200, "text/html".to_string(), 20, "<a href=\"/\">home</a>");
    let r = finish(e);
    assert_eq!(r.pages.len(), 2);
    assert_eq!(r.graph.get("http://t"), Some(&vec!["http://t/a".to_string()]));
    assert_eq!(r.graph.get("http://t/a"), Some(&vec!["http://t".to_string()]));
    assert_eq!(r.total_links, 2);
}

#[test]
fn duplicate_links_enqueue_one_child() {
    // three spellings of the same child produce one admission
    let mut e = Engine::new(CrawlerConfig::default(), "http://t/").unwrap();
    let (slot, _, _) = fetch_or_panic(&mut e);
    e.on_html_page(
        slot,
        200,
        "text/html".to_string(),
        120,
        "<a href=\"http://T/a#frag\">1</a><a href=\"/a/\">2</a><a href=\"/a\">3</a>",
    );
    let (slot, url, _) = fetch_or_panic(&mut e);
    assert_eq!(url, "http://t/a");
    e.on_http_status(slot, 404);
    let r = finish(e);
    assert_eq!(r.pages.len(), 2);
    // the page records all three occurrences, canonicalized
    assert_eq!(
        r.pages[0].links,
        vec!["http://t/a".to_string(), "http://t/a".to_string(), "http://t/a".to_string()]
    );
}

#[test]
fn domain_filter_keeps_foreign_hosts_out() {
    let mut cfg = CrawlerConfig::default();
    cfg.allowed_domains = vec!["example.org".to_string()];
    let mut e = Engine::new(cfg, "http://example.org/").unwrap();
    let (slot, _, _) = fetch_or_panic(&mut e);
    e.on_html_page(
        slot,
        200,
        "text/html".to_string(),
        90,
        "<a href=\"http://other.com/\">x</a><a href=\"/in\">y</a>",
    );
    let (slot, url, _) = fetch_or_panic(&mut e);
    assert_eq!(url, "http://example.org/in");
    e.on_http_status(slot, 500);
    let r = finish(e);
    assert!(r.pages.iter().all(|p| !p.url.contains("other.com")));
}

#[test]
fn excluded_paths_are_not_enqueued() {
    let mut cfg = CrawlerConfig::default();
    cfg.excluded_paths = vec!["/admin".to_string()];
    let mut e = Engine::new(cfg, "http://t/").unwrap();
    let (slot, _, _) = fetch_or_panic(&mut e);
    e.on_html_page(
        slot,
        200,
        "text/html".to_string(),
        80,
        "<a href=\"/admin/panel\">a</a><a href=\"/ok\">b</a>",
    );
    let (slot, url, _) = fetch_or_panic(&mut e);
    assert_eq!(url, "http://t/ok");
    e.on_http_status(slot, 404);
    let r = finish(e);
    assert_eq!(r.pages.len(), 2);
}

#[test]
fn per_domain_cap_limits_dispatches() {
    let mut cfg = CrawlerConfig::default();
    cfg.max_urls_per_domain = Some(1);
    let mut e = Engine::new(cfg, "http://t/").unwrap();
    let (slot, _, _) = fetch_or_panic(&mut e);
    e.on_html_page(
        slot,
        200,
        "text/html".to_string(),
        60,
        "<a href=\"/a\">a</a><a href=\"/b\">b</a>",
    );
    // both children hit the per-domain cap
    match e.dispatch() {
        Dispatch::Skip => {},
        other => panic!("expected a skip, got {:?}", kind(&other)),
    }
    match e.dispatch() {
        Dispatch::Skip => {},
        other => panic!("expected a skip, got {:?}", kind(&other)),
    }
    let r = finish(e);
    assert_eq!(r.pages.len(), 1);
}

#[test]
fn total_cap_stops_dispatching() {
    let mut cfg = CrawlerConfig::default();
    cfg.max_total_urls = Some(2);
    let mut e = Engine::new(cfg, "http://t/").unwrap();
    let (slot, _, _) = fetch_or_panic(&mut e);
    e.on_html_page(
        slot,
        200,
        "text/html".to_string(),
        100,
        "<a href=\"/a\">a</a><a href=\"/b\">b</a><a href=\"/c\">c</a>",
    );
    // four URLs admitted by now, over the cap of two
    match e.dispatch() {
        Dispatch::Stop => {},
        other => panic!("expected a stop, got {:?}", kind(&other)),
    }
    let r = finish(e);
    assert_eq!(r.pages.len(), 1);
    assert!(r.pages.len() <= 2);
}

#[test]
fn robots_denial_commits_synthetic_403() {
    let mut e = Engine::new(CrawlerConfig::default(), "http://t/secret").unwrap();
    let (slot, _, _) = fetch_or_panic(&mut e);
    e.on_disallowed(slot);
    let r = finish(e);
    assert_eq!(r.pages.len(), 1);
    assert_eq!(r.pages[0].status_code, Some(403));
    assert!(r.pages[0].links.is_empty());
    assert!(r.pages[0].crawled_at.is_some());
    assert_eq!(r.stats.success_count, 0);
    assert_eq!(r.stats.error_count, 0);
}

#[test]
fn non_html_commits_without_links() {
    let mut e = Engine::new(CrawlerConfig::default(), "http://t/data.json").unwrap();
    let (slot, _, _) = fetch_or_panic(&mut e);
    e.on_non_html(slot, 200, "application/json".to_string());
    let r = finish(e);
    assert_eq!(r.pages.len(), 1);
    assert_eq!(r.pages[0].content_type, Some("application/json".to_string()));
    assert!(r.pages[0].links.is_empty());
    assert_eq!(r.stats.success_count, 1);
}

#[test]
fn transport_error_commits_nothing() {
    let mut e = Engine::new(CrawlerConfig::default(), "http://unreachable/").unwrap();
    let (slot, _, _) = fetch_or_panic(&mut e);
    e.on_transport_error(slot);
    let r = finish(e);
    assert_eq!(r.pages.len(), 0);
    assert_eq!(r.stats.error_count, 1);
    assert_eq!(r.stats.success_count, 0);
}

#[test]
fn wait_when_all_permits_are_held() {
    let mut cfg = CrawlerConfig::default();
    cfg.concurrent_tasks = 1;
    let mut e = Engine::new(cfg, "http://t/").unwrap();
    let (slot, _, _) = fetch_or_panic(&mut e);
    e.on_html_page(
        slot,
        200,
        "text/html".to_string(),
        60,
        "<a href=\"/a\">a</a><a href=\"/b\">b</a>",
    );
    let (_busy_slot, _, _) = fetch_or_panic(&mut e);
    // one permit, one fetch in flight, /b must wait
    match e.dispatch() {
        Dispatch::Wait => {},
        other => panic!("expected a wait, got {:?}", kind(&other)),
    }
}

#[test]
fn classify_response_follows_status_and_type() {
    assert!(matches!(classify_response(404, "text/html"), ResponseClass::Failure));
    assert!(matches!(classify_response(500, ""), ResponseClass::Failure));
    assert!(matches!(classify_response(200, "text/html; charset=utf-8"), ResponseClass::Html));
    assert!(matches!(classify_response(204, "application/json"), ResponseClass::NonHtml));
    assert!(matches!(classify_response(199, "text/html"), ResponseClass::Failure));
    assert!(matches!(classify_response(299, "text/html"), ResponseClass::Html));
}
