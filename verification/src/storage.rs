//! The persistable shape of a crawl result.
//!
//! `StoredCrawlResult` flattens a `CrawlResult` into plain fields and
//! summary counts; the shell serializes it to disk.  The flattening is
//! computed and specified here.

use crate::engine::CrawlResult;
use crate::store::UrlGraph;
use crate::page::Page;
use vstd::prelude::*;

verus! {

/// One page as persisted: its metadata and its link count.
#[derive(Debug)]
pub struct StoredPage {
    /// Canonical URL of the page.
    pub url: String,
    /// First `<title>` text, if any.
    pub title: Option<String>,
    /// Distance from the seed.
    pub depth: u32,
    /// HTTP status, or the synthetic 403 for robots denials.
    pub status_code: Option<u16>,
    /// MIME type reported by the server.
    pub content_type: Option<String>,
    /// Body size in bytes.
    pub size_bytes: Option<usize>,
    /// How many links the page carried.
    pub links_count: usize,
    /// When the fetch completed, in milliseconds since the epoch.
    pub crawled_at: Option<u64>,
}

/// A crawl result as persisted: summary counts, the flattened pages,
/// and the link graph.
#[derive(Debug)]
pub struct StoredCrawlResult {
    /// Number of committed pages.
    pub pages_count: usize,
    /// Total outgoing links over the graph.
    pub links_count: usize,
    /// Crawl duration in milliseconds.
    pub crawl_duration_ms: u64,
    /// Fetches that returned a 2xx response.
    pub success_count: usize,
    /// Fetches that failed in transport.
    pub error_count: usize,
    /// The flattened pages, in commit order.
    pub pages: Vec<StoredPage>,
    /// The link graph.
    pub graph: UrlGraph,
}

/// One page flattened for persistence.
fn store_page(p: &Page) -> (r: StoredPage)
    ensures
        r.url@ == p.url@,
        r.title == p.title,
        r.depth == p.depth,
        r.status_code == p.status_code,
        r.content_type == p.content_type,
        r.size_bytes == p.size,
        r.links_count == p.links@.len(),
        r.crawled_at == p.crawled_at,
{
    StoredPage {
        url: p.url.clone(),
        title: match &p.title {
            Some(t) => Some(t.clone()),
            None => None,
        },
        depth: p.depth,
        status_code: p.status_code,
        content_type: match &p.content_type {
            Some(c) => Some(c.clone()),
            None => None,
        },
        size_bytes: p.size,
        links_count: p.links.len(),
        crawled_at: p.crawled_at,
    }
}

/// Flatten a crawl result into its persistable shape.
pub fn to_stored(result: CrawlResult) -> (r: StoredCrawlResult)
    ensures
        r.pages_count == result.pages@.len(),
        r.links_count == result.total_links,
        r.crawl_duration_ms == result.stats.duration_ms,
        r.success_count == result.stats.success_count,
        r.error_count == result.stats.error_count,
        r.graph == result.graph,
        r.pages@.len() == result.pages@.len(),
        forall|i: int|
            0 <= i < r.pages@.len() ==> {
                let sp = #[trigger] r.pages@[i];
                let p = result.pages@[i];
                &&& sp.url@ == p.url@
                &&& sp.title == p.title
                &&& sp.depth == p.depth
                &&& sp.status_code == p.status_code
                &&& sp.content_type == p.content_type
                &&& sp.size_bytes == p.size
                &&& sp.links_count == p.links@.len()
                &&& sp.crawled_at == p.crawled_at
            },
{
    let pages_count = result.pages.len();
    let mut pages: Vec<StoredPage> = Vec::new();
    let mut i: usize = 0;
    while i < pages_count
        invariant
            0 <= i <= pages_count == result.pages@.len(),
            pages@.len() == i,
            forall|k: int|
                0 <= k < i ==> {
                    let sp = #[trigger] pages@[k];
                    let p = result.pages@[k];
                    &&& sp.url@ == p.url@
                    &&& sp.title == p.title
                    &&& sp.depth == p.depth
                    &&& sp.status_code == p.status_code
                    &&& sp.content_type == p.content_type
                    &&& sp.size_bytes == p.size
                    &&& sp.links_count == p.links@.len()
                    &&& sp.crawled_at == p.crawled_at
                },
        decreases pages_count - i,
    {
        let sp = store_page(&result.pages[i]);
        pages.push(sp);
        i = i + 1;
    }
    StoredCrawlResult {
        pages_count,
        links_count: result.total_links,
        crawl_duration_ms: result.stats.duration_ms,
        success_count: result.stats.success_count,
        error_count: result.stats.error_count,
        pages,
        graph: result.graph,
    }
}

} // verus!
