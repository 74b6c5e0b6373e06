//! The record kept for every fetched (or robots-denied) page.

use crate::clock::now_millis;
use vstd::prelude::*;

verus! {

/// One URL visited or queued.  Created at admission with only `url` and
/// `depth` set; filled in once when its fetch completes; immutable after
/// it is committed to the page store.
#[derive(Debug, Clone)]
pub struct Page {
    /// Canonical URL of the page.
    pub url: String,
    /// Canonical URLs found on the page, in document order.
    pub links: Vec<String>,
    /// Distance from the seed; the seed itself has depth 0.
    pub depth: u32,
    /// First `<title>` text, if any.
    pub title: Option<String>,
    /// MIME type reported by the server.
    pub content_type: Option<String>,
    /// HTTP status, or the synthetic 403 for robots denials.
    pub status_code: Option<u16>,
    /// Body size in bytes.
    pub size: Option<usize>,
    /// Wall-clock time the fetch completed, in milliseconds since the
    /// epoch.
    pub crawled_at: Option<u64>,
}

impl Page {
    /// A freshly admitted page: everything but `url` and `depth` unset.
    pub fn new(url: String, depth: u32) -> (p: Page)
        ensures
            p.url == url,
            p.depth == depth,
            p.links@ =~= Seq::<String>::empty(),
            p.title is None,
            p.content_type is None,
            p.status_code is None,
            p.size is None,
            p.crawled_at is None,
    {
        Page {
            url,
            links: Vec::new(),
            depth,
            title: None,
            content_type: None,
            status_code: None,
            size: None,
            crawled_at: None,
        }
    }

    /// The page with its link list set.
    pub fn with_links(self, links: Vec<String>) -> (p: Page)
        ensures
            p == (Page { links, ..self }),
    {
        Page { links, ..self }
    }

    /// The page with its title set.
    pub fn with_title(self, title: String) -> (p: Page)
        ensures
            p == (Page { title: Some(title), ..self }),
    {
        Page { title: Some(title), ..self }
    }

    /// The page with its content type set.
    pub fn with_content_type(self, content_type: String) -> (p: Page)
        ensures
            p == (Page { content_type: Some(content_type), ..self }),
    {
        Page { content_type: Some(content_type), ..self }
    }

    /// The page with its HTTP status set.
    pub fn with_status_code(self, status_code: u16) -> (p: Page)
        ensures
            p == (Page { status_code: Some(status_code), ..self }),
    {
        Page { status_code: Some(status_code), ..self }
    }

    /// The page with its body size set.
    pub fn with_size(self, size: usize) -> (p: Page)
        ensures
            p == (Page { size: Some(size), ..self }),
    {
        Page { size: Some(size), ..self }
    }

    /// The page stamped with the current wall-clock time.  Only the
    /// presence of the stamp is promised; its value comes from the clock.
    pub fn mark_crawled(self) -> (p: Page)
        ensures
            p.crawled_at is Some,
            p.url == self.url,
            p.links == self.links,
            p.depth == self.depth,
            p.title == self.title,
            p.content_type == self.content_type,
            p.status_code == self.status_code,
            p.size == self.size,
    {
        let t = now_millis();
        Page { crawled_at: Some(t), ..self }
    }
}

} // verus!
