//! Core of a polite, bounded-depth web crawler.
//!
//! The crate verifies the crawl engine itself: URL canonicalization, the
//! robots.txt cache and its parser, HTML link extraction, the visited set,
//! the link graph, and the dispatch/admission state machine with its
//! depth, concurrency, per-domain and total-URL bounds.  Network and file
//! I/O live outside the crate; the engine is driven through plain values.

mod clock;
pub mod config;
pub mod engine;
pub mod error;
pub mod extract;
pub mod page;
pub mod robots;
pub mod storage;
pub mod store;
pub mod text;
pub mod urlnorm;
