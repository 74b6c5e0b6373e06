//! Error kinds of the crawler core.
//!
//! Outside failures reach the library as plain messages; the shell that
//! performs I/O maps its own error types into these variants.

use vstd::prelude::*;
use vstd::string::StringExecFns;

verus! {

/// Everything that can go wrong during a crawl.
#[derive(Debug, Clone, PartialEq, Eq)]
pub enum CrawlerError {
    /// An HTTP request failed (connection, TLS, timeout).
    RequestError(String),
    /// A URL could not be parsed.
    UrlParseError(String),
    /// A file could not be read or written.
    IoError(String),
    /// A worker task failed to join.
    JoinError(String),
    /// robots.txt could not be fetched or understood.
    RobotsError(String),
    /// The configuration was invalid.
    ConfigError(String),
    /// Results could not be persisted or loaded.
    StorageError(String),
    /// A visualization could not be produced.
    VisualizationError(String),
}

impl CrawlerError {
    /// A human-readable description, prefixed by the error kind.
    pub fn message(&self) -> (r: String)
        ensures
            r@ == (match self {
                CrawlerError::RequestError(m) => "HTTP request failed: "@ + m@,
                CrawlerError::UrlParseError(m) => "URL parsing failed: "@ + m@,
                CrawlerError::IoError(m) => "IO error: "@ + m@,
                CrawlerError::JoinError(m) => "Task join error: "@ + m@,
                CrawlerError::RobotsError(m) => "Robots.txt error: "@ + m@,
                CrawlerError::ConfigError(m) => "Config error: "@ + m@,
                CrawlerError::StorageError(m) => "Storage error: "@ + m@,
                CrawlerError::VisualizationError(m) => "Visualization error: "@ + m@,
            }),
    {
        match self {
            CrawlerError::RequestError(m) => String::from_str("HTTP request failed: ").concat(
                m.as_str(),
            ),
            CrawlerError::UrlParseError(m) => String::from_str("URL parsing failed: ").concat(
                m.as_str(),
            ),
            CrawlerError::IoError(m) => String::from_str("IO error: ").concat(m.as_str()),
            CrawlerError::JoinError(m) => String::from_str("Task join error: ").concat(m.as_str()),
            CrawlerError::RobotsError(m) => String::from_str("Robots.txt error: ").concat(
                m.as_str(),
            ),
            CrawlerError::ConfigError(m) => String::from_str("Config error: ").concat(m.as_str()),
            CrawlerError::StorageError(m) => String::from_str("Storage error: ").concat(m.as_str()),
            CrawlerError::VisualizationError(m) => String::from_str(
                "Visualization error: ",
            ).concat(m.as_str()),
        }
    }
}

} // verus!
