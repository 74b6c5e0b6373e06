//! The crawl engine: admission, dispatch, commitment and termination.
//!
//! The engine is the single-threaded heart of the crawler.  The shell
//! around it runs the event loop: it asks `dispatch` for work, performs
//! the fetch and the politeness sleep, and reports what happened through
//! the `on_*` events.  Every rule of the crawl — the depth bound, the
//! at-most-once visit, the concurrency permit count, the per-domain and
//! total caps, and the shape of the final result — lives here and is
//! verified against the engine's well-formedness invariant `wf`.

use crate::clock::now_millis;
use crate::config::CrawlerConfig;
use crate::error::CrawlerError;
use crate::page::Page;
use crate::store::DomainCounter;
use crate::store::UrlGraph;
use crate::store::VisitedSet;
use crate::urlnorm::host_or_empty;
use crate::urlnorm::is_canonical_url;
use crate::urlnorm::normalize_url;
use crate::urlnorm::spec_canonical_of;
use crate::urlnorm::spec_host_or_empty;
use crate::urlnorm::spec_norm_ok;
use std::collections::VecDeque;
use vstd::prelude::*;

verus! {

/// Counters and timings of one crawl.
#[derive(Debug, Clone)]
pub struct CrawlStats {
    /// When the crawl started, in milliseconds since the epoch.
    pub started_at_ms: u64,
    /// When the crawl finished, in milliseconds since the epoch.
    pub finished_at_ms: u64,
    /// `finished_at_ms - started_at_ms`, clamped at zero.
    pub duration_ms: u64,
    /// Fetches that returned a 2xx response.
    pub success_count: usize,
    /// Fetches that failed in transport and committed no page.
    pub error_count: usize,
    /// Kept for the persisted shape; the engine leaves it at zero.
    pub avg_page_size: usize,
}

/// One fetch currently occupying a worker permit.
pub struct ActiveFetch {
    /// Canonical URL being fetched.
    pub url: String,
    /// Depth of the page being fetched.
    pub depth: u32,
    /// Host of the URL (empty when it has none), as counted by the
    /// per-domain cap.
    pub host: String,
}

/// How many committed pages have host `h`.
pub open spec fn count_pages_host(s: Seq<Page>, h: Seq<char>) -> nat
    decreases s.len(),
{
    if s.len() == 0 {
        0
    } else {
        count_pages_host(s.drop_last(), h) + if spec_host_or_empty(s.last().url@) == h {
            1nat
        } else {
            0nat
        }
    }
}

/// How many active fetches have host `h`.
pub open spec fn count_active_host(s: Seq<ActiveFetch>, h: Seq<char>) -> nat
    decreases s.len(),
{
    if s.len() == 0 {
        0
    } else {
        count_active_host(s.drop_last(), h) + if s.last().host@ == h {
            1nat
        } else {
            0nat
        }
    }
}

/// Some committed page has URL `u`.
pub open spec fn pages_contain_url(s: Seq<Page>, u: Seq<char>) -> bool {
    exists|i: int| 0 <= i < s.len() && (#[trigger] s[i]).url@ == u
}

/// What `dispatch` tells the event loop to do.
pub enum Dispatch {
    /// A page was handed to a worker; `slot` indexes the active set.
    Fetch { slot: usize, url: String, depth: u32 },
    /// A page was discarded: it sat at the depth bound, or its host
    /// reached the per-domain cap.
    Skip,
    /// Nothing can start right now: every permit is held, or the
    /// frontier is empty while fetches are still in flight.
    Wait,
    /// The total-URL cap was reached; dispatching has stopped for good.
    Stop,
    /// The frontier is empty and no fetch is in flight: the crawl is
    /// complete.
    Idle,
}

/// The crawl state machine.  The fields are public so that the
/// invariant and the contracts can speak about them; they are meant to
/// be changed only through the engine's methods, which all preserve
/// `wf`.
pub struct Engine {
    /// The configuration the crawl runs under; never changed.
    pub config: CrawlerConfig,
    /// Every canonical URL ever admitted.
    pub visited: VisitedSet,
    /// Admitted pages waiting to be dispatched, in FIFO order.  The
    /// engine models the queue itself; bounding its transport (the
    /// shell's channel capacity) is the shell's concern.
    pub frontier: VecDeque<Page>,
    /// Fetches currently holding a worker permit.
    pub active: Vec<ActiveFetch>,
    /// Committed page records, in commit order.
    pub pages: Vec<Page>,
    /// The link graph of successfully extracted pages.
    pub graph: UrlGraph,
    /// Dispatches counted per host for the per-domain cap.
    pub domains: DomainCounter,
    /// Counters and timings.
    pub stats: CrawlStats,
    /// Set once the total-URL cap fires; no further dispatching.
    pub stopped: bool,
}

impl Engine {
    /// The engine invariant.  Every constructor establishes it and every
    /// method preserves it.  Its clauses carry the crawl's guarantees:
    /// URLs are canonical and admitted at most once; committed pages sit
    /// strictly below the depth bound; active fetches never outnumber
    /// the permits; per-domain dispatch counts respect the domain cap;
    /// committed and in-flight pages together respect the total cap.
    pub open spec fn wf(self) -> bool {
        &&& self.visited.wf()
        &&& self.graph.wf()
        &&& self.domains.wf()
        // every admitted URL is canonical
        &&& forall|k: int|
            0 <= k < self.visited.seq_view().len() ==> is_canonical_url(
                #[trigger] self.visited.seq_view()[k],
            )
        // committed pages: distinct URLs, below the depth bound, all admitted
        &&& forall|i: int, j: int|
            #![trigger self.pages@[i], self.pages@[j]]
            0 <= i < j < self.pages@.len() ==> self.pages@[i].url@ != self.pages@[j].url@
        &&& forall|i: int|
            0 <= i < self.pages@.len() ==> (#[trigger] self.pages@[i]).depth
                < self.config.max_depth
        &&& forall|i: int|
            0 <= i < self.pages@.len() ==> self.visited.seq_view().contains(
                (#[trigger] self.pages@[i]).url@,
            )
        // active fetches: within the permit bound, distinct, admitted,
        // below the depth bound, with their counted host attached
        &&& self.active@.len() <= self.config.concurrent_tasks
        &&& forall|i: int, j: int|
            #![trigger self.active@[i], self.active@[j]]
            0 <= i < j < self.active@.len() ==> self.active@[i].url@ != self.active@[j].url@
        &&& forall|i: int|
            0 <= i < self.active@.len() ==> (#[trigger] self.active@[i]).depth
                < self.config.max_depth
        &&& forall|i: int|
            0 <= i < self.active@.len() ==> self.visited.seq_view().contains(
                (#[trigger] self.active@[i]).url@,
            )
        &&& forall|i: int|
            0 <= i < self.active@.len() ==> (#[trigger] self.active@[i]).host@
                == spec_host_or_empty(self.active@[i].url@)
        // frontier: distinct, admitted, within the depth bound
        &&& forall|i: int, j: int|
            #![trigger self.frontier@[i], self.frontier@[j]]
            0 <= i < j < self.frontier@.len() ==> self.frontier@[i].url@ != self.frontier@[j].url@
        &&& forall|i: int|
            0 <= i < self.frontier@.len() ==> (#[trigger] self.frontier@[i]).depth
                <= self.config.max_depth
        &&& forall|i: int|
            0 <= i < self.frontier@.len() ==> self.visited.seq_view().contains(
                (#[trigger] self.frontier@[i]).url@,
            )
        // a URL sits in at most one of the three collections
        &&& forall|i: int, j: int|
            #![trigger self.pages@[i], self.active@[j]]
            0 <= i < self.pages@.len() && 0 <= j < self.active@.len() ==> self.pages@[i].url@
                != self.active@[j].url@
        &&& forall|i: int, j: int|
            #![trigger self.pages@[i], self.frontier@[j]]
            0 <= i < self.pages@.len() && 0 <= j < self.frontier@.len() ==> self.pages@[i].url@
                != self.frontier@[j].url@
        &&& forall|i: int, j: int|
            #![trigger self.active@[i], self.frontier@[j]]
            0 <= i < self.active@.len() && 0 <= j < self.frontier@.len() ==> self.active@[i].url@
                != self.frontier@[j].url@
        // graph keys are committed pages; graph targets were admitted
        &&& forall|i: int|
            0 <= i < self.graph.keys_view().len() ==> pages_contain_url(
                self.pages@,
                #[trigger] self.graph.keys_view()[i],
            )
        &&& forall|i: int, j: int|
            #![trigger self.graph.vals_view()[i][j]]
            0 <= i < self.graph.vals_view().len() && 0 <= j < self.graph.vals_view()[i].len()
                ==> self.visited.seq_view().contains(self.graph.vals_view()[i][j])
        // the per-domain cap: dispatched URLs are counted per host, and
        // committed plus in-flight pages never exceed the counter
        &&& (self.config.max_urls_per_domain matches Some(m) ==> forall|h: Seq<char>|
            count_pages_host(self.pages@, h) + count_active_host(self.active@, h)
                <= #[trigger] self.domains.count_of(h) && self.domains.count_of(h) <= m)
        // counters: every error and every live page is backed by an admission
        &&& self.stats.error_count + self.pages@.len() + self.active@.len() + self.frontier@.len()
            <= self.visited.seq_view().len()
        &&& self.stats.success_count <= self.pages@.len()
        // the total cap over committed and in-flight pages
        &&& (self.config.max_total_urls matches Some(t) ==> self.pages@.len() + self.active@.len()
            <= t)
    }

    /// Start a crawl: canonicalize the seed, admit it, and queue it at
    /// depth zero.  A seed that does not parse as an http(s) URL is
    /// rejected up front.
    pub fn new(config: CrawlerConfig, seed_url: &str) -> (r: Result<Engine, CrawlerError>)
        ensures
            r is Ok <==> spec_norm_ok(seed_url@),
            r matches Ok(e) ==> {
                &&& e.wf()
                &&& e.config == config
                &&& e.visited.seq_view() == seq![spec_canonical_of(seed_url@)]
                &&& e.frontier@.len() == 1
                &&& e.frontier@[0].url@ == spec_canonical_of(seed_url@)
                &&& e.frontier@[0].depth == 0
                &&& e.pages@.len() == 0
                &&& e.active@.len() == 0
                &&& e.graph.keys_view().len() == 0
                &&& e.stats.success_count == 0
                &&& e.stats.error_count == 0
                &&& (forall|h: Seq<char>| #[trigger] e.domains.count_of(h) == 0)
                &&& !e.stopped
            },
            r matches Err(err) ==> err matches CrawlerError::UrlParseError(m) && m@ == seed_url@,
    {
        match normalize_url(seed_url) {
            None => Err(CrawlerError::UrlParseError(seed_url.to_owned())),
            Some(canon) => {
                let mut visited = VisitedSet::new();
                visited.insert_new(canon.clone());
                let mut frontier: VecDeque<Page> = VecDeque::new();
                frontier.push_back(Page::new(canon, 0));
                let started = now_millis();
                let e = Engine {
                    config,
                    visited,
                    frontier,
                    active: Vec::new(),
                    pages: Vec::new(),
                    graph: UrlGraph::new(),
                    domains: DomainCounter::new(),
                    stats: CrawlStats {
                        started_at_ms: started,
                        finished_at_ms: started,
                        duration_ms: 0,
                        success_count: 0,
                        error_count: 0,
                        avg_page_size: 0,
                    },
                    stopped: false,
                };
                proof {
                    assert(e.visited.seq_view() =~= seq![spec_canonical_of(seed_url@)]);
                    assert(e.frontier@ =~= seq![e.frontier@[0]]);
                    assert(e.visited.seq_view()[0] == e.frontier@[0].url@);
                    assert(e.visited.seq_view().contains(e.frontier@[0].url@));
                    assert(e.wf());
                }
                Ok(e)
            },
        }
    }

    /// One step of the dispatch loop, following the admission algorithm:
    /// a page at the depth bound or over its host's cap is discarded; the
    /// total cap stops dispatching for good; otherwise the page occupies
    /// a free permit and is handed out for fetching.
    pub fn dispatch(&mut self) -> (d: Dispatch)
        requires
            old(self).wf(),
        ensures
            final(self).wf(),
            final(self).config == old(self).config,
            final(self).pages@ == old(self).pages@,
            final(self).graph == old(self).graph,
            final(self).stats == old(self).stats,
            final(self).visited == old(self).visited,
            match d {
                Dispatch::Idle => {
                    &&& *final(self) == *old(self)
                    &&& !old(self).stopped
                    &&& old(self).frontier@.len() == 0
                    &&& old(self).active@.len() == 0
                },
                Dispatch::Wait => {
                    &&& *final(self) == *old(self)
                    &&& !old(self).stopped
                    &&& (old(self).frontier@.len() == 0 && old(self).active@.len() > 0) || (
                    old(self).frontier@.len() > 0 && old(self).active@.len()
                        >= old(self).config.concurrent_tasks)
                },
                Dispatch::Stop => {
                    &&& final(self).stopped
                    &&& final(self).active@ == old(self).active@
                    &&& (old(self).stopped ==> *final(self) == *old(self))
                    &&& (!old(self).stopped ==> {
                        let p = old(self).frontier@[0];
                        &&& old(self).config.max_total_urls matches Some(t) && old(
                            self,
                        ).visited.seq_view().len() >= t
                        &&& old(self).frontier@.len() > 0
                        &&& final(self).frontier@ == old(self).frontier@.subrange(
                            1,
                            old(self).frontier@.len() as int,
                        )
                        &&& p.depth < old(self).config.max_depth
                        &&& (old(self).config.max_urls_per_domain is None ==> final(self).domains
                            == old(self).domains)
                        &&& (old(self).config.max_urls_per_domain matches Some(m) ==> {
                            let h = spec_host_or_empty(p.url@);
                            &&& final(self).domains.count_of(h) == old(self).domains.count_of(h)
                                + 1
                            &&& forall|h2: Seq<char>|
                                h2 != h ==> #[trigger] final(self).domains.count_of(h2) == old(
                                    self,
                                ).domains.count_of(h2)
                        })
                    })
                },
                Dispatch::Skip => {
                    &&& !final(self).stopped
                    &&& final(self).active@ == old(self).active@
                    &&& final(self).domains == old(self).domains
                    &&& old(self).frontier@.len() > 0
                    &&& final(self).frontier@ == old(self).frontier@.subrange(
                        1,
                        old(self).frontier@.len() as int,
                    )
                    &&& {
                        let p = old(self).frontier@[0];
                        p.depth >= old(self).config.max_depth || (
                        old(self).config.max_urls_per_domain matches Some(m)
                            && old(self).domains.count_of(spec_host_or_empty(p.url@)) >= m)
                    }
                },
                Dispatch::Fetch { slot, url, depth } => {
                    &&& !final(self).stopped
                    &&& old(self).frontier@.len() > 0
                    &&& url@ == old(self).frontier@[0].url@
                    &&& depth == old(self).frontier@[0].depth
                    &&& depth < old(self).config.max_depth
                    &&& final(self).frontier@ == old(self).frontier@.subrange(
                        1,
                        old(self).frontier@.len() as int,
                    )
                    &&& slot == old(self).active@.len()
                    &&& final(self).active@.len() == old(self).active@.len() + 1
                    &&& final(self).active@[slot as int].url@ == url@
                    &&& final(self).active@[slot as int].depth == depth
                    &&& forall|i: int|
                        0 <= i < old(self).active@.len() ==> #[trigger] final(self).active@[i]
                            == old(self).active@[i]
                    &&& (old(self).config.max_urls_per_domain is None ==> final(self).domains
                        == old(self).domains)
                    &&& (old(self).config.max_urls_per_domain matches Some(m) ==> {
                        let h = spec_host_or_empty(url@);
                        &&& old(self).domains.count_of(h) < m
                        &&& final(self).domains.count_of(h) == old(self).domains.count_of(h) + 1
                        &&& forall|h2: Seq<char>|
                            h2 != h ==> #[trigger] final(self).domains.count_of(h2) == old(
                                self,
                            ).domains.count_of(h2)
                    })
                },
            },
    {
        if self.stopped {
            return Dispatch::Stop;
        }
        if self.frontier.len() == 0 {
            if self.active.len() == 0 {
                return Dispatch::Idle;
            } else {
                return Dispatch::Wait;
            }
        }
        if self.active.len() >= self.config.concurrent_tasks {
            return Dispatch::Wait;
        }
        let page = self.frontier.pop_front().unwrap();
        if page.depth >= self.config.max_depth {
            return Dispatch::Skip;
        }
        let host = host_or_empty(page.url.as_str());
        match self.config.max_urls_per_domain {
            Some(m) => {
                let c = self.domains.get_count(host.as_str());
                if c >= m {
                    return Dispatch::Skip;
                }
                self.domains.increment(host.as_str());
            },
            None => {},
        }
        match self.config.max_total_urls {
            Some(t) => {
                if self.visited.len() >= t {
                    self.stopped = true;
                    return Dispatch::Stop;
                }
            },
            None => {},
        }
        let slot = self.active.len();
        let url = page.url.clone();
        self.active.push(ActiveFetch { url: page.url, depth: page.depth, host });
        proof {
            assert(forall|i: int|
                0 <= i < old(self).active@.len() ==> #[trigger] self.active@[i] == old(
                    self,
                ).active@[i]);
            if let Some(m) = self.config.max_urls_per_domain {
                assert forall|h: Seq<char>|
                    count_pages_host(self.pages@, h) + count_active_host(self.active@, h)
                        <= #[trigger] self.domains.count_of(h) && self.domains.count_of(h)
                        <= m by {
                    lemma_count_active_push(
                        old(self).active@,
                        self.active@[self.active@.len() - 1],
                        h,
                    );
                }
            }
        }
        Dispatch::Fetch { slot, url, depth: page.depth }
    }
}

impl Engine {
    /// Commit one page record for the fetch in `slot` and release its
    /// permit.  Shared by every fetch outcome that commits a page.
    fn commit_page(&mut self, slot: usize, p: Page, count_success: bool)
        requires
            old(self).wf(),
            slot < old(self).active@.len(),
            p.url@ == old(self).active@[slot as int].url@,
            p.depth == old(self).active@[slot as int].depth,
        ensures
            final(self).wf(),
            final(self).config == old(self).config,
            final(self).visited == old(self).visited,
            final(self).frontier@ == old(self).frontier@,
            final(self).graph == old(self).graph,
            final(self).domains == old(self).domains,
            final(self).stopped == old(self).stopped,
            final(self).pages@ == old(self).pages@.push(p),
            final(self).active@ == old(self).active@.remove(slot as int),
            final(self).stats.error_count == old(self).stats.error_count,
            final(self).stats.success_count == old(self).stats.success_count + if count_success {
                1int
            } else {
                0int
            },
            final(self).stats.started_at_ms == old(self).stats.started_at_ms,
            final(self).stats.finished_at_ms == old(self).stats.finished_at_ms,
            final(self).stats.duration_ms == old(self).stats.duration_ms,
            final(self).stats.avg_page_size == old(self).stats.avg_page_size,
    {
        let ghost a = old(self).active@[slot as int];
        self.pages.push(p);
        if count_success {
            let nlen = self.pages.len();
            proof {
                assert(self.stats.success_count < nlen);
            }
            self.stats.success_count = self.stats.success_count + 1;
        }
        self.active.remove(slot);
        proof {
            old(self).active@.remove_ensures(slot as int);
            let pages0 = old(self).pages@;
            let pages1 = self.pages@;
            let act0 = old(self).active@;
            let act1 = self.active@;
            // the committed URL was in flight, so it is fresh among pages
            assert(forall|i: int|
                0 <= i < pages0.len() ==> (#[trigger] pages0[i]).url@ != p.url@);
            assert(forall|i: int| 0 <= i < pages0.len() ==> pages1[i] == pages0[i]);
            assert(pages1[pages0.len() as int] == p);
            // pages of the graph stay covered
            assert forall|i: int| 0 <= i < self.graph.keys_view().len() implies pages_contain_url(
                pages1,
                #[trigger] self.graph.keys_view()[i],
            ) by {
                let k = self.graph.keys_view()[i];
                let w = choose|w: int| 0 <= w < pages0.len() && (#[trigger] pages0[w]).url@ == k;
                assert(pages1[w].url@ == k);
            }
            // per-domain counts move from active to pages
            if let Some(m) = self.config.max_urls_per_domain {
                assert forall|h: Seq<char>|
                    count_pages_host(pages1, h) + count_active_host(act1, h)
                        <= #[trigger] self.domains.count_of(h) && self.domains.count_of(h)
                        <= m by {
                    lemma_count_pages_push(pages0, p, h);
                    lemma_count_active_remove(act0, slot as int, h);
                    assert(a.host@ == spec_host_or_empty(p.url@));
                }
            }
        }
    }

    /// A fetch failed in transport: count the error, commit nothing, and
    /// release the permit.
    pub fn on_transport_error(&mut self, slot: usize)
        requires
            old(self).wf(),
            slot < old(self).active@.len(),
        ensures
            final(self).wf(),
            final(self).config == old(self).config,
            final(self).visited == old(self).visited,
            final(self).frontier@ == old(self).frontier@,
            final(self).graph == old(self).graph,
            final(self).domains == old(self).domains,
            final(self).stopped == old(self).stopped,
            final(self).pages@ == old(self).pages@,
            final(self).active@ == old(self).active@.remove(slot as int),
            final(self).stats.error_count == old(self).stats.error_count + 1,
            final(self).stats.success_count == old(self).stats.success_count,
            final(self).stats.started_at_ms == old(self).stats.started_at_ms,
            final(self).stats.finished_at_ms == old(self).stats.finished_at_ms,
            final(self).stats.duration_ms == old(self).stats.duration_ms,
            final(self).stats.avg_page_size == old(self).stats.avg_page_size,
    {
        let n = self.visited.len();
        proof {
            assert(self.stats.error_count < n);
        }
        self.stats.error_count = self.stats.error_count + 1;
        self.active.remove(slot);
        proof {
            old(self).active@.remove_ensures(slot as int);
            if let Some(m) = self.config.max_urls_per_domain {
                assert forall|h: Seq<char>|
                    count_pages_host(self.pages@, h) + count_active_host(self.active@, h)
                        <= #[trigger] self.domains.count_of(h) && self.domains.count_of(h)
                        <= m by {
                    lemma_count_active_remove(old(self).active@, slot as int, h);
                }
            }
        }
    }

    /// robots.txt forbade the URL: commit a synthetic 403 page with no
    /// links, counted neither as success nor as error.
    pub fn on_disallowed(&mut self, slot: usize)
        requires
            old(self).wf(),
            slot < old(self).active@.len(),
        ensures
            final(self).wf(),
            final(self).config == old(self).config,
            final(self).visited == old(self).visited,
            final(self).frontier@ == old(self).frontier@,
            final(self).graph == old(self).graph,
            final(self).domains == old(self).domains,
            final(self).stopped == old(self).stopped,
            final(self).active@ == old(self).active@.remove(slot as int),
            final(self).stats.error_count == old(self).stats.error_count,
            final(self).stats.success_count == old(self).stats.success_count,
            final(self).pages@.drop_last() == old(self).pages@,
            ({
                let p = final(self).pages@.last();
                &&& p.url@ == old(self).active@[slot as int].url@
                &&& p.depth == old(self).active@[slot as int].depth
                &&& p.status_code == Some(403u16)
                &&& p.links@.len() == 0
                &&& p.title is None
                &&& p.content_type is None
                &&& p.size is None
                &&& p.crawled_at is Some
            }),
    {
        let a_url = self.active[slot].url.clone();
        let a_depth = self.active[slot].depth;
        let p = Page::new(a_url, a_depth).with_status_code(403).mark_crawled();
        self.commit_page(slot, p, false);
        proof {
            assert(self.pages@.drop_last() =~= old(self).pages@);
        }
    }

    /// The fetch returned a non-2xx status: commit the page with the
    /// status and no links; no counter moves (a 404 is not an error).
    pub fn on_http_status(&mut self, slot: usize, status: u16)
        requires
            old(self).wf(),
            slot < old(self).active@.len(),
            !(200 <= status < 300),
        ensures
            final(self).wf(),
            final(self).config == old(self).config,
            final(self).visited == old(self).visited,
            final(self).frontier@ == old(self).frontier@,
            final(self).graph == old(self).graph,
            final(self).domains == old(self).domains,
            final(self).stopped == old(self).stopped,
            final(self).active@ == old(self).active@.remove(slot as int),
            final(self).stats.error_count == old(self).stats.error_count,
            final(self).stats.success_count == old(self).stats.success_count,
            final(self).pages@.drop_last() == old(self).pages@,
            ({
                let p = final(self).pages@.last();
                &&& p.url@ == old(self).active@[slot as int].url@
                &&& p.depth == old(self).active@[slot as int].depth
                &&& p.status_code == Some(status)
                &&& p.links@.len() == 0
                &&& p.title is None
                &&& p.content_type is None
                &&& p.size is None
                &&& p.crawled_at is Some
            }),
    {
        let a_url = self.active[slot].url.clone();
        let a_depth = self.active[slot].depth;
        let p = Page::new(a_url, a_depth).with_status_code(status).mark_crawled();
        self.commit_page(slot, p, false);
        proof {
            assert(self.pages@.drop_last() =~= old(self).pages@);
        }
    }

    /// The fetch succeeded but the body is not HTML: commit the page
    /// with its status and content type, count the success, extract
    /// nothing.
    pub fn on_non_html(&mut self, slot: usize, status: u16, content_type: String)
        requires
            old(self).wf(),
            slot < old(self).active@.len(),
            200 <= status < 300,
        ensures
            final(self).wf(),
            final(self).config == old(self).config,
            final(self).visited == old(self).visited,
            final(self).frontier@ == old(self).frontier@,
            final(self).graph == old(self).graph,
            final(self).domains == old(self).domains,
            final(self).stopped == old(self).stopped,
            final(self).active@ == old(self).active@.remove(slot as int),
            final(self).stats.error_count == old(self).stats.error_count,
            final(self).stats.success_count == old(self).stats.success_count + 1,
            final(self).pages@.drop_last() == old(self).pages@,
            ({
                let p = final(self).pages@.last();
                &&& p.url@ == old(self).active@[slot as int].url@
                &&& p.depth == old(self).active@[slot as int].depth
                &&& p.status_code == Some(status)
                &&& p.content_type == Some(content_type)
                &&& p.links@.len() == 0
                &&& p.title is None
                &&& p.size is None
                &&& p.crawled_at is Some
            }),
    {
        let a_url = self.active[slot].url.clone();
        let a_depth = self.active[slot].depth;
        let p = Page::new(a_url, a_depth).with_status_code(status).with_content_type(
            content_type,
        ).mark_crawled();
        self.commit_page(slot, p, true);
        proof {
            assert(self.pages@.drop_last() =~= old(self).pages@);
        }
    }
}

impl Engine {
    /// The fetch succeeded with an HTML body: extract the links and the
    /// title, commit the full page record, record the graph entry for
    /// the page, and run the admission gate over the discovered links.
    pub fn on_html_page(
        &mut self,
        slot: usize,
        status: u16,
        content_type: String,
        size: usize,
        html: &str,
    )
        requires
            old(self).wf(),
            slot < old(self).active@.len(),
            200 <= status < 300,
        ensures
            final(self).wf(),
            final(self).config == old(self).config,
            final(self).domains == old(self).domains,
            final(self).stopped == old(self).stopped,
            final(self).stats.error_count == old(self).stats.error_count,
            final(self).stats.success_count == old(self).stats.success_count + 1,
            final(self).active@ == old(self).active@.remove(slot as int),
            ({
                let a = old(self).active@[slot as int];
                let links = crate::extract::spec_links(a.url@, crate::extract::spec_hrefs(html@));
                let gate = spec_admission(
                    old(self).visited.seq_view(),
                    old(self).config.allowed_domains.deep_view(),
                    old(self).config.excluded_paths.deep_view(),
                    links,
                );
                &&& final(self).pages@.drop_last() == old(self).pages@
                &&& ({
                    let p = final(self).pages@.last();
                    &&& p.url@ == a.url@
                    &&& p.depth == a.depth
                    &&& p.status_code == Some(status)
                    &&& p.content_type == Some(content_type)
                    &&& p.size == Some(size)
                    &&& p.links.deep_view() == links
                    &&& p.title.deep_view() == crate::extract::spec_html_title(html@)
                    &&& p.crawled_at is Some
                })
                &&& final(self).graph.keys_view() == old(self).graph.keys_view().push(a.url@)
                &&& final(self).graph.vals_view() == old(self).graph.vals_view().push(links)
                &&& final(self).visited.seq_view() == gate.0
                &&& final(self).frontier@.len() == old(self).frontier@.len() + gate.1.len()
                &&& (forall|t: int|
                    0 <= t < old(self).frontier@.len() ==> #[trigger] final(self).frontier@[t]
                        == old(self).frontier@[t])
                &&& (forall|k: int|
                    0 <= k < gate.1.len() ==> (#[trigger] final(self).frontier@[old(
                        self,
                    ).frontier@.len() + k]).url@ == gate.1[k] && final(self).frontier@[old(
                        self,
                    ).frontier@.len() + k].depth == a.depth + 1)
            }),
    {
        let ghost a = old(self).active@[slot as int];
        let a_url = self.active[slot].url.clone();
        let a_depth = self.active[slot].depth;
        let (links, title) = crate::extract::extract_links_and_title(html, a_url.as_str());
        let ghost lv = links.deep_view();
        let links_g = links.clone();
        proof {
            assert forall|i: int| 0 <= i < links@.len() implies links_g@[i] == links@[i] by {
                assert(cloned::<String>(links@[i], links_g@[i]));
            }
            assert(links_g@ =~= links@);
            assert(links_g.deep_view() =~~= lv);
        }
        // commit the page record
        let base = Page::new(a_url.clone(), a_depth).with_links(links).with_status_code(
            status,
        ).with_content_type(content_type).with_size(size);
        let p = match title {
            Some(t) => base.with_title(t).mark_crawled(),
            None => base.mark_crawled(),
        };
        self.commit_page(slot, p, true);
        // record the graph entry for this page
        proof {
            assert(forall|i: int|
                0 <= i < old(self).graph.keys_view().len() ==> #[trigger] old(
                    self,
                ).graph.keys_view()[i] != a.url@);
            crate::store::lemma_assoc_get_none(
                self.graph.keys_view(),
                self.graph.vals_view(),
                a.url@,
            );
        }
        let ghost mid = *self;
        self.graph.insert_new(a_url, links_g);
        // admit the discovered links
        let ghost pre_admit = *self;
        proof {
            assert(a_depth < u32::MAX);
        }
        gate_links(
            &mut self.visited,
            &mut self.frontier,
            &self.pages[self.pages.len() - 1].links,
            a_depth + 1,
            &self.config.allowed_domains,
            &self.config.excluded_paths,
        );
        proof {
            lemma_spec_admission(
                pre_admit.visited.seq_view(),
                self.config.allowed_domains.deep_view(),
                self.config.excluded_paths.deep_view(),
                lv,
            );
            let gate = spec_admission(
                pre_admit.visited.seq_view(),
                self.config.allowed_domains.deep_view(),
                self.config.excluded_paths.deep_view(),
                lv,
            );
            let vnew = self.visited.seq_view();
            let vold = pre_admit.visited.seq_view();
            // old admissions survive, so containment facts carry over
            assert forall|u: Seq<char>| vold.contains(u) implies vnew.contains(u) by {}
            // every admitted URL is canonical: old ones were, new ones
            // are extracted links, which the extractor canonicalized
            assert forall|k: int|
                0 <= k < vnew.len() implies is_canonical_url(#[trigger] vnew[k]) by {
                if !vold.contains(vnew[k]) {
                    assert(vnew.contains(vnew[k]));
                    assert(lv.contains(vnew[k]));
                    let w = choose|w: int| 0 <= w < lv.len() && lv[w] == vnew[k];
                    assert(is_canonical_url(lv[w]));
                }
            }
            // graph targets were admitted
            assert forall|i: int, j: int|
                #![trigger self.graph.vals_view()[i][j]]
                0 <= i < self.graph.vals_view().len() && 0 <= j
                    < self.graph.vals_view()[i].len() implies vnew.contains(
                self.graph.vals_view()[i][j],
            ) by {
                if i < mid.graph.vals_view().len() {
                    assert(self.graph.vals_view()[i] == mid.graph.vals_view()[i]);
                    assert(vold.contains(mid.graph.vals_view()[i][j]));
                } else {
                    assert(self.graph.vals_view()[i] == lv);
                    assert(lv.contains(lv[j]));
                    assert(vnew.contains(lv[j]));
                }
            }
            // the new frontier entries are fresh against pages and active
            assert forall|i: int, j: int|
                #![trigger self.pages@[i], self.frontier@[j]]
                0 <= i < self.pages@.len() && 0 <= j
                    < self.frontier@.len() implies self.pages@[i].url@
                != self.frontier@[j].url@ by {
                if j >= pre_admit.frontier@.len() {
                    let k = j - pre_admit.frontier@.len();
                    assert(self.frontier@[pre_admit.frontier@.len() + k].url@ == gate.1[k]);
                    assert(!vold.contains(gate.1[k]));
                    assert(vold.contains(self.pages@[i].url@));
                }
            }
            assert forall|i: int, j: int|
                #![trigger self.active@[i], self.frontier@[j]]
                0 <= i < self.active@.len() && 0 <= j
                    < self.frontier@.len() implies self.active@[i].url@
                != self.frontier@[j].url@ by {
                if j >= pre_admit.frontier@.len() {
                    let k = j - pre_admit.frontier@.len();
                    assert(self.frontier@[pre_admit.frontier@.len() + k].url@ == gate.1[k]);
                    assert(!vold.contains(gate.1[k]));
                    assert(vold.contains(self.active@[i].url@));
                }
            }
            // the frontier stays duplicate-free
            assert forall|i: int, j: int|
                #![trigger self.frontier@[i], self.frontier@[j]]
                0 <= i < j < self.frontier@.len() implies self.frontier@[i].url@
                != self.frontier@[j].url@ by {
                let fl = pre_admit.frontier@.len() as int;
                if j >= fl {
                    let kj = j - fl;
                    assert(self.frontier@[fl + kj].url@ == gate.1[kj]);
                    if i >= fl {
                        let ki = i - fl;
                        assert(self.frontier@[fl + ki].url@ == gate.1[ki]);
                        assert(gate.1[ki] != gate.1[kj]);
                    } else {
                        assert(self.frontier@[i] == pre_admit.frontier@[i]);
                        assert(vold.contains(self.frontier@[i].url@));
                        assert(!vold.contains(gate.1[kj]));
                    }
                }
            }
            // frontier entries stay admitted and within the depth bound
            assert forall|i: int|
                0 <= i < self.frontier@.len() implies vnew.contains(
                (#[trigger] self.frontier@[i]).url@,
            ) by {
                if i < pre_admit.frontier@.len() {
                    assert(self.frontier@[i] == pre_admit.frontier@[i]);
                    assert(vold.contains(self.frontier@[i].url@));
                } else {
                    let k = i - pre_admit.frontier@.len();
                    assert(self.frontier@[pre_admit.frontier@.len() + k].url@ == gate.1[k]);
                    assert(gate.0.contains(gate.1[k]));
                }
            }
            assert forall|i: int|
                0 <= i < self.frontier@.len() implies (#[trigger] self.frontier@[i]).depth
                <= self.config.max_depth by {
                if i >= pre_admit.frontier@.len() {
                    let k = i - pre_admit.frontier@.len();
                    assert(self.frontier@[pre_admit.frontier@.len() + k].depth == a_depth + 1);
                    assert(a.depth < self.config.max_depth);
                }
            }
            // pages and active stay admitted
            assert forall|i: int|
                0 <= i < self.pages@.len() implies vnew.contains(
                (#[trigger] self.pages@[i]).url@,
            ) by {
                assert(vold.contains(self.pages@[i].url@));
            }
            assert forall|i: int|
                0 <= i < self.active@.len() implies vnew.contains(
                (#[trigger] self.active@[i]).url@,
            ) by {
                assert(vold.contains(self.active@[i].url@));
            }
            // graph keys still point at committed pages
            assert forall|i: int|
                0 <= i < self.graph.keys_view().len() implies pages_contain_url(
                self.pages@,
                #[trigger] self.graph.keys_view()[i],
            ) by {
                if i < mid.graph.keys_view().len() {
                    assert(self.graph.keys_view()[i] == mid.graph.keys_view()[i]);
                } else {
                    assert(self.graph.keys_view()[i] == a.url@);
                    assert(self.pages@[self.pages@.len() - 1].url@ == a.url@);
                }
            }
            assert(self.wf());
        }
    }
}

/// What a fetched response means for the worker.
pub enum ResponseClass {
    /// A non-2xx status: commit the page with its status, extract
    /// nothing.
    Failure,
    /// A 2xx response whose content type is not HTML: commit the page
    /// with status and content type, extract nothing.
    NonHtml,
    /// A 2xx HTML response: read the body and extract links.
    Html,
}

/// Decide how to treat a response from its status and content type, as
/// the worker body does: only 2xx responses whose content type contains
/// `text/html` have their bodies read and parsed.
pub fn classify_response(status: u16, content_type: &str) -> (r: ResponseClass)
    ensures
        r is Failure <==> !(200 <= status < 300),
        r is Html <==> 200 <= status < 300 && crate::text::is_substring_of(
            vstd::utf8::encode_utf8("text/html"@),
            vstd::utf8::encode_utf8(content_type@),
        ),
        r is NonHtml <==> 200 <= status < 300 && !crate::text::is_substring_of(
            vstd::utf8::encode_utf8("text/html"@),
            vstd::utf8::encode_utf8(content_type@),
        ),
{
    if status < 200 || status >= 300 {
        ResponseClass::Failure
    } else if crate::text::bytes_contains(content_type.as_bytes(), "text/html".as_bytes()) {
        ResponseClass::Html
    } else {
        ResponseClass::NonHtml
    }
}

/// The total number of outgoing links over all graph entries.
pub open spec fn spec_total_links(vals: Seq<Seq<Seq<char>>>) -> nat
    decreases vals.len(),
{
    if vals.len() == 0 {
        0
    } else {
        spec_total_links(vals.drop_last()) + vals.last().len()
    }
}

/// What a finished crawl hands back: the committed pages in commit
/// order, the link graph, the total outgoing link count, and the stats.
#[derive(Debug)]
pub struct CrawlResult {
    /// Committed page records, in commit order.
    pub pages: Vec<Page>,
    /// The link graph of successfully extracted pages.
    pub graph: UrlGraph,
    /// Sum of the lengths of all graph link lists, saturating.
    pub total_links: usize,
    /// Counters and timings of the crawl.
    pub stats: CrawlStats,
}

impl Engine {
    /// Assemble the final `CrawlResult`.  The ensures carry the crawl's
    /// guarantees out to the caller: the depth bound, uniqueness and
    /// canonicality of page URLs, graph closure, and the caps.
    pub fn into_result(self) -> (r: CrawlResult)
        requires
            self.wf(),
        ensures
            r.pages@ == self.pages@,
            r.graph == self.graph,
            // depth bound: no committed page sits at or beyond the limit
            forall|i: int|
                0 <= i < r.pages@.len() ==> (#[trigger] r.pages@[i]).depth
                    < self.config.max_depth,
            // uniqueness: page URLs are pairwise distinct
            forall|i: int, j: int|
                #![trigger r.pages@[i], r.pages@[j]]
                0 <= i < j < r.pages@.len() ==> r.pages@[i].url@ != r.pages@[j].url@,
            // canonicalization: every stored URL came out of the normalizer
            forall|i: int|
                0 <= i < r.pages@.len() ==> is_canonical_url((#[trigger] r.pages@[i]).url@),
            // graph closure: keys are committed pages, targets were admitted
            forall|i: int|
                0 <= i < r.graph.keys_view().len() ==> pages_contain_url(
                    r.pages@,
                    #[trigger] r.graph.keys_view()[i],
                ),
            forall|i: int, j: int|
                #![trigger r.graph.vals_view()[i][j]]
                0 <= i < r.graph.vals_view().len() && 0 <= j < r.graph.vals_view()[i].len()
                    ==> self.visited.seq_view().contains(r.graph.vals_view()[i][j])
                    && is_canonical_url(r.graph.vals_view()[i][j]),
            // domain cap
            self.config.max_urls_per_domain matches Some(m) ==> forall|h: Seq<char>|
                #[trigger] count_pages_host(r.pages@, h) <= m,
            // total cap
            self.config.max_total_urls matches Some(t) ==> r.pages@.len() <= t,
            // link count, saturating at usize::MAX
            (spec_total_links(self.graph.vals_view()) <= usize::MAX ==> r.total_links
                == spec_total_links(self.graph.vals_view())),
            (spec_total_links(self.graph.vals_view()) > usize::MAX ==> r.total_links
                == usize::MAX),
            // stats: counters carried over, duration clamped at zero
            r.stats.success_count == self.stats.success_count,
            r.stats.error_count == self.stats.error_count,
            r.stats.started_at_ms == self.stats.started_at_ms,
            r.stats.finished_at_ms >= r.stats.started_at_ms ==> r.stats.duration_ms
                == r.stats.finished_at_ms - r.stats.started_at_ms,
            r.stats.finished_at_ms < r.stats.started_at_ms ==> r.stats.duration_ms == 0,
    {
        let ghost vv = self.graph.vals_view();
        let n = self.graph.vals.len();
        let mut total: usize = 0;
        let mut i: usize = 0;
        proof {
            assert(vv.take(0) =~= Seq::<Seq<Seq<char>>>::empty());
        }
        while i < n
            invariant
                0 <= i <= n == self.graph.vals@.len(),
                vv == self.graph.vals_view(),
                spec_total_links(vv.take(i as int)) <= usize::MAX ==> total == spec_total_links(
                    vv.take(i as int),
                ),
                spec_total_links(vv.take(i as int)) > usize::MAX ==> total == usize::MAX,
            decreases n - i,
        {
            let len_i = self.graph.vals[i].len();
            proof {
                assert(self.graph.vals@[i as int].deep_view().len() == self.graph.vals@[
                    i as int]@.len());
                assert(vv.take(i + 1).drop_last() =~= vv.take(i as int));
                assert(vv.take(i + 1).last() == vv[i as int]);
            }
            if total > usize::MAX - len_i {
                total = usize::MAX;
            } else {
                total = total + len_i;
            }
            i = i + 1;
        }
        proof {
            assert(vv.take(n as int) =~= vv);
            if let Some(m) = self.config.max_urls_per_domain {
                assert forall|h: Seq<char>| #[trigger] count_pages_host(self.pages@, h)
                    <= m by {
                    assert(count_pages_host(self.pages@, h) + count_active_host(self.active@, h)
                        <= self.domains.count_of(h));
                }
            }
        }
        let finished = now_millis();
        let started = self.stats.started_at_ms;
        let duration = if finished >= started {
            finished - started
        } else {
            0
        };
        CrawlResult {
            pages: self.pages,
            graph: self.graph,
            total_links: total,
            stats: CrawlStats {
                started_at_ms: started,
                finished_at_ms: finished,
                duration_ms: duration,
                success_count: self.stats.success_count,
                error_count: self.stats.error_count,
                avg_page_size: self.stats.avg_page_size,
            },
        }
    }
}

/// Depth bound: every committed page lies strictly below the configured
/// maximum depth — pages at the depth limit are admitted but never
/// fetched.
pub proof fn lemma_depth_bound(e: Engine)
    requires
        e.wf(),
    ensures
        forall|i: int|
            0 <= i < e.pages@.len() ==> (#[trigger] e.pages@[i]).depth < e.config.max_depth,
        forall|i: int|
            0 <= i < e.frontier@.len() ==> (#[trigger] e.frontier@[i]).depth
                <= e.config.max_depth,
{
}

/// Uniqueness: the URLs of the committed pages are pairwise distinct.
pub proof fn lemma_visit_uniqueness(e: Engine)
    requires
        e.wf(),
    ensures
        forall|i: int, j: int|
            #![trigger e.pages@[i], e.pages@[j]]
            0 <= i < j < e.pages@.len() ==> e.pages@[i].url@ != e.pages@[j].url@,
{
}

/// Graph closure: every graph key is a committed page, and every graph
/// target was admitted to the visited set.
pub proof fn lemma_graph_closure(e: Engine)
    requires
        e.wf(),
    ensures
        forall|i: int|
            0 <= i < e.graph.keys_view().len() ==> pages_contain_url(
                e.pages@,
                #[trigger] e.graph.keys_view()[i],
            ),
        forall|i: int, j: int|
            #![trigger e.graph.vals_view()[i][j]]
            0 <= i < e.graph.vals_view().len() && 0 <= j < e.graph.vals_view()[i].len()
                ==> e.visited.seq_view().contains(e.graph.vals_view()[i][j]),
{
}

/// Concurrency bound: the fetches in flight never outnumber the
/// configured worker permits.
pub proof fn lemma_concurrency_bound(e: Engine)
    requires
        e.wf(),
    ensures
        e.active@.len() <= e.config.concurrent_tasks,
{
}

/// Domain cap: with `max_urls_per_domain` set to `m`, no host has more
/// than `m` committed pages.
pub proof fn lemma_domain_cap(e: Engine, h: Seq<char>)
    requires
        e.wf(),
        e.config.max_urls_per_domain is Some,
    ensures
        count_pages_host(e.pages@, h) <= e.config.max_urls_per_domain.unwrap(),
{
    assert(count_pages_host(e.pages@, h) + count_active_host(e.active@, h)
        <= e.domains.count_of(h));
}

/// Total cap: with `max_total_urls` set to `t`, the committed and
/// in-flight pages together never exceed `t`.
pub proof fn lemma_total_cap(e: Engine)
    requires
        e.wf(),
        e.config.max_total_urls is Some,
    ensures
        e.pages@.len() + e.active@.len() <= e.config.max_total_urls.unwrap(),
{
}

/// Canonicalization: every URL the crawl admitted — and hence every URL
/// in the page store, the frontier, and the graph — is an output of the
/// normalizer.
pub proof fn lemma_urls_canonical(e: Engine)
    requires
        e.wf(),
    ensures
        forall|k: int|
            0 <= k < e.visited.seq_view().len() ==> is_canonical_url(
                #[trigger] e.visited.seq_view()[k],
            ),
        forall|i: int|
            0 <= i < e.pages@.len() ==> is_canonical_url((#[trigger] e.pages@[i]).url@),
{
    assert forall|i: int| 0 <= i < e.pages@.len() implies is_canonical_url(
        (#[trigger] e.pages@[i]).url@,
    ) by {
        let u = e.pages@[i].url@;
        assert(e.visited.seq_view().contains(u));
        let w = choose|w: int|
            0 <= w < e.visited.seq_view().len() && e.visited.seq_view()[w] == u;
        assert(is_canonical_url(e.visited.seq_view()[w]));
    }
}

/// Membership in a non-empty sequence: the head or the tail.
proof fn lemma_seq_contains_head<A>(s: Seq<A>)
    requires
        s.len() > 0,
    ensures
        forall|u: A| s.contains(u) <==> u == s[0] || s.drop_first().contains(u),
{
    assert forall|u: A| s.contains(u) implies u == s[0] || s.drop_first().contains(u) by {
        let w = choose|w: int| 0 <= w < s.len() && s[w] == u;
        if w > 0 {
            assert(s.drop_first()[w - 1] == u);
        }
    }
    assert forall|u: A| s.drop_first().contains(u) implies s.contains(u) by {
        let w = choose|w: int| 0 <= w < s.drop_first().len() && s.drop_first()[w] == u;
        assert(s[w + 1] == u);
    }
}

/// Membership in a pushed sequence: the old elements or the new one.
proof fn lemma_seq_contains_push<A>(s: Seq<A>, x: A)
    ensures
        forall|u: A| s.push(x).contains(u) <==> s.contains(u) || u == x,
{
    assert forall|u: A| s.push(x).contains(u) implies s.contains(u) || u == x by {
        let w = choose|w: int| 0 <= w < s.push(x).len() && s.push(x)[w] == u;
        if w < s.len() {
            assert(s[w] == u);
        }
    }
    assert forall|u: A| s.contains(u) implies s.push(x).contains(u) by {
        let w = choose|w: int| 0 <= w < s.len() && s[w] == u;
        assert(s.push(x)[w] == u);
    }
    assert(s.push(x)[s.len() as int] == x);
}

/// Whether a freshly admitted link may be enqueued: its host must match
/// one of the allowed domains (when any are configured) and the URL must
/// not contain any excluded path.
pub open spec fn spec_filter_ok(
    l: Seq<char>,
    allowed: Seq<Seq<char>>,
    excluded: Seq<Seq<char>>,
) -> bool {
    &&& (allowed.len() == 0 || exists|i: int|
        0 <= i < allowed.len() && crate::text::is_substring_of(
            vstd::utf8::encode_utf8(#[trigger] allowed[i]),
            vstd::utf8::encode_utf8(spec_host_or_empty(l)),
        ))
    &&& !(exists|i: int|
        0 <= i < excluded.len() && crate::text::is_substring_of(
            vstd::utf8::encode_utf8(#[trigger] excluded[i]),
            vstd::utf8::encode_utf8(l),
        ))
}

/// Exec test for `spec_filter_ok`, matching substrings byte-wise as
/// `str::contains` does.
fn link_passes_filters(link: &str, allowed: &Vec<String>, excluded: &Vec<String>) -> (r: bool)
    ensures
        r == spec_filter_ok(link@, allowed.deep_view(), excluded.deep_view()),
{
    let ghost av = allowed.deep_view();
    let ghost ev = excluded.deep_view();
    let mut domain_ok = allowed.len() == 0;
    if !domain_ok {
        let host = host_or_empty(link);
        let na = allowed.len();
        let mut i: usize = 0;
        while i < na && !domain_ok
            invariant
                0 <= i <= na == allowed@.len(),
                av == allowed.deep_view(),
                host@ == spec_host_or_empty(link@),
                !domain_ok ==> forall|t: int|
                    0 <= t < i ==> !crate::text::is_substring_of(
                        vstd::utf8::encode_utf8(#[trigger] av[t]),
                        vstd::utf8::encode_utf8(host@),
                    ),
                domain_ok ==> exists|t: int|
                    0 <= t < na && crate::text::is_substring_of(
                        vstd::utf8::encode_utf8(#[trigger] av[t]),
                        vstd::utf8::encode_utf8(host@),
                    ),
            decreases na - i + (if domain_ok { 0int } else { 1int }),
        {
            proof {
                assert(allowed@[i as int].deep_view() == av[i as int]);
            }
            if crate::text::bytes_contains(host.as_str().as_bytes(), allowed[i].as_str().as_bytes())
                {
                domain_ok = true;
            } else {
                i = i + 1;
            }
        }
    }
    if !domain_ok {
        return false;
    }
    let ne = excluded.len();
    let mut j: usize = 0;
    while j < ne
        invariant
            0 <= j <= ne == excluded@.len(),
            ev == excluded.deep_view(),
            forall|t: int|
                0 <= t < j ==> !crate::text::is_substring_of(
                    vstd::utf8::encode_utf8(#[trigger] ev[t]),
                    vstd::utf8::encode_utf8(link@),
                ),
        decreases ne - j,
    {
        proof {
            assert(excluded@[j as int].deep_view() == ev[j as int]);
        }
        if crate::text::bytes_contains(link.as_bytes(), excluded[j].as_str().as_bytes()) {
            return false;
        }
        j = j + 1;
    }
    true
}

/// The admission of a list of discovered links into the visited set:
/// each link is admitted once (test-and-insert), and a newly admitted
/// link that passes the domain and path filters is enqueued.  Yields
/// the grown visited sequence and the enqueued URLs in order.
pub open spec fn spec_admission(
    visited: Seq<Seq<char>>,
    allowed: Seq<Seq<char>>,
    excluded: Seq<Seq<char>>,
    links: Seq<Seq<char>>,
) -> (Seq<Seq<char>>, Seq<Seq<char>>)
    decreases links.len(),
{
    if links.len() == 0 {
        (visited, Seq::empty())
    } else {
        let l = links[0];
        if visited.contains(l) {
            spec_admission(visited, allowed, excluded, links.drop_first())
        } else {
            let rest = spec_admission(visited.push(l), allowed, excluded, links.drop_first());
            if spec_filter_ok(l, allowed, excluded) {
                (rest.0, seq![l] + rest.1)
            } else {
                rest
            }
        }
    }
}

/// What admission guarantees: the visited set keeps its old entries and
/// its uniqueness, ends up holding exactly the old URLs and the links,
/// and the enqueued URLs are fresh, distinct, admitted, and no more
/// numerous than the new admissions.
pub proof fn lemma_spec_admission(
    visited: Seq<Seq<char>>,
    allowed: Seq<Seq<char>>,
    excluded: Seq<Seq<char>>,
    links: Seq<Seq<char>>,
)
    requires
        visited.no_duplicates(),
    ensures
        ({
            let r = spec_admission(visited, allowed, excluded, links);
            &&& r.0.no_duplicates()
            &&& r.0.len() >= visited.len() + r.1.len()
            &&& forall|k: int| 0 <= k < visited.len() ==> #[trigger] r.0[k] == visited[k]
            &&& forall|u: Seq<char>|
                r.0.contains(u) <==> visited.contains(u) || links.contains(u)
            &&& forall|k: int|
                0 <= k < r.1.len() ==> !visited.contains(#[trigger] r.1[k]) && links.contains(
                    r.1[k],
                ) && r.0.contains(r.1[k])
            &&& r.1.no_duplicates()
        }),
    decreases links.len(),
{
    let r = spec_admission(visited, allowed, excluded, links);
    if links.len() == 0 {
        assert(forall|u: Seq<char>| links.contains(u) ==> false);
    } else {
        let l = links[0];
        lemma_seq_contains_head(links);
        if visited.contains(l) {
            lemma_spec_admission(visited, allowed, excluded, links.drop_first());
        } else {
            let v2 = visited.push(l);
            lemma_seq_contains_push(visited, l);
            assert(v2.no_duplicates()) by {
                assert(forall|t: int|
                    0 <= t < visited.len() ==> #[trigger] v2[t] == visited[t]);
                assert(v2[visited.len() as int] == l);
            }
            lemma_spec_admission(v2, allowed, excluded, links.drop_first());
            let rest = spec_admission(v2, allowed, excluded, links.drop_first());
            assert(forall|k: int| 0 <= k < visited.len() ==> #[trigger] v2[k] == visited[k]);
            assert forall|k: int| 0 <= k < visited.len() implies #[trigger] rest.0[k]
                == visited[k] by {
                assert(rest.0[k] == v2[k]);
            }
            assert(rest.0.contains(l)) by {
                assert(v2.contains(l));
            }
            if spec_filter_ok(l, allowed, excluded) {
                assert(r.1 == seq![l] + rest.1);
                assert(r.1[0] == l);
                assert(forall|k: int|
                    1 <= k < r.1.len() ==> #[trigger] r.1[k] == rest.1[k - 1]);
                assert(r.1.no_duplicates()) by {
                    assert(forall|k: int| 0 <= k < rest.1.len() ==> !v2.contains(
                        #[trigger] rest.1[k],
                    ));
                }
            }
        }
    }
}

/// Run the admission gate over a list of discovered links: test-and-
/// insert each into the visited set, and enqueue the newly admitted ones
/// that pass the filters as pages at `child_depth`.
fn gate_links(
    visited: &mut VisitedSet,
    frontier: &mut VecDeque<Page>,
    links: &Vec<String>,
    child_depth: u32,
    allowed: &Vec<String>,
    excluded: &Vec<String>,
)
    requires
        old(visited).wf(),
    ensures
        final(visited).wf(),
        ({
            let r = spec_admission(
                old(visited).seq_view(),
                allowed.deep_view(),
                excluded.deep_view(),
                links.deep_view(),
            );
            &&& final(visited).seq_view() == r.0
            &&& final(frontier)@.len() == old(frontier)@.len() + r.1.len()
            &&& (forall|t: int|
                0 <= t < old(frontier)@.len() ==> #[trigger] final(frontier)@[t] == old(
                    frontier,
                )@[t])
            &&& (forall|k: int|
                0 <= k < r.1.len() ==> {
                    let q = #[trigger] final(frontier)@[old(frontier)@.len() + k];
                    &&& q.url@ == r.1[k]
                    &&& q.depth == child_depth
                    &&& q.links@.len() == 0
                    &&& q.title is None
                    &&& q.status_code is None
                    &&& q.size is None
                    &&& q.crawled_at is None
                })
        }),
{
    let ghost v0 = old(visited).seq_view();
    let ghost f0 = old(frontier)@;
    let ghost av = allowed.deep_view();
    let ghost ev = excluded.deep_view();
    let ghost lv = links.deep_view();
    let ghost mut enq: Seq<Seq<char>> = Seq::empty();
    let n = links.len();
    let mut i: usize = 0;
    proof {
        assert(lv.skip(0) =~= lv);
        assert(enq + spec_admission(visited.seq_view(), av, ev, lv.skip(0)).1 =~= spec_admission(
            v0,
            av,
            ev,
            lv,
        ).1);
    }
    while i < n
        invariant
            0 <= i <= n == links@.len(),
            av == allowed.deep_view(),
            ev == excluded.deep_view(),
            lv == links.deep_view(),
            visited.wf(),
            spec_admission(visited.seq_view(), av, ev, lv.skip(i as int)).0 == spec_admission(
                v0,
                av,
                ev,
                lv,
            ).0,
            enq + spec_admission(visited.seq_view(), av, ev, lv.skip(i as int)).1 == spec_admission(
                v0,
                av,
                ev,
                lv,
            ).1,
            frontier@.len() == f0.len() + enq.len(),
            forall|t: int| 0 <= t < f0.len() ==> #[trigger] frontier@[t] == f0[t],
            forall|k: int|
                0 <= k < enq.len() ==> {
                    let q = #[trigger] frontier@[f0.len() + k];
                    &&& q.url@ == enq[k]
                    &&& q.depth == child_depth
                    &&& q.links@.len() == 0
                    &&& q.title is None
                    &&& q.status_code is None
                    &&& q.size is None
                    &&& q.crawled_at is None
                },
        decreases n - i,
    {
        let ghost l = lv[i as int];
        let ghost cur = visited.seq_view();
        proof {
            assert(links@[i as int].deep_view() == l);
            assert(lv.skip(i as int)[0] == l);
            assert(lv.skip(i as int).drop_first() =~= lv.skip(i + 1));
        }
        let link = &links[i];
        if !visited.contains(link.as_str()) {
            visited.insert_new(link.clone());
            if link_passes_filters(link.as_str(), allowed, excluded) {
                let q = Page::new(link.clone(), child_depth);
                let ghost fb = frontier@;
                frontier.push_back(q);
                proof {
                    enq = enq.push(l);
                    assert(enq + spec_admission(visited.seq_view(), av, ev, lv.skip(i + 1)).1
                        =~= spec_admission(v0, av, ev, lv).1);
                }
            }
        }
        i = i + 1;
    }
    proof {
        assert(lv.skip(n as int) =~= Seq::<Seq<char>>::empty());
        assert(enq =~= spec_admission(v0, av, ev, lv).1);
    }
}

/// Pushing an active fetch raises exactly its own host's count.
pub proof fn lemma_count_active_push(s: Seq<ActiveFetch>, a: ActiveFetch, h: Seq<char>)
    ensures
        count_active_host(s.push(a), h) == count_active_host(s, h) + if a.host@ == h {
            1nat
        } else {
            0nat
        },
{
    assert(s.push(a).drop_last() =~= s);
    assert(s.push(a).last() == a);
}

/// Pushing a page raises exactly its own host's count.
pub proof fn lemma_count_pages_push(s: Seq<Page>, p: Page, h: Seq<char>)
    ensures
        count_pages_host(s.push(p), h) == count_pages_host(s, h) + if spec_host_or_empty(p.url@)
            == h {
            1nat
        } else {
            0nat
        },
{
    assert(s.push(p).drop_last() =~= s);
    assert(s.push(p).last() == p);
}

/// Removing an active fetch lowers exactly its own host's count.
pub proof fn lemma_count_active_remove(s: Seq<ActiveFetch>, i: int, h: Seq<char>)
    requires
        0 <= i < s.len(),
    ensures
        count_active_host(s, h) == count_active_host(s.remove(i), h) + if s[i].host@ == h {
            1nat
        } else {
            0nat
        },
    decreases s.len(),
{
    if i == s.len() - 1 {
        assert(s.remove(i) =~= s.drop_last());
    } else {
        assert(s.remove(i).drop_last() =~= s.drop_last().remove(i));
        assert(s.remove(i).last() == s.last());
        lemma_count_active_remove(s.drop_last(), i, h);
        assert(s.drop_last()[i] == s[i]);
    }
}

} // verus!
