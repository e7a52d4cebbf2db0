//! A breadth-first web crawler: URL normalisation, frontier filtering, the
//! byte protocol spoken with worker processes, the worker-pool bookkeeping and
//! the round-based crawl loop, each stated and proved with Verus.
use vstd::prelude::*;
use vstd::string::*;
use crate::url::{WebUrl, UrlView, parsed_url};
use crate::scraper::Scraper;

pub mod url;
pub mod frontier;
pub mod page;
pub mod wire;
pub mod parallel;
pub mod scraper;

verus! {

/// A failure that the crawl reports and carries on after: the address it
/// concerns and a description.
#[derive(Clone, Debug, PartialEq, Eq)]
pub enum Error {
    Write { url: String, e: String },
    Fetch { url: String, e: String },
    Build { url: String, e: String },
}

/// Relies on `num_cpus::get`: the number of logical CPUs that this process
/// may use, which depends on the machine and is at least 1.
#[verifier::external_body]
fn cpu_count() -> (r: usize)
    ensures
        r >= 1,
{
    num_cpus::get()
}

/// The settings of a crawl, before its origin is parsed.
pub struct ScraperBuilder {
    origin_url: String,
    worker_count: usize,
    depth: usize,
    host_only: bool,
}

impl ScraperBuilder {
    pub closed spec fn origin_view(&self) -> Seq<char> {
        self.origin_url@
    }

    pub closed spec fn worker_count_view(&self) -> nat {
        self.worker_count as nat
    }

    pub closed spec fn depth_view(&self) -> nat {
        self.depth as nat
    }

    pub closed spec fn host_only_view(&self) -> bool {
        self.host_only
    }

    /// A crawl from `origin_url` with a worker per CPU, no bound on the
    /// rounds, and links followed to any host.
    pub fn new(origin_url: &str) -> (r: ScraperBuilder)
        ensures
            r.origin_view() == origin_url@,
            r.depth_view() == usize::MAX,
            r.worker_count_view() >= 1,
            !r.host_only_view(),
    {
        ScraperBuilder {
            origin_url: String::from_str(origin_url),
            worker_count: cpu_count(),
            depth: usize::MAX,
            host_only: false,
        }
    }

    /// Sets the number of workers.
    pub fn workers(self, worker_count: usize) -> (r: ScraperBuilder)
        ensures
            r.worker_count_view() == worker_count,
            r.origin_view() == self.origin_view(),
            r.depth_view() == self.depth_view(),
            r.host_only_view() == self.host_only_view(),
    {
        ScraperBuilder { worker_count, ..self }
    }

    /// Sets the number of workers; the same as `workers`.
    pub fn threads(self, thread_count: usize) -> (r: ScraperBuilder)
        ensures
            r.worker_count_view() == thread_count,
            r.origin_view() == self.origin_view(),
            r.depth_view() == self.depth_view(),
            r.host_only_view() == self.host_only_view(),
    {
        self.workers(thread_count)
    }

    /// Sets the number of rounds.
    pub fn depth(self, depth: usize) -> (r: ScraperBuilder)
        ensures
            r.depth_view() == depth,
            r.origin_view() == self.origin_view(),
            r.worker_count_view() == self.worker_count_view(),
            r.host_only_view() == self.host_only_view(),
    {
        ScraperBuilder { depth, ..self }
    }

    /// Sets whether only the origin's host is crawled.
    pub fn host_only(self, yes: bool) -> (r: ScraperBuilder)
        ensures
            r.host_only_view() == yes,
            r.origin_view() == self.origin_view(),
            r.worker_count_view() == self.worker_count_view(),
            r.depth_view() == self.depth_view(),
    {
        ScraperBuilder { host_only: yes, ..self }
    }

    /// A crawl that has visited nothing yet; a `Build` error where the origin
    /// is not an absolute URL.
    pub fn build(&self) -> (r: Result<Scraper, Error>)
        ensures
            match parsed_url(self.origin_view()) {
                Some(u) => r is Ok && {
                    let s = r->Ok_0;
                    &&& s.wf()
                    &&& s.origin_view() == u
                    &&& s.worker_count_view() == self.worker_count_view()
                    &&& s.depth_view() == self.depth_view()
                    &&& s.host_only_view() == self.host_only_view()
                    &&& s.rounds_view() == 0
                    &&& s.visited_view() == Set::<UrlView>::empty()
                    &&& s.frontier_view() == Set::<UrlView>::empty()
                    &&& s.dispatched_view() == Set::<UrlView>::empty()
                },
                None => r is Err && r->Err_0 is Build && r->Err_0->Build_url@ == self.origin_view(),
            },
    {
        match WebUrl::parse(self.origin_url.as_str()) {
            Some(u) => Ok(Scraper::new(u, self.worker_count, self.depth, self.host_only)),
            None => Err(
                Error::Build {
                    url: self.origin_url.clone(),
                    e: String::from_str("not an absolute URL"),
                },
            ),
        }
    }
}

} // verus!
