//! The crawl's decisions, round by round: what to fetch next and what has
//! been visited. Fetching itself happens outside, through the worker pool.
use vstd::prelude::*;
use crate::url::{WebUrl, UrlView};
use crate::frontier::{
    url_set, distinct, insert_url, filter_visited, frontier_filter, contains_url,
};

verus! {

broadcast use vstd::seq_lib::group_seq_properties;

/// All addresses of all batches.
pub open spec fn union_all(s: Seq<Vec<WebUrl>>) -> Set<UrlView>
    decreases s.len(),
{
    if s.len() == 0 {
        Set::empty()
    } else {
        union_all(s.drop_last()).union(url_set(s.last()@))
    }
}

/// The addresses of all batches, each once.
pub fn merge_batches(batches: &Vec<Vec<WebUrl>>) -> (r: Vec<WebUrl>)
    ensures
        distinct(r@),
        url_set(r@) == union_all(batches@),
{
    let mut out: Vec<WebUrl> = Vec::new();
    let mut i: usize = 0;
    assert(url_set(out@) =~= Set::empty());
    while i < batches.len()
        invariant
            i <= batches@.len(),
            distinct(out@),
            url_set(out@) == union_all(batches@.subrange(0, i as int)),
        decreases batches@.len() - i,
    {
        let batch = &batches[i];
        let ghost before = url_set(out@);
        let mut j: usize = 0;
        while j < batch.len()
            invariant
                j <= batch@.len(),
                distinct(out@),
                url_set(out@) == before.union(url_set(batch@.subrange(0, j as int))),
            decreases batch@.len() - j,
        {
            proof {
                let pre = batch@.subrange(0, j as int);
                assert(batch@.subrange(0, j + 1) =~= pre.push(batch@[j as int]));
                assert(crate::frontier::views(pre.push(batch@[j as int])) =~= crate::frontier::views(
                    pre,
                ).push(batch@[j as int]@));
                crate::frontier::views(pre).lemma_push_to_set_commute(batch@[j as int]@);
            }
            insert_url(&mut out, batch[j].duplicate());
            assert(url_set(out@) =~= before.union(url_set(batch@.subrange(0, j + 1))));
            j = j + 1;
        }
        proof {
            assert(batch@.subrange(0, batch@.len() as int) =~= batch@);
            let s = batches@.subrange(0, i + 1);
            assert(s.drop_last() =~= batches@.subrange(0, i as int));
            assert(s.last() == *batch);
        }
        i = i + 1;
    }
    assert(batches@.subrange(0, batches@.len() as int) =~= batches@);
    out
}

/// A crawl from one origin, bounded by a number of rounds.
pub struct Scraper {
    origin_url: WebUrl,
    worker_count: usize,
    visited: Vec<WebUrl>,
    depth: usize,
    host_only: bool,
    rounds: u128,
    frontier: Vec<WebUrl>,
    dispatched: Ghost<Set<UrlView>>,
}

impl Scraper {
    pub closed spec fn origin_view(&self) -> UrlView {
        self.origin_url@
    }

    /// Every address handed out for fetching.
    pub closed spec fn dispatched_view(&self) -> Set<UrlView> {
        self.dispatched@
    }

    pub closed spec fn visited_view(&self) -> Set<UrlView> {
        url_set(self.visited@)
    }

    pub closed spec fn frontier_view(&self) -> Set<UrlView> {
        url_set(self.frontier@)
    }

    pub closed spec fn rounds_view(&self) -> nat {
        self.rounds as nat
    }

    pub closed spec fn depth_view(&self) -> nat {
        self.depth as nat
    }

    pub closed spec fn host_only_view(&self) -> bool {
        self.host_only
    }

    pub closed spec fn worker_count_view(&self) -> nat {
        self.worker_count as nat
    }

    /// The visited addresses are distinct, every address handed out was
    /// visited first, and no round past the depth ran.
    pub closed spec fn wf(&self) -> bool {
        &&& distinct(self.visited@)
        &&& distinct(self.frontier@)
        &&& self.dispatched@.subset_of(url_set(self.visited@))
        &&& self.rounds <= self.depth as u128 + 1
    }

    /// A crawl that has visited nothing yet.
    pub fn new(origin_url: WebUrl, worker_count: usize, depth: usize, host_only: bool) -> (r: Scraper)
        ensures
            r.wf(),
            r.origin_view() == origin_url@,
            r.worker_count_view() == worker_count,
            r.depth_view() == depth,
            r.host_only_view() == host_only,
            r.rounds_view() == 0,
            r.visited_view() == Set::<UrlView>::empty(),
            r.frontier_view() == Set::<UrlView>::empty(),
            r.dispatched_view() == Set::<UrlView>::empty(),
    {
        let r = Scraper {
            origin_url,
            worker_count,
            visited: Vec::new(),
            depth,
            host_only,
            rounds: 0,
            frontier: Vec::new(),
            dispatched: Ghost(Set::empty()),
        };
        assert(url_set(r.visited@) =~= Set::empty());
        assert(url_set(r.frontier@) =~= Set::empty());
        r
    }

    pub fn origin_url(&self) -> (r: &WebUrl)
        ensures
            r@ == self.origin_view(),
    {
        &self.origin_url
    }

    pub fn worker_count(&self) -> (r: usize)
        ensures
            r == self.worker_count_view(),
    {
        self.worker_count
    }

    pub fn depth(&self) -> (r: usize)
        ensures
            r == self.depth_view(),
    {
        self.depth
    }

    pub fn host_only(&self) -> (r: bool)
        ensures
            r == self.host_only_view(),
    {
        self.host_only
    }

    /// The number of rounds dispatched so far.
    pub fn rounds(&self) -> (r: u128)
        ensures
            r == self.rounds_view(),
    {
        self.rounds
    }

    /// The addresses visited so far, each once.
    pub fn visited(&self) -> (r: &Vec<WebUrl>)
        requires
            self.wf(),
        ensures
            url_set(r@) == self.visited_view(),
            distinct(r@),
    {
        &self.visited
    }

    /// The addresses waiting for the next round.
    pub fn frontier(&self) -> (r: &Vec<WebUrl>)
        requires
            self.wf(),
        ensures
            url_set(r@) == self.frontier_view(),
            distinct(r@),
    {
        &self.frontier
    }

    /// Marks the origin visited and hands it out for fetching, unless it was
    /// visited already.
    pub fn seed(&mut self) -> (r: Option<WebUrl>)
        requires
            old(self).wf(),
        ensures
            final(self).wf(),
            r is Some <==> !old(self).visited_view().contains(old(self).origin_view()),
            r is Some ==> r->0@ == old(self).origin_view(),
            final(self).visited_view() == old(self).visited_view().insert(old(self).origin_view()),
            final(self).dispatched_view() == if r is Some {
                old(self).dispatched_view().insert(old(self).origin_view())
            } else {
                old(self).dispatched_view()
            },
            final(self).frontier_view() == old(self).frontier_view(),
            final(self).rounds_view() == old(self).rounds_view(),
            final(self).origin_view() == old(self).origin_view(),
            final(self).depth_view() == old(self).depth_view(),
            final(self).host_only_view() == old(self).host_only_view(),
            final(self).worker_count_view() == old(self).worker_count_view(),
    {
        if contains_url(&self.visited, &self.origin_url) {
            assert(url_set(self.visited@).insert(self.origin_url@) =~= url_set(self.visited@));
            return None;
        }
        let o = self.origin_url.duplicate();
        insert_url(&mut self.visited, o);
        self.dispatched = Ghost(self.dispatched@.insert(self.origin_url@));
        Some(self.origin_url.duplicate())
    }

    /// Makes the next frontier from what a round discovered: the discovered
    /// addresses not yet visited and, with host-only, on the origin's host.
    pub fn finish_round(&mut self, discovered: &Vec<Vec<WebUrl>>)
        requires
            old(self).wf(),
        ensures
            final(self).wf(),
            final(self).frontier_view() == frontier_filter(
                union_all(discovered@),
                old(self).visited_view(),
                old(self).origin_view(),
                old(self).host_only_view(),
            ),
            final(self).visited_view() == old(self).visited_view(),
            final(self).dispatched_view() == old(self).dispatched_view(),
            final(self).rounds_view() == old(self).rounds_view(),
            final(self).origin_view() == old(self).origin_view(),
            final(self).depth_view() == old(self).depth_view(),
            final(self).host_only_view() == old(self).host_only_view(),
            final(self).worker_count_view() == old(self).worker_count_view(),
    {
        let merged = merge_batches(discovered);
        self.frontier = filter_visited(&merged, &self.visited, &self.origin_url, self.host_only);
    }

    /// The next round's batch, or none once rounds 0 to the depth have run or
    /// the frontier is empty. Each address of the batch is marked visited before
    /// it is handed out, and none was handed out before.
    pub fn next_batch(&mut self) -> (r: Option<Vec<WebUrl>>)
        requires
            old(self).wf(),
        ensures
            final(self).wf(),
            r is Some <==> old(self).rounds_view() <= old(self).depth_view()
                && old(self).frontier_view() != Set::<UrlView>::empty(),
            r is None ==> *final(self) == *old(self),
            r is Some ==> {
                let batch = url_set(r->0@);
                &&& distinct(r->0@)
                &&& batch == frontier_filter(
                    old(self).frontier_view(),
                    old(self).visited_view(),
                    old(self).origin_view(),
                    old(self).host_only_view(),
                )
                &&& batch.disjoint(old(self).dispatched_view())
                &&& final(self).visited_view() == old(self).visited_view().union(batch)
                &&& final(self).dispatched_view() == old(self).dispatched_view().union(batch)
                &&& final(self).frontier_view() == Set::<UrlView>::empty()
                &&& final(self).rounds_view() == old(self).rounds_view() + 1
                &&& final(self).origin_view() == old(self).origin_view()
                &&& final(self).depth_view() == old(self).depth_view()
                &&& final(self).host_only_view() == old(self).host_only_view()
                &&& final(self).worker_count_view() == old(self).worker_count_view()
            },
    {
        if self.rounds > self.depth as u128 || self.frontier.len() == 0 {
            proof {
                if self.frontier@.len() > 0 {
                    assert(crate::frontier::views(self.frontier@)[0] == self.frontier@[0]@);
                    assert(url_set(self.frontier@).contains(self.frontier@[0]@));
                }
            }
            if self.frontier.len() == 0 {
                assert(url_set(self.frontier@) =~= Set::empty());
            }
            return None;
        }
        assert(crate::frontier::views(self.frontier@)[0] == self.frontier@[0]@);
        assert(url_set(self.frontier@).contains(self.frontier@[0]@));
        let batch = filter_visited(&self.frontier, &self.visited, &self.origin_url, self.host_only);
        let ghost v0 = url_set(self.visited@);
        let mut visited: Vec<WebUrl> = Vec::new();
        visited.append(&mut self.visited);
        let mut i: usize = 0;
        while i < batch.len()
            invariant
                i <= batch@.len(),
                distinct(visited@),
                url_set(visited@) == v0.union(url_set(batch@.subrange(0, i as int))),
            decreases batch@.len() - i,
        {
            proof {
                let pre = batch@.subrange(0, i as int);
                assert(batch@.subrange(0, i + 1) =~= pre.push(batch@[i as int]));
                assert(crate::frontier::views(pre.push(batch@[i as int])) =~= crate::frontier::views(
                    pre,
                ).push(batch@[i as int]@));
                crate::frontier::views(pre).lemma_push_to_set_commute(batch@[i as int]@);
            }
            insert_url(&mut visited, batch[i].duplicate());
            assert(url_set(visited@) =~= v0.union(url_set(batch@.subrange(0, i + 1))));
            i = i + 1;
        }
        assert(batch@.subrange(0, batch@.len() as int) =~= batch@);
        self.visited = visited;
        self.dispatched = Ghost(self.dispatched@.union(url_set(batch@)));
        self.frontier = Vec::new();
        assert(url_set(self.frontier@) =~= Set::empty());
        self.rounds = self.rounds + 1;
        Some(batch)
    }
}

/// However a crawl proceeds, every round it runs, counted from 0, is at most
/// its depth.
pub proof fn lemma_rounds_bounded(s: &Scraper)
    requires
        s.wf(),
    ensures
        s.rounds_view() <= s.depth_view() + 1,
{
}

/// However a crawl proceeds, every address it handed out for fetching is in
/// its visited set.
pub proof fn lemma_dispatched_visited(s: &Scraper)
    requires
        s.wf(),
    ensures
        s.dispatched_view().subset_of(s.visited_view()),
{
}

} // verus!
