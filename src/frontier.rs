//! Collections of addresses without repeats, and the frontier filter.
use vstd::prelude::*;
use crate::url::{WebUrl, UrlView};

verus! {

broadcast use vstd::seq_lib::group_seq_properties;

/// The addresses that a vector holds, in order.
pub open spec fn views(v: Seq<WebUrl>) -> Seq<UrlView> {
    v.map_values(|u: WebUrl| u@)
}

/// The addresses that a vector holds, as a set.
pub open spec fn url_set(v: Seq<WebUrl>) -> Set<UrlView> {
    views(v).to_set()
}

/// No address occurs twice.
pub open spec fn distinct(v: Seq<WebUrl>) -> bool {
    views(v).no_duplicates()
}

/// Whether `u` may be crawled from a crawl rooted at `origin`.
pub open spec fn host_allowed(u: UrlView, origin: UrlView, host_only: bool) -> bool {
    !host_only || u.host == origin.host
}

/// The next frontier: what was discovered, less what was visited, and with
/// `host_only` only what lies on the origin's host.
pub open spec fn frontier_filter(
    discovered: Set<UrlView>,
    visited: Set<UrlView>,
    origin: UrlView,
    host_only: bool,
) -> Set<UrlView> {
    discovered.difference(visited).filter(|u: UrlView| host_allowed(u, origin, host_only))
}

proof fn lemma_push_views(v: Seq<WebUrl>, u: WebUrl)
    ensures
        views(v.push(u)) == views(v).push(u@),
        url_set(v.push(u)) == url_set(v).insert(u@),
        distinct(v) && !url_set(v).contains(u@) ==> distinct(v.push(u)),
{
    assert(views(v.push(u)) =~= views(v).push(u@));
    views(v).lemma_push_to_set_commute(u@);
    if distinct(v) && !url_set(v).contains(u@) {
        let s = views(v).push(u@);
        assert forall|i: int, j: int| 0 <= i < s.len() && 0 <= j < s.len() && i != j implies s[i]
            != s[j] by {
            if i == v.len() as int {
                assert(views(v).contains(s[j]));
            } else if j == v.len() as int {
                assert(views(v).contains(s[i]));
            }
        }
    }
}

/// Whether `v` holds `u`.
pub fn contains_url(v: &Vec<WebUrl>, u: &WebUrl) -> (r: bool)
    ensures
        r == url_set(v@).contains(u@),
{
    let mut i: usize = 0;
    while i < v.len()
        invariant
            i <= v@.len(),
            forall|j: int| 0 <= j < i ==> v@[j]@ != u@,
        decreases v@.len() - i,
    {
        if v[i].same_as(u) {
            assert(views(v@)[i as int] == u@);
            return true;
        }
        i = i + 1;
    }
    assert(!views(v@).contains(u@));
    false
}

/// Adds `u` unless it is already there; says whether it was added.
pub fn insert_url(v: &mut Vec<WebUrl>, u: WebUrl) -> (added: bool)
    requires
        distinct(old(v)@),
    ensures
        distinct(final(v)@),
        url_set(final(v)@) == url_set(old(v)@).insert(u@),
        added == !url_set(old(v)@).contains(u@),
        added ==> final(v)@ == old(v)@.push(u),
        !added ==> final(v)@ == old(v)@,
{
    if contains_url(v, &u) {
        assert(url_set(v@).insert(u@) =~= url_set(v@));
        false
    } else {
        proof {
            lemma_push_views(v@, u);
        }
        v.push(u);
        true
    }
}

/// The members of `found` that are not in `visited` and, with `host_only`,
/// lie on the host of `origin_url`.
pub fn filter_visited(
    found_urls: &Vec<WebUrl>,
    visited: &Vec<WebUrl>,
    origin_url: &WebUrl,
    host_only: bool,
) -> (r: Vec<WebUrl>)
    ensures
        distinct(r@),
        url_set(r@) == frontier_filter(url_set(found_urls@), url_set(visited@), origin_url@, host_only),
{
    let mut out: Vec<WebUrl> = Vec::new();
    let mut i: usize = 0;
    while i < found_urls.len()
        invariant
            i <= found_urls@.len(),
            distinct(out@),
            url_set(out@) == frontier_filter(
                url_set(found_urls@.subrange(0, i as int)),
                url_set(visited@),
                origin_url@,
                host_only,
            ),
        decreases found_urls@.len() - i,
    {
        let u = &found_urls[i];
        proof {
            assert(found_urls@.subrange(0, i + 1) =~= found_urls@.subrange(0, i as int).push(*u));
            lemma_push_views(found_urls@.subrange(0, i as int), *u);
        }
        let keep = !contains_url(visited, u) && (!host_only || crate::url::eq_host(u, origin_url));
        if keep {
            insert_url(&mut out, u.duplicate());
        }
        assert(url_set(out@) =~= frontier_filter(
            url_set(found_urls@.subrange(0, i + 1)),
            url_set(visited@),
            origin_url@,
            host_only,
        ));
        i = i + 1;
    }
    assert(found_urls@.subrange(0, found_urls@.len() as int) =~= found_urls@);
    out
}

/// Keeps only the members of `found_urls` on the host of `origin_url`.
pub fn filter_host(found_urls: &mut Vec<WebUrl>, origin_url: &WebUrl)
    requires
        distinct(old(found_urls)@),
    ensures
        distinct(final(found_urls)@),
        url_set(final(found_urls)@) == url_set(old(found_urls)@).filter(
            |u: UrlView| u.host == origin_url@.host,
        ),
{
    let empty: Vec<WebUrl> = Vec::new();
    let kept = filter_visited(found_urls, &empty, origin_url, true);
    assert(url_set(empty@) =~= Set::empty());
    assert(url_set(kept@) =~= url_set(found_urls@).filter(|u: UrlView| u.host == origin_url@.host));
    *found_urls = kept;
}

/// With host-only, the frontier filter keeps only discovered, unvisited
/// addresses on the origin's host; without it, it keeps exactly the
/// discovered addresses that were not visited.
pub proof fn lemma_frontier_filter(
    discovered: Set<UrlView>,
    visited: Set<UrlView>,
    origin: UrlView,
)
    ensures
        forall|u: UrlView| #[trigger]
            frontier_filter(discovered, visited, origin, true).contains(u) ==> u.host == origin.host
                && discovered.contains(u) && !visited.contains(u),
        frontier_filter(discovered, visited, origin, false) == discovered.difference(visited),
{
    assert(frontier_filter(discovered, visited, origin, false) =~= discovered.difference(visited));
}

} // verus!
