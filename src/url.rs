//! Web addresses held as plain strings, and the link normaliser.
use vstd::prelude::*;
use vstd::string::*;

verus! {

/// A parsed absolute web address: its serialisation and the parts that the
/// crawler reads.
#[derive(Clone, Debug, PartialEq, Eq, Hash)]
pub struct WebUrl {
    pub href: String,
    pub scheme: String,
    pub host: Option<String>,
    pub path: String,
    pub query: Option<String>,
}

/// What a `WebUrl` stands for.
pub ghost struct UrlView {
    pub href: Seq<char>,
    pub scheme: Seq<char>,
    pub host: Option<Seq<char>>,
    pub path: Seq<char>,
    pub query: Option<Seq<char>>,
}

pub open spec fn opt_str_view(o: Option<String>) -> Option<Seq<char>> {
    match o {
        Some(s) => Some(s@),
        None => None,
    }
}

impl View for WebUrl {
    type V = UrlView;

    open spec fn view(&self) -> UrlView {
        UrlView {
            href: self.href@,
            scheme: self.scheme@,
            host: opt_str_view(self.host),
            path: self.path@,
            query: opt_str_view(self.query),
        }
    }
}

pub open spec fn opt_url_view(o: Option<WebUrl>) -> Option<UrlView> {
    match o {
        Some(u) => Some(u@),
        None => None,
    }
}

/// The address that the URL parser makes of a string, if it accepts it as an
/// absolute URL.
pub uninterp spec fn parsed_url(s: Seq<char>) -> Option<UrlView>;

/// Relies on `url::Url::parse` (re-exported by reqwest) and on its accessors
/// `as_str`, `scheme`, `host_str`, `path` and `query`: the outcome depends on
/// the input string alone.
#[verifier::external_body]
pub(crate) fn parse_url(s: &str) -> (r: Option<WebUrl>)
    ensures
        opt_url_view(r) == parsed_url(s@),
{
    reqwest::Url::parse(s).ok().map(|u| WebUrl {
        href: u.as_str().to_string(),
        scheme: u.scheme().to_string(),
        host: u.host_str().map(|h| h.to_string()),
        path: u.path().to_string(),
        query: u.query().map(|q| q.to_string()),
    })
}

fn clone_opt_string(o: &Option<String>) -> (r: Option<String>)
    ensures
        opt_str_view(r) == opt_str_view(*o),
{
    match o {
        Some(s) => Some(s.clone()),
        None => None,
    }
}

fn eq_opt_string(a: &Option<String>, b: &Option<String>) -> (r: bool)
    ensures
        r == (opt_str_view(*a) == opt_str_view(*b)),
{
    match a {
        Some(x) => match b {
            Some(y) => x.eq(y),
            None => false,
        },
        None => b.is_none(),
    }
}

impl WebUrl {
    /// A copy with the same parts.
    pub fn duplicate(&self) -> (r: WebUrl)
        ensures
            r@ == self@,
    {
        WebUrl {
            href: self.href.clone(),
            scheme: self.scheme.clone(),
            host: clone_opt_string(&self.host),
            path: self.path.clone(),
            query: clone_opt_string(&self.query),
        }
    }

    /// Structural equality of two addresses.
    pub fn same_as(&self, other: &WebUrl) -> (r: bool)
        ensures
            r == (self@ == other@),
    {
        self.href == other.href && self.scheme == other.scheme && eq_opt_string(&self.host, &other.host)
            && self.path == other.path && eq_opt_string(&self.query, &other.query)
    }

    /// Parses an absolute address.
    pub fn parse(s: &str) -> (r: Option<WebUrl>)
        ensures
            opt_url_view(r) == parsed_url(s@),
    {
        parse_url(s)
    }
}

pub open spec fn is_web_scheme(s: Seq<char>) -> bool {
    s == "http"@ || s == "https"@
}

pub open spec fn is_stop(c: char) -> bool {
    c == '?' || c == '#'
}

/// Position of the first `?` or `#` at or after `i`, or the length.
pub open spec fn stop_index(s: Seq<char>, i: int) -> int
    decreases s.len() - i,
{
    if i < 0 || i >= s.len() {
        s.len() as int
    } else if is_stop(s[i]) {
        i
    } else {
        stop_index(s, i + 1)
    }
}

/// Position of the last `c` before `i`, or -1.
pub open spec fn last_index(s: Seq<char>, i: int, c: char) -> int
    decreases i,
{
    if i <= 0 {
        -1
    } else if s[i - 1] == c {
        i - 1
    } else {
        last_index(s, i - 1, c)
    }
}

/// The serialised address without its query and fragment.
pub open spec fn path_form(b: UrlView) -> Seq<char> {
    b.href.subrange(0, stop_index(b.href, 0))
}

/// The address's directory: its path form up to and including the last `/`.
pub open spec fn dir_form(b: UrlView) -> Seq<char> {
    let p = path_form(b);
    p.subrange(0, last_index(p, p.len() as int, '/') + 1)
}

/// What a query-only reference is appended to.
pub open spec fn query_base(b: UrlView) -> Seq<char> {
    let p = path_form(b);
    if p.len() > 0 && p.last() == '/' {
        p + "index.html"@
    } else {
        p
    }
}

/// The string that a reference which is not itself an absolute URL is turned
/// into before it is parsed; none for a fragment-only reference.
pub open spec fn candidate(raw: Seq<char>, b: UrlView) -> Option<Seq<char>> {
    if raw.len() > 0 && raw[0] == '#' {
        None
    } else if raw.len() > 0 && raw[0] == '?' {
        Some(query_base(b) + raw)
    } else if raw.len() > 1 && raw[0] == '/' && raw[1] == '/' {
        Some(b.scheme + ":"@ + raw)
    } else if raw.len() > 0 && raw[0] == '/' {
        match b.host {
            Some(h) => Some(b.scheme + "://"@ + h + raw),
            None => None,
        }
    } else {
        Some(dir_form(b) + raw)
    }
}

/// The absolute web address that a link `raw` found on the page at `b` names.
pub open spec fn normalized(raw: Seq<char>, b: UrlView) -> Option<UrlView> {
    match parsed_url(raw) {
        Some(u) => if is_web_scheme(u.scheme) {
            Some(u)
        } else {
            None
        },
        None => match candidate(raw, b) {
            Some(c) => parsed_url(c),
            None => None,
        },
    }
}

fn web_scheme(s: &String) -> (r: bool)
    ensures
        r == is_web_scheme(s@),
{
    s.eq(&String::from_str("http")) || s.eq(&String::from_str("https"))
}

fn find_stop(s: &str) -> (r: usize)
    ensures
        r == stop_index(s@, 0),
        r <= s@.len(),
{
    let n = s.unicode_len();
    let mut i: usize = 0;
    while i < n
        invariant
            n == s@.len(),
            i <= n,
            stop_index(s@, 0) == stop_index(s@, i as int),
        decreases n - i,
    {
        let c = s.get_char(i);
        if c == '?' || c == '#' {
            return i;
        }
        i = i + 1;
    }
    i
}

/// One past the last `c` before `end`, or 0.
pub(crate) fn find_last(s: &str, end: usize, c: char) -> (r: usize)
    requires
        end <= s@.len(),
    ensures
        r == last_index(s@, end as int, c) + 1,
        r <= end,
{
    let mut i: usize = end;
    while i > 0
        invariant
            end <= s@.len(),
            i <= end,
            last_index(s@, end as int, c) == last_index(s@, i as int, c),
        decreases i,
    {
        if s.get_char(i - 1) == c {
            return i;
        }
        i = i - 1;
    }
    0
}

/// The string that a link which is not itself an absolute URL is turned
/// into before it is parsed; none for a fragment-only link.
pub fn candidate_of(raw: &str, base: &WebUrl) -> (r: Option<String>)
    ensures
        opt_str_view(r) == candidate(raw@, base@),
{
    let n = raw.unicode_len();
    let first = if n > 0 { raw.get_char(0) } else { ' ' };
    if n > 0 && first == '#' {
        None
    } else if n > 0 && first == '?' {
        let href = base.href.as_str();
        let stop = find_stop(href);
        let p = href.substring_char(0, stop);
        let mut out = String::from_str(p);
        if stop > 0 && p.get_char(stop - 1) == '/' {
            out.append("index.html");
        }
        out.append(raw);
        Some(out)
    } else if n > 1 && first == '/' && raw.get_char(1) == '/' {
        let mut out = base.scheme.clone();
        out.append(":");
        out.append(raw);
        Some(out)
    } else if n > 0 && first == '/' {
        match &base.host {
            Some(h) => {
                let mut out = base.scheme.clone();
                out.append("://");
                out.append(h.as_str());
                out.append(raw);
                Some(out)
            },
            None => None,
        }
    } else {
        let href = base.href.as_str();
        let stop = find_stop(href);
        let p = href.substring_char(0, stop);
        let d = find_last(p, stop, '/');
        let mut out = String::from_str(p.substring_char(0, d));
        out.append(raw);
        Some(out)
    }
}

/// Resolves a link found on the page at `base` into an absolute web address,
/// or none where the link is fragment-only, not http(s), or does not parse.
pub fn normalize_url(raw: &str, base: &WebUrl) -> (r: Option<WebUrl>)
    ensures
        opt_url_view(r) == normalized(raw@, base@),
{
    match parse_url(raw) {
        Some(u) => if web_scheme(&u.scheme) {
            Some(u)
        } else {
            None
        },
        None => match candidate_of(raw, base) {
            Some(c) => parse_url(c.as_str()),
            None => None,
        },
    }
}

/// Whether two addresses have the same host.
pub fn eq_host(a: &WebUrl, b: &WebUrl) -> (r: bool)
    ensures
        r == (a@.host == b@.host),
{
    eq_opt_string(&a.host, &b.host)
}

/// A link that is itself an absolute http or https address comes back
/// unchanged, whatever page it was found on.
pub proof fn lemma_absolute_unchanged(raw: Seq<char>, base: UrlView)
    requires
        parsed_url(raw) is Some,
        is_web_scheme(parsed_url(raw)->0.scheme),
    ensures
        normalized(raw, base) == parsed_url(raw),
{
}

/// A link to a fragment of the same page, which the parser does not take as
/// an absolute URL, gives nothing.
pub proof fn lemma_fragment_dropped(raw: Seq<char>, base: UrlView)
    requires
        raw.len() > 0,
        raw[0] == '#',
        parsed_url(raw) is None,
    ensures
        normalized(raw, base) is None,
{
}

} // verus!
