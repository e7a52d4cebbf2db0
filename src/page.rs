//! Fetched pages: their classification, the links they hold, and where they
//! are stored on disk.
use vstd::prelude::*;
use vstd::string::*;
use crate::url::{WebUrl, UrlView, normalized, last_index, find_last, opt_str_view};
use crate::frontier::{url_set, distinct, insert_url};
use crate::parallel::WorkerReport;
use select::predicate::Predicate;

verus! {

/// What a fetch brought back: an HTML page as text, or any other resource as
/// bytes.
#[derive(Clone, Debug, PartialEq, Eq)]
pub enum Data {
    HTML(WebUrl, String),
    OTHER(WebUrl, Vec<u8>),
}

impl Data {
    /// The address that was fetched.
    pub open spec fn url_view(&self) -> UrlView {
        match self {
            Data::HTML(u, _) => u@,
            Data::OTHER(u, _) => u@,
        }
    }

    pub fn is_html(&self) -> (r: bool)
        ensures
            r == (self is HTML),
    {
        match &self {
            Data::HTML(_, _) => true,
            _ => false,
        }
    }

    pub fn get_url(&self) -> (r: &WebUrl)
        ensures
            r@ == self.url_view(),
    {
        match &self {
            Data::HTML(url, _) => url,
            Data::OTHER(url, _) => url,
        }
    }
}

pub open spec fn starts_with(s: Seq<char>, p: Seq<char>) -> bool {
    p.len() <= s.len() && s.subrange(0, p.len() as int) == p
}

pub open spec fn ends_with(s: Seq<char>, p: Seq<char>) -> bool {
    p.len() <= s.len() && s.subrange(s.len() - p.len(), s.len() as int) == p
}

pub open spec fn has_infix(s: Seq<char>, p: Seq<char>) -> bool {
    exists|i: int| 0 <= i && i + p.len() <= s.len() && #[trigger] s.subrange(i, i + p.len()) == p
}

fn slice_is(s: &str, from: usize, to: usize, p: &str) -> (r: bool)
    requires
        from <= to <= s@.len(),
    ensures
        r == (s@.subrange(from as int, to as int) == p@),
{
    String::from_str(s.substring_char(from, to)).eq(&String::from_str(p))
}

fn starts_with_str(s: &str, p: &str) -> (r: bool)
    ensures
        r == starts_with(s@, p@),
{
    let n = s.unicode_len();
    let m = p.unicode_len();
    m <= n && slice_is(s, 0, m, p)
}

fn ends_with_str(s: &str, p: &str) -> (r: bool)
    ensures
        r == ends_with(s@, p@),
{
    let n = s.unicode_len();
    let m = p.unicode_len();
    m <= n && slice_is(s, n - m, n, p)
}

fn contains_str(s: &str, p: &str) -> (r: bool)
    ensures
        r == has_infix(s@, p@),
{
    let n = s.unicode_len();
    let m = p.unicode_len();
    if m > n {
        return false;
    }
    if m == 0 {
        assert(s@.subrange(0, 0 + p@.len() as int) =~= p@);
        return true;
    }
    let mut i: usize = 0;
    while i <= n - m
        invariant
            n == s@.len(),
            m == p@.len(),
            0 < m <= n,
            i <= n - m + 1,
            forall|j: int| 0 <= j < i ==> #[trigger] s@.subrange(j, j + m) != p@,
        decreases n - m + 1 - i,
    {
        if slice_is(s, i, i + m, p) {
            return true;
        }
        i = i + 1;
    }
    false
}

/// Whether `a` is `b`, or the capital of the lower-case ASCII letter `b`.
pub open spec fn same_letter(a: char, b: char) -> bool {
    a == b || ('A' <= a <= 'Z' && a as u32 + 32 == b as u32)
}

/// Whether `p` occurs in `s` at `i`, capitals matching their lower-case
/// letters in `p`.
pub open spec fn matches_at(s: Seq<char>, p: Seq<char>, i: int) -> bool {
    0 <= i && i + p.len() <= s.len() && forall|j: int| 0 <= j < p.len() ==> same_letter(
        #[trigger] s[i + j],
        p[j],
    )
}

/// Whether `p` occurs in `s`, ignoring the case of ASCII letters in `s`.
pub open spec fn has_infix_nocase(s: Seq<char>, p: Seq<char>) -> bool {
    exists|i: int| #[trigger] matches_at(s, p, i)
}

fn matches_at_exec(s: &str, p: &str, i: usize) -> (r: bool)
    requires
        i + p@.len() <= s@.len(),
    ensures
        r == matches_at(s@, p@, i as int),
{
    let m = p.unicode_len();
    let n = s.unicode_len();
    let mut j: usize = 0;
    while j < m
        invariant
            m == p@.len(),
            n == s@.len(),
            i + m <= s@.len(),
            j <= m,
            forall|k: int| 0 <= k < j ==> same_letter(#[trigger] s@[i + k], p@[k]),
        decreases m - j,
    {
        let a = s.get_char(i + j);
        let b = p.get_char(j);
        if !(a == b || ('A' <= a && a <= 'Z' && a as u32 + 32 == b as u32)) {
            assert(!same_letter(s@[i + j], p@[j as int]));
            return false;
        }
        j = j + 1;
    }
    true
}

fn contains_nocase(s: &str, p: &str) -> (r: bool)
    ensures
        r == has_infix_nocase(s@, p@),
{
    let n = s.unicode_len();
    let m = p.unicode_len();
    if m > n {
        assert forall|i: int| !#[trigger] matches_at(s@, p@, i) by {}
        return false;
    }
    let mut i: usize = 0;
    while i <= n - m
        invariant
            n == s@.len(),
            m == p@.len(),
            m <= n,
            i <= n - m + 1,
            forall|j: int| 0 <= j < i ==> !#[trigger] matches_at(s@, p@, j),
        decreases n - m + 1 - i,
    {
        if matches_at_exec(s, p, i) {
            return true;
        }
        if i == n - m {
            assert forall|j: int| !#[trigger] matches_at(s@, p@, j) by {}
            return false;
        }
        i = i + 1;
    }
    assert forall|j: int| !#[trigger] matches_at(s@, p@, j) by {}
    false
}

/// Whether a response is treated as HTML: its content type starts with
/// `text/html`, or the address's path ends in `/` and the content type
/// declares a UTF-8 charset, in any case.
pub open spec fn html_response(content_type: Option<Seq<char>>, url: UrlView) -> bool {
    match content_type {
        Some(t) => starts_with(t, "text/html"@) || (ends_with(url.path, "/"@) && has_infix_nocase(
            t,
            "charset=utf-8"@,
        )),
        None => false,
    }
}

/// Classifies a response by its `Content-Type` header, where it has one that
/// reads as text.
pub fn check_html(content_type: Option<&str>, url: &WebUrl) -> (r: bool)
    ensures
        r == html_response(
            match content_type {
                Some(t) => Some(t@),
                None => None,
            },
            url@,
        ),
{
    match content_type {
        Some(t) => starts_with_str(t, "text/html") || (ends_with_str(url.path.as_str(), "/")
            && contains_nocase(t, "charset=utf-8")),
        None => false,
    }
}

/// The longest page, in characters, whose links are read: its UTF-8 bytes
/// stay below 4 GiB.
pub const MAX_HTML_CHARS: usize = 1073741823;

/// Whether the links of a fetched resource can be read: any resource but a
/// page longer than `MAX_HTML_CHARS`.
pub open spec fn readable(d: Data) -> bool {
    match d {
        Data::HTML(_, body) => body@.len() <= MAX_HTML_CHARS,
        Data::OTHER(_, _) => true,
    }
}

/// The `href` and `src` attribute values of an HTML document, in document
/// order.
pub uninterp spec fn html_links(html: Seq<char>) -> Seq<Seq<char>>;

/// Relies on select's `Document::from` and `find` with an `href`-or-`src`
/// attribute predicate: every element that has one, with its `href` (else its
/// `src`) value; the outcome depends on the text alone. The parser holds the
/// text in a buffer with a 32-bit length, hence the bound.
#[verifier::external_body]
fn extract_links(html: &str) -> (r: Vec<String>)
    requires
        html@.len() <= MAX_HTML_CHARS,
    ensures
        r@.map_values(|s: String| s@) == html_links(html@),
{
    select::document::Document::from(html)
        .find(select::predicate::Attr("href", ()).or(select::predicate::Attr("src", ())))
        .filter_map(|n| n.attr("href").or(n.attr("src")))
        .map(|s| s.to_string())
        .collect()
}

/// The absolute addresses that the links `raws`, found on the page at `base`,
/// name.
pub open spec fn link_targets(raws: Seq<Seq<char>>, base: UrlView) -> Set<UrlView> {
    Set::new(|x: UrlView| exists|i: int| 0 <= i < raws.len() && #[trigger] normalized(raws[i], base) == Some(x))
}

/// The addresses that a fetched resource links to: none unless it is HTML.
pub open spec fn page_links(d: Data) -> Set<UrlView> {
    match d {
        Data::HTML(u, body) => link_targets(html_links(body@), u@),
        Data::OTHER(_, _) => Set::empty(),
    }
}

/// The distinct absolute addresses that an HTML page links to.
pub fn get_links_from_html(html: &Data) -> (r: Vec<WebUrl>)
    requires
        readable(*html),
    ensures
        distinct(r@),
        url_set(r@) == page_links(*html),
{
    let mut out: Vec<WebUrl> = Vec::new();
    match html {
        Data::HTML(base, body) => {
            let raws = extract_links(body.as_str());
            let ghost rv = raws@.map_values(|s: String| s@);
            let mut i: usize = 0;
            while i < raws.len()
                invariant
                    i <= raws@.len(),
                    rv == html_links(body@),
                    rv.len() == raws@.len(),
                    forall|j: int| 0 <= j < rv.len() ==> rv[j] == #[trigger] raws@[j]@,
                    distinct(out@),
                    url_set(out@) == link_targets(rv.subrange(0, i as int), base@),
                decreases raws@.len() - i,
            {
                let found = crate::url::normalize_url(raws[i].as_str(), base);
                match found {
                    Some(u) => {
                        insert_url(&mut out, u);
                    },
                    None => {},
                }
                assert(url_set(out@) =~= link_targets(rv.subrange(0, i + 1), base@)) by {
                    assert forall|x: UrlView| #[trigger] url_set(out@).contains(x) implies link_targets(
                        rv.subrange(0, i + 1),
                        base@,
                    ).contains(x) by {
                        if !link_targets(rv.subrange(0, i as int), base@).contains(x) {
                            assert(rv.subrange(0, i + 1)[i as int] == rv[i as int]);
                        } else {
                            let k = choose|k: int|
                                0 <= k < i && #[trigger] normalized(rv.subrange(0, i as int)[k], base@) == Some(
                                    x,
                                );
                            assert(rv.subrange(0, i + 1)[k] == rv.subrange(0, i as int)[k]);
                        }
                    }
                    assert forall|x: UrlView| #[trigger] link_targets(
                        rv.subrange(0, i + 1),
                        base@,
                    ).contains(x) implies url_set(out@).contains(x) by {
                        let k = choose|k: int|
                            0 <= k < i + 1 && #[trigger] normalized(rv.subrange(0, i + 1)[k], base@) == Some(x);
                        if k < i {
                            assert(rv.subrange(0, i as int)[k] == rv.subrange(0, i + 1)[k]);
                        }
                    }
                }
                i = i + 1;
            }
            assert(rv.subrange(0, rv.len() as int) =~= rv);
        },
        Data::OTHER(_, _) => {
            assert(url_set(out@) =~= Set::empty());
        },
    }
    out
}

/// The characters that a path keeps on disk: those that some file systems
/// refuse become `_`.
pub open spec fn path_char(c: char) -> char {
    if c == '\\' || c == ':' || c == '*' || c == '?' || c == '"' || c == '<' || c == '>' || c
        == '|' {
        '_'
    } else {
        c
    }
}

pub open spec fn sanitized_path(p: Seq<char>) -> Seq<char> {
    p.map_values(|c: char| path_char(c))
}

/// Replaces each character of `path` that some file systems refuse by `_`.
pub fn sanitize_path(path: &str) -> (r: String)
    ensures
        r@ == sanitized_path(path@),
{
    let n = path.unicode_len();
    let mut out = String::new();
    let mut i: usize = 0;
    while i < n
        invariant
            n == path@.len(),
            i <= n,
            out@ == sanitized_path(path@.subrange(0, i as int)),
        decreases n - i,
    {
        let c = path.get_char(i);
        if c == '\\' || c == ':' || c == '*' || c == '?' || c == '"' || c == '<' || c == '>' || c
            == '|' {
            out.append("_");
            proof {
                reveal_strlit("_");
            }
        } else {
            out.append(path.substring_char(i, i + 1));
        }
        assert(sanitized_path(path@.subrange(0, i + 1)) =~= sanitized_path(
            path@.subrange(0, i as int),
        ).push(path_char(c)));
        i = i + 1;
    }
    assert(path@.subrange(0, n as int) =~= path@);
    out
}

/// What the file-name sanitiser makes of a query string.
pub uninterp spec fn sanitized_name(s: Seq<char>) -> Seq<char>;

/// Relies on `sanitize_filename::sanitize_with_options` with Windows rules,
/// `_` as replacement and no truncation: the outcome depends on the text alone.
#[verifier::external_body]
fn sanitize_query(q: &str) -> (r: String)
    ensures
        r@ == sanitized_name(q@),
{
    sanitize_filename::sanitize_with_options(
        q,
        sanitize_filename::Options { truncate: false, replacement: "_", windows: true },
    )
}

/// What a query adds to a file name.
pub open spec fn query_suffix(q: Option<Seq<char>>) -> Seq<char> {
    match q {
        Some(q) => "_Q_"@ + sanitized_name(q),
        None => Seq::empty(),
    }
}

/// The file name of a page, without its `.html`: a directory or a name
/// without `.html` gets an `index` page under it.
pub open spec fn html_stem(p: Seq<char>) -> Seq<char> {
    if p.len() > 0 && p.last() == '/' {
        p + "index"@
    } else if !ends_with(p, ".html"@) {
        p + "/index"@
    } else {
        p.subrange(0, p.len() - ".html"@.len())
    }
}

/// Where the extension of the last segment of `p` starts, or its length.
pub open spec fn ext_start(p: Seq<char>) -> int {
    let s = last_index(p, p.len() as int, '/') + 1;
    let d = last_index(p.subrange(s, p.len() as int), p.len() - s, '.');
    if d < 0 {
        p.len() as int
    } else {
        s + d
    }
}

/// Where a fetched resource is stored: under `static/` and its host; a page
/// as `.html`, any other resource with its own extension; a query goes into
/// the file name.
pub open spec fn artifact_path(url: UrlView, html: bool) -> Option<Seq<char>> {
    match url.host {
        Some(h) => Some(
            if html {
                "static/"@ + h + html_stem(sanitized_path(url.path)) + query_suffix(url.query)
                    + ".html"@
            } else {
                "static/"@ + h + url.path.subrange(0, ext_start(url.path)) + query_suffix(url.query)
                    + url.path.subrange(ext_start(url.path), url.path.len() as int)
            },
        ),
        None => None,
    }
}

fn query_part(q: &Option<String>) -> (r: String)
    ensures
        r@ == query_suffix(opt_str_view(*q)),
{
    match q {
        Some(q) => {
            let mut out = String::from_str("_Q_");
            out.append(sanitize_query(q.as_str()).as_str());
            out
        },
        None => String::new(),
    }
}

fn html_stem_of(p: &str) -> (r: String)
    ensures
        r@ == html_stem(p@),
{
    let n = p.unicode_len();
    if n > 0 && p.get_char(n - 1) == '/' {
        let mut out = String::from_str(p);
        out.append("index");
        out
    } else if !ends_with_str(p, ".html") {
        let mut out = String::from_str(p);
        out.append("/index");
        out
    } else {
        let m = ".html".unicode_len();
        String::from_str(p.substring_char(0, n - m))
    }
}

fn ext_start_of(p: &str) -> (r: usize)
    ensures
        r == ext_start(p@),
        r <= p@.len(),
{
    let n = p.unicode_len();
    let s = find_last(p, n, '/');
    let file = p.substring_char(s, n);
    let d = find_last(file, n - s, '.');
    if d == 0 {
        n
    } else {
        s + d - 1
    }
}

/// Where a fetched resource is written; none for an address without a host.
pub fn link_to_path(data: &Data) -> (r: Option<String>)
    ensures
        opt_str_view(r) == artifact_path(data.url_view(), data is HTML),
{
    let url = data.get_url();
    match &url.host {
        None => None,
        Some(host) => {
            let mut out = String::from_str("static/");
            out.append(host.as_str());
            if data.is_html() {
                let stem = html_stem_of(sanitize_path(url.path.as_str()).as_str());
                out.append(stem.as_str());
                out.append(query_part(&url.query).as_str());
                out.append(".html");
            } else {
                let p = url.path.as_str();
                let e = ext_start_of(p);
                out.append(p.substring_char(0, e));
                out.append(query_part(&url.query).as_str());
                out.append(p.substring_char(e, p.unicode_len()));
            }
            Some(out)
        },
    }
}

/// The directory part of a path: what comes before its last `/`.
pub open spec fn parent_of(p: Seq<char>) -> Seq<char> {
    let k = last_index(p, p.len() as int, '/');
    if k < 0 {
        Seq::empty()
    } else {
        p.subrange(0, k)
    }
}

/// The directory that a file path lies in.
pub fn parent_dir(path: &str) -> (r: String)
    ensures
        r@ == parent_of(path@),
{
    let k = find_last(path, path.unicode_len(), '/');
    if k == 0 {
        String::new()
    } else {
        String::from_str(path.substring_char(0, k - 1))
    }
}

/// Whether a page is too long for its links to be read.
pub fn too_long(data: &Data) -> (r: bool)
    ensures
        r == !readable(*data),
{
    match data {
        Data::HTML(_, body) => body.as_str().unicode_len() > MAX_HTML_CHARS,
        Data::OTHER(_, _) => false,
    }
}

/// What a worker reports on a fetched resource: the links of a page, or a
/// plain completion for any other resource.
pub fn report_of(data: &Data) -> (r: WorkerReport)
    requires
        readable(*data),
    ensures
        data is HTML ==> r is Discovered && distinct(r->Discovered_0@) && url_set(
            r->Discovered_0@,
        ) == page_links(*data),
        data is OTHER ==> r is Done,
{
    if data.is_html() {
        WorkerReport::Discovered(get_links_from_html(data))
    } else {
        WorkerReport::Done
    }
}

} // verus!
