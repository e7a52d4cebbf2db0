use crawler::frontier::{filter_host, filter_visited};
use crawler::page::{check_html, get_links_from_html, link_to_path, parent_dir, sanitize_path, Data};
use crawler::url::{candidate_of, normalize_url, WebUrl};

fn url(s: &str) -> WebUrl {
    WebUrl::parse(s).expect("test address parses")
}

fn hrefs(v: &[WebUrl]) -> Vec<String> {
    let mut out: Vec<String> = v.iter().map(|u| u.href.clone()).collect();
    out.sort();
    out
}

#[test]
fn parse_reads_parts() {
    let u = url("https://a.com/b/c.html?x=1#top");
    assert_eq!(u.scheme, "https");
    assert_eq!(u.host.as_deref(), Some("a.com"));
    assert_eq!(u.path, "/b/c.html");
    assert_eq!(u.query.as_deref(), Some("x=1"));
    assert!(WebUrl::parse("d.html").is_none());
}

#[test]
fn normalize_keeps_absolute_urls() {
    let base = url("https://a.com/");
    let r = normalize_url("http://other.org/x?y=2", &base).unwrap();
    assert_eq!(r, url("http://other.org/x?y=2"));
}

#[test]
fn normalize_drops_other_schemes() {
    let base = url("https://a.com/");
    assert!(normalize_url("mailto:me@a.com", &base).is_none());
    assert!(normalize_url("javascript:void(0)", &base).is_none());
}

#[test]
fn normalize_drops_fragments() {
    let base = url("https://a.com/b");
    assert!(normalize_url("#frag", &base).is_none());
}

#[test]
fn normalize_scheme_relative() {
    let base = url("https://a.com/");
    assert_eq!(normalize_url("//ex.com/x", &base).unwrap().href, "https://ex.com/x");
}

#[test]
fn normalize_absolute_path() {
    let base = url("https://a.com/b/c");
    assert_eq!(normalize_url("/p", &base).unwrap().href, "https://a.com/p");
}

#[test]
fn normalize_relative_path() {
    let base = url("https://a.com/b/c.html");
    assert_eq!(normalize_url("d.html", &base).unwrap().href, "https://a.com/b/d.html");
    let dir = url("https://a.com/b/");
    assert_eq!(normalize_url("e/f", &dir).unwrap().href, "https://a.com/b/e/f");
}

#[test]
fn normalize_query_only() {
    let dir = url("https://a.com/");
    assert_eq!(normalize_url("?q=1", &dir).unwrap().href, "https://a.com/index.html?q=1");
    let page = url("https://a.com/p?old=1");
    assert_eq!(normalize_url("?q=1", &page).unwrap().href, "https://a.com/p?q=1");
}

#[test]
fn filter_with_host_only() {
    let origin = url("https://a.test/");
    let found = vec![url("https://a.test/x"), url("https://b.test/y"), url("https://a.test/")];
    let visited = vec![url("https://a.test/")];
    let r = filter_visited(&found, &visited, &origin, true);
    assert_eq!(hrefs(&r), vec!["https://a.test/x".to_string()]);
}

#[test]
fn filter_without_host_only() {
    let origin = url("https://a.test/");
    let found = vec![url("https://a.test/x"), url("https://b.test/y"), url("https://a.test/"), url("https://a.test/x")];
    let visited = vec![url("https://a.test/")];
    let r = filter_visited(&found, &visited, &origin, false);
    assert_eq!(hrefs(&r), vec!["https://a.test/x".to_string(), "https://b.test/y".to_string()]);
}

#[test]
fn filter_host_keeps_origin_host() {
    let origin = url("https://a.test/");
    let mut found = vec![url("https://a.test/x"), url("https://b.test/y")];
    filter_host(&mut found, &origin);
    assert_eq!(hrefs(&found), vec!["https://a.test/x".to_string()]);
}

#[test]
fn html_classification() {
    let dir = url("https://a.test/");
    let file = url("https://a.test/f");
    assert!(check_html(Some("text/html; charset=utf-8"), &file));
    assert!(check_html(Some("application/xhtml; charset=UTF-8"), &dir));
    assert!(!check_html(Some("application/xhtml; charset=UTF-8"), &file));
    assert!(!check_html(Some("image/png"), &dir));
    assert!(!check_html(None, &dir));
}

#[test]
fn html_classification_reads_the_path() {
    let dir_with_query = url("https://a.com/d/?q");
    assert!(check_html(Some("application/xhtml; charset=UTF-8"), &dir_with_query));
    assert!(check_html(Some("application/xhtml; charset=utf-8"), &dir_with_query));
    let file_with_slash_query = url("https://a.com/f?next=/");
    assert!(!check_html(Some("application/xhtml; charset=UTF-8"), &file_with_slash_query));
    assert!(!check_html(Some("application/xhtml; charset=latin-1"), &dir_with_query));
}

#[test]
fn candidates_before_parsing() {
    let base = url("https://a.com/b/c.html?x=1");
    assert_eq!(candidate_of("#top", &base), None);
    assert_eq!(candidate_of("?q", &base).as_deref(), Some("https://a.com/b/c.html?q"));
    assert_eq!(candidate_of("//e.org/", &base).as_deref(), Some("https://e.org/"));
    assert_eq!(candidate_of("/p", &base).as_deref(), Some("https://a.com/p"));
    assert_eq!(candidate_of("d", &base).as_deref(), Some("https://a.com/b/d"));
    let dir = url("https://a.com/b/");
    assert_eq!(candidate_of("?q", &dir).as_deref(), Some("https://a.com/b/index.html?q"));
}

#[test]
fn links_of_a_page() {
    let base = url("https://a.test/d/");
    let body = "<html><body><a href=\"/x\">x</a><img src=\"y.png\"><a href=\"#top\">t</a>\
                <a href=\"mailto:q@a.test\">m</a><a href=\"/x\">again</a></body></html>";
    let page = Data::HTML(base, body.to_string());
    let links = get_links_from_html(&page);
    assert_eq!(hrefs(&links), vec!["https://a.test/d/y.png".to_string(), "https://a.test/x".to_string()]);
}

#[test]
fn no_links_outside_html() {
    let other = Data::OTHER(url("https://a.test/a.png"), vec![1, 2, 3]);
    assert!(get_links_from_html(&other).is_empty());
    assert!(!other.is_html());
    assert_eq!(other.get_url().href, "https://a.test/a.png");
}

#[test]
fn sanitizing_paths() {
    assert_eq!(sanitize_path("/a:b*c?d\"e<f>g|h\\i"), "/a_b_c_d_e_f_g_h_i");
    assert_eq!(sanitize_path("/plain/path"), "/plain/path");
}

#[test]
fn page_paths() {
    let p = |s: &str| link_to_path(&Data::HTML(url(s), String::new())).unwrap();
    assert_eq!(p("https://a.test/"), "static/a.test/index.html");
    assert_eq!(p("https://a.test/b"), "static/a.test/b/index.html");
    assert_eq!(p("https://a.test/b/c.html"), "static/a.test/b/c.html");
    assert_eq!(p("https://a.test/p?x=1"), "static/a.test/p/index_Q_x=1.html");
}

#[test]
fn query_is_sanitized_in_paths() {
    let p = link_to_path(&Data::HTML(url("https://a.test/p?a/b:c"), String::new())).unwrap();
    assert_eq!(p, "static/a.test/p/index_Q_a_b_c.html");
}

#[test]
fn resource_paths() {
    let p = |s: &str| link_to_path(&Data::OTHER(url(s), Vec::new())).unwrap();
    assert_eq!(p("https://a.test/img/logo.png"), "static/a.test/img/logo.png");
    assert_eq!(p("https://a.test/img/logo.png?v=2"), "static/a.test/img/logo_Q_v=2.png");
    assert_eq!(p("https://a.test/feed"), "static/a.test/feed");
}

#[test]
fn parent_directories() {
    assert_eq!(parent_dir("static/a.test/b/index.html"), "static/a.test/b");
    assert_eq!(parent_dir("file"), "");
}
