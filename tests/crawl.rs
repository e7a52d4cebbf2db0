use crawler::parallel::{FetchPool, WorkerReport, WorkerState};
use crawler::page::{report_of, too_long, Data};
use crawler::scraper::merge_batches;
use crawler::url::WebUrl;
use crawler::{Error, ScraperBuilder};

fn url(s: &str) -> WebUrl {
    WebUrl::parse(s).expect("test address parses")
}

fn hrefs(v: &[WebUrl]) -> Vec<String> {
    let mut out: Vec<String> = v.iter().map(|u| u.href.clone()).collect();
    out.sort();
    out
}

fn fail(u: &str) -> WorkerReport {
    WorkerReport::Failed(Error::Fetch { url: u.to_string(), e: "status 404".to_string() })
}

#[test]
fn pool_settles_whatever_the_reports() {
    let mut pool = FetchPool::new(4);
    for w in 0..3 {
        pool.assign(w);
    }
    assert_eq!(pool.work(), 3);
    assert_eq!(pool.busy_workers(), vec![0, 1, 2]);
    assert!(pool.record(1, WorkerReport::Discovered(vec![url("https://a.test/x")])));
    assert!(pool.record(0, WorkerReport::Done));
    assert!(pool.record(2, fail("https://a.test/z")));
    assert_eq!(pool.work(), 0);
    assert!(pool.busy_workers().is_empty());
    let results = pool.take_results();
    assert_eq!(results.len(), 1);
    assert_eq!(pool.take_errors().len(), 1);
    assert!(pool.take_results().is_empty());
}

#[test]
fn pool_ignores_started_and_late_failures() {
    let mut pool = FetchPool::new(2);
    assert!(pool.record(0, WorkerReport::Started));
    pool.assign(0);
    assert!(!pool.record(0, WorkerReport::Started));
    assert_eq!(pool.work(), 1);
    assert_eq!(pool.state(0), WorkerState::Fetching);
    assert!(pool.record(0, WorkerReport::Done));
    assert_eq!(pool.work(), 0);
    assert!(pool.record(0, fail("https://a.test/")));
    assert_eq!(pool.work(), 0);
    assert_eq!(pool.take_errors().len(), 1);
}

#[test]
fn pool_close_marks_all_exiting() {
    let mut pool = FetchPool::new(3);
    pool.close();
    assert_eq!(pool.t_count(), 3);
    for w in 0..3 {
        assert_eq!(pool.state(w), WorkerState::Exiting);
    }
}

#[test]
fn end_to_end_host_only_round() {
    let mut s = ScraperBuilder::new("https://a.test/").depth(1).host_only(true).workers(2).build().unwrap();
    let seed = s.seed().unwrap();
    assert_eq!(seed.href, "https://a.test/");
    assert!(s.seed().is_none());
    s.finish_round(&vec![vec![url("https://a.test/x"), url("https://b.test/y")]]);
    assert_eq!(hrefs(s.frontier()), vec!["https://a.test/x".to_string()]);
    let batch = s.next_batch().unwrap();
    assert_eq!(hrefs(&batch), vec!["https://a.test/x".to_string()]);
    assert_eq!(hrefs(s.visited()), vec!["https://a.test/".to_string(), "https://a.test/x".to_string()]);
    assert_eq!(s.rounds(), 1);
    s.finish_round(&vec![Vec::new()]);
    assert!(s.next_batch().is_none());
    assert_eq!(hrefs(s.visited()), vec!["https://a.test/".to_string(), "https://a.test/x".to_string()]);
}

#[test]
fn rounds_run_up_to_the_depth() {
    let mut s = ScraperBuilder::new("https://a.test/").depth(1).build().unwrap();
    s.seed().unwrap();
    s.finish_round(&vec![vec![url("https://a.test/1")]]);
    assert!(s.next_batch().is_some());
    s.finish_round(&vec![vec![url("https://a.test/2")]]);
    assert!(s.next_batch().is_some());
    s.finish_round(&vec![vec![url("https://a.test/3")]]);
    assert!(s.next_batch().is_none());
    assert_eq!(s.rounds(), 2);
}

#[test]
fn crawl_stops_on_empty_frontier() {
    let mut s = ScraperBuilder::new("https://a.test/").depth(5).build().unwrap();
    s.seed().unwrap();
    s.finish_round(&vec![vec![url("https://a.test/")]]);
    assert!(s.frontier().is_empty());
    assert!(s.next_batch().is_none());
    assert_eq!(s.rounds(), 0);
}

#[test]
fn depth_zero_runs_one_round() {
    let mut s = ScraperBuilder::new("https://a.test/").depth(0).build().unwrap();
    s.seed().unwrap();
    s.finish_round(&vec![vec![url("https://a.test/x")]]);
    assert!(s.next_batch().is_some());
    s.finish_round(&vec![vec![url("https://a.test/y")]]);
    assert!(s.next_batch().is_none());
}

#[test]
fn reports_of_fetched_resources() {
    let page = Data::HTML(url("https://a.test/"), "<a href=\"/x\">x</a>".to_string());
    match report_of(&page) {
        WorkerReport::Discovered(found) => assert_eq!(hrefs(&found), vec!["https://a.test/x".to_string()]),
        _ => panic!("expected a discovery"),
    }
    let other = Data::OTHER(url("https://a.test/a.png"), vec![0]);
    assert!(matches!(report_of(&other), WorkerReport::Done));
    assert!(!too_long(&page));
}

#[test]
fn crawl_without_host_only_follows_other_hosts() {
    let mut s = ScraperBuilder::new("https://a.test/").build().unwrap();
    assert!(!s.host_only());
    s.seed().unwrap();
    s.finish_round(&vec![vec![url("https://a.test/x")], vec![url("https://b.test/y"), url("https://a.test/x")]]);
    let batch = s.next_batch().unwrap();
    assert_eq!(hrefs(&batch), vec!["https://a.test/x".to_string(), "https://b.test/y".to_string()]);
    assert_eq!(s.visited().len(), 3);
}

#[test]
fn merge_removes_repeats() {
    let m = merge_batches(&vec![vec![url("https://a.test/1")], vec![url("https://a.test/1"), url("https://a.test/2")]]);
    assert_eq!(hrefs(&m), vec!["https://a.test/1".to_string(), "https://a.test/2".to_string()]);
}

#[test]
fn builder_settings() {
    let s = ScraperBuilder::new("https://a.test/").threads(8).depth(3).host_only(true).build().unwrap();
    assert_eq!(s.worker_count(), 8);
    assert_eq!(s.depth(), 3);
    assert!(s.host_only());
    assert_eq!(s.origin_url().href, "https://a.test/");
    let d = ScraperBuilder::new("https://a.test/").build().unwrap();
    assert_eq!(d.depth(), usize::MAX);
    assert!(d.worker_count() >= 1);
}

#[test]
fn builder_rejects_bad_origin() {
    match ScraperBuilder::new("not a url").build() {
        Err(Error::Build { url, .. }) => assert_eq!(url, "not a url"),
        _ => panic!("expected a build error"),
    }
}

#[test]
fn lib_maintest() {
    let origin_url = "https://rolisz.ro/2020/03/01/web-crawler-in-rust/use";
    let threads = 8;
    let depth = 1;
    let scrpr = ScraperBuilder::new(origin_url).threads(threads).depth(depth).build();
    match scrpr {
        Err(e) => println!("Build Error: {:#?}", e),
        Ok(mut scrpr) => {
            assert_eq!(scrpr.seed().unwrap().href, origin_url);
        }
    }
}

#[test]
fn maintest() {
    let origin_url = "https://rolisz.ro/";
    let workers = 8;
    let depth = 2;
    let scrpr = ScraperBuilder::new(origin_url).workers(workers).depth(depth).build();
    match scrpr {
        Err(e) => println!("{:?}", e),
        Ok(mut scrpr) => {
            assert_eq!(scrpr.seed().unwrap().href, origin_url);
            assert_eq!(scrpr.depth(), 2);
        }
    }
}
