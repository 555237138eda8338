use data_scraper::engine::{
    assemble_job_result, enabled_jobs, failure_result, find_job, html_page_records,
    is_json_content_type, jobs_to_delete, json_page_records, page_urls, EngineStats,
};
use data_scraper::field_map::FieldMap;
use data_scraper::json::JsonValue;
use data_scraper::types::{
    ExtractType, HttpMethod, ScrapeJob, ScrapeResult, ScrapeStatus, Selector, Timestamp,
};

fn job(id: &str, url: &str, max_pages: Option<u32>, enabled: bool) -> ScrapeJob {
    ScrapeJob {
        id: id.to_string(),
        name: format!("job {}", id),
        url: url.to_string(),
        selectors: vec![],
        headers: FieldMap::new(),
        method: HttpMethod::Get,
        body: None,
        interval_minutes: None,
        max_pages,
        next_link_selector: None,
        concurrency: 1,
        proxy: None,
        user_agent: None,
        auto_export: None,
        enabled,
    }
}

fn record(pairs: &[(&str, &str)]) -> FieldMap {
    let mut m = FieldMap::new();
    for (k, v) in pairs {
        m.insert(k.to_string(), v.to_string());
    }
    m
}

#[test]
fn paginated_urls_replace_the_placeholder() {
    let j = job("p", "https://api.example/posts?_page={page}&tag={page}", Some(3), true);
    assert_eq!(
        page_urls(&j),
        vec![
            "https://api.example/posts?_page=1&tag=1",
            "https://api.example/posts?_page=2&tag=2",
            "https://api.example/posts?_page=3&tag=3",
        ]
    );
}

#[test]
fn urls_without_placeholder_are_fetched_once() {
    let j = job("p", "https://example.com/list", Some(5), true);
    assert_eq!(page_urls(&j), vec!["https://example.com/list"]);
    let k = job("q", "https://example.com/{page}", None, true);
    assert_eq!(page_urls(&k), vec!["https://example.com/1"]);
    let z = job("z", "https://example.com/{page}", Some(0), true);
    assert!(page_urls(&z).is_empty());
}

#[test]
fn json_content_types_are_recognised() {
    assert!(is_json_content_type(Some("application/json")));
    assert!(is_json_content_type(Some("Application/JSON; charset=utf-8")));
    assert!(is_json_content_type(Some("application/ld+json")));
    assert!(!is_json_content_type(Some("text/html")));
    assert!(!is_json_content_type(None));
}

#[test]
fn json_pages_use_the_first_selector_as_path() {
    let mut j = job("j", "https://x", None, true);
    j.selectors.push(Selector {
        name: "item".into(),
        css_selector: "data".into(),
        extract: ExtractType::Text,
    });
    let doc = JsonValue::Object(vec![(
        "data".to_string(),
        JsonValue::Array(vec![
            JsonValue::Object(vec![("id".to_string(), JsonValue::Number("1".into()))]),
            JsonValue::Object(vec![("id".to_string(), JsonValue::Number("2".into()))]),
        ]),
    )]);
    let recs = json_page_records(&j, &doc);
    assert_eq!(recs.len(), 1);
    assert_eq!(recs[0].get("[0].id").map(|s| s.as_str()), Some("1"));
    j.selectors[0].css_selector = "data/*".into();
    let recs = json_page_records(&j, &doc);
    assert_eq!(recs.len(), 2);
    assert_eq!(recs[1].get("id").map(|s| s.as_str()), Some("2"));
    let bare = job("b", "https://x", None, true);
    assert_eq!(json_page_records(&bare, &doc).len(), 1);
}

#[test]
fn html_pages_are_decoded_then_parsed() {
    let mut j = job("h", "https://x", None, true);
    j.selectors.push(Selector { name: "li".into(), css_selector: "li".into(), extract: ExtractType::Text });
    let body = b"<ul><li>caf\xC3\xA9</li><li>bad \xFF</li></ul>";
    let recs = html_page_records(&j, "https://x/1", body);
    assert_eq!(recs.len(), 2);
    assert_eq!(recs[0].get("li").map(|s| s.as_str()), Some("café"));
    assert_eq!(recs[1].get("li").map(|s| s.as_str()), Some("bad \u{FFFD}"));
}

#[test]
fn job_results_concatenate_pages() {
    let j = job("r", "https://x/{page}", Some(2), true);
    let pages = vec![
        (100u64, vec![record(&[("a", "1")]), record(&[("a", "2")])]),
        (50u64, vec![record(&[("a", "3")])]),
    ];
    let r = assemble_job_result(&j, pages, Timestamp::epoch(), 12);
    assert_eq!(r.status, ScrapeStatus::Success);
    assert_eq!(r.bytes_fetched, 150);
    assert_eq!(r.record_count, 3);
    assert_eq!(r.data[2].get("a").map(|s| s.as_str()), Some("3"));
    assert_eq!(r.duration_ms, 12);
    assert_eq!(r.url, "https://x/{page}");
    assert!(r.error.is_none());
}

#[test]
fn job_without_records_fails() {
    let j = job("r", "https://x", None, true);
    let r = assemble_job_result(&j, vec![(10u64, vec![])], Timestamp::epoch(), 0);
    assert_eq!(r.status, ScrapeStatus::Failed);
    assert_eq!(r.error.as_deref(), Some("No data extracted from the page"));
    assert_eq!(r.bytes_fetched, 10);
}

#[test]
fn failure_results_carry_the_error() {
    let j = job("f", "https://x", None, true);
    let r = failure_result(&j, "HTTP 404".to_string(), Timestamp::epoch());
    assert_eq!(r.status, ScrapeStatus::Failed);
    assert_eq!(r.error.as_deref(), Some("HTTP 404"));
    assert_eq!(r.job_id, "f");
    assert!(r.data.is_empty());
}

#[test]
fn only_enabled_jobs_run() {
    let jobs = vec![job("a", "u", None, true), job("b", "u", None, false), job("c", "u", None, true)];
    assert_eq!(enabled_jobs(&jobs), vec![0, 2]);
}

#[test]
fn jobs_are_found_by_id() {
    let jobs = vec![job("a", "u", None, true), job("b", "u", None, false), job("b", "v", None, true)];
    assert_eq!(find_job(&jobs, "b"), Some(1));
    assert_eq!(find_job(&jobs, "z"), None);
}

#[test]
fn deleted_jobs_are_the_stored_ones_no_longer_listed() {
    let jobs = vec![job("a", "u", None, true), job("c", "u", None, true)];
    let stored = vec!["a".to_string(), "b".to_string(), "c".to_string(), "d".to_string()];
    assert_eq!(jobs_to_delete(&stored, &jobs), vec!["b", "d"]);
}

fn run_result(status: ScrapeStatus, bytes: u64) -> ScrapeResult {
    ScrapeResult {
        id: 0,
        job_id: "a".into(),
        url: "u".into(),
        timestamp: Timestamp::epoch(),
        data: vec![],
        status,
        error: None,
        duration_ms: 0,
        bytes_fetched: bytes,
        record_count: 0,
    }
}

#[test]
fn stats_follow_runs() {
    let mut s = EngineStats::new();
    assert_eq!(s.active_jobs(), 0);
    s.begin_job("a");
    s.begin_job("b");
    assert_eq!(s.active_jobs(), 2);
    assert!(s.is_running("a"));
    assert_eq!(s.running_ids().len(), 2);
    s.finish_job("a", run_result(ScrapeStatus::Success, 300), false);
    assert!(!s.is_running("a"));
    assert!(s.is_running("b"));
    assert_eq!(s.total_requests(), 1);
    assert_eq!(s.successful_requests(), 1);
    assert_eq!(s.total_bytes_fetched(), 300);
    s.finish_job("b", run_result(ScrapeStatus::Failed, 0), true);
    assert_eq!(s.total_requests(), 1);
    assert_eq!(s.failed_requests(), 1);
    assert_eq!(s.active_jobs(), 0);
    assert_eq!(s.last_run("a").map(|r| r.bytes_fetched), Some(300));
    assert_eq!(s.last_run("b").map(|r| r.status), Some(ScrapeStatus::Failed));
    assert!(s.last_run("c").is_none());
}

#[test]
fn a_later_run_replaces_the_last_one() {
    let mut s = EngineStats::new();
    s.begin_job("a");
    s.finish_job("a", run_result(ScrapeStatus::Success, 1), false);
    s.begin_job("a");
    s.finish_job("a", run_result(ScrapeStatus::Failed, 2), false);
    assert_eq!(s.last_run("a").map(|r| r.bytes_fetched), Some(2));
    assert_eq!(s.total_requests(), 2);
    assert_eq!(s.failed_requests(), 1);
}

#[test]
fn begin_then_finish_restores_active_jobs() {
    let mut s = EngineStats::new();
    s.begin_job("x");
    assert_eq!(s.active_jobs(), 1);
    s.finish_job("x", run_result(ScrapeStatus::Success, 5), false);
    assert_eq!(s.active_jobs(), 0);
    assert!(!s.is_running("x"));
}
