use data_scraper::field_map::FieldMap;
use data_scraper::ui::{
    entering, extract_label, format_bytes, headers_from_rows, interval_from_slider, job_display_name,
    last_run_label, max_response_mb, mb_to_bytes, needs_refresh, new_selector, optional_text,
    save_edited_job, status_from_name, status_name, total_records, AppView, ResultsPanel,
    SettingsPanel,
};
use data_scraper::types::{
    ExtractType, HttpMethod, ScrapeJob, ScrapeResult, ScrapeStatus, Timestamp,
};

/// The text that formatting the byte count as a float gives.
fn float_format(bytes: u64) -> String {
    if bytes < 1024 {
        format!("{} B", bytes)
    } else if bytes < 1024 * 1024 {
        format!("{:.1} KB", bytes as f64 / 1024.0)
    } else if bytes < 1024 * 1024 * 1024 {
        format!("{:.1} MB", bytes as f64 / (1024.0 * 1024.0))
    } else {
        format!("{:.2} GB", bytes as f64 / (1024.0 * 1024.0 * 1024.0))
    }
}

#[test]
fn format_bytes_examples() {
    assert_eq!(format_bytes(0), "0 B");
    assert_eq!(format_bytes(1023), "1023 B");
    assert_eq!(format_bytes(1024), "1.0 KB");
    assert_eq!(format_bytes(1536), "1.5 KB");
    assert_eq!(format_bytes(1280), "1.2 KB");
    assert_eq!(format_bytes(5 * 1024 * 1024), "5.0 MB");
    assert_eq!(format_bytes(3 * 1024 * 1024 * 1024 / 2), "1.50 GB");
}

#[test]
fn format_bytes_agrees_with_float_formatting() {
    let mut b: u64 = 0;
    while b < 3 * 1024 * 1024 {
        assert_eq!(format_bytes(b), float_format(b), "bytes = {}", b);
        b += 7;
    }
    for k in 1..4000u64 {
        let b = k * 1024 * 1024 / 10 + k;
        assert_eq!(format_bytes(b), float_format(b), "bytes = {}", b);
    }
    let gib: u64 = 1024 * 1024 * 1024;
    for k in 1..5000u64 {
        let b = gib + k * (gib / 800) + (k % 3);
        assert_eq!(format_bytes(b), float_format(b), "bytes = {}", b);
    }
    for b in [
        gib - 1,
        gib,
        gib * 1024,
        u64::MAX,
        u64::MAX - 1,
        (1u64 << 53) + 1,
        (1u64 << 60) + (1u64 << 7),
        (1u64 << 63) - 1,
        1_000_000_000_000,
    ] {
        assert_eq!(format_bytes(b), float_format(b), "bytes = {}", b);
    }
}

#[test]
fn views_are_entered_once() {
    assert!(entering(AppView::Results, AppView::Dashboard, AppView::Results));
    assert!(!entering(AppView::Results, AppView::Results, AppView::Results));
    assert!(!entering(AppView::Scraper, AppView::Dashboard, AppView::Results));
    assert_eq!(AppView::default(), AppView::Dashboard);
}

#[test]
fn results_are_refreshed_every_two_seconds() {
    assert!(needs_refresh(true, 0));
    assert!(needs_refresh(false, 2000));
    assert!(!needs_refresh(false, 1999));
}

fn result(job: &str, url: &str, values: &[&str]) -> ScrapeResult {
    let data: Vec<FieldMap> = values
        .iter()
        .map(|v| {
            let mut m = FieldMap::new();
            m.insert("v".to_string(), v.to_string());
            m
        })
        .collect();
    let n = data.len();
    ScrapeResult {
        id: 0,
        job_id: job.to_string(),
        url: url.to_string(),
        timestamp: Timestamp::epoch(),
        data,
        status: ScrapeStatus::Success,
        error: None,
        duration_ms: 0,
        bytes_fetched: 0,
        record_count: n,
    }
}

#[test]
fn results_filter_by_job_and_search_text() {
    let results = vec![
        result("news", "https://News.example/a", &["Hello"]),
        result("shop", "https://shop.example", &["Price 3", "ÉCLAIR"]),
        result("shop", "https://shop.example/b", &[]),
    ];
    let mut panel = ResultsPanel::default();
    assert_eq!(panel.filter_results(&results), vec![0, 1, 2]);
    panel.search_query = "news".into();
    assert_eq!(panel.filter_results(&results), vec![0]);
    panel.search_query = "éclair".into();
    assert_eq!(panel.filter_results(&results), vec![1]);
    panel.search_query = "SHOP".into();
    assert_eq!(panel.filter_results(&results), vec![1, 2]);
    panel.toggle_job_filter("news");
    assert_eq!(panel.filter_results(&results), Vec::<usize>::new());
    panel.search_query.clear();
    assert_eq!(panel.filter_results(&results), vec![0]);
    panel.toggle_job_filter("news");
    assert!(panel.selected_job_filter.is_none());
    panel.toggle_job_filter("shop");
    assert_eq!(panel.selected_job_filter.as_deref(), Some("shop"));
    let idx = panel.filter_results(&results);
    assert_eq!(idx, vec![1, 2]);
    assert_eq!(total_records(&results, &idx), 2);
    assert!(panel.matches(&results[2]));
}

#[test]
fn job_names_fall_back_to_the_id() {
    let names = vec![("a".to_string(), "Alpha".to_string()), ("a".to_string(), "Other".to_string())];
    assert_eq!(job_display_name(&names, "a"), "Alpha");
    assert_eq!(job_display_name(&names, "b"), "b");
}

#[test]
fn response_size_slider_in_mib() {
    assert_eq!(max_response_mb(64 * 1024 * 1024), 64);
    assert_eq!(max_response_mb(1024 * 1024 - 1), 0);
    assert_eq!(mb_to_bytes(64), 64 * 1024 * 1024);
    assert_eq!(mb_to_bytes(0), 1024 * 1024);
    assert_eq!(mb_to_bytes(-5), 1024 * 1024);
    assert!(!SettingsPanel::default().changed);
}

#[test]
fn labels_of_extraction_kinds() {
    assert_eq!(extract_label(&ExtractType::Text), "Text");
    assert_eq!(extract_label(&ExtractType::Html), "HTML");
    assert_eq!(extract_label(&ExtractType::Attribute(String::new())), "Attribute");
    assert_eq!(extract_label(&ExtractType::Attribute("data-id".into())), "Attr: data-id");
    assert_eq!(extract_label(&ExtractType::Link), "Link");
    assert_eq!(extract_label(&ExtractType::Image), "Image");
}

#[test]
fn stored_status_reads_back() {
    for s in [ScrapeStatus::Success, ScrapeStatus::Failed] {
        assert_eq!(status_from_name(&status_name(s)), s);
    }
    assert_eq!(status_name(ScrapeStatus::Success), "Success");
    assert_eq!(status_from_name("Running"), ScrapeStatus::Failed);
}

#[test]
fn last_run_labels() {
    let r = result("j", "u", &["1", "2", "3"]);
    assert_eq!(last_run_label(&r), "Last run: 3 records");
    let mut f = result("j", "u", &[]);
    f.status = ScrapeStatus::Failed;
    assert_eq!(last_run_label(&f), "Last run: failed");
}

#[test]
fn editor_fields() {
    assert_eq!(optional_text(String::new()), None);
    assert_eq!(optional_text("p".into()), Some("p".to_string()));
    assert_eq!(interval_from_slider(0), None);
    assert_eq!(interval_from_slider(15), Some(15));
    assert!(new_selector("", ".x", ExtractType::Text).is_none());
    assert!(new_selector("n", "", ExtractType::Text).is_none());
    let s = new_selector("n", ".x", ExtractType::Link).unwrap();
    assert_eq!((s.name.as_str(), s.css_selector.as_str()), ("n", ".x"));
    assert_eq!(s.extract, ExtractType::Link);
}

#[test]
fn blank_header_rows_are_dropped() {
    let rows = vec![
        ("Accept".to_string(), "text/html".to_string()),
        ("  ".to_string(), "x".to_string()),
        ("X-Key".to_string(), " ".to_string()),
        ("Accept".to_string(), "application/json".to_string()),
    ];
    let h = headers_from_rows(&rows);
    assert_eq!(h.len(), 1);
    assert_eq!(h.get("Accept").map(|s| s.as_str()), Some("application/json"));
}

fn job(id: &str, name: &str, url: &str) -> ScrapeJob {
    ScrapeJob {
        id: id.to_string(),
        name: name.to_string(),
        url: url.to_string(),
        selectors: vec![],
        headers: FieldMap::new(),
        method: HttpMethod::Get,
        body: None,
        interval_minutes: None,
        max_pages: Some(1),
        next_link_selector: None,
        concurrency: 1,
        proxy: None,
        user_agent: None,
        auto_export: None,
        enabled: true,
    }
}

#[test]
fn saving_jobs_replaces_or_appends() {
    let mut jobs = vec![job("a", "A", "https://a"), job("b", "B", "https://b")];
    let rows = vec![("K".to_string(), "V".to_string())];
    assert!(!save_edited_job(&mut jobs, job("c", "", "https://c"), &rows));
    assert!(!save_edited_job(&mut jobs, job("c", "C", ""), &rows));
    assert_eq!(jobs.len(), 2);
    assert!(save_edited_job(&mut jobs, job("b", "B2", "https://b2"), &rows));
    assert_eq!(jobs.len(), 2);
    assert_eq!(jobs[1].name, "B2");
    assert_eq!(jobs[1].headers.get("K").map(|s| s.as_str()), Some("V"));
    assert!(save_edited_job(&mut jobs, job("c", "C", "https://c"), &vec![]));
    assert_eq!(jobs.len(), 3);
    assert_eq!(jobs[2].id, "c");
    assert!(jobs[2].headers.is_empty());
}

#[test]
fn new_jobs_start_with_the_editor_defaults() {
    let j = data_scraper::ui::new_job("id-1".to_string());
    assert_eq!(j.id, "id-1");
    assert!(j.name.is_empty() && j.url.is_empty() && j.selectors.is_empty());
    assert_eq!(j.method, HttpMethod::Get);
    assert_eq!((j.max_pages, j.concurrency, j.enabled), (Some(1), 1, true));
    assert!(j.interval_minutes.is_none() && j.auto_export.is_none() && j.headers.is_empty());
}
