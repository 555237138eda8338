use data_scraper::schedule::is_due;
use data_scraper::types::Timestamp;

fn ts(d: chrono::NaiveDateTime) -> Timestamp {
    let u = d.and_utc();
    Timestamp::from_parts(u.timestamp(), u.timestamp_subsec_nanos()).unwrap()
}

#[test]
fn test_is_due_never_run() {
    let now = chrono::Utc::now().naive_utc();
    assert!(is_due(ts(chrono::NaiveDateTime::default()), ts(now), 60));
}

#[test]
fn test_is_due_enough_time_passed() {
    let now = chrono::Utc::now().naive_utc();
    let last = now - chrono::Duration::minutes(61);
    assert!(is_due(ts(last), ts(now), 60));
}

#[test]
fn test_is_due_not_enough_time() {
    let now = chrono::Utc::now().naive_utc();
    let last = now - chrono::Duration::minutes(30);
    assert!(!is_due(ts(last), ts(now), 60));
}

#[test]
fn test_is_due_exactly_on_boundary() {
    let now = chrono::Utc::now().naive_utc();
    let last = now - chrono::Duration::minutes(60);
    assert!(is_due(ts(last), ts(now), 60));
}

use data_scraper::field_map::FieldMap;
use data_scraper::schedule::ScheduleState;
use data_scraper::types::{HttpMethod, ScrapeJob};

fn interval_job(id: &str, minutes: Option<u64>, enabled: bool) -> ScrapeJob {
    ScrapeJob {
        id: id.to_string(),
        name: id.to_string(),
        url: "https://example.com".to_string(),
        selectors: vec![],
        headers: FieldMap::new(),
        method: HttpMethod::Get,
        body: None,
        interval_minutes: minutes,
        max_pages: Some(1),
        next_link_selector: None,
        concurrency: 1,
        proxy: None,
        user_agent: None,
        auto_export: None,
        enabled,
    }
}

fn at(secs: i64) -> Timestamp {
    Timestamp::from_parts(secs, 0).unwrap()
}

#[test]
fn scheduler_ticks_run_due_jobs() {
    let jobs = vec![
        interval_job("a", Some(1), true),
        interval_job("b", Some(10), true),
        interval_job("manual", None, true),
        interval_job("zero", Some(0), true),
        interval_job("off", Some(1), false),
    ];
    let mut state = ScheduleState::new();
    let t0 = 1_700_000_000;
    assert_eq!(state.tick(&jobs, at(t0)), vec![0, 1], "every interval job runs once at start-up");
    assert_eq!(state.last_run("a"), at(t0));
    assert_eq!(state.tick(&jobs, at(t0 + 30)), Vec::<usize>::new());
    assert_eq!(state.tick(&jobs, at(t0 + 60)), vec![0]);
    assert_eq!(state.tick(&jobs, at(t0 + 599)), vec![0]);
    assert_eq!(state.tick(&jobs, at(t0 + 600)), vec![1]);
    assert_eq!(state.last_run("manual"), Timestamp::epoch());
    assert_eq!(state.len(), 2);
}

#[test]
fn scheduler_forgets_deleted_jobs() {
    let mut jobs = vec![interval_job("a", Some(5), true), interval_job("b", Some(5), true)];
    let mut state = ScheduleState::new();
    let t0 = 1_700_000_000;
    state.tick(&jobs, at(t0));
    assert_eq!(state.len(), 2);
    jobs.remove(0);
    assert_eq!(state.tick(&jobs, at(t0 + 60)), Vec::<usize>::new());
    assert_eq!(state.len(), 1);
    assert_eq!(state.last_run("a"), Timestamp::epoch());
    jobs.insert(0, interval_job("a", Some(5), true));
    assert_eq!(state.tick(&jobs, at(t0 + 120)), vec![0], "a re-added job counts as never run");
}

#[test]
fn due_jobs_stay_due() {
    let last = at(1_000_000);
    let mut due_seen = false;
    for dt in (0..20_000i64).step_by(13) {
        let due = is_due(last, at(1_000_000 + dt), 90);
        assert!(!due_seen || due);
        due_seen |= due;
    }
    assert!(due_seen);
}

#[test]
fn minutes_are_whole_minutes_rounded_toward_zero() {
    let last = Timestamp::from_parts(1_000_000, 500_000_000).unwrap();
    assert!(!is_due(last, Timestamp::from_parts(1_000_060, 499_999_999).unwrap(), 1));
    assert!(is_due(last, Timestamp::from_parts(1_000_060, 500_000_000).unwrap(), 1));
    assert!(is_due(last, Timestamp::from_parts(999_000, 0).unwrap(), -16));
    assert!(!is_due(last, Timestamp::from_parts(999_000, 0).unwrap(), -15));
}

#[test]
fn tick_starts_exactly_the_due_jobs_in_order() {
    let jobs = vec![
        interval_job("a", Some(60), true),
        interval_job("b", Some(1), true),
        interval_job("c", None, true),
        interval_job("d", Some(1), false),
        interval_job("e", Some(5), true),
    ];
    let mut state = ScheduleState::new();
    let t0 = 1_700_000_000;
    assert_eq!(state.tick(&jobs, at(t0)), vec![0, 1, 4]);
    assert_eq!(state.tick(&jobs, at(t0 + 300)), vec![1, 4]);
    assert_eq!(state.last_run("a"), at(t0));
    assert_eq!(state.last_run("b"), at(t0 + 300));
}
