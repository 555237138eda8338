use data_scraper::types::{
    default_max_bytes, now_utc, AppConfig, ExtractType, Theme, Timestamp, MAX_ABS_SECS,
};

#[test]
fn timestamps_hold_valid_pairs_only() {
    let t = Timestamp::from_parts(1_700_000_000, 999_999_999).unwrap();
    assert_eq!((t.secs(), t.nanos()), (1_700_000_000, 999_999_999));
    assert!(Timestamp::from_parts(0, 1_000_000_000).is_none());
    assert!(Timestamp::from_parts(MAX_ABS_SECS + 1, 0).is_none());
    assert!(Timestamp::from_parts(-MAX_ABS_SECS, 0).is_some());
    assert!(t.same_instant(&Timestamp::from_parts(1_700_000_000, 999_999_999).unwrap()));
    assert!(!t.same_instant(&Timestamp::epoch()));
    assert_eq!((Timestamp::epoch().secs(), Timestamp::epoch().nanos()), (0, 0));
}

#[test]
fn the_clock_reads_the_present() {
    let t = now_utc();
    let c = chrono::Utc::now().timestamp();
    assert!((t.secs() - c).abs() <= 5);
    assert!(t.nanos() < 1_000_000_000);
}

#[test]
fn defaults_of_the_settings() {
    let c = AppConfig::default();
    assert_eq!(c.max_concurrent_requests, 10);
    assert_eq!(c.request_timeout_secs, 30);
    assert_eq!(c.user_agent, "DataScraper/1.0 (+https://github.com/datascraper)");
    assert_eq!(c.database_path, "data_scraper.db");
    assert_eq!(c.export_path, "exports");
    assert_eq!(c.theme, Theme::Dark);
    assert_eq!((c.window_width, c.window_height), (1280, 800));
    assert_eq!(c.max_response_bytes, 64 * 1024 * 1024);
    assert_eq!(default_max_bytes(), 67_108_864);
    assert_eq!(ExtractType::default(), ExtractType::Text);
    assert_eq!(Theme::default(), Theme::Dark);
}
