use data_scraper::stored::{stored_records, stored_timestamp};
use data_scraper::types::Timestamp;

#[test]
fn stored_records_read_back() {
    let recs = stored_records(r#"[{"b":"2","a":"1"},{}]"#);
    assert_eq!(recs.len(), 2);
    assert_eq!(recs[0].keys(), vec!["a", "b"]);
    assert_eq!(recs[0].get("b").map(|s| s.as_str()), Some("2"));
    assert!(recs[1].is_empty());
    assert!(stored_records("not json").is_empty());
    assert!(stored_records(r#"[{"a":1}]"#).is_empty());
}

#[test]
fn stored_times_read_back() {
    let t = stored_timestamp("2023-11-14 22:13:20");
    assert_eq!((t.secs(), t.nanos()), (1_700_000_000, 0));
    assert_eq!(stored_timestamp("2023-11-14 22:13:20.5"), Timestamp::epoch());
    assert_eq!(stored_timestamp("yesterday"), Timestamp::epoch());
}
