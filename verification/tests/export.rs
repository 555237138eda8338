use data_scraper::export::{collect_records, csv_table, export_csv_bytes, lex_less, sorted_keys};
use data_scraper::field_map::FieldMap;
use data_scraper::types::{ScrapeResult, ScrapeStatus, Timestamp};

fn record(pairs: &[(&str, &str)]) -> FieldMap {
    let mut m = FieldMap::new();
    for (k, v) in pairs {
        m.insert(k.to_string(), v.to_string());
    }
    m
}

fn result(job: &str, data: Vec<FieldMap>) -> ScrapeResult {
    let n = data.len();
    ScrapeResult {
        id: 0,
        job_id: job.to_string(),
        url: "https://example.com".to_string(),
        timestamp: Timestamp::epoch(),
        data,
        status: if n > 0 { ScrapeStatus::Success } else { ScrapeStatus::Failed },
        error: None,
        duration_ms: 0,
        bytes_fetched: 0,
        record_count: n,
    }
}

#[test]
fn csv_export_has_sorted_header_and_blank_cells() {
    let results = vec![
        result("j1", vec![record(&[("title", "A"), ("price", "3")])]),
        result("j2", vec![record(&[("author", "Z")]), record(&[("title", "B")])]),
    ];
    let bytes = export_csv_bytes(&results);
    assert_eq!(
        String::from_utf8(bytes).unwrap(),
        "author,price,title\n,3,A\nZ,,\n,,B\n"
    );
}

#[test]
fn csv_export_quotes_fields_that_need_it() {
    let results = vec![result("j", vec![record(&[("q", "a,b"), ("r", "say \"hi\"")])])];
    let bytes = export_csv_bytes(&results);
    assert_eq!(
        String::from_utf8(bytes).unwrap(),
        "q,r\n\"a,b\",\"say \"\"hi\"\"\"\n"
    );
}

#[test]
fn csv_export_of_nothing_is_empty() {
    let results = vec![result("j", vec![])];
    assert!(export_csv_bytes(&results).is_empty());
    assert!(export_csv_bytes(&vec![]).is_empty());
}

#[test]
fn csv_table_rows_follow_the_header() {
    let results = vec![result("j", vec![record(&[("b", "2"), ("a", "1")]), record(&[("c", "3")])])];
    let table = csv_table(&results);
    assert_eq!(table.len(), 3);
    assert_eq!(table[0], vec!["a", "b", "c"]);
    assert_eq!(table[1], vec!["1", "2", ""]);
    assert_eq!(table[2], vec!["", "", "3"]);
}

#[test]
fn collected_records_keep_their_order() {
    let results = vec![
        result("j1", vec![record(&[("n", "1")]), record(&[("n", "2")])]),
        result("j2", vec![]),
        result("j3", vec![record(&[("n", "3")])]),
    ];
    let recs = collect_records(&results);
    let ns: Vec<&str> = recs.iter().map(|r| r.get("n").unwrap().as_str()).collect();
    assert_eq!(ns, vec!["1", "2", "3"]);
}

#[test]
fn keys_are_sorted_and_distinct() {
    let recs = vec![record(&[("zeta", "1"), ("alpha", "2")]), record(&[("alpha", "3"), ("Beta", "4")])];
    assert_eq!(sorted_keys(&recs), vec!["Beta", "alpha", "zeta"]);
}

#[test]
fn lexicographic_order_of_strings() {
    let a: Vec<char> = "abc".chars().collect();
    let b: Vec<char> = "abd".chars().collect();
    let p: Vec<char> = "ab".chars().collect();
    assert!(lex_less(&a, &b));
    assert!(!lex_less(&b, &a));
    assert!(lex_less(&p, &a));
    assert!(!lex_less(&a, &a));
    let e: Vec<char> = "é".chars().collect();
    let z: Vec<char> = "z".chars().collect();
    assert!(lex_less(&z, &e));
    assert_eq!("z" < "é", lex_less(&z, &e));
}

use data_scraper::export::export_json_text;

#[test]
fn json_export_lists_every_record_with_sorted_keys() {
    let results = vec![
        result("j1", vec![record(&[("title", "A"), ("price", "3")])]),
        result("j2", vec![record(&[("q", "say \"hi\"")])]),
    ];
    assert_eq!(
        export_json_text(&results),
        "[\n  {\n    \"price\": \"3\",\n    \"title\": \"A\"\n  },\n  {\n    \"q\": \"say \\\"hi\\\"\"\n  }\n]"
    );
    assert_eq!(export_json_text(&vec![]), "[]");
}
