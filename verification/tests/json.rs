use data_scraper::json::{extract_json_string, extract_json_value, flat_record_exec, JsonValue};

fn s(v: &str) -> JsonValue {
    JsonValue::Str(v.to_string())
}

fn obj(members: Vec<(&str, JsonValue)>) -> JsonValue {
    JsonValue::Object(members.into_iter().map(|(k, v)| (k.to_string(), v)).collect())
}

#[test]
fn nested_values_flatten_to_dotted_keys() {
    let v = obj(vec![
        ("a", JsonValue::Array(vec![JsonValue::Number("1".into()), obj(vec![("b", JsonValue::Bool(true))])])),
        ("n", JsonValue::Null),
        ("o", obj(vec![("p", obj(vec![("q", s("deep"))]))])),
    ]);
    let r = flat_record_exec(&v);
    assert_eq!(r.get("a[0]").map(|x| x.as_str()), Some("1"));
    assert_eq!(r.get("a[1].b").map(|x| x.as_str()), Some("true"));
    assert_eq!(r.get("n").map(|x| x.as_str()), Some(""));
    assert_eq!(r.get("o.p.q").map(|x| x.as_str()), Some("deep"));
    assert_eq!(r.len(), 4);
}

#[test]
fn scalar_documents_give_one_unnamed_field() {
    let r = flat_record_exec(&JsonValue::Bool(false));
    assert_eq!(r.get("").map(|x| x.as_str()), Some("false"));
    let recs = extract_json_value(&s("x"), "");
    assert_eq!(recs.len(), 1);
    assert_eq!(recs[0].get("").map(|x| x.as_str()), Some("x"));
}

#[test]
fn star_after_a_key_lists_the_items() {
    let v = obj(vec![(
        "data",
        JsonValue::Array(vec![obj(vec![("id", s("1"))]), obj(vec![("id", s("2"))]), obj(vec![])]),
    )]);
    let recs = extract_json_value(&v, "data/*");
    assert_eq!(recs.len(), 3);
    assert_eq!(recs[1].get("id").map(|x| x.as_str()), Some("2"));
    assert!(recs[2].is_empty());
    assert_eq!(extract_json_value(&v, "   ").len(), 1);
}

#[test]
fn string_paths_take_the_first_item_for_star() {
    let v = obj(vec![("items", JsonValue::Array(vec![obj(vec![("name", s("first"))]), obj(vec![("name", s("second"))])]))]);
    assert_eq!(extract_json_string(&v, "items/*/name").as_deref(), Some("first"));
    assert_eq!(extract_json_string(&v, "/items//*/name/").as_deref(), Some("first"));
    assert_eq!(extract_json_string(&v, "items/*"), None);
    assert_eq!(extract_json_string(&JsonValue::Array(vec![]), "*"), None);
    assert_eq!(extract_json_string(&s("top"), "").as_deref(), Some("top"));
}

use data_scraper::json::{extract_json_text, parse_json};

#[test]
fn test_parse_json_error_path() {
    assert!(parse_json("not json at all").is_err());
    assert!(parse_json("").is_err());
    assert!(parse_json("{truncated").is_err());
}

#[test]
fn parsed_documents_keep_numbers_as_text_and_sort_members() {
    match parse_json(r#"{"b": [1, 2.5, true, null], "a": "x"}"#).unwrap() {
        JsonValue::Object(members) => {
            assert_eq!(members[0].0, "a");
            assert!(matches!(&members[0].1, JsonValue::Str(s) if s == "x"));
            match &members[1].1 {
                JsonValue::Array(items) => {
                    assert!(matches!(&items[0], JsonValue::Number(n) if n == "1"));
                    assert!(matches!(&items[1], JsonValue::Number(n) if n == "2.5"));
                    assert!(matches!(&items[2], JsonValue::Bool(true)));
                    assert!(matches!(&items[3], JsonValue::Null));
                }
                other => panic!("not an array: {:?}", other),
            }
        }
        other => panic!("not an object: {:?}", other),
    }
}

#[test]
fn records_from_json_text() {
    let recs = extract_json_text(r#"{"data": [{"id": 1}, {"id": 2}]}"#, "data/*").unwrap();
    assert_eq!(recs.len(), 2);
    assert_eq!(recs[1].get("id").map(|x| x.as_str()), Some("2"));
    assert!(extract_json_text("[1,", "").is_err());
}
