use data_scraper::charset::decode_body;
use data_scraper::html::{extract_value, find_next_link, parse_html, select_elements};
use data_scraper::json::{extract_json_string, extract_json_value, JsonValue};
use data_scraper::types::{ExtractType, ScrapeStatus, Selector};

fn sel(name: &str, css: &str, extract: ExtractType) -> Selector {
    Selector {
        name: name.into(),
        css_selector: css.into(),
        extract,
    }
}

fn num(n: &str) -> JsonValue {
    JsonValue::Number(n.into())
}

fn obj(members: Vec<(&str, JsonValue)>) -> JsonValue {
    JsonValue::Object(members.into_iter().map(|(k, v)| (k.to_string(), v)).collect())
}

#[test]
fn test_parse_html() {
    let html = r#"<html><body><div class="item"><h2>Title 1</h2><p>Desc 1</p></div><div class="item"><h2>Title 2</h2><p>Desc 2</p></div></body></html>"#;
    let selectors = vec![
        sel("item", ".item", ExtractType::Text),
        sel("title", "h2", ExtractType::Text),
        sel("desc", "p", ExtractType::Text),
    ];

    let result = parse_html(html, "http://test.com", "job1", &selectors);
    assert_eq!(result.status, ScrapeStatus::Success);
    assert_eq!(result.data.len(), 2);
    assert_eq!(result.data[0].get("title").unwrap(), "Title 1");
    assert_eq!(
        result.data[0].get("desc").unwrap(),
        "Desc 1",
        "field selectors must match inside the row element"
    );
    assert_eq!(result.data[1].get("desc").unwrap(), "Desc 2");
}

#[test]
fn test_find_next_link() {
    let html = r#"<html><body><a class="next" href="/page/2/">Next</a></body></html>"#;
    let link = find_next_link(html, "https://example.com/list", "a.next").unwrap();
    assert_eq!(link, "https://example.com/page/2/");

    assert!(find_next_link(html, "https://example.com/list", "a.missing").is_none());
}

#[test]
fn test_link_and_image_urls_resolve_against_base() {
    let html = r#"<ul>
            <li class="item"><a href="/product/1">One</a><img src="images/pic.jpg"></li>
            <li class="item"><a href="https://abs.example/x">Two</a><img src="//cdn.example.com/pic2.jpg"></li>
        </ul>"#;
    let selectors = vec![
        sel("row", "li.item", ExtractType::Text),
        sel("link", "a", ExtractType::Link),
        sel("img", "img", ExtractType::Image),
    ];

    let result = parse_html(html, "https://site.example/catalog/", "job1", &selectors);
    assert_eq!(result.status, ScrapeStatus::Success);
    assert_eq!(
        result.data[0].get("link").unwrap(),
        "https://site.example/product/1"
    );
    assert_eq!(
        result.data[0].get("img").unwrap(),
        "https://site.example/catalog/images/pic.jpg"
    );
    assert_eq!(result.data[1].get("link").unwrap(), "https://abs.example/x");
    assert_eq!(
        result.data[1].get("img").unwrap(),
        "https://cdn.example.com/pic2.jpg"
    );
}

#[test]
fn test_decode_body_windows_1252() {
    let bytes = b"caf\xE9";
    let text = decode_body(bytes, "text/html; charset=windows-1252");
    assert_eq!(text, "café");
}

#[test]
fn test_decode_body_utf16_with_bom() {
    let bytes = b"\xFF\xFEh\x00i\x00";
    let text = decode_body(bytes, "text/plain");
    assert_eq!(text, "hi");
}

#[test]
fn test_decode_body_sniffs_html_meta_charset() {
    let bytes = b"<html><head><meta charset=\"windows-1252\"></head><body>caf\xE9</body></html>";
    let text = decode_body(bytes, "text/html");
    assert_eq!(
        text,
        "<html><head><meta charset=\"windows-1252\"></head><body>café</body></html>"
    );
}

#[test]
fn test_decode_body_fallback_to_lossy_utf8() {
    let bytes = b"caf\xE9";
    let text = decode_body(bytes, "text/plain");
    assert_eq!(text, "caf\u{FFFD}");
}

#[test]
fn test_json_empty_path_flattens_object_root() {
    let value = obj(vec![("a", num("1")), ("b", obj(vec![("c", num("2"))]))]);
    let records = extract_json_value(&value, "");
    assert_eq!(records.len(), 1);
    assert_eq!(records[0].get("a").map(|s| s.as_str()), Some("1"));
    assert_eq!(records[0].get("b.c").map(|s| s.as_str()), Some("2"));
}

#[test]
fn test_json_empty_path_on_array_returns_items() {
    let value = JsonValue::Array(vec![obj(vec![("a", num("1"))]), obj(vec![("a", num("2"))])]);
    let records = extract_json_value(&value, "");
    assert_eq!(records.len(), 2);
    assert_eq!(records[0].get("a").map(|s| s.as_str()), Some("1"));
    assert_eq!(records[1].get("a").map(|s| s.as_str()), Some("2"));
}

#[test]
fn test_json_star_on_object_root_flattens_one_record() {
    let value = obj(vec![("id", num("7")), ("name", JsonValue::Str("x".into()))]);
    let records = extract_json_value(&value, "*");
    assert_eq!(records.len(), 1);
    assert_eq!(records[0].get("id").map(|s| s.as_str()), Some("7"));
}

#[test]
fn test_json_missing_path_returns_no_records() {
    let value = obj(vec![("a", num("1"))]);
    assert!(extract_json_value(&value, "nope").is_empty());
    assert!(extract_json_value(&value, "a/b").is_empty());
}

#[test]
fn test_json_extract_string_path() {
    let value = obj(vec![(
        "links",
        obj(vec![("next", JsonValue::Str("/items?page=2".into()))]),
    )]);
    assert_eq!(
        extract_json_string(&value, "links/next").as_deref(),
        Some("/items?page=2")
    );
    assert_eq!(extract_json_string(&value, "missing"), None);
    assert_eq!(extract_json_string(&value, "links/number"), None);
}

#[test]
fn test_extract_value_html_mode() {
    let elements = select_elements("<div><p>Hello <b>world</b></p></div>", "p").unwrap();
    let element = &elements[0];
    let s = sel("test", "p", ExtractType::Html);
    assert_eq!(
        extract_value(element, &s, "https://example.com"),
        "Hello <b>world</b>"
    );
}

#[test]
fn test_extract_value_attribute_mode() {
    let elements = select_elements("<a href=\"/page/2\" data-id=\"42\">next</a>", "a").unwrap();
    let element = &elements[0];
    let s = sel("test", "a", ExtractType::Attribute("data-id".into()));
    assert_eq!(extract_value(element, &s, "https://example.com"), "42");
}

#[test]
fn test_extract_value_attribute_missing_returns_empty() {
    let elements = select_elements("<a href=\"/page\">link</a>", "a").unwrap();
    let element = &elements[0];
    let s = sel("test", "a", ExtractType::Attribute("data-id".into()));
    assert_eq!(extract_value(element, &s, "https://example.com"), "");
}

#[test]
fn test_parse_html_empty_selectors_fails() {
    let result = parse_html("<p>hi</p>", "https://example.com", "j1", &vec![]);
    assert_eq!(result.status, ScrapeStatus::Failed);
    assert!(result.error.unwrap().contains("No elements"));
}

#[test]
fn test_parse_html_invalid_css_selector_fails() {
    let s = vec![sel("x", "!!!invalid!!!", ExtractType::Text)];
    let result = parse_html("<p>hi</p>", "https://example.com", "j1", &s);
    assert_eq!(result.status, ScrapeStatus::Failed);
}

#[test]
fn test_find_next_link_invalid_css_returns_none() {
    assert_eq!(
        find_next_link("<a href=\"/next\">go</a>", "https://example.com", "!!!bad!!!"),
        None
    );
}

use data_scraper::html::build_records;

#[test]
fn records_are_built_from_selected_elements() {
    let rows = select_elements("<li>one</li><li>two</li>", "li").unwrap();
    let first_b = select_elements("<b>bold</b>", "b").unwrap();
    let sels = vec![
        sel("row", "li", ExtractType::Text),
        sel("b", "b", ExtractType::Html),
        sel("bad", "!!", ExtractType::Text),
        sel("row", "x", ExtractType::Text),
    ];
    let mut fields = Vec::new();
    fields.push(None);
    fields.push(Some(vec![Some(first_b.into_iter().next().unwrap()), None]));
    fields.push(None);
    fields.push(Some(vec![None, None]));
    let recs = build_records(&rows, &fields, &sels, "https://example.com");
    assert_eq!(recs.len(), 2);
    assert_eq!(recs[0].get("b").map(|s| s.as_str()), Some("bold"));
    assert_eq!(recs[1].get("b").map(|s| s.as_str()), Some(""));
    assert_eq!(recs[0].get("bad").map(|s| s.as_str()), Some(""));
    assert_eq!(recs[0].get("row").map(|s| s.as_str()), Some(""), "a later selector of the same name overwrites");
    assert_eq!(recs[0].keys(), vec!["row", "b", "bad"]);
}
