use data_scraper::charset::{content_type_charset, decode_body, sniff_meta_charset};

#[test]
fn charset_parameter_is_read_from_the_content_type() {
    assert_eq!(content_type_charset("text/html; charset=UTF-8").as_deref(), Some("UTF-8"));
    assert_eq!(
        content_type_charset("text/html;  charset=\"ISO-8859-1\" ; q=1").as_deref(),
        Some("ISO-8859-1")
    );
    assert_eq!(
        content_type_charset("text/plain; format=flowed; charset= koi8-r ").as_deref(),
        Some("koi8-r")
    );
    assert_eq!(content_type_charset("text/html"), None);
    assert_eq!(content_type_charset("charset=utf-8"), None);
    assert_eq!(content_type_charset("text/html; Charset=utf-8"), None);
}

#[test]
fn meta_charset_is_sniffed_from_the_head() {
    assert_eq!(
        sniff_meta_charset(b"<html><head><meta charset='Shift_JIS'></head>").as_deref(),
        Some("Shift_JIS")
    );
    assert_eq!(
        sniff_meta_charset(b"<META http-equiv=\"Content-Type\" content=\"text/html; CHARSET=koi8-r\">")
            .as_deref(),
        Some("koi8-r")
    );
    assert_eq!(sniff_meta_charset(b"<meta charset=\"\">"), None);
    assert_eq!(sniff_meta_charset(b"<p>no declaration</p>"), None);
    let mut late = vec![b' '; 4096];
    late.extend_from_slice(b"<meta charset=utf-8>");
    assert_eq!(sniff_meta_charset(&late), None);
}

#[test]
fn byte_order_mark_wins_over_the_declared_charset() {
    let bytes = b"\xEF\xBB\xBFcaf\xC3\xA9";
    assert_eq!(decode_body(bytes, "text/html; charset=windows-1252"), "café");
    assert_eq!(decode_body(bytes, "text/plain"), "café");
    let be = b"\xFE\xFF\x00h\x00i";
    assert_eq!(decode_body(be, "text/html; charset=utf-8"), "hi");
}

#[test]
fn unknown_labels_fall_back_to_utf8() {
    assert_eq!(decode_body("zürich".as_bytes(), "text/html; charset=no-such-thing"), "zürich");
    assert_eq!(decode_body(b"caf\xE9", "text/html; charset=latin1"), "café");
}

use data_scraper::charset::charset_label;

#[test]
fn label_position_counts_bytes_of_the_lower_cased_text() {
    // The Kelvin sign (3 bytes) lower-cases to `k` (1 byte), so the byte
    // position found in the lower-cased copy lands two bytes early in the text.
    let head = "\u{212A}charset=windows-1252";
    let lower = head.to_lowercase();
    assert_eq!(charset_label(head, &lower).as_deref(), Some("t"));
    assert_eq!(sniff_meta_charset(head.as_bytes()).as_deref(), Some("t"));
}

#[test]
fn label_position_inside_a_character_gives_no_label() {
    // `İ` (2 bytes) lower-cases to `i̇` (3 bytes): the position falls inside `é`.
    let head = "\u{130} charset=\u{e9}";
    assert_eq!(sniff_meta_charset(head.as_bytes()), None);
}

#[test]
fn label_from_a_decoded_head() {
    assert_eq!(charset_label("<meta CHARSET='UTF-8'>", "<meta charset='utf-8'>").as_deref(), Some("UTF-8"));
    assert_eq!(charset_label("<p>none</p>", "<p>none</p>"), None);
    assert_eq!(charset_label("charset=\"\"", "charset=\"\""), None);
}
