use api_perf_test::{parse_headers, Headers};

fn value(h: &Headers, name: &str) -> Option<String> {
    h.get(&name.to_string()).cloned()
}

#[test]
fn headers_none_is_empty() {
    let h = parse_headers(None).unwrap();
    assert_eq!(h.len(), 0);
}

#[test]
fn headers_readme_example() {
    let h = parse_headers(Some("Authorization:Bearer TOKEN123,X-App-Id:myapp")).unwrap();
    assert_eq!(h.len(), 2);
    assert_eq!(value(&h, "Authorization"), Some("Bearer TOKEN123".to_string()));
    assert_eq!(value(&h, "X-App-Id"), Some("myapp".to_string()));
}

#[test]
fn headers_trimmed_and_blank_pieces_skipped() {
    let h = parse_headers(Some("  Accept :  application/json , ,,Content-Type:text/plain  ")).unwrap();
    assert_eq!(h.len(), 2);
    assert_eq!(value(&h, "Accept"), Some("application/json".to_string()));
    assert_eq!(value(&h, "Content-Type"), Some("text/plain".to_string()));
    assert_eq!(value(&h, " Accept "), None);
}

#[test]
fn headers_value_keeps_later_colons() {
    let h = parse_headers(Some("Referer:http://example.com:8080/x")).unwrap();
    assert_eq!(value(&h, "Referer"), Some("http://example.com:8080/x".to_string()));
}

#[test]
fn headers_later_duplicate_wins() {
    let h = parse_headers(Some("A:1,B:2,A:3")).unwrap();
    assert_eq!(h.len(), 2);
    assert_eq!(value(&h, "A"), Some("3".to_string()));
    assert_eq!(value(&h, "B"), Some("2".to_string()));
}

#[test]
fn headers_empty_name_and_value() {
    let h = parse_headers(Some(":")).unwrap();
    assert_eq!(value(&h, ""), Some("".to_string()));
}

#[test]
fn headers_missing_colon_is_error() {
    let r = parse_headers(Some("A:1,  broken  ,C:3"));
    assert_eq!(r.err(), Some("Format header is wrong: 'broken'. use :  'Key:Value'".to_string()));
}

#[test]
fn headers_empty_text_is_empty() {
    assert_eq!(parse_headers(Some("")).unwrap().len(), 0);
    assert_eq!(parse_headers(Some(" , ")).unwrap().len(), 0);
}

#[test]
fn headers_insert_replaces() {
    let mut h = Headers::new();
    h.insert("X".to_string(), "1".to_string());
    h.insert("Y".to_string(), "2".to_string());
    h.insert("X".to_string(), "3".to_string());
    assert_eq!(h.len(), 2);
    assert_eq!(value(&h, "X"), Some("3".to_string()));
    assert_eq!(h.entries().len(), 2);
}
