use api_perf_test::HttpMethod;

#[test]
fn method_names_print() {
    assert_eq!(HttpMethod::GET.to_string(), "GET");
    assert_eq!(HttpMethod::POST.to_string(), "POST");
    assert_eq!(HttpMethod::PUT.to_string(), "PUT");
    assert_eq!(HttpMethod::PATCH.to_string(), "PATCH");
    assert_eq!(HttpMethod::DELETE.to_string(), "DELETE");
}

#[test]
fn method_roundtrip_every_method() {
    for m in [HttpMethod::GET, HttpMethod::POST, HttpMethod::PUT, HttpMethod::PATCH, HttpMethod::DELETE] {
        assert_eq!(HttpMethod::from_str(&m.to_string()), Ok(m));
    }
}

#[test]
fn method_parse_ignores_case() {
    assert_eq!(HttpMethod::from_str("get"), Ok(HttpMethod::GET));
    assert_eq!(HttpMethod::from_str("Post"), Ok(HttpMethod::POST));
    assert_eq!(HttpMethod::from_str("pUt"), Ok(HttpMethod::PUT));
    assert_eq!(HttpMethod::from_str("patch"), Ok(HttpMethod::PATCH));
    assert_eq!(HttpMethod::from_str("delete"), Ok(HttpMethod::DELETE));
}

#[test]
fn method_parse_unicode_uppercase() {
    // U+017F LATIN SMALL LETTER LONG S upper-cases to 'S'.
    assert_eq!(HttpMethod::from_str("po\u{17f}t"), Ok(HttpMethod::POST));
}

#[test]
fn method_parse_unknown() {
    assert_eq!(HttpMethod::from_str("FETCH"), Err("Method Not Found: FETCH".to_string()));
    assert_eq!(HttpMethod::from_str(""), Err("Method Not Found: ".to_string()));
    assert_eq!(HttpMethod::from_str(" GET"), Err("Method Not Found:  GET".to_string()));
}
