use api_perf_test::text::{
    chars_of, decimal_string, ends_with, find_in, join_strings, split_chars, starts_with,
    string_of, trim_chars,
};

fn trim(s: &str) -> String {
    string_of(&trim_chars(&chars_of(s)))
}

#[test]
fn trim_matches_std() {
    for s in ["", "  ", " a ", "\t\r\nx y\u{3000}", "\u{a0}z\u{2028}", "abc", "\u{200b}k"] {
        assert_eq!(trim(s), s.trim());
    }
}

#[test]
fn split_matches_std() {
    for s in ["", ",", "a,b", ",a,,b,", "abc"] {
        let pieces: Vec<String> = split_chars(&chars_of(s), ',').iter().map(|p| string_of(p)).collect();
        let expected: Vec<String> = s.split(',').map(|p| p.to_string()).collect();
        assert_eq!(pieces, expected);
    }
}

#[test]
fn decimal_matches_display() {
    for n in [0u64, 7, 10, 99, 100, 65535, u64::MAX] {
        assert_eq!(decimal_string(n), n.to_string());
    }
}

#[test]
fn prefix_suffix_find() {
    assert!(starts_with(&chars_of("https://x"), &chars_of("https://")));
    assert!(!starts_with(&chars_of("http"), &chars_of("http://")));
    assert!(ends_with(&chars_of("a.txt"), &chars_of(".txt")));
    assert!(!ends_with(&chars_of("txt"), &chars_of(".txt")));
    assert_eq!(find_in(&chars_of("a:b:c"), ':'), Some(1));
    assert_eq!(find_in(&chars_of("abc"), ':'), None);
}

#[test]
fn join_with_separator() {
    let parts = vec!["a".to_string(), "b".to_string(), "c".to_string()];
    assert_eq!(join_strings(&parts, ", "), "a, b, c");
    assert_eq!(join_strings(&Vec::new(), ", "), "");
}
