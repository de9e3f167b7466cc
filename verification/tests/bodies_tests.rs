use api_perf_test::{bodies_from_text, checked_bodies_from_text};
use serde_json::Value;

fn json(s: &str) -> Value {
    serde_json::from_str(s).unwrap()
}

#[test]
fn bodies_one_per_line() {
    let r = bodies_from_text("{\"a\":1}\n{\"b\":2}\n", "bodies.txt").unwrap();
    assert_eq!(r, vec![json("{\"a\":1}"), json("{\"b\":2}")]);
}

#[test]
fn bodies_blank_lines_and_crlf() {
    let r = bodies_from_text("\r\n  {\"a\":1}  \r\n\n\t\n[1,2]\r\n", "f").unwrap();
    assert_eq!(r, vec![json("{\"a\":1}"), json("[1,2]")]);
}

#[test]
fn bodies_without_final_newline() {
    let r = bodies_from_text("1\n\"x\"", "f").unwrap();
    assert_eq!(r, vec![json("1"), json("\"x\"")]);
}

#[test]
fn bodies_errors_listed_with_line_numbers() {
    let content = "{\"a\":1}\nnot json\n\n{bad\n";
    let e1 = serde_json::from_str::<Value>("not json").unwrap_err();
    let e2 = serde_json::from_str::<Value>("{bad").unwrap_err();
    let expected = format!(
        "found 2 invalid line from JSON  'in.txt':\n  Line 2: {} → \"not json\"\n  Line 4: {} → \"{{bad\"",
        e1, e2
    );
    assert_eq!(bodies_from_text(content, "in.txt"), Err(expected));
}

#[test]
fn bodies_long_line_preview_is_60_bytes() {
    let line = format!("x{}", "y".repeat(79));
    let e = serde_json::from_str::<Value>(&line).unwrap_err();
    let expected = format!(
        "found 1 invalid line from JSON  'p':\n  Line 1: {} → \"{}\"",
        e,
        &line[..60]
    );
    assert_eq!(bodies_from_text(&line, "p"), Err(expected.clone()));
    assert_eq!(checked_bodies_from_text(&line, "p"), Some(Err(expected)));
}

#[test]
fn bodies_empty_file() {
    assert_eq!(
        bodies_from_text("", "empty.txt"),
        Err("File 'empty.txt' doest not have valid JSON line (empty file?)".to_string())
    );
    assert_eq!(
        bodies_from_text(" \n\n  \n", "blank.txt"),
        Err("File 'blank.txt' doest not have valid JSON line (empty file?)".to_string())
    );
}

#[test]
fn bodies_preview_inside_character_is_refused() {
    // 59 ASCII bytes, then a 2-byte character: byte 60 is inside it.
    let line = format!("{}é and more text", "a".repeat(59));
    assert_eq!(checked_bodies_from_text(&line, "p"), None);
}

#[test]
fn bodies_checked_agrees_when_fine() {
    let r = checked_bodies_from_text("{}\n", "p");
    assert_eq!(r, Some(Ok(vec![json("{}")])));
}
