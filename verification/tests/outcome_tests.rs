use api_perf_test::{classify_response, count_outcomes, ResponseOutcome};

fn outcome(code: u16) -> ResponseOutcome {
    classify_response(Ok((code, 10)))
}

#[test]
fn classify_success_range() {
    let o = classify_response(Ok((200, 42)));
    assert_eq!(o.status_code, 200);
    assert!(o.success);
    assert_eq!(o.error_message, None);
    assert_eq!(o.response_size_bytes, 42);
    assert!(classify_response(Ok((299, 0))).success);
    assert!(!classify_response(Ok((199, 0))).success);
    assert!(!classify_response(Ok((300, 0))).success);
    assert!(!classify_response(Ok((404, 0))).success);
}

#[test]
fn classify_network_error() {
    let o = classify_response(Err("connection refused".to_string()));
    assert_eq!(o.status_code, 0);
    assert!(!o.success);
    assert_eq!(o.error_message, Some("connection refused".to_string()));
    assert_eq!(o.response_size_bytes, 0);
}

#[test]
fn counts_and_distribution() {
    let outcomes = vec![
        outcome(404),
        outcome(200),
        classify_response(Err("timeout".to_string())),
        outcome(200),
        outcome(500),
        outcome(201),
    ];
    let c = count_outcomes(&outcomes);
    assert_eq!(c.total_sent, 6);
    assert_eq!(c.successful, 3);
    assert_eq!(c.failed, 3);
    assert_eq!(c.status_code_distribution, "0:1, 200:2, 201:1, 404:1, 500:1");
}

#[test]
fn counts_empty() {
    let c = count_outcomes(&Vec::new());
    assert_eq!(c.total_sent, 0);
    assert_eq!(c.successful, 0);
    assert_eq!(c.failed, 0);
    assert_eq!(c.status_code_distribution, "");
}

#[test]
fn distribution_counts_add_up() {
    let outcomes: Vec<ResponseOutcome> = (0..50u16).map(|i| outcome(200 + (i % 3) * 100 + i % 2)).collect();
    let c = count_outcomes(&outcomes);
    let sum: usize = c
        .status_code_distribution
        .split(", ")
        .map(|e| e.split(':').nth(1).unwrap().parse::<usize>().unwrap())
        .sum();
    assert_eq!(sum, 50);
    assert_eq!(c.successful + c.failed, c.total_sent);
}

#[test]
fn distribution_extreme_codes() {
    let c = count_outcomes(&vec![outcome(65535), outcome(0), outcome(65535)]);
    assert_eq!(c.status_code_distribution, "0:1, 65535:2");
}
