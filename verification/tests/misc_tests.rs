use api_perf_test::{
    client_settings, config_source, effective_body, make_progress_bar, report_interval,
    should_report, summary_json_path, CliArgs, ConfigSource, Headers, HttpMethod, TestConfig,
};

fn config(follow: bool) -> TestConfig {
    TestConfig {
        url: "https://x".to_string(),
        method: HttpMethod::POST,
        body: None,
        body_file: None,
        headers: Headers::new(),
        parallel_limit: 8,
        total_requests: 10,
        timeout_ms: 5000,
        danger_accept_invalid_certs: true,
        follow_redirects: follow,
        csv_output: "c".to_string(),
        summary_output: "s".to_string(),
        test_name: "t".to_string(),
    }
}

fn args(config_file: Option<&str>, url: Option<&str>) -> CliArgs {
    CliArgs {
        url: url.map(|s| s.to_string()),
        method: "GET".to_string(),
        body: None,
        body_file: None,
        headers: None,
        parallel: 8,
        requests: 100,
        timeout: 30000,
        insecure: false,
        no_redirect: false,
        csv_output: "results.csv".to_string(),
        summary_output: "summary.txt".to_string(),
        test_name: "API Performance Test".to_string(),
        config_file: config_file.map(|s| s.to_string()),
    }
}

#[test]
fn settings_follow_config() {
    let s = client_settings(&config(true));
    assert_eq!(s.request_timeout_ms, 5000);
    assert!(s.accept_invalid_certs);
    assert_eq!(s.max_redirects, Some(10));
    assert_eq!(s.pool_max_idle_per_host, 16);
    assert_eq!(s.tcp_keepalive_secs, 30);
    assert!(s.tcp_nodelay);
    assert_eq!(s.user_agent, "api-perf-test/1.0");
    assert_eq!(client_settings(&config(false)).max_redirects, None);
}

#[test]
fn body_override_wins() {
    let own: serde_json::Value = serde_json::from_str("{\"own\":1}").unwrap();
    let conf: serde_json::Value = serde_json::from_str("{\"conf\":2}").unwrap();
    assert_eq!(effective_body(Some(own.clone()), &Some(conf.clone())), Some(own));
    assert_eq!(effective_body(None, &Some(conf.clone())), Some(conf));
    assert_eq!(effective_body(None, &None), None);
}

#[test]
fn progress_bar_shapes() {
    assert_eq!(make_progress_bar(0), "░".repeat(20));
    assert_eq!(make_progress_bar(50), format!("{}{}", "█".repeat(10), "░".repeat(10)));
    assert_eq!(make_progress_bar(100), "█".repeat(20));
    assert_eq!(make_progress_bar(7), format!("{}{}", "█", "░".repeat(19)));
    assert_eq!(make_progress_bar(150), "█".repeat(30));
}

#[test]
fn progress_bar_width_up_to_100() {
    for pct in 0..=100 {
        assert_eq!(make_progress_bar(pct).chars().count(), 20);
    }
}

#[test]
fn progress_interval() {
    assert_eq!(report_interval(100), 10);
    assert_eq!(report_interval(9), 1);
    assert_eq!(report_interval(0), 1);
    assert_eq!(report_interval(205), 20);
}

#[test]
fn progress_reporting() {
    assert!(should_report(100, 100, 99, 10));
    assert!(should_report(20, 100, 10, 10));
    assert!(!should_report(19, 100, 10, 10));
    assert!(should_report(5, 5, 7, 1));
}

#[test]
fn json_summary_paths() {
    assert_eq!(summary_json_path("summary.txt"), "summary.json");
    assert_eq!(summary_json_path("output/summary.txt"), "output/summary.json");
    assert_eq!(summary_json_path("a.txt.b.txt"), "a.json.b.json");
    assert_eq!(summary_json_path("report"), "report.json");
    assert_eq!(summary_json_path("a.txt.md"), "a.txt.md.json");
    assert_eq!(summary_json_path(".txt"), ".json");
    assert_eq!(summary_json_path(""), ".json");
}

#[test]
fn config_source_priority() {
    assert_eq!(config_source(&args(Some("c.json"), Some("https://x"))), ConfigSource::File("c.json".to_string()));
    assert_eq!(config_source(&args(None, Some("https://x"))), ConfigSource::Cli);
    assert_eq!(config_source(&args(None, None)), ConfigSource::DefaultFile("config_example.json".to_string()));
}
