use api_perf_test::{default_true, validate_config, CliArgs, Headers, HttpMethod, TestConfig};

fn args() -> CliArgs {
    CliArgs {
        url: Some("https://httpbin.org/get".to_string()),
        method: "GET".to_string(),
        body: None,
        body_file: None,
        headers: None,
        parallel: 8,
        requests: 100,
        timeout: 30000,
        insecure: false,
        no_redirect: false,
        csv_output: "results.csv".to_string(),
        summary_output: "summary.txt".to_string(),
        test_name: "API Performance Test".to_string(),
        config_file: None,
    }
}

fn config(url: &str) -> TestConfig {
    TestConfig {
        url: url.to_string(),
        method: HttpMethod::GET,
        body: None,
        body_file: None,
        headers: Headers::new(),
        parallel_limit: 4,
        total_requests: 10,
        timeout_ms: 1000,
        danger_accept_invalid_certs: false,
        follow_redirects: true,
        csv_output: "results.csv".to_string(),
        summary_output: "summary.txt".to_string(),
        test_name: "t".to_string(),
    }
}

#[test]
fn default_true_is_true() {
    assert!(default_true());
}

#[test]
fn from_cli_defaults() {
    let c = TestConfig::from_cli(&args()).unwrap();
    assert_eq!(c.url, "https://httpbin.org/get");
    assert_eq!(c.method, HttpMethod::GET);
    assert!(c.body.is_none());
    assert!(c.body_file.is_none());
    assert_eq!(c.headers.len(), 0);
    assert_eq!(c.parallel_limit, 8);
    assert_eq!(c.total_requests, 100);
    assert_eq!(c.timeout_ms, 30000);
    assert!(!c.danger_accept_invalid_certs);
    assert!(c.follow_redirects);
    assert_eq!(c.csv_output, "results.csv");
    assert_eq!(c.summary_output, "summary.txt");
    assert_eq!(c.test_name, "API Performance Test");
}

#[test]
fn from_cli_readme_post_example() {
    let mut a = args();
    a.url = Some("https://your-api.com/api/login".to_string());
    a.method = "POST".to_string();
    a.body = Some("{\"username\":\"admin\",\"password\":\"secret\"}".to_string());
    a.headers = Some("Authorization:Bearer TOKEN123,X-App-Id:myapp".to_string());
    a.parallel = 8;
    a.requests = 200;
    a.timeout = 5000;
    a.insecure = true;
    a.no_redirect = true;
    a.body_file = Some("bodies.txt".to_string());
    a.test_name = "Login API Test".to_string();
    let c = TestConfig::from_cli(&a).unwrap();
    assert_eq!(c.method, HttpMethod::POST);
    let expected: serde_json::Value = serde_json::from_str("{\"username\":\"admin\",\"password\":\"secret\"}").unwrap();
    assert_eq!(c.body, Some(expected));
    assert_eq!(c.headers.get(&"X-App-Id".to_string()), Some(&"myapp".to_string()));
    assert_eq!(c.total_requests, 200);
    assert_eq!(c.timeout_ms, 5000);
    assert!(c.danger_accept_invalid_certs);
    assert!(!c.follow_redirects);
    assert_eq!(c.body_file, Some("bodies.txt".to_string()));
    assert_eq!(c.test_name, "Login API Test");
}

#[test]
fn from_cli_bad_method() {
    let mut a = args();
    a.method = "TRACE".to_string();
    assert_eq!(TestConfig::from_cli(&a).err(), Some("Error parsing method: Method Not Found: TRACE".to_string()));
}

#[test]
fn from_cli_bad_body() {
    let mut a = args();
    a.body = Some("{\"a\":".to_string());
    let serde_error = serde_json::from_str::<serde_json::Value>("{\"a\":").unwrap_err();
    assert_eq!(TestConfig::from_cli(&a).err(), Some(format!("Error parsing JSON body: {}", serde_error)));
}

#[test]
fn from_cli_bad_headers() {
    let mut a = args();
    a.headers = Some("nocolon".to_string());
    assert_eq!(TestConfig::from_cli(&a).err(), Some("Format header is wrong: 'nocolon'. use :  'Key:Value'".to_string()));
}

#[test]
fn from_cli_missing_url() {
    let mut a = args();
    a.url = None;
    assert_eq!(TestConfig::from_cli(&a).err(), Some("--url should be entered if not used --config-file".to_string()));
}

#[test]
fn from_cli_method_error_comes_first() {
    let mut a = args();
    a.url = None;
    a.method = "nope".to_string();
    a.headers = Some("bad".to_string());
    assert_eq!(TestConfig::from_cli(&a).err(), Some("Error parsing method: Method Not Found: nope".to_string()));
}

#[test]
fn validate_accepts_good_config() {
    assert_eq!(validate_config(&config("https://example.com")), Ok(()));
    assert_eq!(validate_config(&config("http://localhost:8080/x")), Ok(()));
}

#[test]
fn validate_empty_url() {
    assert_eq!(validate_config(&config("")), Err("URL should not be empty".to_string()));
}

#[test]
fn validate_bad_scheme() {
    assert_eq!(
        validate_config(&config("ftp://example.com")),
        Err("URL not valid (required http:// atau https://): ftp://example.com".to_string())
    );
    assert_eq!(
        validate_config(&config("HTTP://example.com")),
        Err("URL not valid (required http:// atau https://): HTTP://example.com".to_string())
    );
}

#[test]
fn validate_zero_parallel() {
    let mut c = config("https://x");
    c.parallel_limit = 0;
    assert_eq!(validate_config(&c), Err("parallel_limit must >= 1".to_string()));
}

#[test]
fn validate_zero_requests() {
    let mut c = config("https://x");
    c.total_requests = 0;
    assert_eq!(validate_config(&c), Err("total_requests must >= 1 (or use body file)".to_string()));
    c.body_file = Some("bodies.txt".to_string());
    assert_eq!(validate_config(&c), Ok(()));
}

#[test]
fn validate_zero_timeout() {
    let mut c = config("https://x");
    c.timeout_ms = 0;
    assert_eq!(validate_config(&c), Err("timeout_ms must >= 1".to_string()));
}

#[test]
fn default_config_values() {
    let c = <TestConfig as Default>::default();
    assert_eq!(c.url, "https://httpbin.org/post");
    assert_eq!(c.method, HttpMethod::POST);
    let body: serde_json::Value = serde_json::from_str("{\"test\":\"api_performance\",\"timestamp\":\"auto\"}").unwrap();
    assert_eq!(c.body, Some(body));
    assert!(c.body_file.is_none());
    assert_eq!(c.headers.len(), 2);
    assert_eq!(c.headers.get(&"Content-Type".to_string()), Some(&"application/json".to_string()));
    assert_eq!(c.headers.get(&"Accept".to_string()), Some(&"application/json".to_string()));
    assert_eq!(c.parallel_limit, 8);
    assert_eq!(c.total_requests, 100);
    assert_eq!(c.timeout_ms, 30_000);
    assert!(!c.danger_accept_invalid_certs);
    assert!(c.follow_redirects);
    assert_eq!(c.csv_output, "results.csv");
    assert_eq!(c.summary_output, "summary.txt");
    assert_eq!(c.test_name, "Default API Test");
    assert_eq!(validate_config(&c), Ok(()));
}
