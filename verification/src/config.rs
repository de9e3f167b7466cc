//! The test configuration: what the command line gives, how it becomes a
//! configuration, and which configurations a test may run with.
use vstd::prelude::*;
use crate::headers::{Headers, parse_headers, parse_header_text};
use crate::json::{json_parse, parse_json, parse_default_body, default_body_text};
use crate::method::{HttpMethod, parse_method};
use crate::text::{chars_of, has_prefix, push_str, starts_with};

verus! {

/// The arguments of the command line.
pub struct CliArgs {
    pub url: Option<String>,
    pub method: String,
    pub body: Option<String>,
    pub body_file: Option<String>,
    pub headers: Option<String>,
    pub parallel: usize,
    pub requests: usize,
    pub timeout: u64,
    pub insecure: bool,
    pub no_redirect: bool,
    pub csv_output: String,
    pub summary_output: String,
    pub test_name: String,
    pub config_file: Option<String>,
}

/// Everything a test runs with.
pub struct TestConfig {
    pub url: String,
    pub method: HttpMethod,
    pub body: Option<serde_json::Value>,
    pub body_file: Option<String>,
    pub headers: Headers,
    pub parallel_limit: usize,
    pub total_requests: usize,
    pub timeout_ms: u64,
    pub danger_accept_invalid_certs: bool,
    pub follow_redirects: bool,
    pub csv_output: String,
    pub summary_output: String,
    pub test_name: String,
}

/// The view of an optional string.
pub open spec fn opt_text(o: Option<String>) -> Option<Seq<char>> {
    match o {
        Some(s) => Some(s@),
        None => None,
    }
}

/// The value that a configuration file leaves unset for `follow_redirects`.
pub fn default_true() -> (b: bool)
    ensures
        b,
{
    true
}

/// The error that building a configuration from `args` meets first, if any:
/// the method, then the JSON body, then the headers, then the URL.
pub open spec fn cli_error(args: CliArgs) -> Option<Seq<char>> {
    match parse_method(args.method@) {
        Err(e) => Some("Error parsing method: "@ + e),
        Ok(_) => {
            if args.body is Some && json_parse(args.body->0@) is Err {
                Some("Error parsing JSON body: "@ + json_parse(args.body->0@)->Err_0)
            } else {
                match parse_header_text(opt_text(args.headers)) {
                    Err(e) => Some(e),
                    Ok(_) => {
                        if args.url is None {
                            Some("--url should be entered if not used --config-file"@)
                        } else {
                            None
                        }
                    },
                }
            }
        },
    }
}

/// The configuration built from `args` when `cli_error(args)` is `None`.
pub open spec fn cli_config_matches(c: TestConfig, args: CliArgs) -> bool {
    &&& Some(c.url@) == opt_text(args.url)
    &&& parse_method(args.method@) == Ok::<HttpMethod, Seq<char>>(c.method)
    &&& c.body == (match args.body {
        None => None,
        Some(b) => Some(json_parse(b@)->Ok_0),
    })
    &&& opt_text(c.body_file) == opt_text(args.body_file)
    &&& parse_header_text(opt_text(args.headers)) == Ok::<Map<Seq<char>, Seq<char>>, Seq<char>>(c.headers@)
    &&& c.parallel_limit == args.parallel
    &&& c.total_requests == args.requests
    &&& c.timeout_ms == args.timeout
    &&& c.danger_accept_invalid_certs == args.insecure
    &&& c.follow_redirects == !args.no_redirect
    &&& c.csv_output@ == args.csv_output@
    &&& c.summary_output@ == args.summary_output@
    &&& c.test_name@ == args.test_name@
}

/// A copy of an optional string.
pub fn clone_opt_string(o: &Option<String>) -> (r: Option<String>)
    ensures
        opt_text(r) == opt_text(*o),
{
    match o {
        Some(s) => Some(s.clone()),
        None => None,
    }
}

/// The error text `prefix` followed by `detail`.
fn error_with(prefix: &str, detail: &str) -> (s: String)
    ensures
        s@ == prefix@ + detail@,
{
    let mut s = String::from_str(prefix);
    push_str(&mut s, detail);
    s
}

impl TestConfig {
    /// Builds the configuration that the command line describes.
    pub fn from_cli(args: &CliArgs) -> (r: Result<TestConfig, String>)
        ensures
            match cli_error(*args) {
                Some(e) => r matches Err(msg) && msg@ == e,
                None => r matches Ok(c) && cli_config_matches(c, *args),
            },
    {
        let method = match HttpMethod::from_str(args.method.as_str()) {
            Ok(m) => m,
            Err(e) => {
                return Err(error_with("Error parsing method: ", e.as_str()));
            },
        };
        let body = match &args.body {
            Some(body_str) => match parse_json(body_str.as_str()) {
                Ok(v) => Some(v),
                Err(e) => {
                    return Err(error_with("Error parsing JSON body: ", e.as_str()));
                },
            },
            None => None,
        };
        let header_text: Option<&str> = match &args.headers {
            Some(h) => Some(h.as_str()),
            None => None,
        };
        assert(crate::headers::opt_view(header_text) == opt_text(args.headers));
        let headers = match parse_headers(header_text) {
            Ok(h) => h,
            Err(e) => {
                return Err(e);
            },
        };
        let url = match &args.url {
            Some(u) => u.clone(),
            None => {
                return Err(String::from_str("--url should be entered if not used --config-file"));
            },
        };
        Ok(TestConfig {
            url,
            method,
            body,
            body_file: clone_opt_string(&args.body_file),
            headers,
            parallel_limit: args.parallel,
            total_requests: args.requests,
            timeout_ms: args.timeout,
            danger_accept_invalid_certs: args.insecure,
            follow_redirects: !args.no_redirect,
            csv_output: args.csv_output.clone(),
            summary_output: args.summary_output.clone(),
            test_name: args.test_name.clone(),
        })
    }
}

/// The first rule that `c` breaks, if any: the URL must be given and start
/// with `http://` or `https://`, at least one worker, at least one request
/// unless the bodies come from a file, and a timeout of at least 1 ms.
pub open spec fn config_error(c: TestConfig) -> Option<Seq<char>> {
    if c.url@.len() == 0 {
        Some("URL should not be empty"@)
    } else if !has_prefix(c.url@, "http://"@) && !has_prefix(c.url@, "https://"@) {
        Some("URL not valid (required http:// atau https://): "@ + c.url@)
    } else if c.parallel_limit == 0 {
        Some("parallel_limit must >= 1"@)
    } else if c.body_file is None && c.total_requests == 0 {
        Some("total_requests must >= 1 (or use body file)"@)
    } else if c.timeout_ms == 0 {
        Some("timeout_ms must >= 1"@)
    } else {
        None
    }
}

/// Checks that a configuration can be run.
pub fn validate_config(config: &TestConfig) -> (r: Result<(), String>)
    ensures
        match config_error(*config) {
            Some(e) => r matches Err(msg) && msg@ == e,
            None => r is Ok,
        },
{
    let url = chars_of(config.url.as_str());
    if url.len() == 0 {
        return Err(String::from_str("URL should not be empty"));
    }
    let http = chars_of("http://");
    let https = chars_of("https://");
    if !starts_with(&url, &http) && !starts_with(&url, &https) {
        return Err(error_with("URL not valid (required http:// atau https://): ", config.url.as_str()));
    }
    if config.parallel_limit == 0 {
        return Err(String::from_str("parallel_limit must >= 1"));
    }
    if config.body_file.is_none() && config.total_requests == 0 {
        return Err(String::from_str("total_requests must >= 1 (or use body file)"));
    }
    if config.timeout_ms == 0 {
        return Err(String::from_str("timeout_ms must >= 1"));
    }
    Ok(())
}

/// The default configuration: 100 POST requests to `https://httpbin.org/post`
/// by 8 workers with a 30 s timeout, a small JSON body and JSON headers,
/// following redirects and checking certificates.
pub open spec fn is_default_config(c: TestConfig) -> bool {
    &&& c.url@ == "https://httpbin.org/post"@
    &&& c.method == HttpMethod::POST
    &&& c.body is Some && json_parse(default_body_text()) == Ok::<serde_json::Value, Seq<char>>(c.body->0)
    &&& c.body_file is None
    &&& c.headers@ == Map::<Seq<char>, Seq<char>>::empty().insert("Content-Type"@, "application/json"@)
        .insert("Accept"@, "application/json"@)
    &&& c.parallel_limit == 8
    &&& c.total_requests == 100
    &&& c.timeout_ms == 30_000
    &&& !c.danger_accept_invalid_certs
    &&& c.follow_redirects
    &&& c.csv_output@ == "results.csv"@
    &&& c.summary_output@ == "summary.txt"@
    &&& c.test_name@ == "Default API Test"@
}

impl Default for TestConfig {
    /// The default configuration.
    fn default() -> (c: TestConfig)
        ensures
            is_default_config(c),
    {
        let mut headers = Headers::new();
        headers.insert(String::from_str("Content-Type"), String::from_str("application/json"));
        headers.insert(String::from_str("Accept"), String::from_str("application/json"));
        TestConfig {
            url: String::from_str("https://httpbin.org/post"),
            method: HttpMethod::POST,
            body: Some(parse_default_body("{\"test\":\"api_performance\",\"timestamp\":\"auto\"}")),
            body_file: None,
            headers,
            parallel_limit: 8,
            total_requests: 100,
            timeout_ms: 30_000,
            danger_accept_invalid_certs: false,
            follow_redirects: true,
            csv_output: String::from_str("results.csv"),
            summary_output: String::from_str("summary.txt"),
            test_name: String::from_str("Default API Test"),
        }
    }
}

/// A configuration built from the command line keeps every argument
/// unchanged in its field (the URL, the body file, the counts, the timeout,
/// the TLS choice, the output names and the test name), and follows
/// redirects exactly when `--no-redirect` is not given.
pub proof fn law_cli_arguments_copied(c: TestConfig, args: CliArgs)
    requires
        cli_config_matches(c, args),
    ensures
        args.url matches Some(u) && c.url@ == u@,
        match args.body_file {
            Some(f) => c.body_file matches Some(g) && g@ == f@,
            None => c.body_file is None,
        },
        c.parallel_limit == args.parallel,
        c.total_requests == args.requests,
        c.timeout_ms == args.timeout,
        c.danger_accept_invalid_certs == args.insecure,
        c.follow_redirects == !args.no_redirect,
        c.csv_output@ == args.csv_output@,
        c.summary_output@ == args.summary_output@,
        c.test_name@ == args.test_name@,
        (args.body is None) == (c.body is None),
{
}

/// A configuration passes validation exactly when its URL starts with
/// `http://` or `https://`, it has at least one worker, at least one request
/// or a body file, and a timeout of at least 1 ms.
pub proof fn law_valid_config(c: TestConfig)
    ensures
        config_error(c) is None <==> {
            &&& c.url@.len() > 0
            &&& (has_prefix(c.url@, "http://"@) || has_prefix(c.url@, "https://"@))
            &&& c.parallel_limit >= 1
            &&& (c.body_file is Some || c.total_requests >= 1)
            &&& c.timeout_ms >= 1
        },
{
}

/// Building a configuration from the command line succeeds exactly when the
/// method is known, the body (if any) is JSON, the headers are well formed
/// and a URL is given; an unknown method is reported before anything else,
/// and a missing URL only when all else is right.
pub proof fn law_cli_error_order(args: CliArgs)
    ensures
        cli_error(args) is None <==> {
            &&& parse_method(args.method@) is Ok
            &&& (args.body matches Some(b) ==> json_parse(b@) is Ok)
            &&& parse_header_text(opt_text(args.headers)) is Ok
            &&& args.url is Some
        },
        parse_method(args.method@) matches Err(e) ==> cli_error(args) == Some("Error parsing method: "@ + e),
        parse_method(args.method@) is Ok && (args.body matches Some(b) ==> json_parse(b@) is Ok)
            && parse_header_text(opt_text(args.headers)) is Ok && args.url is None
            ==> cli_error(args) == Some("--url should be entered if not used --config-file"@),
{
}

/// An empty URL is reported first, whatever else is wrong, and a URL
/// without `http://` or `https://` next.
pub proof fn law_config_error_order(c: TestConfig)
    ensures
        c.url@.len() == 0 ==> config_error(c) == Some("URL should not be empty"@),
        c.url@.len() > 0 && !has_prefix(c.url@, "http://"@) && !has_prefix(c.url@, "https://"@)
            ==> config_error(c) == Some("URL not valid (required http:// atau https://): "@ + c.url@),
{
}

} // verus!
