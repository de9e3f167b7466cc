//! The verified core of an HTTP API performance test tool: reading the
//! configuration and the request bodies, planning the requests, classifying
//! and counting their outcomes, and naming the report files.  Sending the
//! requests, timing them and writing the reports is left to the program that
//! uses this library.
pub mod text;
pub mod method;
pub mod headers;
pub mod json;
pub mod config;
pub mod bodies;
pub mod outcome;
pub mod summary;
pub mod plan;
pub mod client;
pub mod progress;
pub mod outputs;

pub use method::HttpMethod;
pub use headers::{Headers, parse_headers};
pub use config::{CliArgs, TestConfig, default_true, validate_config};
pub use bodies::{bodies_from_text, checked_bodies_from_text};
pub use outcome::{ResponseOutcome, classify_response};
pub use summary::{OutcomeCounts, count_outcomes};
pub use plan::{RequestSlot, plan_requests, order_by_request_id, total_requests_for};
pub use client::{ClientSettings, client_settings, effective_body};
pub use progress::{make_progress_bar, report_interval, should_report};
pub use outputs::{ConfigSource, config_source, summary_json_path};
