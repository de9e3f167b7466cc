# api_perf_test

A tool that measures the performance of an HTTP API by sending requests in
parallel and reporting throughput, response times and status codes.

- `src/` is the library, written in Verus: configuration from the command
  line, header and request-body parsing, validation, the request plan, the
  classification and counting of responses, the progress display and the
  report paths. Each function carries a contract that Verus proves, except
  the few trusted wrappers around `serde_json` and the standard library
  (`src/json.rs`, `to_uppercase` in `src/method.rs`, `push_char` in
  `src/text.rs`), whose contracts are stated and believed, not proved.
- `app/` is the program around it: argument parsing with clap, reading and
  writing files, the HTTP client (reqwest), the tokio runtime, timing, and the
  floating-point statistics (rates, averages, percentiles).
- `tests/` runs the library on concrete inputs.
