//! What one request came to: its status, whether it succeeded, its error and
//! the size of its response.
use vstd::prelude::*;
use crate::config::opt_text;

verus! {

/// The plain part of a request record.
pub struct ResponseOutcome {
    /// The HTTP status; 0 when no response came.
    pub status_code: u16,
    /// Whether the status is 2xx.
    pub success: bool,
    /// Why no response came, if none did.
    pub error_message: Option<String>,
    /// The size of the response body in bytes.
    pub response_size_bytes: usize,
}

/// Whether `code` is a success status (2xx).
pub open spec fn is_success_status(code: u16) -> bool {
    200 <= code < 300
}

/// The outcome of a request that got a response (status and body size) or
/// failed with an error.
pub fn classify_response(result: Result<(u16, usize), String>) -> (r: ResponseOutcome)
    ensures
        match result {
            Ok((code, size)) => {
                &&& r.status_code == code
                &&& r.success == (200 <= code && code < 300)
                &&& r.error_message is None
                &&& r.response_size_bytes == size
            },
            Err(e) => {
                &&& r.status_code == 0
                &&& !r.success
                &&& opt_text(r.error_message) == Some(e@)
                &&& r.response_size_bytes == 0
            },
        },
{
    match result {
        Ok((status_code, response_size)) => {
            let success = status_code >= 200 && status_code < 300;
            ResponseOutcome {
                status_code,
                success,
                error_message: None,
                response_size_bytes: response_size,
            }
        },
        Err(e) => ResponseOutcome {
            status_code: 0,
            success: false,
            error_message: Some(e),
            response_size_bytes: 0,
        },
    }
}

/// A response is successful exactly when its status lies in 200..=299.
pub proof fn law_success_is_2xx(code: u16)
    ensures
        is_success_status(code) <==> (200 <= code && code <= 299),
{
}

} // verus!
