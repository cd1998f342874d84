//! Status codes, the answer to a request, and the error that ends a request
//! early.

use vstd::prelude::*;
use vstd::string::*;

verus! {

/// Status of an answer served from the cache.
pub const STATUS_OK: u16 = 200;

/// Status of a request whose path or token is rejected.
pub const STATUS_NOT_FOUND: u16 = 404;

/// Status of a request for an object larger than the configured limit.
pub const STATUS_PAYLOAD_TOO_LARGE: u16 = 413;

/// Status of a request that failed on the way to upstream.
pub const STATUS_INTERNAL_SERVER_ERROR: u16 = 500;

/// Whether `status` lies in the success class of HTTP status codes.
pub open spec fn spec_is_success(status: u16) -> bool {
    200 <= status < 300
}

/// Whether `status` lies in the success class of HTTP status codes.
#[verifier::when_used_as_spec(spec_is_success)]
pub fn is_success(status: u16) -> (r: bool)
    ensures
        r == spec_is_success(status),
{
    200 <= status && status < 300
}

/// The content type of an answer that carries the text of an error.
pub open spec fn text_type() -> Seq<char> {
    "text/plain; charset=utf-8"@
}

/// The answer to a request: a status, the value of the `content-type`
/// header if there is one, and the body.
#[derive(Debug, Clone)]
pub struct Response {
    pub status: u16,
    pub content_type: Option<String>,
    pub body: Vec<u8>,
}

/// An answer over sequences.
pub struct ResponseView {
    pub status: u16,
    pub content_type: Option<Seq<char>>,
    pub body: Seq<u8>,
}

impl View for Response {
    type V = ResponseView;

    open spec fn view(&self) -> ResponseView {
        ResponseView {
            status: self.status,
            content_type: self.content_type.deep_view(),
            body: self.body@,
        }
    }
}

/// The answer without header and body that rejects a request.
pub open spec fn empty_response(status: u16) -> ResponseView {
    ResponseView { status, content_type: None, body: Seq::empty() }
}

/// The answer that carries the text `reason` under `status`.
pub open spec fn error_response(reason: Seq<char>, status: u16) -> ResponseView {
    ResponseView {
        status,
        content_type: Some(text_type()),
        body: vstd::utf8::encode_utf8(reason),
    }
}

impl Response {
    /// An answer without header and body.
    pub fn empty(status: u16) -> (response: Response)
        ensures
            response@ == empty_response(status),
    {
        Response { status, content_type: None, body: Vec::new() }
    }
}

/// An error that ends a request: its text and the status it is answered
/// with.
#[derive(Debug, Clone)]
pub struct CustomError {
    pub reason: String,
    pub status: u16,
}

impl CustomError {
    /// An internal error with the text `reason`.
    pub fn reason(reason: String) -> (error: CustomError)
        ensures
            error.reason@ == reason@,
            error.status == STATUS_INTERNAL_SERVER_ERROR,
    {
        CustomError { reason, status: STATUS_INTERNAL_SERVER_ERROR }
    }

    /// An error with the text `reason`, answered with `status`.
    pub fn new(reason: String, status: u16) -> (error: CustomError)
        ensures
            error.reason@ == reason@,
            error.status == status,
    {
        CustomError { reason, status }
    }

    /// The answer that reports the error: its text as the body, under its
    /// status.
    pub fn respond_to(self) -> (response: Response)
        ensures
            response@ == error_response(self.reason@, self.status),
    {
        let body = self.reason.as_str().as_bytes_vec();
        Response {
            status: self.status,
            content_type: Some(String::from_str("text/plain; charset=utf-8")),
            body,
        }
    }
}

} // verus!
