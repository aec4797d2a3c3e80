//! Concurrency and protocol core of a minimal HTTP/1.1 server: a worker-pool
//! state machine with explicit submit/shutdown rules, and a byte-exact
//! parser and serializer for the line-oriented request/response framing.

use vstd::prelude::*;

pub mod bytes;
pub mod message;
pub mod pool;
pub mod request;
pub mod response;
pub mod laws;

pub use message::Headers;
pub use message::MessageBody;
pub use pool::PoolCore;
pub use request::HttpMethod;
pub use request::HttpRequest;
pub use request::RequestLine;
pub use response::HttpResponse;
pub use response::StatusCode;
pub use response::StatusLine;
pub use response::StatusRegistry;

verus! {

/// Why a raw request buffer could not be turned into an `HttpRequest`.
/// All parse failures are reported as values; the parser never panics.
#[derive(Debug, PartialEq, Eq)]
pub enum ParseError {
    /// No blank-line separator (CRLF CRLF) was found in the observed bytes.
    IncompleteRequest,
    /// The request line did not consist of exactly three space-separated tokens.
    MalformedRequestLine,
    /// The method token is not in the closed method enumeration; carries the token.
    UnsupportedMethod(Vec<u8>),
    /// A header line contained no colon; carries the offending line.
    MalformedHeader(Vec<u8>),
}

/// A status code that has no registered reason phrase.
#[derive(Debug, PartialEq, Eq)]
pub enum StatusError {
    UnknownStatusCode(u16),
}

/// Pool-level failures: both are recoverable values, never aborts.
#[derive(Debug, PartialEq, Eq)]
pub enum PoolError {
    /// A pool must have at least one worker.
    InvalidPoolSize,
    /// Submission was attempted after shutdown began.
    PoolClosed,
}

} // verus!
