//! Error taxonomy of the gateway core and the HTTP status code each
//! failure is reported with.

use vstd::prelude::*;

verus! {

/// A request-scoped failure of the gateway.
///
/// Client errors are rejected before any backend is contacted; routing
/// errors mean some metric matched no registered backend; a backend
/// error in single-target mode fails the whole request; an internal
/// error is a failure to re-serialize an outbound or merged payload.
#[derive(Clone, Copy, Debug, PartialEq, Eq, Structural)]
pub enum GatewayError {
    /// The endpoint only accepts POST.
    MethodNotAllowed,
    /// Malformed JSON, or a missing/empty metrics array.
    BadRequest,
    /// The request body exceeded the configured byte ceiling.
    PayloadTooLarge,
    /// A metric matched no backend, or the chosen backend was unreachable.
    BadGateway,
    /// Re-serialization of a payload failed.
    Internal,
}

/// A startup-time configuration failure: some backend entry could not
/// be compiled into a route. Construction of the registry is atomic, so
/// one bad entry fails the whole startup.
#[derive(Debug)]
pub enum ConfigError {
    /// The entry's match pattern does not compile.
    InvalidPattern(String),
    /// The entry's base address does not parse as an absolute URL.
    InvalidUrl(String),
}

impl ConfigError {
    pub open spec fn spec_message(&self) -> Seq<char> {
        match self {
            ConfigError::InvalidPattern(p) => "Invalid backend pattern '"@ + p@ + "'"@,
            ConfigError::InvalidUrl(u) => "Invalid backend URL '"@ + u@ + "'"@,
        }
    }

    /// Human-readable description naming the offending entry.
    pub fn message(&self) -> (m: String)
        ensures
            m@ == self.spec_message(),
    {
        match self {
            ConfigError::InvalidPattern(p) => String::from_str(
                "Invalid backend pattern '",
            ).concat(p.as_str()).concat("'"),
            ConfigError::InvalidUrl(u) => String::from_str("Invalid backend URL '").concat(
                u.as_str(),
            ).concat("'"),
        }
    }
}

impl GatewayError {
    /// The HTTP status code this failure is reported with.
    pub fn status_code(&self) -> (code: u16)
        ensures
            code == self.spec_status_code(),
    {
        match self {
            GatewayError::MethodNotAllowed => 405,
            GatewayError::BadRequest => 400,
            GatewayError::PayloadTooLarge => 413,
            GatewayError::BadGateway => 502,
            GatewayError::Internal => 500,
        }
    }

    pub open spec fn spec_status_code(&self) -> u16 {
        match self {
            GatewayError::MethodNotAllowed => 405,
            GatewayError::BadRequest => 400,
            GatewayError::PayloadTooLarge => 413,
            GatewayError::BadGateway => 502,
            GatewayError::Internal => 500,
        }
    }
}

} // verus!
