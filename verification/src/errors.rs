//! The error taxonomy of the client: configuration, transport, HTTP status,
//! decoding and stream-framing failures, each a distinct variant so that no
//! failure is silently defaulted.

use vstd::prelude::*;

verus! {

/// A failure surfaced to the caller of the client.
#[derive(Debug)]
pub enum ClientError {
    /// The required credential (API key) is missing.
    ConfigError,
    /// The HTTP call itself failed (connection, DNS, timeout).
    TransportError { message: String },
    /// The server answered with a non-2xx status; the raw body is kept.
    HttpStatusError { status: u16, body: Vec<u8> },
    /// A body or a stream event did not decode as the expected JSON shape.
    DecodeError { message: String },
    /// A malformed SSE record was encountered.
    StreamFramingError,
}

impl ClientError {
    /// The HTTP status carried by an `HttpStatusError`, if this is one.
    pub fn status(&self) -> (r: Option<u16>)
        ensures
            r == (match self {
                ClientError::HttpStatusError { status, .. } => Some(*status),
                _ => None::<u16>,
            }),
    {
        match self {
            ClientError::HttpStatusError { status, .. } => Some(*status),
            _ => None,
        }
    }
}

} // verus!
