//! Client-side core for a hosted large-language-model HTTP API: request
//! schemas and builders with an exactly specified wire JSON format, response
//! interpretation and validation, and a Server-Sent-Events (SSE) chunk
//! decoder that reassembles arbitrarily fragmented byte streams into
//! discrete payload records.

pub mod client;
pub mod errors;
pub mod json;
pub mod parse;
pub mod read;
pub mod schema;
pub mod sse;
pub mod stream;
pub mod wire;
