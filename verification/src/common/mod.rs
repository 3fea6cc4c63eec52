//! Shared pieces: remote endpoints and time spans.
pub mod http_hosts;
pub mod span;
pub mod url_parts;
