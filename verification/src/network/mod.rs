//! What the viewer reads from the exporters.
pub mod probe_parser;
pub mod round_trip;
