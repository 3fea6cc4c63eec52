//! Apple Silicon: power from energy counters, clocks from residency.
pub mod channel_filter;
pub mod clocks;
pub mod energy;
pub mod ioreport;
pub mod rails;
