//! The Consolidated tab: every accelerator across the scraped hosts as one
//! system.
pub mod history;
pub mod listing;
pub mod model;
pub mod panel;
pub mod phases;
pub mod pipeline;
pub mod pipeline_render;
pub mod pipeline_view;
pub mod recording;
pub mod render;
pub mod row;
pub mod shown;
pub mod totals;
pub mod whole;
