//! Verified core of an accelerator monitor: probes, parsers and terminal views.
pub mod api;
pub mod app_state;
pub mod common;
pub mod device;
pub mod network;
pub mod numeral;
pub mod order;
pub mod probes;
pub mod reading;
pub mod service_cmd;
pub mod single;
pub mod table;
pub mod text;
pub mod total;
pub mod ui;
pub mod view;
