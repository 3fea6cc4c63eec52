//! Devices and the hosts that carry them.
pub mod macos_native;
pub mod types;
