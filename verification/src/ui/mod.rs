//! Terminal views.
pub mod cluster;
pub mod consolidated;
pub mod layout;
pub mod tabs;
pub mod theme;
