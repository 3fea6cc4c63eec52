pub mod metrics_render;
