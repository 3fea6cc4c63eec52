pub mod kept;
pub mod local_collector;
pub mod pipeline_poller;
