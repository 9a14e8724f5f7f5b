//! Hierarchical terminal progress display: text layout, metric formatting,
//! job state and the decisions of the display coordinator.
pub mod text;
pub mod format;
pub mod status;
pub mod job;
pub mod measure;
pub mod progress_bar;
pub mod placeholder;
pub mod flex;
pub mod layout;
pub mod metrics;
pub mod osc;
pub mod registry;
pub mod coordinator;
pub mod progress;
pub mod template;
