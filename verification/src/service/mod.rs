//! Parts of the agent service.
pub mod context_rows;
pub mod failure_window;
pub mod lang_config;
pub mod memory_recall;
