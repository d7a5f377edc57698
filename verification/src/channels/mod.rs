//! What the messaging channels share.
pub mod attachments;
pub mod session_init;
