//! Telegram intake.
pub mod raw_updates;
