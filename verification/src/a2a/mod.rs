//! The A2A gateway: its address, its checks, and how tasks are stored.
pub mod persistence;
pub mod server;
