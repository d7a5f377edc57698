//! The ACP bridge: dispatch, turns, and the catalogs a client renders.
pub mod catalog;
pub mod server;
pub mod turn;
