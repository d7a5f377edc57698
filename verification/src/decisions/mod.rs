//! Exact decision reuse: identity of a decision, and its accounting.
pub mod normalize;
pub mod report;
