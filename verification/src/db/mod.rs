//! What the stored tables hold, as values.
pub mod decision_cache;
pub mod pending_followup;
pub mod session_skills;
