//! The WhatsApp channel.
pub mod agent;
pub mod blocklist;
pub mod broadcast;
pub mod ephemeral;
pub mod followups;
pub mod inbound;
pub mod jid;
pub mod media_retry;
pub mod newsletter;
pub mod outbox;
pub mod poll;
pub mod rate_limit;
pub mod reaction;
pub mod recent;
pub mod resume;
pub mod store;
pub mod stream;
pub mod voice_note;
