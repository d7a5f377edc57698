//! Self-reactions on completion turns.
use vstd::prelude::*;

use crate::text::oview;

verus! {

/// Acknowledges a finished multi-step turn.
pub const COMPLETION_EMOJI: &'static str = "✅";

/// The fields of a reaction message.
pub struct Reaction {
    pub remote_jid: String,
    pub from_me: bool,
    pub id: String,
    /// `None` removes the reaction.
    pub text: Option<String>,
    pub sender_timestamp_ms: i64,
}

/// A reaction to one of our own messages. An empty emoji removes it.
pub fn build_self_reaction(chat_jid: &str, message_id: &str, emoji: &str, timestamp_ms: i64) -> (r:
    Reaction)
    ensures
        r.remote_jid@ == chat_jid@,
        r.from_me,
        r.id@ == message_id@,
        oview(r.text) == if emoji@.len() == 0 {
            None
        } else {
            Some(emoji@)
        },
        r.sender_timestamp_ms == timestamp_ms,
{
    Reaction {
        remote_jid: chat_jid.to_owned(),
        from_me: true,
        id: message_id.to_owned(),
        text: if emoji.is_empty() {
            None
        } else {
            Some(emoji.to_owned())
        },
        sender_timestamp_ms: timestamp_ms,
    }
}

} // verus!
