//! Delivering the result of a background task to the chat it came from.
use vstd::prelude::*;

use super::jid::{before_server, jid_reading, read_jid};
use super::rate_limit::GateOutcome;
use crate::search::{before, law_parts_around_a_character};

verus! {

/// What a finished background task does next.
pub enum ResumeStep {
    /// Nothing can be delivered.
    Drop,
    /// Ask the limiter, as or not as the owner, then go on with
    /// [`after_gate`].
    Gate { user: String },
    /// Send the result.
    Send,
    /// The daily cap parked the result for the drainer.
    Parked,
}

/// The part of an address that tells whether it is the owner's.
pub open spec fn owner_key(jid: Seq<char>) -> Seq<char> {
    before(jid, '@')
}

/// Decides on a result whose address reads as `valid`, before the limiter is
/// asked: the session needs a chat, the turn a result, the channel a
/// connection, and the chat a readable address.
pub fn deliverable(jid: Option<&str>, has_content: bool, connected: bool, valid: bool) -> (r:
    ResumeStep)
    ensures
        match r {
            ResumeStep::Gate { user } => jid is Some && has_content && connected && valid && user@
                == owner_key(jid->0@),
            ResumeStep::Drop => !(jid is Some && has_content && connected && valid),
            _ => false,
        },
{
    match jid {
        Some(j) => if has_content && connected && valid {
            ResumeStep::Gate { user: before_server(j).to_owned() }
        } else {
            ResumeStep::Drop
        },
        None => ResumeStep::Drop,
    }
}

/// Decides on a finished background task, before the limiter is asked.
pub fn resume(jid: Option<&str>, has_content: bool, connected: bool) -> (r: ResumeStep)
    ensures
        ({
            let go = jid is Some && has_content && connected && jid_reading(jid->0@) is Ok;
            match r {
                ResumeStep::Gate { user } => go && user@ == owner_key(jid->0@),
                ResumeStep::Drop => !go,
                _ => false,
            }
        }),
{
    let valid = match jid {
        Some(j) => read_jid(j).is_ok(),
        None => false,
    };
    deliverable(jid, has_content, connected, valid)
}

/// Goes on after the limiter answered.
pub fn after_gate(outcome: &GateOutcome) -> (r: ResumeStep)
    ensures
        r is Parked <==> outcome is Queued,
        r is Send <==> outcome is SendNow,
{
    match outcome {
        GateOutcome::Queued { .. } => ResumeStep::Parked,
        GateOutcome::SendNow => ResumeStep::Send,
    }
}

/// The owner is told by the part before the server, whatever the server.
pub proof fn law_owner_is_told_by_the_user(user: Seq<char>, server: Seq<char>)
    requires
        !user.contains('@'),
    ensures
        owner_key(user + seq!['@'] + server) == user,
        owner_key(user) == user,
{
    law_parts_around_a_character(user, '@', server);
}

} // verus!
