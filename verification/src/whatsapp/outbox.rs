//! The last editable message of each session.
use std::collections::HashMap;
use vstd::prelude::*;
use vstd::std_specs::hash::*;

verus! {

broadcast use vstd::std_specs::hash::group_hash_axioms;

/// WhatsApp refuses an edit older than 15 minutes; in nanoseconds.
pub const EDIT_WINDOW: u64 = 900_000_000_000;

/// A message that was sent and may still be edited.
pub struct OutboxEntry {
    pub message_id: String,
    /// Full text currently displayed.
    pub body: String,
    /// When the original send landed, in nanoseconds of the wall clock.
    pub sent_at: u64,
}

/// Whether a message sent at `sent_at` is inside its edit window. A clock that
/// jumped backwards counts as inside.
pub open spec fn within_window(sent_at: u64, now: u64) -> bool {
    now < sent_at || now - sent_at < EDIT_WINDOW
}

impl OutboxEntry {
    /// A message that was sent at `now`.
    pub fn new(message_id: String, body: String, now: u64) -> (r: Self)
        ensures
            r == (OutboxEntry { message_id, body, sent_at: now }),
    {
        OutboxEntry { message_id, body, sent_at: now }
    }

    /// Whether the message may still be edited at `now`.
    pub fn editable(&self, now: u64) -> (r: bool)
        ensures
            r == within_window(self.sent_at, now),
    {
        now < self.sent_at || now - self.sent_at < EDIT_WINDOW
    }

    /// A copy of the entry.
    pub fn dup(&self) -> (r: Self)
        ensures
            r == *self,
    {
        OutboxEntry {
            message_id: self.message_id.clone(),
            body: self.body.clone(),
            sent_at: self.sent_at,
        }
    }
}

/// One entry per session: a turn only ever edits the message it is growing.
pub struct Outbox {
    pub entries: HashMap<u128, OutboxEntry>,
}

impl Outbox {
    pub fn new() -> (r: Self)
        ensures
            r.entries@ == Map::<u128, OutboxEntry>::empty(),
    {
        Outbox { entries: HashMap::new() }
    }

    /// Remembers a freshly sent message, replacing the session's entry.
    pub fn record(&mut self, session: u128, entry: OutboxEntry)
        ensures
            final(self).entries@ == old(self).entries@.insert(session, entry),
    {
        self.entries.insert(session, entry);
    }

    /// The session's entry, if any.
    pub fn get(&self, session: u128) -> (r: Option<OutboxEntry>)
        ensures
            match r {
                Some(e) => self.entries@.dom().contains(session) && e == self.entries@[session],
                None => !self.entries@.dom().contains(session),
            },
    {
        match self.entries.get(&session) {
            Some(e) => Some(e.dup()),
            None => None,
        }
    }

    /// Replaces the stored body after an edit. False where the session has no
    /// entry.
    pub fn set_body(&mut self, session: u128, body: String) -> (r: bool)
        ensures
            r == old(self).entries@.dom().contains(session),
            final(self).entries@ == if r {
                old(self).entries@.insert(
                    session,
                    OutboxEntry { body, ..old(self).entries@[session] },
                )
            } else {
                old(self).entries@
            },
    {
        match self.get(session) {
            Some(e) => {
                self.entries.insert(session, OutboxEntry { body, ..e });
                true
            },
            None => false,
        }
    }

    /// Forgets the session's entry.
    pub fn clear(&mut self, session: u128) -> (r: Option<OutboxEntry>)
        ensures
            final(self).entries@ == old(self).entries@.remove(session),
            match r {
                Some(e) => old(self).entries@.dom().contains(session) && e == old(
                    self).entries@[session],
                None => !old(self).entries@.dom().contains(session),
            },
    {
        let r = self.get(session);
        self.entries.remove(&session);
        r
    }

    /// Number of tracked sessions.
    pub fn len(&self) -> (n: usize)
        ensures
            n == self.entries@.len(),
    {
        self.entries.len()
    }

    /// The session's message, if its edit window is still open; a stale entry
    /// is dropped.
    pub fn editable_outbound(&mut self, session: u128, now: u64) -> (r: Option<OutboxEntry>)
        ensures
            ({
                let open = old(self).entries@.dom().contains(session) && within_window(
                    old(self).entries@[session].sent_at,
                    now,
                );
                &&& r is Some <==> open
                &&& open ==> r == Some(old(self).entries@[session]) && final(self).entries@ == old(
                    self).entries@
                &&& !open ==> final(self).entries@ == old(self).entries@.remove(session)
            }),
    {
        match self.get(session) {
            Some(e) => {
                if e.editable(now) {
                    Some(e)
                } else {
                    self.entries.remove(&session);
                    None
                }
            },
            None => {
                assert(self.entries@ =~= self.entries@.remove(session));
                None
            },
        }
    }
}

// -------------------------------------------------------------------- laws
/// A message can be edited for fifteen minutes from when it was sent, and not
/// after.
pub proof fn law_edit_window(sent_at: u64, now: u64)
    ensures
        within_window(sent_at, sent_at),
        now >= sent_at ==> (within_window(sent_at, now) <==> now - sent_at < 15 * 60
            * 1_000_000_000),
        now < sent_at ==> within_window(sent_at, now),
{
}

} // verus!
