//! Edit-in-place streaming delivery: one living message that grows.
use vstd::prelude::*;

use super::outbox::OutboxEntry;
use crate::search::{join, join_strs, lemma_tells, tells};
use crate::text::{cat3, str_eq, trim, trimmed, views};

verus! {

/// Per-message text ceiling, in characters.
pub const CHUNK_LIMIT: usize = 4000;

/// What to do with the next piece of streamed text.
pub enum Delivery {
    /// Edit the tracked message so it reads exactly this.
    Edit(String),
    /// Post this as a new message.
    Send(String),
}

/// The tracked text with a chunk under it.
pub open spec fn grown(body: Seq<char>, chunk: Seq<char>) -> Seq<char> {
    body + "\n\n"@ + trimmed(chunk)
}

/// Whether the tracked message takes the chunk.
pub open spec fn grows(current: Option<&str>, chunk: Seq<char>, limit: nat) -> bool {
    current is Some && grown(current->0@, chunk).len() <= limit
}

/// Decides between growing the tracked message and starting a new one. The
/// limit counts characters.
pub fn plan(current: Option<&str>, chunk: &str, limit: usize) -> (r: Delivery)
    ensures
        match r {
            Delivery::Edit(s) => grows(current, chunk@, limit as nat) && s@ == grown(
                current->0@,
                chunk@,
            ),
            Delivery::Send(s) => !grows(current, chunk@, limit as nat) && s@ == trimmed(chunk@),
        },
{
    let chunk = trim(chunk);
    match current {
        None => Delivery::Send(chunk.to_owned()),
        Some(body) => {
            let merged = cat3(body, "\n\n", chunk);
            let n: usize = merged.as_str().unicode_len();
            if n <= limit {
                Delivery::Edit(merged)
            } else {
                Delivery::Send(chunk.to_owned())
            }
        },
    }
}

/// The chunks, trimmed, without those that are blank.
pub open spec fn solid(chunks: Seq<Seq<char>>) -> Seq<Seq<char>>
    decreases chunks.len(),
{
    if chunks.len() == 0 {
        Seq::empty()
    } else if trimmed(chunks.last()).len() == 0 {
        solid(chunks.drop_last())
    } else {
        solid(chunks.drop_last()).push(trimmed(chunks.last()))
    }
}

/// Joins the chunks of a burst into one payload.
pub fn coalesce(chunks: &Vec<String>) -> (r: String)
    ensures
        r@ == join(solid(views(chunks@)), "\n\n"@),
{
    let mut parts: Vec<String> = Vec::new();
    let mut i: usize = 0;
    assert(views(chunks@).take(0) =~= Seq::empty());
    assert(views(parts@) =~= Seq::empty());
    while i < chunks.len()
        invariant
            i <= chunks.len(),
            views(parts@) == solid(views(chunks@).take(i as int)),
        decreases chunks.len() - i,
    {
        assert(views(chunks@).take(i + 1).drop_last() =~= views(chunks@).take(i as int));
        let c = trim(chunks[i].as_str());
        if !c.is_empty() {
            let ghost pre = views(parts@);
            parts.push(c.to_owned());
            assert(views(parts@) =~= pre.push(c@));
        }
        i = i + 1;
    }
    assert(views(chunks@).take(i as int) =~= views(chunks@));
    join_strs(&parts, "\n\n")
}

/// What delivering a chunk asks for.
pub enum DeliverStep {
    /// Edit that message so it reads exactly `full`.
    Edit { message_id: String, full: String },
    /// Post `text` as a new message, under the header where it opens the turn.
    SendNew { text: String, with_header: bool },
}

/// Delivers one coalesced chunk, editing the tracked message when possible.
pub fn deliver(current: Option<&OutboxEntry>, chunk: &str) -> (r: DeliverStep)
    ensures
        match (current, r) {
            (Some(e), DeliverStep::Edit { message_id, full }) => message_id@ == e.message_id@
                && full@ == grown(e.body@, chunk@) && full@.len() <= CHUNK_LIMIT,
            (Some(e), DeliverStep::SendNew { text, with_header }) => !with_header && text@
                == trimmed(chunk@) && grown(e.body@, chunk@).len() > CHUNK_LIMIT,
            (None, DeliverStep::SendNew { text, with_header }) => with_header && text@ == trimmed(
                chunk@,
            ),
            (None, DeliverStep::Edit { .. }) => false,
        },
{
    match current {
        Some(entry) => match plan(Some(entry.body.as_str()), chunk, CHUNK_LIMIT) {
            Delivery::Edit(full) => DeliverStep::Edit {
                message_id: entry.message_id.clone(),
                full,
            },
            Delivery::Send(text) => DeliverStep::SendNew { text, with_header: false },
        },
        None => match plan(None, chunk, CHUNK_LIMIT) {
            Delivery::Send(text) => DeliverStep::SendNew { text, with_header: true },
            Delivery::Edit(text) => DeliverStep::SendNew { text, with_header: true },
        },
    }
}

/// What follows an edit.
pub enum AfterEdit {
    /// Record the new full text.
    UpdateBody,
    /// Forget the tracked message and post the chunk as a new one, without
    /// header: failure degrades, it never drops.
    ClearAndSend,
}

/// Reacts to the outcome of an edit.
pub fn after_edit(accepted: bool) -> (r: AfterEdit)
    ensures
        r is UpdateBody <==> accepted,
{
    if accepted {
        AfterEdit::UpdateBody
    } else {
        AfterEdit::ClearAndSend
    }
}

/// The body of a new message.
pub open spec fn new_body(header: Seq<char>, text: Seq<char>, with_header: bool) -> Seq<char> {
    if with_header && header.len() > 0 {
        header + "\n\n"@ + trimmed(text)
    } else {
        trimmed(text)
    }
}

/// The body of a new message, under the header where it opens the turn.
pub fn body_of_new(header: &str, text: &str, with_header: bool) -> (r: String)
    ensures
        r@ == new_body(header@, text@, with_header),
{
    if with_header && !header.is_empty() {
        cat3(header, "\n\n", trim(text))
    } else {
        trim(text).to_owned()
    }
}

/// What brings the tracked message up to the finished answer.
pub enum FinalStep {
    /// The streamed messages stand as the delivery.
    LeaveAsIs,
    /// The tracked message already reads like the answer.
    AlreadyThere,
    /// Edit that message to the finished text.
    Edit { message_id: String },
}

/// Decides how to bring the turn's tracked message up to the finished answer.
pub fn finalize(current: Option<&OutboxEntry>, full_text: &str) -> (r: FinalStep)
    ensures
        match current {
            None => r is LeaveAsIs,
            Some(e) => if trimmed(e.body@) == trimmed(full_text@) {
                r is AlreadyThere
            } else if full_text@.len() > CHUNK_LIMIT {
                r is LeaveAsIs
            } else {
                r is Edit && r->message_id@ == e.message_id@
            },
        },
{
    match current {
        None => FinalStep::LeaveAsIs,
        Some(entry) => {
            if str_eq(trim(entry.body.as_str()), trim(full_text)) {
                return FinalStep::AlreadyThere;
            }
            let n: usize = full_text.unicode_len();
            if n > CHUNK_LIMIT {
                return FinalStep::LeaveAsIs;
            }
            FinalStep::Edit { message_id: entry.message_id.clone() }
        },
    }
}

/// Growing keeps what the message shows: the old text is the front of the new.
pub proof fn law_growing_keeps_the_text(body: Seq<char>, chunk: Seq<char>)
    ensures
        grown(body, chunk).take(body.len() as int) == body,
        grown(body, chunk).skip(body.len() as int) == "\n\n"@ + trimmed(chunk),
{
    assert(grown(body, chunk).take(body.len() as int) =~= body);
    assert(grown(body, chunk).skip(body.len() as int) =~= "\n\n"@ + trimmed(chunk));
}

/// A tracked message takes a chunk as long as the whole stays within the
/// limit, which counts characters; without one nothing grows.
pub proof fn law_messages_grow_to_the_limit(body: &str, chunk: Seq<char>, limit: nat)
    ensures
        grows(Some(body), chunk, limit) <==> body@.len() + 2 + trimmed(chunk).len() <= limit,
        !grows(None, chunk, limit),
        CHUNK_LIMIT == 4000,
{
    reveal_strlit("\n\n");
    assert("\n\n"@.len() == 2);
}

proof fn lemma_solid_adds(a: Seq<Seq<char>>, b: Seq<Seq<char>>)
    ensures
        solid(a + b) == solid(a) + solid(b),
    decreases b.len(),
{
    if b.len() == 0 {
        assert(a + b =~= a);
        assert(solid(a) + solid(b) =~= solid(a));
    } else {
        assert((a + b).drop_last() =~= a + b.drop_last());
        lemma_solid_adds(a, b.drop_last());
        assert(solid(a + b) =~= solid(a) + solid(b));
    }
}

/// Every chunk that says something is delivered, trimmed and in order.
pub proof fn law_no_chunk_is_lost(a: Seq<Seq<char>>, chunk: Seq<char>, b: Seq<Seq<char>>)
    ensures
        trimmed(chunk).len() > 0 ==> solid(a.push(chunk) + b) == solid(a).push(trimmed(chunk))
            + solid(b),
        trimmed(chunk).len() == 0 ==> solid(a.push(chunk) + b) == solid(a) + solid(b),
{
    lemma_solid_adds(a.push(chunk), b);
    assert(a.push(chunk).drop_last() =~= a);
}

/// A new message shows its text, and its header where it opens the turn.
pub proof fn law_new_messages_show_their_text(header: Seq<char>, text: Seq<char>)
    ensures
        tells(new_body(header, text, true), trimmed(text)),
        new_body(header, text, false) == trimmed(text),
        header.len() > 0 ==> new_body(header, text, true) == header + "\n\n"@ + trimmed(text),
        header.len() == 0 ==> new_body(header, text, true) == trimmed(text),
{
    let t = new_body(header, text, true);
    let none = Seq::<char>::empty();
    if header.len() > 0 {
        assert(t =~= (header + "\n\n"@) + trimmed(text) + none);
        lemma_tells(t, header + "\n\n"@, trimmed(text), none);
    } else {
        assert(t =~= none + trimmed(text) + none);
        lemma_tells(t, none, trimmed(text), none);
    }
}

} // verus!
