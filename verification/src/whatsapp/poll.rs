//! Inbound poll votes: which options a vote names, and how it reads.
use vstd::prelude::*;

use super::jid::read_jid;
use crate::search::{join, join_strs, law_join_holds_each, lemma_tells, lemma_tells_more, tells};
use crate::text::{cat4, copy_strs, views};
use crate::window::{entry_of, newest, without, Window};

verus! {

/// The digest by which a vote names a poll option, as `wacore` computes it.
pub uninterp spec fn option_digest(option: Seq<char>) -> Seq<u8>;

/// `wacore::poll::compute_option_hash`: the SHA-256 digest of the option's
/// text. The contract names it and states its length.
#[verifier::external_body]
pub(crate) fn hash_option(option: &str) -> (r: Vec<u8>)
    ensures
        r@ == option_digest(option@),
        r@.len() == 32,
{
    wacore::poll::compute_option_hash(option).to_vec()
}

pub open spec fn byte_views(v: Seq<Vec<u8>>) -> Seq<Seq<u8>> {
    v.map_values(|b: Vec<u8>| b@)
}

/// Whether a vote names an option.
pub open spec fn names(selected: Seq<Seq<u8>>, option: Seq<char>) -> bool {
    selected.contains(option_digest(option))
}

/// The options of a poll that a vote names, in the poll's order.
pub open spec fn chosen(selected: Seq<Seq<u8>>, options: Seq<Seq<char>>) -> Seq<Seq<char>>
    decreases options.len(),
{
    if options.len() == 0 {
        Seq::empty()
    } else {
        let init = chosen(selected, options.drop_last());
        if names(selected, options.last()) {
            init.push(options.last())
        } else {
            init
        }
    }
}

fn same_bytes(a: &Vec<u8>, b: &Vec<u8>) -> (r: bool)
    ensures
        r == (a@ == b@),
{
    if a.len() != b.len() {
        return false;
    }
    let mut i: usize = 0;
    while i < a.len()
        invariant
            i <= a.len(),
            a.len() == b.len(),
            forall|k: int| 0 <= k < i ==> a@[k] == b@[k],
        decreases a.len() - i,
    {
        if a[i] != b[i] {
            return false;
        }
        i = i + 1;
    }
    assert(a@ =~= b@);
    true
}

fn holds(list: &Vec<Vec<u8>>, x: &Vec<u8>) -> (r: bool)
    ensures
        r == byte_views(list@).contains(x@),
{
    let mut i: usize = 0;
    while i < list.len()
        invariant
            i <= list.len(),
            forall|k: int| 0 <= k < i ==> byte_views(list@)[k] != x@,
        decreases list.len() - i,
    {
        if same_bytes(&list[i], x) {
            assert(byte_views(list@)[i as int] == x@);
            return true;
        }
        i = i + 1;
    }
    false
}

/// Turns the hashes of a decrypted vote back into option labels. Hashes that
/// match no option are dropped; the order is the poll's, not the vote's.
pub fn resolve_options(selected: &Vec<Vec<u8>>, options: &Vec<String>) -> (r: Vec<String>)
    ensures
        views(r@) == chosen(byte_views(selected@), views(options@)),
{
    let mut out: Vec<String> = Vec::new();
    let mut i: usize = 0;
    assert(views(options@).take(0) =~= Seq::empty());
    assert(views(out@) =~= Seq::empty());
    while i < options.len()
        invariant
            i <= options.len(),
            views(out@) == chosen(byte_views(selected@), views(options@).take(i as int)),
        decreases options.len() - i,
    {
        assert(views(options@).take(i + 1).drop_last() =~= views(options@).take(i as int));
        let hash = hash_option(options[i].as_str());
        if holds(selected, &hash) {
            let ghost pre = views(out@);
            out.push(options[i].clone());
            assert(views(out@) =~= pre.push(options@[i as int]@));
        }
        i = i + 1;
    }
    assert(views(options@).take(i as int) =~= views(options@));
    out
}

/// A vote as a line for the agent; a vote that names nothing says nothing.
pub open spec fn vote_line(voter: Seq<char>, chosen: Seq<Seq<char>>) -> Option<Seq<char>> {
    if chosen.len() == 0 {
        None
    } else {
        Some("[poll vote] "@ + voter + " chose: "@ + join(chosen, ", "@))
    }
}

/// Renders a vote for the agent.
pub fn describe_vote(voter: &str, chosen: &Vec<String>) -> (r: Option<String>)
    ensures
        match r {
            Some(s) => vote_line(voter@, views(chosen@)) == Some(s@),
            None => vote_line(voter@, views(chosen@)) is None,
        },
{
    if chosen.len() == 0 {
        return None;
    }
    Some(cat4("[poll vote] ", voter, " chose: ", join_strs(chosen, ", ").as_str()))
}

/// How many polls are tracked.
pub const POLL_CAPACITY: usize = 100;

/// Option lists of the polls this account created, by message id.
pub struct PollOptions {
    pub inner: Window<Vec<String>>,
}

impl PollOptions {
    pub open spec fn wf(&self) -> bool {
        self.inner.wf() && self.inner.capacity == POLL_CAPACITY
    }

    pub fn new() -> (r: Self)
        ensures
            r.wf(),
            r.inner.entries@.len() == 0,
    {
        PollOptions { inner: Window::with_capacity(POLL_CAPACITY) }
    }

    /// Remembers the options of a poll; one without id or options is ignored.
    pub fn remember(&mut self, message_id: String, options: Vec<String>)
        requires
            old(self).wf(),
        ensures
            final(self).wf(),
            final(self).inner.entries@ == if message_id@.len() == 0 || options@.len() == 0 {
                old(self).inner.entries@
            } else {
                newest(
                    without(old(self).inner.entries@, message_id@).push((message_id, options)),
                    POLL_CAPACITY as int,
                )
            },
    {
        if message_id.as_str().is_empty() || options.len() == 0 {
            return;
        }
        self.inner.remember(message_id, options);
    }

    /// The options of a poll, if it is still inside the window.
    pub fn get(&self, message_id: &str) -> (r: Option<Vec<String>>)
        ensures
            match r {
                Some(v) => entry_of(self.inner.entries@, message_id@) is Some && v@
                    == self.inner.entries@[entry_of(self.inner.entries@, message_id@)->0].1@,
                None => entry_of(self.inner.entries@, message_id@) is None,
            },
    {
        match self.inner.get(message_id) {
            Some(v) => Some(copy_strs(v)),
            None => None,
        }
    }

    pub fn len(&self) -> (n: usize)
        ensures
            n == self.inner.entries@.len(),
    {
        self.inner.len()
    }
}

/// The parts of a poll update that decoding reads.
pub struct PollUpdate {
    /// Whether the update names the poll it belongs to.
    pub has_key: bool,
    pub poll_id: Option<String>,
    pub remote_jid: Option<String>,
    pub enc_payload: Option<Vec<u8>>,
    pub enc_iv: Option<Vec<u8>>,
}

/// What is needed to decrypt a vote.
pub struct VoteLookup {
    pub poll_id: String,
    /// The address under which the poll's author is stored.
    pub creator: String,
    /// The author's address for decryption.
    pub creator_jid: String,
    pub payload: Vec<u8>,
    pub iv: Vec<u8>,
    /// The options of the poll.
    pub options: Vec<String>,
}

/// Whether an update can be decoded at all: it names a tracked poll and
/// carries a ciphertext.
pub open spec fn decodable(update: PollUpdate, polls: PollOptions) -> bool {
    &&& update.has_key
    &&& update.poll_id is Some
    &&& entry_of(polls.inner.entries@, update.poll_id->0@) is Some
    &&& update.enc_payload is Some
    &&& update.enc_iv is Some
}

/// First half of decoding a vote: what to look up and decrypt, or `None` where
/// nothing useful can be said. `chat` is the chat's address.
pub fn decode_vote(update: PollUpdate, polls: &PollOptions, chat: &str) -> (r: Option<VoteLookup>)
    ensures
        r is Some <==> decodable(update, *polls),
        match r {
            Some(v) => {
                &&& v.poll_id@ == update.poll_id->0@
                &&& v.creator@ == (match update.remote_jid {
                    Some(j) => j@,
                    None => chat@,
                })
                &&& v.creator_jid@ == (match update.remote_jid {
                    Some(j) => match super::jid::jid_reading(j@) {
                        Ok(t) => t,
                        Err(_) => chat@,
                    },
                    None => chat@,
                })
                &&& Some(v.payload) == update.enc_payload
                &&& Some(v.iv) == update.enc_iv
                &&& v.options@ == polls.inner.entries@[entry_of(
                    polls.inner.entries@,
                    update.poll_id->0@,
                )->0].1@
            },
            None => true,
        },
{
    if !update.has_key {
        return None;
    }
    match (update.poll_id, update.enc_payload, update.enc_iv) {
        (Some(poll_id), Some(payload), Some(iv)) => {
            match polls.get(poll_id.as_str()) {
                Some(options) => {
                    let creator = match &update.remote_jid {
                        Some(j) => j.clone(),
                        None => chat.to_owned(),
                    };
                    let creator_jid = match &update.remote_jid {
                        Some(j) => match read_jid(j.as_str()) {
                            Ok(t) => t,
                            Err(_) => chat.to_owned(),
                        },
                        None => chat.to_owned(),
                    };
                    Some(VoteLookup { poll_id, creator, creator_jid, payload, iv, options })
                },
                None => None,
            }
        },
        _ => None,
    }
}

/// Second half of decoding a vote: the line for the agent, given the hashes
/// that decryption brought, or `None` where it failed.
pub fn decoded_vote(voter: &str, selected: Option<Vec<Vec<u8>>>, options: &Vec<String>) -> (r:
    Option<String>)
    ensures
        selected is None ==> r is None,
        selected is Some ==> match r {
            Some(s) => vote_line(
                voter@,
                chosen(byte_views(selected->0@), views(options@)),
            ) == Some(s@),
            None => chosen(byte_views(selected->0@), views(options@)).len() == 0,
        },
{
    match selected {
        Some(hashes) => describe_vote(voter, &resolve_options(&hashes, options)),
        None => None,
    }
}

/// Two votes that pick the same options read identically, in whatever order
/// they name them.
pub proof fn law_vote_order_does_not_matter(
    a: Seq<Seq<u8>>,
    b: Seq<Seq<u8>>,
    options: Seq<Seq<char>>,
)
    requires
        forall|h: Seq<u8>| #![trigger a.contains(h)] #![trigger b.contains(h)] a.contains(h) == b.contains(h),
    ensures
        chosen(a, options) == chosen(b, options),
    decreases options.len(),
{
    if options.len() > 0 {
        law_vote_order_does_not_matter(a, b, options.drop_last());
        assert(a.contains(option_digest(options.last())) == b.contains(
            option_digest(options.last()),
        ));
    }
}

proof fn lemma_chosen_add(selected: Seq<Seq<u8>>, a: Seq<Seq<char>>, b: Seq<Seq<char>>)
    ensures
        chosen(selected, a + b) == chosen(selected, a) + chosen(selected, b),
    decreases b.len(),
{
    if b.len() == 0 {
        assert(a + b =~= a);
        assert(chosen(selected, a) + chosen(selected, b) =~= chosen(selected, a));
    } else {
        assert((a + b).drop_last() =~= a + b.drop_last());
        lemma_chosen_add(selected, a, b.drop_last());
        assert(chosen(selected, a + b) =~= chosen(selected, a) + chosen(selected, b));
    }
}

/// A vote reads as the options whose digests it holds, each where it stands in
/// the poll, and no others.
pub proof fn law_named_options_are_read(
    selected: Seq<Seq<u8>>,
    a: Seq<Seq<char>>,
    option: Seq<char>,
    b: Seq<Seq<char>>,
)
    ensures
        chosen(selected, a.push(option) + b) == if selected.contains(option_digest(option)) {
            chosen(selected, a).push(option) + chosen(selected, b)
        } else {
            chosen(selected, a) + chosen(selected, b)
        },
        chosen(selected, Seq::empty()).len() == 0,
{
    lemma_chosen_add(selected, a.push(option), b);
    assert(a.push(option).drop_last() =~= a);
}

/// The line of a vote names the voter and every option chosen; a vote for
/// nothing has no line.
pub proof fn law_vote_line_names_voter_and_options(voter: Seq<char>, options: Seq<Seq<char>>, i: int)
    ensures
        vote_line(voter, options) is None <==> options.len() == 0,
        0 <= i < options.len() ==> tells(vote_line(voter, options)->0, voter + " chose: "@) && tells(
            vote_line(voter, options)->0,
            options[i],
        ),
{
    if 0 <= i < options.len() {
        let t = vote_line(voter, options)->0;
        let list = join(options, ", "@);
        law_join_holds_each(options, ", "@, i);
        let p = voter + " chose: "@;
        assert(t =~= "[poll vote] "@ + p + list);
        lemma_tells(t, "[poll vote] "@, p, list);
        let e = Seq::<char>::empty();
        assert(t =~= ("[poll vote] "@ + p) + list + e);
        lemma_tells_more(t, "[poll vote] "@ + p, list, e, options[i]);
    }
}

/// Which votes can be decoded: those for a tracked poll, with what decryption
/// needs.
pub proof fn law_decodable_votes(update: PollUpdate, polls: PollOptions)
    ensures
        !update.has_key || update.poll_id is None || update.enc_payload is None || update.enc_iv
            is None ==> !decodable(update, polls),
        update.has_key && update.enc_payload is Some && update.enc_iv is Some && update.poll_id
            is Some && entry_of(polls.inner.entries@, update.poll_id->0@) is Some ==> decodable(
            update,
            polls,
        ),
        update.poll_id is Some && entry_of(polls.inner.entries@, update.poll_id->0@) is None
            ==> !decodable(update, polls),
        POLL_CAPACITY == 100,
{
}

} // verus!
