//! Raw-aware update polling. Updates are fetched as JSON; every message's raw
//! payload is stashed, and a message whose content the typed client does not
//! know is rewritten as a plain text message before it is parsed.
use vstd::prelude::*;

use crate::json::{
    compact, find_member, integer, lemma_member_at, literal, member, member_at, member_views, pretty,
    render_object, rendered_member, rendered_object, text, to_compact, to_pretty, truth, Json,
};
use crate::search::{contains, dec_i64, decimal_int, has, join, matches_at};
use crate::text::{any_is, cat3, oview, str_views, truncate_str, within_bytes};

verus! {

// ------------------------------------------------------------------- stash
/// How many payloads the stash holds.
pub const STASH_CAP: usize = 128;

/// Raw payloads as JSON texts, under chat and message id, oldest first.
pub struct RawStash {
    pub entries: Vec<((i64, i32), String)>,
}

pub open spec fn stash_views(s: Seq<((i64, i32), String)>) -> Seq<((i64, i32), Seq<char>)> {
    s.map_values(|e: ((i64, i32), String)| (e.0, e.1@))
}

impl View for RawStash {
    type V = Seq<((i64, i32), Seq<char>)>;

    open spec fn view(&self) -> Seq<((i64, i32), Seq<char>)> {
        stash_views(self.entries@)
    }
}

/// The entries that are not under `key`.
pub open spec fn others(s: Seq<((i64, i32), Seq<char>)>, key: (i64, i32)) -> Seq<
    ((i64, i32), Seq<char>),
>
    decreases s.len(),
{
    if s.len() == 0 {
        s
    } else if s.last().0 == key {
        others(s.drop_last(), key)
    } else {
        others(s.drop_last(), key).push(s.last())
    }
}

/// The payload under `key`.
pub open spec fn payload(s: Seq<((i64, i32), Seq<char>)>, key: (i64, i32)) -> Option<Seq<char>>
    decreases s.len(),
{
    if s.len() == 0 {
        None
    } else if s.last().0 == key {
        Some(s.last().1)
    } else {
        payload(s.drop_last(), key)
    }
}

/// No key occurs twice, and the stash is not over its capacity.
pub open spec fn stash_ok(s: Seq<((i64, i32), Seq<char>)>) -> bool {
    &&& s.len() <= STASH_CAP
    &&& forall|i: int, j: int|
        0 <= i < j < s.len() ==> (#[trigger] s[i]).0 != (#[trigger] s[j]).0
}

/// The stash with a payload added: it replaces one under the same key, and the
/// oldest leaves a full stash.
pub open spec fn stashed(
    s: Seq<((i64, i32), Seq<char>)>,
    key: (i64, i32),
    raw: Seq<char>,
) -> Seq<((i64, i32), Seq<char>)> {
    let t = others(s, key).push((key, raw));
    if t.len() > STASH_CAP {
        t.skip(t.len() - STASH_CAP)
    } else {
        t
    }
}

proof fn lemma_others(s: Seq<((i64, i32), Seq<char>)>, key: (i64, i32))
    ensures
        others(s, key).len() <= s.len(),
        forall|i: int| 0 <= i < others(s, key).len() ==> (#[trigger] others(s, key)[i]).0 != key,
        forall|i: int|
            0 <= i < others(s, key).len() ==> s.contains(#[trigger] others(s, key)[i]),
        stash_ok(s) ==> stash_ok(others(s, key)),
        (forall|i: int| 0 <= i < s.len() ==> (#[trigger] s[i]).0 != key) ==> others(s, key) == s,
    decreases s.len(),
{
    if s.len() > 0 {
        let t = s.drop_last();
        lemma_others(t, key);
        let o = others(s, key);
        let ot = others(t, key);
        assert forall|i: int| 0 <= i < o.len() implies s.contains(#[trigger] o[i]) by {
            if i < ot.len() {
                assert(t.contains(ot[i]));
                let k = choose|k: int| 0 <= k < t.len() && t[k] == ot[i];
                assert(s[k] == o[i]);
            } else {
                assert(s[s.len() - 1] == o[i]);
            }
        }
        if stash_ok(s) {
            assert forall|i: int, j: int| 0 <= i < j < t.len() implies (#[trigger] t[i]).0 != (
            #[trigger] t[j]).0 by {
                assert(s[i].0 != s[j].0);
            }
            assert forall|i: int, j: int| 0 <= i < j < o.len() implies (#[trigger] o[i]).0 != (
            #[trigger] o[j]).0 by {
                if j >= ot.len() {
                    assert(t.contains(ot[i]));
                    let k = choose|k: int| 0 <= k < t.len() && t[k] == ot[i];
                    assert(s[k].0 != s[s.len() - 1].0);
                }
            }
        }
        if forall|i: int| 0 <= i < s.len() ==> (#[trigger] s[i]).0 != key {
            assert forall|i: int| 0 <= i < t.len() implies (#[trigger] t[i]).0 != key by {
                assert(s[i].0 != key);
            }
            assert(s[s.len() - 1].0 != key);
            assert(t.push(s.last()) =~= s);
        }
    }
}

/// With distinct keys, dropping the entry under `key` is removing it.
proof fn lemma_remove(s: Seq<((i64, i32), Seq<char>)>, key: (i64, i32), i: int)
    requires
        stash_ok(s),
        0 <= i < s.len(),
        s[i].0 == key,
    ensures
        others(s, key) == s.remove(i),
        payload(s, key) == Some(s[i].1),
    decreases s.len(),
{
    let t = s.drop_last();
    assert forall|a: int, b: int| 0 <= a < b < t.len() implies (#[trigger] t[a]).0 != (
    #[trigger] t[b]).0 by {
        assert(s[a].0 != s[b].0);
    }
    if i == s.len() - 1 {
        lemma_others(t, key);
        assert forall|k: int| 0 <= k < t.len() implies (#[trigger] t[k]).0 != key by {
            assert(s[k].0 != s[i].0);
        }
        assert(s.remove(i) =~= t);
    } else {
        assert(s[i].0 != s[s.len() - 1].0);
        lemma_remove(t, key, i);
        assert(t.remove(i).push(s.last()) =~= s.remove(i));
    }
}

proof fn lemma_absent(s: Seq<((i64, i32), Seq<char>)>, key: (i64, i32))
    ensures
        payload(s, key) is None <==> (forall|i: int|
            0 <= i < s.len() ==> (#[trigger] s[i]).0 != key),
    decreases s.len(),
{
    if s.len() > 0 {
        let t = s.drop_last();
        lemma_absent(t, key);
        assert forall|i: int| 0 <= i < t.len() implies #[trigger] t[i] == s[i] by {}
        if payload(s, key) is None {
            assert forall|i: int| 0 <= i < s.len() implies (#[trigger] s[i]).0 != key by {
                if i < t.len() {
                    assert(t[i].0 != key);
                }
            }
        } else if s.last().0 == key {
            assert(s[s.len() - 1].0 == key);
        } else {
            let i = choose|i: int| 0 <= i < t.len() && (#[trigger] t[i]).0 == key;
            assert(s[i].0 == key);
        }
    }
}

impl RawStash {
    pub fn new() -> (r: Self)
        ensures
            r@ == Seq::<((i64, i32), Seq<char>)>::empty(),
            stash_ok(r@),
    {
        let r = RawStash { entries: Vec::new() };
        assert(r@ =~= Seq::empty());
        r
    }

    fn index_of(&self, key: (i64, i32)) -> (r: Option<usize>)
        ensures
            match r {
                Some(i) => i < self.entries@.len() && self@[i as int].0 == key,
                None => payload(self@, key) is None,
            },
    {
        let mut i: usize = 0;
        while i < self.entries.len()
            invariant
                i <= self.entries.len(),
                forall|k: int| 0 <= k < i ==> (#[trigger] self@[k]).0 != key,
            decreases self.entries.len() - i,
        {
            assert(self@[i as int].0 == self.entries@[i as int].0);
            if self.entries[i].0.0 == key.0 && self.entries[i].0.1 == key.1 {
                return Some(i);
            }
            i = i + 1;
        }
        proof {
            lemma_absent(self@, key);
        }
        None
    }

    /// Stashes a message's payload.
    pub fn stash_raw_message(&mut self, chat_id: i64, message_id: i32, raw: String)
        requires
            stash_ok(old(self)@),
        ensures
            stash_ok(final(self)@),
            final(self)@ == stashed(old(self)@, (chat_id, message_id), raw@),
    {
        let key = (chat_id, message_id);
        let ghost s = self@;
        let ghost text = raw@;
        match self.index_of(key) {
            Some(i) => {
                proof {
                    lemma_remove(s, key, i as int);
                }
                let ghost e = self.entries@;
                self.entries.remove(i);
                assert(self@ =~= s.remove(i as int));
            },
            None => {
                proof {
                    lemma_absent(s, key);
                    lemma_others(s, key);
                }
            },
        }
        proof {
            lemma_others(s, key);
        }
        assert(self@ == others(s, key));
        self.entries.push((key, raw));
        assert(self@ =~= others(s, key).push((key, text)));
        let ghost t = self@;
        if self.entries.len() > STASH_CAP {
            self.entries.remove(0);
            assert(self@ =~= t.skip(1));
        }
        assert forall|i: int, j: int| 0 <= i < j < self@.len() implies (#[trigger] self@[i]).0 != (
        #[trigger] self@[j]).0 by {
            let d = t.len() - self@.len();
            assert(self@[i] == t[i + d] && self@[j] == t[j + d]);
            let o = others(s, key);
            assert(t[i + d] == o[i + d]);
            if j + d < o.len() {
                assert(t[j + d] == o[j + d]);
            }
        }
    }

    /// Takes a message's payload out of the stash.
    pub fn take_raw_message(&mut self, chat_id: i64, message_id: i32) -> (r: Option<String>)
        requires
            stash_ok(old(self)@),
        ensures
            stash_ok(final(self)@),
            oview(r) == payload(old(self)@, (chat_id, message_id)),
            final(self)@ == others(old(self)@, (chat_id, message_id)),
    {
        let key = (chat_id, message_id);
        let ghost s = self@;
        proof {
            lemma_others(s, key);
        }
        match self.index_of(key) {
            Some(i) => {
                proof {
                    lemma_remove(s, key, i as int);
                }
                let e = self.entries.remove(i);
                assert(self@ =~= s.remove(i as int));
                Some(e.1)
            },
            None => {
                proof {
                    lemma_absent(s, key);
                }
                None
            },
        }
    }
}

// ------------------------------------------------------------------ origin
/// A user's label: first and last name, and whether it is a bot.
pub open spec fn person(u: Json) -> Seq<char> {
    let first = match text(member(u, "first_name"@)) {
        Some(n) => n,
        None => "someone"@,
    };
    let full = match text(member(u, "last_name"@)) {
        Some(l) => first + " "@ + l,
        None => first,
    };
    if truth(member(u, "is_bot"@)) == Some(true) {
        full + " (bot)"@
    } else {
        full
    }
}

/// The title of a chat that stands under `key`.
pub open spec fn chat_title(origin: Json, key: Seq<char>) -> Option<Seq<char>> {
    match member(origin, key) {
        Some(c) => text(member(c, "title"@)),
        None => None,
    }
}

/// The label of a forward origin.
pub open spec fn origin_label(origin: Json) -> Seq<char> {
    match member(origin, "sender_user"@) {
        Some(u) => person(u),
        None => match text(member(origin, "sender_user_name"@)) {
            Some(n) => n,
            None => match chat_title(origin, "sender_chat"@) {
                Some(t) => t,
                None => match chat_title(origin, "chat"@) {
                    Some(t) => t,
                    None => "an unknown origin"@,
                },
            },
        },
    }
}

/// The label of where a message was forwarded from.
pub open spec fn forward_label(raw: Json) -> Option<Seq<char>> {
    match member(raw, "forward_origin"@) {
        Some(o) => Some(origin_label(o)),
        None => None,
    }
}

fn text_member<'a>(j: &'a Json, key: &str) -> (r: Option<&'a str>)
    ensures
        match r {
            Some(t) => text(member(*j, key@)) == Some(t@),
            None => text(member(*j, key@)) is None,
        },
{
    match j.get(key) {
        Some(v) => v.as_str(),
        None => None,
    }
}

fn person_label(u: &Json) -> (r: String)
    ensures
        r@ == person(*u),
{
    let mut label = match text_member(u, "first_name") {
        Some(n) => n.to_owned(),
        None => "someone".to_owned(),
    };
    if let Some(last) = text_member(u, "last_name") {
        label.append(" ");
        label.append(last);
    }
    let bot = match u.get("is_bot") {
        Some(v) => v.as_bool(),
        None => None,
    };
    if let Some(true) = bot {
        label.append(" (bot)");
    }
    label
}

fn title_under<'a>(origin: &'a Json, key: &str) -> (r: Option<&'a str>)
    ensures
        match r {
            Some(t) => chat_title(*origin, key@) == Some(t@),
            None => chat_title(*origin, key@) is None,
        },
{
    match origin.get(key) {
        Some(c) => text_member(c, "title"),
        None => None,
    }
}

/// Where a message was forwarded from, read off its raw payload.
pub fn raw_forward_origin(raw: &Json) -> (r: Option<String>)
    ensures
        oview(r) == forward_label(*raw),
{
    let origin = match raw.get("forward_origin") {
        Some(o) => o,
        None => return None,
    };
    if let Some(u) = origin.get("sender_user") {
        return Some(person_label(u));
    }
    if let Some(n) = text_member(origin, "sender_user_name") {
        return Some(n.to_owned());
    }
    if let Some(t) = title_under(origin, "sender_chat") {
        return Some(t.to_owned());
    }
    if let Some(t) = title_under(origin, "chat") {
        return Some(t.to_owned());
    }
    Some("an unknown origin".to_owned())
}

// ----------------------------------------------------------------- content
/// Keys of a message that the agent never needs.
pub open spec fn noise() -> Seq<Seq<char>> {
    seq![
        "from"@,
        "chat"@,
        "date"@,
        "message_id"@,
        "edit_date"@,
        "forward_origin"@,
        "has_protected_content"@,
        "sender_chat"@,
        "via_bot"@,
        "message_thread_id"@,
    ]
}

fn noise_keys() -> (r: Vec<&'static str>)
    ensures
        str_views(r@) == noise(),
{
    let r = vec![
        "from",
        "chat",
        "date",
        "message_id",
        "edit_date",
        "forward_origin",
        "has_protected_content",
        "sender_chat",
        "via_bot",
        "message_thread_id",
    ];
    assert(str_views(r@) =~= noise());
    r
}

/// The members whose key is not among `keys`, their values rendered.
pub open spec fn beyond(v: Seq<(String, Json)>, keys: Seq<Seq<char>>) -> Seq<
    (Seq<char>, Seq<char>),
>
    decreases v.len(),
{
    if v.len() == 0 {
        Seq::empty()
    } else if keys.contains(v.last().0@) {
        beyond(v.drop_last(), keys)
    } else {
        beyond(v.drop_last(), keys).push((v.last().0@, compact(v.last().1)))
    }
}

fn members_beyond(v: &Vec<(String, Json)>, keys: &Vec<&'static str>) -> (r: Vec<(String, String)>)
    ensures
        member_views(r@) == beyond(v@, str_views(keys@)),
{
    let mut out: Vec<(String, String)> = Vec::new();
    let mut i: usize = 0;
    assert(v@.take(0) =~= Seq::empty());
    assert(member_views(out@) =~= Seq::empty());
    while i < v.len()
        invariant
            i <= v.len(),
            member_views(out@) == beyond(v@.take(i as int), str_views(keys@)),
        decreases v.len() - i,
    {
        assert(v@.take(i + 1).drop_last() =~= v@.take(i as int));
        let ghost pre = member_views(out@);
        if !any_is(keys, v[i].0.as_str()) {
            out.push((v[i].0.clone(), to_compact(&v[i].1)));
            assert(member_views(out@) =~= pre.push((v@[i as int].0@, compact(v@[i as int].1))));
        }
        i = i + 1;
    }
    assert(v@.take(i as int) =~= v@);
    out
}

/// A payload without its noise, as JSON text.
pub open spec fn content_text(raw: Json) -> Seq<char> {
    match raw {
        Json::Object(v) => rendered_object(beyond(v@, noise())),
        _ => compact(raw),
    }
}

/// A JSON text on indented lines, or `otherwise`, cut to 4096 bytes.
pub open spec fn shown(indented: Option<Seq<char>>, otherwise: Seq<char>) -> Seq<char> {
    within_bytes(
        match indented {
            Some(t) => t,
            None => otherwise,
        },
        4096,
    )
}

/// A JSON text on indented lines, or `otherwise`, cut to 4096 bytes.
pub fn show(indented: Option<String>, otherwise: &str) -> (r: String)
    ensures
        r@ == shown(oview(indented), otherwise@),
{
    match &indented {
        Some(t) => truncate_str(t.as_str(), 4096).to_owned(),
        None => truncate_str(otherwise, 4096).to_owned(),
    }
}

/// A raw payload for the agent: without its noise, on indented lines, cut so
/// that a huge one cannot blow up the turn.
pub fn raw_content_for_agent(raw: &Json) -> (r: String)
    ensures
        r@ == shown(pretty(content_text(*raw)), content_text(*raw)),
{
    let content = match raw {
        Json::Object(v) => render_object(&members_beyond(v, &noise_keys())),
        _ => to_compact(raw),
    };
    show(to_pretty(content.as_str()), content.as_str())
}

/// Keys that count as content the typed client knows.
pub open spec fn known_content() -> Seq<Seq<char>> {
    seq![
        "text"@,
        "caption"@,
        "photo"@,
        "voice"@,
        "video"@,
        "document"@,
        "animation"@,
        "video_note"@,
        "sticker"@,
        "audio"@,
        "poll"@,
        "location"@,
        "contact"@,
        "venue"@,
        "dice"@,
        "game"@,
        "story"@,
        "invoice"@,
        "successful_payment"@,
        "new_chat_members"@,
        "left_chat_member"@,
        "pinned_message"@,
        "new_chat_title"@,
        "new_chat_photo"@,
        "delete_chat_photo"@,
        "group_chat_created"@,
        "supergroup_chat_created"@,
        "channel_chat_created"@,
        "message_auto_delete_timer_changed"@,
        "migrate_to_chat_id"@,
        "migrate_from_chat_id"@,
        "forum_topic_created"@,
        "forum_topic_closed"@,
        "forum_topic_reopened"@,
        "forum_topic_edited"@,
        "video_chat_started"@,
        "video_chat_ended"@,
        "video_chat_scheduled"@,
        "video_chat_participants_invited"@,
        "web_app_data"@,
        "proximity_alert_triggered"@,
        "checklist"@,
        "checklist_tasks_done"@,
        "checklist_tasks_added"@,
        "paid_media"@,
        "giveaway"@,
        "giveaway_created"@,
        "giveaway_winners"@,
        "giveaway_completed"@,
        "gift"@,
        "unique_gift"@,
        "users_shared"@,
        "chat_shared"@,
        "refunded_payment"@,
        "boost_added"@,
        "chat_background_set"@,
        "connected_website"@,
        "write_access_allowed"@,
        "passport_data"@,
        "direct_message_price_changed"@,
        "paid_message_price_changed"@,
        "general_forum_topic_hidden"@,
        "general_forum_topic_unhidden"@,
    ]
}

fn known_content_keys() -> (r: Vec<&'static str>)
    ensures
        str_views(r@) == known_content(),
{
    let r = vec![
        "text",
        "caption",
        "photo",
        "voice",
        "video",
        "document",
        "animation",
        "video_note",
        "sticker",
        "audio",
        "poll",
        "location",
        "contact",
        "venue",
        "dice",
        "game",
        "story",
        "invoice",
        "successful_payment",
        "new_chat_members",
        "left_chat_member",
        "pinned_message",
        "new_chat_title",
        "new_chat_photo",
        "delete_chat_photo",
        "group_chat_created",
        "supergroup_chat_created",
        "channel_chat_created",
        "message_auto_delete_timer_changed",
        "migrate_to_chat_id",
        "migrate_from_chat_id",
        "forum_topic_created",
        "forum_topic_closed",
        "forum_topic_reopened",
        "forum_topic_edited",
        "video_chat_started",
        "video_chat_ended",
        "video_chat_scheduled",
        "video_chat_participants_invited",
        "web_app_data",
        "proximity_alert_triggered",
        "checklist",
        "checklist_tasks_done",
        "checklist_tasks_added",
        "paid_media",
        "giveaway",
        "giveaway_created",
        "giveaway_winners",
        "giveaway_completed",
        "gift",
        "unique_gift",
        "users_shared",
        "chat_shared",
        "refunded_payment",
        "boost_added",
        "chat_background_set",
        "connected_website",
        "write_access_allowed",
        "passport_data",
        "direct_message_price_changed",
        "paid_message_price_changed",
        "general_forum_topic_hidden",
        "general_forum_topic_unhidden",
    ];
    assert(str_views(r@) =~= known_content());
    r
}

/// Keys of a message's envelope: what a message holds beyond them and the
/// known content is content of an unknown kind.
pub open spec fn envelope() -> Seq<Seq<char>> {
    seq![
        "message_id"@,
        "from"@,
        "chat"@,
        "date"@,
        "edit_date"@,
        "forward_origin"@,
        "forward_from"@,
        "forward_date"@,
        "reply_to_message"@,
        "via_bot"@,
        "sender_chat"@,
        "message_thread_id"@,
        "is_topic_message"@,
        "has_protected_content"@,
        "author_signature"@,
        "entities"@,
        "link_preview_options"@,
        "quote"@,
        "external_reply"@,
        "effect_id"@,
        "is_from_offline"@,
        "business_connection_id"@,
        "sender_boost_count"@,
        "sender_business_bot"@,
        "is_automatic_forward"@,
        "paid_star_count"@,
    ]
}

fn envelope_keys() -> (r: Vec<&'static str>)
    ensures
        str_views(r@) == envelope(),
{
    let r = vec![
        "message_id",
        "from",
        "chat",
        "date",
        "edit_date",
        "forward_origin",
        "forward_from",
        "forward_date",
        "reply_to_message",
        "via_bot",
        "sender_chat",
        "message_thread_id",
        "is_topic_message",
        "has_protected_content",
        "author_signature",
        "entities",
        "link_preview_options",
        "quote",
        "external_reply",
        "effect_id",
        "is_from_offline",
        "business_connection_id",
        "sender_boost_count",
        "sender_business_bot",
        "is_automatic_forward",
        "paid_star_count",
    ];
    assert(str_views(r@) =~= envelope());
    r
}

/// Whether some member's key is among `keys`.
pub open spec fn any_key(v: Seq<(String, Json)>, keys: Seq<Seq<char>>) -> bool {
    exists|i: int| 0 <= i < v.len() && keys.contains((#[trigger] v[i]).0@)
}

fn has_any_key(v: &Vec<(String, Json)>, keys: &Vec<&'static str>) -> (r: bool)
    ensures
        r == any_key(v@, str_views(keys@)),
{
    let mut i: usize = 0;
    while i < v.len()
        invariant
            i <= v.len(),
            forall|k: int| 0 <= k < i ==> !str_views(keys@).contains((#[trigger] v@[k]).0@),
        decreases v.len() - i,
    {
        if any_is(keys, v[i].0.as_str()) {
            assert(str_views(keys@).contains(v@[i as int].0@));
            return true;
        }
        i = i + 1;
    }
    false
}

/// Whether a message has content, and none that the typed client knows.
pub open spec fn content_unknown(v: Seq<(String, Json)>) -> bool {
    !any_key(v, known_content()) && beyond(v, envelope()).len() > 0
}

/// The members that stay when content is rewritten as text.
pub open spec fn stays(v: Seq<(String, Json)>) -> Seq<(String, Json)>
    decreases v.len(),
{
    if v.len() == 0 {
        v
    } else if envelope().contains(v[0].0@) && v[0].0@ != "entities"@ {
        seq![v[0]] + stays(v.drop_first())
    } else {
        stays(v.drop_first())
    }
}

/// The note on where a message came from.
pub open spec fn origin_note(label: Option<Seq<char>>) -> Seq<char> {
    match label {
        Some(o) => " forwarded from \""@ + o + "\""@,
        None => Seq::empty(),
    }
}

/// The text that stands for unknown content: its readable form where a decoder
/// has one, else its payload.
pub open spec fn synthesized_text(
    label: Option<Seq<char>>,
    decoded: Option<Seq<char>>,
    payload_shown: Seq<char>,
) -> Seq<char> {
    match decoded {
        Some(d) => "[A rich message"@ + origin_note(label) + "]:\n"@ + d,
        None => "[A message"@ + origin_note(label)
            + " arrived in a format the Bot API client cannot decode natively. Its raw content payload follows — read the content directly from it:]\n```json\n"@
            + payload_shown + "\n```"@,
    }
}

/// The text that stands for unknown content.
pub fn synthesize_text(
    label: &Option<String>,
    decoded: &Option<String>,
    payload_shown: &str,
) -> (r: String)
    ensures
        r@ == synthesized_text(oview(*label), oview(*decoded), payload_shown@),
{
    let note = match label {
        Some(o) => cat3(" forwarded from \"", o.as_str(), "\""),
        None => String::new(),
    };
    match decoded {
        Some(d) => {
            let mut r = cat3("[A rich message", note.as_str(), "]:\n");
            r.append(d.as_str());
            r
        },
        None => {
            let mut r = cat3(
                "[A message",
                note.as_str(),
                " arrived in a format the Bot API client cannot decode natively. Its raw content payload follows — read the content directly from it:]\n```json\n",
            );
            r.append(payload_shown);
            r.append("\n```");
            r
        },
    }
}

/// Whether `new` is the message `old` as it is dispatched: unchanged, unless
/// its content is of an unknown kind; then that content gives way to a text.
pub open spec fn synthesized(old: Json, new: Json, decoded: Option<Seq<char>>) -> bool {
    match old {
        Json::Object(v) => if content_unknown(v@) {
            match new {
                Json::Object(w) => {
                    let body = rendered_object(beyond(v@, envelope()));
                    &&& w@.len() == stays(v@).len() + 1
                    &&& w@.drop_last() == stays(v@)
                    &&& w@.last().0@ == "text"@
                    &&& text(Some(w@.last().1)) == Some(
                        synthesized_text(
                            forward_label(old),
                            decoded,
                            shown(pretty(body), "<unrenderable>"@),
                        ),
                    )
                },
                _ => false,
            }
        } else {
            new == old
        },
        _ => new == old,
    }
}

fn keep_staying(v: &mut Vec<(String, Json)>)
    ensures
        final(v)@ == stays(old(v)@),
{
    let ghost orig = v@;
    let keys = envelope_keys();
    let mut i: usize = v.len();
    assert(orig.take(i as int) + stays(orig.skip(i as int)) =~= orig);
    while i > 0
        invariant
            i <= orig.len(),
            v@ == orig.take(i as int) + stays(orig.skip(i as int)),
            str_views(keys@) == envelope(),
        decreases i,
    {
        i = i - 1;
        let ghost rest = stays(orig.skip(i + 1));
        let ghost pre = v@;
        assert(orig.skip(i as int).drop_first() =~= orig.skip(i + 1));
        assert(orig.skip(i as int)[0] == orig[i as int]);
        assert(pre[i as int] == orig[i as int]);
        if !any_is(&keys, v[i].0.as_str()) || crate::text::str_eq(v[i].0.as_str(), "entities") {
            v.remove(i);
            assert(v@ =~= orig.take(i as int) + rest);
        } else {
            assert(v@ =~= orig.take(i as int) + (seq![orig[i as int]] + rest));
        }
    }
    assert(orig.skip(0) =~= orig);
    assert(v@ =~= stays(orig));
}

/// Rewrites a message whose content is of an unknown kind as a text message.
/// `decoded` is what a decoder of rich content makes of it.
pub fn synthesize_unknown_content(m: Json, decoded: &Option<String>) -> (r: Json)
    ensures
        synthesized(m, r, oview(*decoded)),
{
    let label = raw_forward_origin(&m);
    let ghost whole = m;
    match m {
        Json::Object(v) => {
            let mut v = v;
            if has_any_key(&v, &known_content_keys()) {
                return Json::Object(v);
            }
            let unknown = members_beyond(&v, &envelope_keys());
            assert(member_views(unknown@).len() == unknown.len());
            if unknown.len() == 0 {
                return Json::Object(v);
            }
            let body = render_object(&unknown);
            let payload_shown = show(to_pretty(body.as_str()), "<unrenderable>");
            let t = synthesize_text(&label, decoded, payload_shown.as_str());
            let ghost members = v@;
            keep_staying(&mut v);
            let ghost kept = v@;
            v.push(("text".to_owned(), Json::Str(t)));
            assert(v@.drop_last() =~= kept);
            Json::Object(v)
        },
        other => other,
    }
}

// ----------------------------------------------------------------- polling
/// The address of the poll.
pub fn poll_url(token: &str) -> (r: String)
    ensures
        r@ == "https://api.telegram.org/bot"@ + token@ + "/getUpdates"@,
{
    cat3("https://api.telegram.org/bot", token, "/getUpdates")
}

/// The body of the poll that asks for updates from `offset` on.
pub open spec fn poll_request(offset: i64) -> Seq<char> {
    rendered_object(
        seq![
            (
                "allowed_updates"@,
                "[\"message\",\"edited_message\",\"callback_query\",\"message_reaction\",\"my_chat_member\"]"@,
            ),
            ("offset"@, decimal_int(offset as int)),
            ("timeout"@, "30"@),
        ],
    )
}

/// The body of the poll that asks for updates from `offset` on.
pub fn poll_body(offset: i64) -> (r: String)
    ensures
        r@ == poll_request(offset),
{
    let mut v: Vec<(String, String)> = Vec::new();
    v.push(
        (
            "allowed_updates".to_owned(),
            "[\"message\",\"edited_message\",\"callback_query\",\"message_reaction\",\"my_chat_member\"]".to_owned(),
        ),
    );
    v.push(("offset".to_owned(), dec_i64(offset)));
    v.push(("timeout".to_owned(), "30".to_owned()));
    assert(member_views(v@) =~= seq![
        (
            "allowed_updates"@,
            "[\"message\",\"edited_message\",\"callback_query\",\"message_reaction\",\"my_chat_member\"]"@,
        ),
        ("offset"@, decimal_int(offset as int)),
        ("timeout"@, "30"@),
    ]);
    render_object(&v)
}

/// What a refused poll means.
#[derive(Clone, Copy, PartialEq, Eq, Structural)]
pub enum PollFailure {
    /// Another poller owns this bot token right now.
    Conflict,
    /// Passing trouble.
    Other,
}

/// Whether a refused poll tells of another poller.
pub open spec fn is_conflict(value: Json) -> bool {
    &&& integer(member(value, "error_code"@)) == Some(409int)
    &&& match text(member(value, "description"@)) {
        Some(d) => has(d, "terminated by other getUpdates request"@),
        None => has(Seq::<char>::empty(), "terminated by other getUpdates request"@),
    }
}

/// Classifies a poll that was refused.
pub fn classify_poll_failure(value: &Json) -> (r: PollFailure)
    ensures
        r == if is_conflict(*value) {
            PollFailure::Conflict
        } else {
            PollFailure::Other
        },
{
    let code = match value.get("error_code") {
        Some(v) => v.as_i64(),
        None => None,
    };
    let empty = String::new();
    let description = match text_member(value, "description") {
        Some(d) => d,
        None => empty.as_str(),
    };
    match code {
        Some(409) => if contains(description, "terminated by other getUpdates request") {
            PollFailure::Conflict
        } else {
            PollFailure::Other
        },
        _ => PollFailure::Other,
    }
}

/// What follows a poll.
pub enum PollStep {
    /// Wait that many seconds, then poll again.
    Backoff { secs: u64, conflict: bool },
    /// Take these updates in, in order.
    Updates(Vec<Json>),
}

/// Seconds to wait after passing trouble.
pub const RETRY_SECS: u64 = 3;

/// Seconds to wait where another poller owns the token.
pub const CONFLICT_SECS: u64 = 30;

/// The step after a failed request or an unreadable body.
pub fn after_failed_poll() -> (r: PollStep)
    ensures
        r == (PollStep::Backoff { secs: RETRY_SECS, conflict: false }),
{
    PollStep::Backoff { secs: RETRY_SECS, conflict: false }
}

/// The updates of an answer.
pub open spec fn updates_of(value: Json) -> Seq<Json> {
    match member(value, "result"@) {
        Some(Json::Array(v)) => v@,
        _ => Seq::empty(),
    }
}

/// The step after an answer: a refusal is waited out, and an answer without
/// updates is nothing to do.
pub fn after_poll(value: Json) -> (r: PollStep)
    ensures
        if truth(member(value, "ok"@)) == Some(true) {
            r is Updates && r->Updates_0@ == updates_of(value)
        } else {
            r == (PollStep::Backoff {
                secs: if is_conflict(value) {
                    CONFLICT_SECS
                } else {
                    RETRY_SECS
                },
                conflict: is_conflict(value),
            })
        },
{
    let ok = match value.get("ok") {
        Some(v) => v.as_bool(),
        None => None,
    };
    match ok {
        Some(true) => {},
        _ => {
            let conflict = classify_poll_failure(&value) == PollFailure::Conflict;
            return PollStep::Backoff {
                secs: if conflict {
                    CONFLICT_SECS
                } else {
                    RETRY_SECS
                },
                conflict,
            };
        },
    }
    if let Json::Object(v) = value {
        let mut v = v;
        let ghost all = v@;
        if let Some(i) = find_member(&v, "result") {
            let e = v.remove(i);
            assert(e == all[i as int]);
            if let Json::Array(items) = e.1 {
                return PollStep::Updates(items);
            }
        }
    }
    let none: Vec<Json> = Vec::new();
    assert(none@ =~= Seq::<Json>::empty());
    PollStep::Updates(none)
}

/// The id of an update; -1 where it has none.
pub open spec fn update_id(u: Json) -> int {
    match integer(member(u, "update_id"@)) {
        Some(n) => n,
        None => -1,
    }
}

/// The id of an update; -1 where it has none.
pub fn id_of(u: &Json) -> (r: i64)
    ensures
        r == update_id(*u),
{
    match u.get("update_id") {
        Some(v) => match v.as_i64() {
            Some(n) => n,
            None => -1,
        },
        None => -1,
    }
}

/// The key a message's payload is stashed under.
pub open spec fn stash_key(m: Json) -> Option<(i64, i32)> {
    match member(m, "chat"@) {
        Some(c) => match (integer(member(c, "id"@)), integer(member(m, "message_id"@))) {
            (Some(chat), Some(id)) => Some((chat as i64, (id as i64) as i32)),
            _ => None,
        },
        None => None,
    }
}

/// The stash once a message has been seen.
pub open spec fn stash_with(s: Seq<((i64, i32), Seq<char>)>, m: Option<Json>) -> Seq<
    ((i64, i32), Seq<char>),
> {
    match m {
        Some(m) => match stash_key(m) {
            Some(key) => stashed(s, key, compact(m)),
            None => s,
        },
        None => s,
    }
}

fn stash_message(stash: &mut RawStash, m: &Json)
    requires
        stash_ok(old(stash)@),
    ensures
        stash_ok(final(stash)@),
        final(stash)@ == stash_with(old(stash)@, Some(*m)),
{
    let chat = match m.get("chat") {
        Some(c) => match c.get("id") {
            Some(v) => v.as_i64(),
            None => None,
        },
        None => None,
    };
    let id = match m.get("message_id") {
        Some(v) => v.as_i64(),
        None => None,
    };
    if let (Some(c), Some(i)) = (chat, id) {
        stash.stash_raw_message(c, i as i32, to_compact(m));
    }
}

/// A member of an update as it is dispatched.
pub open spec fn member_rewritten(
    v: Seq<(String, Json)>,
    k: int,
    e: (String, Json),
    message: Option<Seq<char>>,
    edited: Option<Seq<char>>,
) -> bool {
    &&& e.0 == v[k].0
    &&& if member_at(v, "message"@) == Some(k) {
        synthesized(v[k].1, e.1, message)
    } else if member_at(v, "edited_message"@) == Some(k) {
        synthesized(v[k].1, e.1, edited)
    } else {
        e.1 == v[k].1
    }
}

/// Whether `r` is the update `u` as it is dispatched.
pub open spec fn rewritten(
    u: Json,
    r: Json,
    message: Option<Seq<char>>,
    edited: Option<Seq<char>>,
) -> bool {
    match u {
        Json::Object(v) => match r {
            Json::Object(w) => {
                &&& w@.len() == v@.len()
                &&& forall|k: int|
                    0 <= k < v@.len() ==> member_rewritten(
                        v@,
                        k,
                        #[trigger] w@[k],
                        message,
                        edited,
                    )
            },
            _ => false,
        },
        _ => r == u,
    }
}

proof fn lemma_same_keys(a: Seq<(String, Json)>, b: Seq<(String, Json)>, key: Seq<char>)
    requires
        a.len() == b.len(),
        forall|k: int| 0 <= k < a.len() ==> (#[trigger] a[k]).0 == b[k].0,
    ensures
        member_at(a, key) == member_at(b, key),
    decreases a.len(),
{
    if a.len() > 0 {
        assert(a[a.len() - 1].0 == b[b.len() - 1].0);
        let a1 = a.drop_last();
        let b1 = b.drop_last();
        assert forall|k: int| 0 <= k < a1.len() implies (#[trigger] a1[k]).0 == b1[k].0 by {
            assert(a[k].0 == b[k].0);
        }
        lemma_same_keys(a1, b1, key);
    }
}

fn rewrite_member(
    v: &mut Vec<(String, Json)>,
    key: &str,
    stash: &mut RawStash,
    decoded: &Option<String>,
)
    requires
        stash_ok(old(stash)@),
    ensures
        stash_ok(final(stash)@),
        match member_at(old(v)@, key@) {
            None => final(v)@ == old(v)@ && final(stash)@ == old(stash)@,
            Some(i) => {
                &&& final(stash)@ == stash_with(old(stash)@, Some(old(v)@[i].1))
                &&& final(v)@.len() == old(v)@.len()
                &&& final(v)@[i].0 == old(v)@[i].0
                &&& synthesized(old(v)@[i].1, final(v)@[i].1, oview(*decoded))
                &&& forall|k: int|
                    0 <= k < old(v)@.len() && k != i ==> #[trigger] final(v)@[k] == old(v)@[k]
            },
        },
{
    if let Some(i) = find_member(v, key) {
        let ghost pre = v@;
        let (k, m) = v.remove(i);
        stash_message(stash, &m);
        let m2 = synthesize_unknown_content(m, decoded);
        let ghost e = (k, m2);
        v.insert(i, (k, m2));
        assert(v@ =~= pre.update(i as int, e));
    }
}

/// Takes in one update: stashes the raw payload of its message, rewrites
/// content of an unknown kind, and moves the offset past it. The result is
/// what the typed parse gets, as JSON text by [`to_compact`].
pub fn take_update(
    u: Json,
    offset: i64,
    stash: &mut RawStash,
    message: &Option<String>,
    edited: &Option<String>,
) -> (r: (Json, i64))
    requires
        stash_ok(old(stash)@),
        update_id(u) < i64::MAX,
    ensures
        stash_ok(final(stash)@),
        r.1 == if update_id(u) + 1 > offset {
            update_id(u) + 1
        } else {
            offset as int
        },
        rewritten(u, r.0, oview(*message), oview(*edited)),
        final(stash)@ == stash_with(
            stash_with(old(stash)@, member(u, "message"@)),
            member(u, "edited_message"@),
        ),
{
    let next: i64 = id_of(&u) + 1;
    let to: i64 = if next > offset {
        next
    } else {
        offset
    };
    match u {
        Json::Object(v) => {
            let mut v = v;
            let ghost v0 = v@;
            proof {
                reveal_strlit("message");
                reveal_strlit("edited_message");
                assert("message"@.len() != "edited_message"@.len());
                lemma_member_at(v0, "message"@);
                lemma_member_at(v0, "edited_message"@);
            }
            rewrite_member(&mut v, "message", stash, message);
            let ghost v1 = v@;
            proof {
                assert forall|k: int| 0 <= k < v0.len() implies (#[trigger] v0[k]).0
                    == v1[k].0 by {
                    if member_at(v0, "message"@) is Some && member_at(v0, "message"@) != Some(k) {
                        assert(v1[k] == v0[k]);
                    }
                }
                lemma_same_keys(v0, v1, "edited_message"@);
            }
            rewrite_member(&mut v, "edited_message", stash, edited);
            let ghost v2 = v@;
            assert forall|k: int| 0 <= k < v0.len() implies member_rewritten(
                v0,
                k,
                #[trigger] v2[k],
                oview(*message),
                oview(*edited),
            ) by {
                assert(v0[k].0 == v1[k].0);
                if member_at(v0, "edited_message"@) != Some(k) {
                    assert(v2[k] == v1[k]);
                }
                if member_at(v0, "message"@) != Some(k) {
                    assert(v1[k] == v0[k]);
                }
            }
            (Json::Object(v), to)
        },
        other => (other, to),
    }
}

/// The kinds of update that the log tells apart.
#[derive(Clone, Copy, PartialEq, Eq, Structural)]
pub enum UpdateKind {
    Message,
    EditedMessage,
    CallbackQuery,
    MessageReaction,
    Error,
    Other,
}

pub open spec fn kind_name(k: UpdateKind) -> Seq<char> {
    match k {
        UpdateKind::Message => "message"@,
        UpdateKind::EditedMessage => "edited_message"@,
        UpdateKind::CallbackQuery => "callback_query"@,
        UpdateKind::MessageReaction => "message_reaction"@,
        UpdateKind::Error => "ERROR(unparsed)"@,
        UpdateKind::Other => "other"@,
    }
}

/// The name of an update's kind.
pub fn update_kind_name(k: UpdateKind) -> (r: &'static str)
    ensures
        r@ == kind_name(k),
{
    match k {
        UpdateKind::Message => "message",
        UpdateKind::EditedMessage => "edited_message",
        UpdateKind::CallbackQuery => "callback_query",
        UpdateKind::MessageReaction => "message_reaction",
        UpdateKind::Error => "ERROR(unparsed)",
        UpdateKind::Other => "other",
    }
}

// -------------------------------------------------------------------- laws
/// A stashed payload can be taken, whole.
pub proof fn law_stashed_can_be_taken(
    s: Seq<((i64, i32), Seq<char>)>,
    key: (i64, i32),
    raw: Seq<char>,
)
    requires
        stash_ok(s),
    ensures
        payload(stashed(s, key, raw), key) == Some(raw),
        stash_ok(stashed(s, key, raw)),
{
    lemma_others(s, key);
    let t = others(s, key).push((key, raw));
    let r = stashed(s, key, raw);
    assert(r.last() == (key, raw));
    assert forall|i: int, j: int| 0 <= i < j < r.len() implies (#[trigger] r[i]).0 != (
    #[trigger] r[j]).0 by {
        let d = t.len() - r.len();
        assert(r[i] == t[i + d] && r[j] == t[j + d]);
        let o = others(s, key);
        assert(t[i + d] == o[i + d]);
        if j + d < o.len() {
            assert(t[j + d] == o[j + d]);
        }
    }
}

/// A payload is taken once.
pub proof fn law_taken_once(s: Seq<((i64, i32), Seq<char>)>, key: (i64, i32))
    requires
        stash_ok(s),
    ensures
        payload(others(s, key), key) is None,
{
    lemma_others(s, key);
    lemma_absent(others(s, key), key);
}

/// No content is lost to an unknown kind: a message that is rewritten holds a
/// text afterwards, so that the typed client knows it.
pub proof fn law_rewritten_is_known(old: Json, new: Json, decoded: Option<Seq<char>>)
    requires
        synthesized(old, new, decoded),
        old is Object,
        content_unknown(old->Object_0@),
    ensures
        new is Object,
        any_key(new->Object_0@, known_content()),
        text(member(new, "text"@)) is Some,
{
    let w = new->Object_0@;
    assert(known_content()[0] == "text"@);
    assert(known_content().contains(w[w.len() - 1].0@));
}

/// A message whose content is known is left as it is.
pub proof fn law_known_is_untouched(old: Json, new: Json, decoded: Option<Seq<char>>)
    requires
        synthesized(old, new, decoded),
        old is Object ==> any_key(old->Object_0@, known_content()),
    ensures
        new == old,
{
}

/// The kinds of content that the typed client knows, by the keys they stand
/// under.
pub proof fn law_known_kinds(key: Seq<char>)
    ensures
        known_content().contains(key) <==> (key == "text"@
            || key == "caption"@
            || key == "photo"@
            || key == "voice"@
            || key == "video"@
            || key == "document"@
            || key == "animation"@
            || key == "video_note"@
            || key == "sticker"@
            || key == "audio"@
            || key == "poll"@
            || key == "location"@
            || key == "contact"@
            || key == "venue"@
            || key == "dice"@
            || key == "game"@
            || key == "story"@
            || key == "invoice"@
            || key == "successful_payment"@
            || key == "new_chat_members"@
            || key == "left_chat_member"@
            || key == "pinned_message"@
            || key == "new_chat_title"@
            || key == "new_chat_photo"@
            || key == "delete_chat_photo"@
            || key == "group_chat_created"@
            || key == "supergroup_chat_created"@
            || key == "channel_chat_created"@
            || key == "message_auto_delete_timer_changed"@
            || key == "migrate_to_chat_id"@
            || key == "migrate_from_chat_id"@
            || key == "forum_topic_created"@
            || key == "forum_topic_closed"@
            || key == "forum_topic_reopened"@
            || key == "forum_topic_edited"@
            || key == "video_chat_started"@
            || key == "video_chat_ended"@
            || key == "video_chat_scheduled"@
            || key == "video_chat_participants_invited"@
            || key == "web_app_data"@
            || key == "proximity_alert_triggered"@
            || key == "checklist"@
            || key == "checklist_tasks_done"@
            || key == "checklist_tasks_added"@
            || key == "paid_media"@
            || key == "giveaway"@
            || key == "giveaway_created"@
            || key == "giveaway_winners"@
            || key == "giveaway_completed"@
            || key == "gift"@
            || key == "unique_gift"@
            || key == "users_shared"@
            || key == "chat_shared"@
            || key == "refunded_payment"@
            || key == "boost_added"@
            || key == "chat_background_set"@
            || key == "connected_website"@
            || key == "write_access_allowed"@
            || key == "passport_data"@
            || key == "direct_message_price_changed"@
            || key == "paid_message_price_changed"@
            || key == "general_forum_topic_hidden"@
            || key == "general_forum_topic_unhidden"@),
{
    assert(known_content()[0] == "text"@);
    assert(known_content()[1] == "caption"@);
    assert(known_content()[2] == "photo"@);
    assert(known_content()[3] == "voice"@);
    assert(known_content()[4] == "video"@);
    assert(known_content()[5] == "document"@);
    assert(known_content()[6] == "animation"@);
    assert(known_content()[7] == "video_note"@);
    assert(known_content()[8] == "sticker"@);
    assert(known_content()[9] == "audio"@);
    assert(known_content()[10] == "poll"@);
    assert(known_content()[11] == "location"@);
    assert(known_content()[12] == "contact"@);
    assert(known_content()[13] == "venue"@);
    assert(known_content()[14] == "dice"@);
    assert(known_content()[15] == "game"@);
    assert(known_content()[16] == "story"@);
    assert(known_content()[17] == "invoice"@);
    assert(known_content()[18] == "successful_payment"@);
    assert(known_content()[19] == "new_chat_members"@);
    assert(known_content()[20] == "left_chat_member"@);
    assert(known_content()[21] == "pinned_message"@);
    assert(known_content()[22] == "new_chat_title"@);
    assert(known_content()[23] == "new_chat_photo"@);
    assert(known_content()[24] == "delete_chat_photo"@);
    assert(known_content()[25] == "group_chat_created"@);
    assert(known_content()[26] == "supergroup_chat_created"@);
    assert(known_content()[27] == "channel_chat_created"@);
    assert(known_content()[28] == "message_auto_delete_timer_changed"@);
    assert(known_content()[29] == "migrate_to_chat_id"@);
    assert(known_content()[30] == "migrate_from_chat_id"@);
    assert(known_content()[31] == "forum_topic_created"@);
    assert(known_content()[32] == "forum_topic_closed"@);
    assert(known_content()[33] == "forum_topic_reopened"@);
    assert(known_content()[34] == "forum_topic_edited"@);
    assert(known_content()[35] == "video_chat_started"@);
    assert(known_content()[36] == "video_chat_ended"@);
    assert(known_content()[37] == "video_chat_scheduled"@);
    assert(known_content()[38] == "video_chat_participants_invited"@);
    assert(known_content()[39] == "web_app_data"@);
    assert(known_content()[40] == "proximity_alert_triggered"@);
    assert(known_content()[41] == "checklist"@);
    assert(known_content()[42] == "checklist_tasks_done"@);
    assert(known_content()[43] == "checklist_tasks_added"@);
    assert(known_content()[44] == "paid_media"@);
    assert(known_content()[45] == "giveaway"@);
    assert(known_content()[46] == "giveaway_created"@);
    assert(known_content()[47] == "giveaway_winners"@);
    assert(known_content()[48] == "giveaway_completed"@);
    assert(known_content()[49] == "gift"@);
    assert(known_content()[50] == "unique_gift"@);
    assert(known_content()[51] == "users_shared"@);
    assert(known_content()[52] == "chat_shared"@);
    assert(known_content()[53] == "refunded_payment"@);
    assert(known_content()[54] == "boost_added"@);
    assert(known_content()[55] == "chat_background_set"@);
    assert(known_content()[56] == "connected_website"@);
    assert(known_content()[57] == "write_access_allowed"@);
    assert(known_content()[58] == "passport_data"@);
    assert(known_content()[59] == "direct_message_price_changed"@);
    assert(known_content()[60] == "paid_message_price_changed"@);
    assert(known_content()[61] == "general_forum_topic_hidden"@);
    assert(known_content()[62] == "general_forum_topic_unhidden"@);
    if known_content().contains(key) {
        let i = choose|i: int| 0 <= i < known_content().len() && known_content()[i] == key;
        assert(known_content()[i] == key);
    }
}

/// A message that holds content of a kind the typed client knows reaches it as
/// it is: texts, captions, media, places, contacts, polls and service messages
/// are never rewritten, whatever else the message holds.
pub proof fn law_known_kinds_pass_through(
    v: Vec<(String, Json)>,
    i: int,
    key: Seq<char>,
    new: Json,
    decoded: Option<Seq<char>>,
)
    requires
        0 <= i < v@.len(),
        v@[i].0@ == key,
        key == "text"@
            || key == "caption"@
            || key == "photo"@
            || key == "voice"@
            || key == "video"@
            || key == "document"@
            || key == "animation"@
            || key == "video_note"@
            || key == "sticker"@
            || key == "audio"@
            || key == "poll"@
            || key == "location"@
            || key == "contact"@
            || key == "venue"@
            || key == "dice"@
            || key == "game"@
            || key == "story"@
            || key == "invoice"@
            || key == "successful_payment"@
            || key == "new_chat_members"@
            || key == "left_chat_member"@
            || key == "pinned_message"@
            || key == "new_chat_title"@
            || key == "new_chat_photo"@
            || key == "delete_chat_photo"@
            || key == "group_chat_created"@
            || key == "supergroup_chat_created"@
            || key == "channel_chat_created"@
            || key == "message_auto_delete_timer_changed"@
            || key == "migrate_to_chat_id"@
            || key == "migrate_from_chat_id"@
            || key == "forum_topic_created"@
            || key == "forum_topic_closed"@
            || key == "forum_topic_reopened"@
            || key == "forum_topic_edited"@
            || key == "video_chat_started"@
            || key == "video_chat_ended"@
            || key == "video_chat_scheduled"@
            || key == "video_chat_participants_invited"@
            || key == "web_app_data"@
            || key == "proximity_alert_triggered"@
            || key == "checklist"@
            || key == "checklist_tasks_done"@
            || key == "checklist_tasks_added"@
            || key == "paid_media"@
            || key == "giveaway"@
            || key == "giveaway_created"@
            || key == "giveaway_winners"@
            || key == "giveaway_completed"@
            || key == "gift"@
            || key == "unique_gift"@
            || key == "users_shared"@
            || key == "chat_shared"@
            || key == "refunded_payment"@
            || key == "boost_added"@
            || key == "chat_background_set"@
            || key == "connected_website"@
            || key == "write_access_allowed"@
            || key == "passport_data"@
            || key == "direct_message_price_changed"@
            || key == "paid_message_price_changed"@
            || key == "general_forum_topic_hidden"@
            || key == "general_forum_topic_unhidden"@,
        synthesized(Json::Object(v), new, decoded),
    ensures
        new == Json::Object(v),
{
    law_known_kinds(key);
    assert(known_content().contains(v@[i].0@));
}

/// The keys of an envelope: what stays of a message that is rewritten, but for
/// its entities, and what alone is no content.
pub proof fn law_envelope_keys(key: Seq<char>)
    ensures
        envelope().contains(key) <==> (key == "message_id"@
            || key == "from"@
            || key == "chat"@
            || key == "date"@
            || key == "edit_date"@
            || key == "forward_origin"@
            || key == "forward_from"@
            || key == "forward_date"@
            || key == "reply_to_message"@
            || key == "via_bot"@
            || key == "sender_chat"@
            || key == "message_thread_id"@
            || key == "is_topic_message"@
            || key == "has_protected_content"@
            || key == "author_signature"@
            || key == "entities"@
            || key == "link_preview_options"@
            || key == "quote"@
            || key == "external_reply"@
            || key == "effect_id"@
            || key == "is_from_offline"@
            || key == "business_connection_id"@
            || key == "sender_boost_count"@
            || key == "sender_business_bot"@
            || key == "is_automatic_forward"@
            || key == "paid_star_count"@),
{
    assert(envelope()[0] == "message_id"@);
    assert(envelope()[1] == "from"@);
    assert(envelope()[2] == "chat"@);
    assert(envelope()[3] == "date"@);
    assert(envelope()[4] == "edit_date"@);
    assert(envelope()[5] == "forward_origin"@);
    assert(envelope()[6] == "forward_from"@);
    assert(envelope()[7] == "forward_date"@);
    assert(envelope()[8] == "reply_to_message"@);
    assert(envelope()[9] == "via_bot"@);
    assert(envelope()[10] == "sender_chat"@);
    assert(envelope()[11] == "message_thread_id"@);
    assert(envelope()[12] == "is_topic_message"@);
    assert(envelope()[13] == "has_protected_content"@);
    assert(envelope()[14] == "author_signature"@);
    assert(envelope()[15] == "entities"@);
    assert(envelope()[16] == "link_preview_options"@);
    assert(envelope()[17] == "quote"@);
    assert(envelope()[18] == "external_reply"@);
    assert(envelope()[19] == "effect_id"@);
    assert(envelope()[20] == "is_from_offline"@);
    assert(envelope()[21] == "business_connection_id"@);
    assert(envelope()[22] == "sender_boost_count"@);
    assert(envelope()[23] == "sender_business_bot"@);
    assert(envelope()[24] == "is_automatic_forward"@);
    assert(envelope()[25] == "paid_star_count"@);
    if envelope().contains(key) {
        let i = choose|i: int| 0 <= i < envelope().len() && envelope()[i] == key;
        assert(envelope()[i] == key);
    }
}

/// The keys that the agent is spared.
pub proof fn law_noise_keys(key: Seq<char>)
    ensures
        noise().contains(key) <==> (key == "from"@
            || key == "chat"@
            || key == "date"@
            || key == "message_id"@
            || key == "edit_date"@
            || key == "forward_origin"@
            || key == "has_protected_content"@
            || key == "sender_chat"@
            || key == "via_bot"@
            || key == "message_thread_id"@),
{
    assert(noise()[0] == "from"@);
    assert(noise()[1] == "chat"@);
    assert(noise()[2] == "date"@);
    assert(noise()[3] == "message_id"@);
    assert(noise()[4] == "edit_date"@);
    assert(noise()[5] == "forward_origin"@);
    assert(noise()[6] == "has_protected_content"@);
    assert(noise()[7] == "sender_chat"@);
    assert(noise()[8] == "via_bot"@);
    assert(noise()[9] == "message_thread_id"@);
    if noise().contains(key) {
        let i = choose|i: int| 0 <= i < noise().len() && noise()[i] == key;
        assert(noise()[i] == key);
    }
}

proof fn lemma_beyond_add(
    a: Seq<(String, Json)>,
    b: Seq<(String, Json)>,
    keys: Seq<Seq<char>>,
)
    ensures
        beyond(a + b, keys) == beyond(a, keys) + beyond(b, keys),
    decreases b.len(),
{
    if b.len() == 0 {
        assert(a + b =~= a);
        assert(beyond(a, keys) + beyond(b, keys) =~= beyond(a, keys));
    } else {
        assert((a + b).drop_last() =~= a + b.drop_last());
        lemma_beyond_add(a, b.drop_last(), keys);
        assert(beyond(a + b, keys) =~= beyond(a, keys) + beyond(b, keys));
    }
}

/// A payload loses no content: every member whose key is not set aside is in
/// it, once, in its place, under its own key and with its own value, and no
/// other is.
pub proof fn law_payload_holds_the_rest(
    a: Seq<(String, Json)>,
    m: (String, Json),
    b: Seq<(String, Json)>,
    keys: Seq<Seq<char>>,
)
    ensures
        beyond(a.push(m) + b, keys) == if keys.contains(m.0@) {
            beyond(a, keys) + beyond(b, keys)
        } else {
            beyond(a, keys).push((m.0@, compact(m.1))) + beyond(b, keys)
        },
        beyond(Seq::empty(), keys) == Seq::<(Seq<char>, Seq<char>)>::empty(),
{
    lemma_beyond_add(a.push(m), b, keys);
    assert(a.push(m).drop_last() =~= a);
}

proof fn lemma_stays_add(a: Seq<(String, Json)>, b: Seq<(String, Json)>)
    ensures
        stays(a + b) == stays(a) + stays(b),
    decreases a.len(),
{
    if a.len() == 0 {
        assert(a + b =~= b);
        assert(stays(a) + stays(b) =~= stays(b));
    } else {
        assert((a + b).drop_first() =~= a.drop_first() + b);
        assert((a + b)[0] == a[0]);
        lemma_stays_add(a.drop_first(), b);
        assert(stays(a + b) =~= stays(a) + stays(b));
    }
}

/// A message that is rewritten keeps its envelope: who sent it, where, when
/// and in answer to what stay in their places; entities, which tell of a text
/// that is no longer there, and content go.
pub proof fn law_envelope_stays(
    a: Seq<(String, Json)>,
    m: (String, Json),
    b: Seq<(String, Json)>,
)
    ensures
        stays(a.push(m) + b) == if envelope().contains(m.0@) && m.0@ != "entities"@ {
            stays(a).push(m) + stays(b)
        } else {
            stays(a) + stays(b)
        },
{
    lemma_stays_add(a.push(m), b);
    lemma_stays_add(a, seq![m]);
    assert(a + seq![m] =~= a.push(m));
    let one = seq![m];
    assert(one.drop_first() =~= Seq::empty());
    assert(stays(one.drop_first()) =~= Seq::empty());
    assert(one[0] == m);
    assert(stays(one) =~= if envelope().contains(m.0@) && m.0@ != "entities"@ {
        seq![m]
    } else {
        Seq::empty()
    });
    assert(stays(a.push(m)) =~= if envelope().contains(m.0@) && m.0@ != "entities"@ {
        stays(a).push(m)
    } else {
        stays(a)
    });
}

/// The text that stands for unknown content tells the content: what a decoder
/// read stands at its end, else the payload stands in it whole, fenced; and
/// where the message was forwarded, so does its origin.
pub proof fn law_text_tells_the_content(
    label: Option<Seq<char>>,
    decoded: Option<Seq<char>>,
    payload_shown: Seq<char>,
)
    ensures
        ({
            let t = synthesized_text(label, decoded, payload_shown);
            &&& decoded is Some ==> t.len() >= decoded->0.len() && t.skip(
                t.len() - decoded->0.len(),
            ) == decoded->0
            &&& decoded is None ==> exists|i: int|
                #[trigger] matches_at(t, payload_shown, i) && i > 8 && i + payload_shown.len() + 4
                    == t.len() && t.subrange(i - 8, i) == "```json\n"@ && t.skip(
                    i + payload_shown.len(),
                ) == "\n```"@
            &&& label is Some ==> exists|i: int|
                #[trigger] matches_at(t, label->0, i) && i > 16 && t.subrange(i - 16, i)
                    == "forwarded from \""@ && t[i + label->0.len()] == '"'
        }),
{
    reveal_strlit("```json\n");
    reveal_strlit("\n```");
    reveal_strlit("[A rich message");
    reveal_strlit("[A message");
    reveal_strlit(" forwarded from \"");
    reveal_strlit("forwarded from \"");
    reveal_strlit("\"");
    reveal_strlit("]:\n");
    reveal_strlit(
        " arrived in a format the Bot API client cannot decode natively. Its raw content payload follows — read the content directly from it:]\n```json\n",
    );
    let t = synthesized_text(label, decoded, payload_shown);
    let opening = if decoded is Some {
        "[A rich message"@
    } else {
        "[A message"@
    };
    let note = origin_note(label);
    match decoded {
        Some(d) => {
            assert(t.skip(t.len() - d.len()) =~= d);
        },
        None => {
            let i = t.len() - 4 - payload_shown.len();
            assert(t.subrange(i, i + payload_shown.len()) =~= payload_shown);
            assert(matches_at(t, payload_shown, i));
            assert(t.subrange(i - 8, i) =~= "```json\n"@);
            assert(t.skip(i + payload_shown.len()) =~= "\n```"@);
        },
    }
    if let Some(o) = label {
        let i = (opening.len() + 17) as int;
        assert(t.subrange(i, i + o.len()) =~= o);
        assert(matches_at(t, o, i));
        assert(t.subrange(i - 16, i) =~= "forwarded from \""@);
        assert(t[i + o.len()] == '"');
    }
}

/// Who sent a forwarded message: the person, by first name, then last name,
/// marked where it is a bot; else the name given in place of one; else the
/// title of the chat or the channel.
pub proof fn law_origin_is_told(origin: Json, user: Json)
    ensures
        member(origin, "sender_user"@) == Some(user) && text(member(user, "first_name"@)) is Some
            ==> ({
            let first = text(member(user, "first_name"@))->0;
            let label = origin_label(origin);
            let named = match text(member(user, "last_name"@)) {
                Some(last) => first + " "@ + last,
                None => first,
            };
            if member(user, "is_bot"@) == Some(Json::Bool(true)) {
                label == named + " (bot)"@
            } else {
                label == named
            }
        }),
        member(origin, "sender_user"@) is None && text(member(origin, "sender_user_name"@)) is Some
            ==> origin_label(origin) == text(member(origin, "sender_user_name"@))->0,
        member(origin, "sender_user"@) is None && text(member(origin, "sender_user_name"@)) is None
            && chat_title(origin, "sender_chat"@) is Some ==> origin_label(origin) == chat_title(
            origin,
            "sender_chat"@,
        )->0,
        member(origin, "sender_user"@) is None && text(member(origin, "sender_user_name"@)) is None
            && chat_title(origin, "sender_chat"@) is None && chat_title(origin, "chat"@) is Some
            ==> origin_label(origin) == chat_title(origin, "chat"@)->0,
        forward_label(origin) is Some <==> member(origin, "forward_origin"@) is Some,
{
}

/// Stashing touches no other message: its payload stays until the stash is
/// full, and taking one payload leaves the others.
pub proof fn law_others_stay_stashed(
    s: Seq<((i64, i32), Seq<char>)>,
    key: (i64, i32),
    other: (i64, i32),
    raw: Seq<char>,
)
    requires
        stash_ok(s),
        other != key,
    ensures
        s.len() < 128 ==> payload(stashed(s, key, raw), other) == payload(s, other),
        payload(others(s, key), other) == payload(s, other),
{
    lemma_payload_others(s, key, other);
    lemma_others(s, key);
    let t = others(s, key).push((key, raw));
    assert(t.drop_last() =~= others(s, key));
}

proof fn lemma_payload_others(
    s: Seq<((i64, i32), Seq<char>)>,
    key: (i64, i32),
    other: (i64, i32),
)
    requires
        other != key,
    ensures
        payload(others(s, key), other) == payload(s, other),
    decreases s.len(),
{
    if s.len() > 0 {
        lemma_payload_others(s.drop_last(), key, other);
        let o = others(s.drop_last(), key);
        assert(o.push(s.last()).drop_last() =~= o);
    }
}

/// A message is stashed under its chat and its own id, as it arrived.
pub proof fn law_seen_message_is_stashed(
    s: Seq<((i64, i32), Seq<char>)>,
    m: Json,
    chat: Json,
    chat_id: i64,
    id: i32,
)
    requires
        stash_ok(s),
        member(m, "chat"@) == Some(chat),
        integer(member(chat, "id"@)) == Some(chat_id as int),
        integer(member(m, "message_id"@)) == Some(id as int),
    ensures
        payload(stash_with(s, Some(m)), (chat_id, id)) == Some(compact(m)),
        stash_with(s, None) == s,
{
    assert((id as i64) as i32 == id) by (bit_vector);
    law_stashed_can_be_taken(s, (chat_id, id), compact(m));
}

/// Another poller is told by error 409 and its description, both.
pub proof fn law_conflict_needs_code_and_words(value: Json)
    ensures
        is_conflict(value) ==> integer(member(value, "error_code"@)) == Some(409int) && text(
            member(value, "description"@),
        ) is Some && has(
            text(member(value, "description"@))->0,
            "terminated by other getUpdates request"@,
        ),
        integer(member(value, "error_code"@)) == Some(409int) && text(
            member(value, "description"@),
        ) is Some && has(
            text(member(value, "description"@))->0,
            "terminated by other getUpdates request"@,
        ) ==> is_conflict(value),
{
    reveal_strlit("terminated by other getUpdates request");
}

/// The kinds of update have names of their own.
pub proof fn law_kind_names_are_distinct(a: UpdateKind, b: UpdateKind)
    ensures
        kind_name(a) == kind_name(b) ==> a == b,
        kind_name(UpdateKind::Message) == "message"@,
        kind_name(UpdateKind::EditedMessage) == "edited_message"@,
        kind_name(UpdateKind::CallbackQuery) == "callback_query"@,
        kind_name(UpdateKind::MessageReaction) == "message_reaction"@,
{
    reveal_strlit("message");
    reveal_strlit("edited_message");
    reveal_strlit("callback_query");
    reveal_strlit("message_reaction");
    reveal_strlit("ERROR(unparsed)");
    reveal_strlit("other");
    assert(kind_name(a).len() == kind_name(b).len() || kind_name(a) != kind_name(b));
    assert("edited_message"@[0] == 'e' && "callback_query"@[0] == 'c');
}

/// A poll asks for the updates from its offset on: two offsets make two
/// requests, the first of whose members is fixed.
pub proof fn law_offsets_make_requests(offset: i64)
    ensures
        poll_request(offset) == "{"@ + (literal("allowed_updates"@)
            + ":[\"message\",\"edited_message\",\"callback_query\",\"message_reaction\",\"my_chat_member\"],"@
            + literal("offset"@) + ":"@ + decimal_int(offset as int) + ","@ + literal("timeout"@)
            + ":30"@) + "}"@,
{
    reveal_with_fuel(join, 3);
    reveal_strlit(":");
    reveal_strlit(",");
    reveal_strlit("30");
    reveal_strlit(":30");
    reveal_strlit(
        "[\"message\",\"edited_message\",\"callback_query\",\"message_reaction\",\"my_chat_member\"]",
    );
    reveal_strlit(
        ":[\"message\",\"edited_message\",\"callback_query\",\"message_reaction\",\"my_chat_member\"],",
    );
    let ms = seq![
        (
            "allowed_updates"@,
            "[\"message\",\"edited_message\",\"callback_query\",\"message_reaction\",\"my_chat_member\"]"@,
        ),
        ("offset"@, decimal_int(offset as int)),
        ("timeout"@, "30"@),
    ];
    let parts = ms.map_values(|m: (Seq<char>, Seq<char>)| rendered_member(m));
    assert(parts =~= seq![rendered_member(ms[0]), rendered_member(ms[1]), rendered_member(ms[2])]);
    let two = parts.drop_last();
    assert(two =~= seq![rendered_member(ms[0]), rendered_member(ms[1])]);
    assert(two.drop_last() =~= seq![rendered_member(ms[0])]);
    assert(join(parts, ","@) =~= rendered_member(ms[0]) + ","@ + rendered_member(ms[1]) + ","@
        + rendered_member(ms[2]));
    assert(join(parts, ","@) =~= literal("allowed_updates"@)
        + ":[\"message\",\"edited_message\",\"callback_query\",\"message_reaction\",\"my_chat_member\"],"@
        + literal("offset"@) + ":"@ + decimal_int(offset as int) + ","@ + literal("timeout"@)
        + ":30"@);
}

/// An update is dispatched with all its members, under their keys and in their
/// order: only its message and its edited message are rewritten, each by what
/// was read of it, and everything else stays as it came.
pub proof fn law_updates_keep_all_else(
    v: Vec<(String, Json)>,
    r: Json,
    message: Option<Seq<char>>,
    edited: Option<Seq<char>>,
    k: int,
)
    requires
        rewritten(Json::Object(v), r, message, edited),
    ensures
        r is Object,
        r->Object_0@.len() == v@.len(),
        0 <= k < v@.len() ==> r->Object_0@[k].0 == v@[k].0,
        0 <= k < v@.len() && v@[k].0@ != "message"@ && v@[k].0@ != "edited_message"@
            ==> r->Object_0@[k].1 == v@[k].1,
        0 <= k < v@.len() && member_at(v@, "message"@) == Some(k) ==> synthesized(
            v@[k].1,
            r->Object_0@[k].1,
            message,
        ),
        0 <= k < v@.len() && member_at(v@, "edited_message"@) == Some(k) ==> synthesized(
            v@[k].1,
            r->Object_0@[k].1,
            edited,
        ),
{
    let w = r->Object_0@;
    reveal_strlit("message");
    reveal_strlit("edited_message");
    assert("message"@.len() == 7 && "edited_message"@.len() == 14);
    crate::json::lemma_member_at(v@, "message"@);
    crate::json::lemma_member_at(v@, "edited_message"@);
    if 0 <= k < v@.len() {
        assert(member_rewritten(v@, k, w[k], message, edited));
    }
}

/// What is no object is dispatched as it came.
pub proof fn law_other_updates_pass(
    u: Json,
    r: Json,
    message: Option<Seq<char>>,
    edited: Option<Seq<char>>,
)
    requires
        !(u is Object),
        rewritten(u, r, message, edited),
    ensures
        r == u,
{
}

} // verus!
