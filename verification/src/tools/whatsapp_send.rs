//! The WhatsApp send tool: which action is asked for, what it needs, whom it
//! may reach, and what it answers. The client calls themselves are made by the
//! caller, which hands their outcomes back.
use vstd::prelude::*;

use super::error::{expand_tilde, expanded};
use super::result::{Reply, ToolHints, ToolResult};
use crate::paths::{file_name, file_name_of};
use crate::search::{
    after_last, after_last_char, dec_u64, dec_usize, decimal, join, join_strs, law_join_holds_each,
    lemma_tells, lemma_tells_more, matches_at, tells,
};
use crate::text::{
    blank, cat2, cat3, cat4, cat5, is_blank, lowercase, oview, str_eq, strip_leading, to_lower,
    trim_start_of, trimmed, views,
};
use crate::whatsapp::broadcast::{
    allowed, burst_floor, floor_seconds, number, partition, selected, target_jid,
};
use crate::whatsapp::ephemeral::{describe, lifetime_text};
use crate::whatsapp::jid::{jid_reading, pn_address, pn_suffix, read_jid};

verus! {

// ------------------------------------------------------------------ actions
/// What the tool can do.
#[derive(Clone, Copy, PartialEq, Eq, Structural, Debug)]
pub enum Action {
    Send,
    Reply,
    Delete,
    Pin,
    Unpin,
    Forward,
    SetProfileName,
    SetProfileStatus,
    SendPhoto,
    SendDocument,
    SendAudio,
    SendVideo,
    SendSticker,
    SendLocation,
    SendContact,
    React,
    SendPoll,
    Typing,
    MarkRead,
    StatusUpdate,
    ListNewsletters,
    CreateLabel,
    AssignLabel,
    BlockContact,
    UnblockContact,
    ListBlocked,
}

/// The name of an action.
pub open spec fn action_name(a: Action) -> Seq<char> {
    match a {
        Action::Send => "send"@,
        Action::Reply => "reply"@,
        Action::Delete => "delete"@,
        Action::Pin => "pin"@,
        Action::Unpin => "unpin"@,
        Action::Forward => "forward"@,
        Action::SetProfileName => "set_profile_name"@,
        Action::SetProfileStatus => "set_profile_status"@,
        Action::SendPhoto => "send_photo"@,
        Action::SendDocument => "send_document"@,
        Action::SendAudio => "send_audio"@,
        Action::SendVideo => "send_video"@,
        Action::SendSticker => "send_sticker"@,
        Action::SendLocation => "send_location"@,
        Action::SendContact => "send_contact"@,
        Action::React => "react"@,
        Action::SendPoll => "send_poll"@,
        Action::Typing => "typing"@,
        Action::MarkRead => "mark_read"@,
        Action::StatusUpdate => "status_update"@,
        Action::ListNewsletters => "list_newsletters"@,
        Action::CreateLabel => "create_label"@,
        Action::AssignLabel => "assign_label"@,
        Action::BlockContact => "block_contact"@,
        Action::UnblockContact => "unblock_contact"@,
        Action::ListBlocked => "list_blocked"@,
    }
}

/// The name of an action.
pub fn name_of(a: Action) -> (r: &'static str)
    ensures
        r@ == action_name(a),
{
    match a {
        Action::Send => "send",
        Action::Reply => "reply",
        Action::Delete => "delete",
        Action::Pin => "pin",
        Action::Unpin => "unpin",
        Action::Forward => "forward",
        Action::SetProfileName => "set_profile_name",
        Action::SetProfileStatus => "set_profile_status",
        Action::SendPhoto => "send_photo",
        Action::SendDocument => "send_document",
        Action::SendAudio => "send_audio",
        Action::SendVideo => "send_video",
        Action::SendSticker => "send_sticker",
        Action::SendLocation => "send_location",
        Action::SendContact => "send_contact",
        Action::React => "react",
        Action::SendPoll => "send_poll",
        Action::Typing => "typing",
        Action::MarkRead => "mark_read",
        Action::StatusUpdate => "status_update",
        Action::ListNewsletters => "list_newsletters",
        Action::CreateLabel => "create_label",
        Action::AssignLabel => "assign_label",
        Action::BlockContact => "block_contact",
        Action::UnblockContact => "unblock_contact",
        Action::ListBlocked => "list_blocked",
    }
}

/// Every action, in the order in which a schema lists them.
pub open spec fn actions() -> Seq<Action> {
    seq![
        Action::Send,
        Action::Reply,
        Action::Delete,
        Action::Pin,
        Action::Unpin,
        Action::Forward,
        Action::SetProfileName,
        Action::SetProfileStatus,
        Action::SendPhoto,
        Action::SendDocument,
        Action::SendAudio,
        Action::SendVideo,
        Action::SendSticker,
        Action::SendLocation,
        Action::SendContact,
        Action::React,
        Action::SendPoll,
        Action::Typing,
        Action::MarkRead,
        Action::StatusUpdate,
        Action::ListNewsletters,
        Action::CreateLabel,
        Action::AssignLabel,
        Action::BlockContact,
        Action::UnblockContact,
        Action::ListBlocked,
    ]
}

/// Every action, in the order in which a schema lists them.
pub fn all_actions() -> (r: Vec<Action>)
    ensures
        r@ == actions(),
{
    let r = vec![
        Action::Send,
        Action::Reply,
        Action::Delete,
        Action::Pin,
        Action::Unpin,
        Action::Forward,
        Action::SetProfileName,
        Action::SetProfileStatus,
        Action::SendPhoto,
        Action::SendDocument,
        Action::SendAudio,
        Action::SendVideo,
        Action::SendSticker,
        Action::SendLocation,
        Action::SendContact,
        Action::React,
        Action::SendPoll,
        Action::Typing,
        Action::MarkRead,
        Action::StatusUpdate,
        Action::ListNewsletters,
        Action::CreateLabel,
        Action::AssignLabel,
        Action::BlockContact,
        Action::UnblockContact,
        Action::ListBlocked,
    ];
    assert(r@ =~= actions());
    r
}

/// The list of actions leaves none out.
pub proof fn law_every_action_is_listed(a: Action)
    ensures
        actions().contains(a),
{
    let s = actions();
    match a {
        Action::Send => assert(s[0] == a),
        Action::Reply => assert(s[1] == a),
        Action::Delete => assert(s[2] == a),
        Action::Pin => assert(s[3] == a),
        Action::Unpin => assert(s[4] == a),
        Action::Forward => assert(s[5] == a),
        Action::SetProfileName => assert(s[6] == a),
        Action::SetProfileStatus => assert(s[7] == a),
        Action::SendPhoto => assert(s[8] == a),
        Action::SendDocument => assert(s[9] == a),
        Action::SendAudio => assert(s[10] == a),
        Action::SendVideo => assert(s[11] == a),
        Action::SendSticker => assert(s[12] == a),
        Action::SendLocation => assert(s[13] == a),
        Action::SendContact => assert(s[14] == a),
        Action::React => assert(s[15] == a),
        Action::SendPoll => assert(s[16] == a),
        Action::Typing => assert(s[17] == a),
        Action::MarkRead => assert(s[18] == a),
        Action::StatusUpdate => assert(s[19] == a),
        Action::ListNewsletters => assert(s[20] == a),
        Action::CreateLabel => assert(s[21] == a),
        Action::AssignLabel => assert(s[22] == a),
        Action::BlockContact => assert(s[23] == a),
        Action::UnblockContact => assert(s[24] == a),
        Action::ListBlocked => assert(s[25] == a),
    }
}

/// Distinct actions have distinct names.
pub proof fn law_action_names_are_distinct(a: Action, b: Action)
    requires
        action_name(a) == action_name(b),
    ensures
        a == b,
{
    reveal_strlit("send");
    reveal_strlit("reply");
    reveal_strlit("delete");
    reveal_strlit("pin");
    reveal_strlit("unpin");
    reveal_strlit("forward");
    reveal_strlit("set_profile_name");
    reveal_strlit("set_profile_status");
    reveal_strlit("send_photo");
    reveal_strlit("send_document");
    reveal_strlit("send_audio");
    reveal_strlit("send_video");
    reveal_strlit("send_sticker");
    reveal_strlit("send_location");
    reveal_strlit("send_contact");
    reveal_strlit("react");
    reveal_strlit("send_poll");
    reveal_strlit("typing");
    reveal_strlit("mark_read");
    reveal_strlit("status_update");
    reveal_strlit("list_newsletters");
    reveal_strlit("create_label");
    reveal_strlit("assign_label");
    reveal_strlit("block_contact");
    reveal_strlit("unblock_contact");
    reveal_strlit("list_blocked");
    let x = action_name(a);
    let y = action_name(b);
    assert(x.len() == y.len());
    assert(x[0] == y[0] && x[x.len() - 1] == y[y.len() - 1]);
    assert(x[1] == y[1] && x[2] == y[2]);
    if x.len() > 6 {
        assert(x[5] == y[5] && x[6] == y[6]);
    }
}

/// Whether a text names an action.
pub open spec fn is_action(name: Seq<char>) -> bool {
    exists|a: Action| #[trigger] action_name(a) == name
}

/// The action a text names.
pub fn parse_action(name: &str) -> (r: Option<Action>)
    ensures
        match r {
            Some(a) => action_name(a) == name@,
            None => !is_action(name@),
        },
{
    if str_eq(name, "send") {
        return Some(Action::Send);
    }
    if str_eq(name, "reply") {
        return Some(Action::Reply);
    }
    if str_eq(name, "delete") {
        return Some(Action::Delete);
    }
    if str_eq(name, "pin") {
        return Some(Action::Pin);
    }
    if str_eq(name, "unpin") {
        return Some(Action::Unpin);
    }
    if str_eq(name, "forward") {
        return Some(Action::Forward);
    }
    if str_eq(name, "set_profile_name") {
        return Some(Action::SetProfileName);
    }
    if str_eq(name, "set_profile_status") {
        return Some(Action::SetProfileStatus);
    }
    if str_eq(name, "send_photo") {
        return Some(Action::SendPhoto);
    }
    if str_eq(name, "send_document") {
        return Some(Action::SendDocument);
    }
    if str_eq(name, "send_audio") {
        return Some(Action::SendAudio);
    }
    if str_eq(name, "send_video") {
        return Some(Action::SendVideo);
    }
    if str_eq(name, "send_sticker") {
        return Some(Action::SendSticker);
    }
    if str_eq(name, "send_location") {
        return Some(Action::SendLocation);
    }
    if str_eq(name, "send_contact") {
        return Some(Action::SendContact);
    }
    if str_eq(name, "react") {
        return Some(Action::React);
    }
    if str_eq(name, "send_poll") {
        return Some(Action::SendPoll);
    }
    if str_eq(name, "typing") {
        return Some(Action::Typing);
    }
    if str_eq(name, "mark_read") {
        return Some(Action::MarkRead);
    }
    if str_eq(name, "status_update") {
        return Some(Action::StatusUpdate);
    }
    if str_eq(name, "list_newsletters") {
        return Some(Action::ListNewsletters);
    }
    if str_eq(name, "create_label") {
        return Some(Action::CreateLabel);
    }
    if str_eq(name, "assign_label") {
        return Some(Action::AssignLabel);
    }
    if str_eq(name, "block_contact") {
        return Some(Action::BlockContact);
    }
    if str_eq(name, "unblock_contact") {
        return Some(Action::UnblockContact);
    }
    if str_eq(name, "list_blocked") {
        return Some(Action::ListBlocked);
    }
    None
}

/// Sending reaches other people, and a message once sent is out.
pub fn hints() -> (r: ToolHints)
    ensures
        r == (ToolHints {
            read_only: false,
            destructive: true,
            idempotent: false,
            open_world: true,
        }),
{
    ToolHints { read_only: false, destructive: true, idempotent: false, open_world: true }
}

// ------------------------------------------------------------------- inputs
/// The parameters of a call. Coordinates arrive as rendered numbers.
pub struct SendInput {
    pub action: Option<String>,
    pub message: Option<String>,
    pub phone: Option<String>,
    pub message_id: Option<String>,
    pub media_path: Option<String>,
    pub contact_name: Option<String>,
    pub contact_phone: Option<String>,
    pub poll_question: Option<String>,
    pub label_id: Option<String>,
    pub emoji: Option<String>,
    pub latitude: Option<String>,
    pub longitude: Option<String>,
    pub poll_options: Option<Vec<String>>,
    pub targets: Option<Vec<String>>,
    pub voice_note: Option<bool>,
    pub multi_select: Option<bool>,
    pub typing_active: Option<bool>,
    pub remove: Option<bool>,
}

/// The text parameters that an action can require.
#[derive(Clone, Copy, PartialEq, Eq, Structural, Debug)]
pub enum Param {
    Message,
    MessageId,
    MediaPath,
    ContactName,
    ContactPhone,
    PollQuestion,
    LabelId,
}

pub open spec fn param_name(p: Param) -> Seq<char> {
    match p {
        Param::Message => "message"@,
        Param::MessageId => "message_id"@,
        Param::MediaPath => "media_path"@,
        Param::ContactName => "contact_name"@,
        Param::ContactPhone => "contact_phone"@,
        Param::PollQuestion => "poll_question"@,
        Param::LabelId => "label_id"@,
    }
}

pub open spec fn param(input: SendInput, p: Param) -> Option<String> {
    match p {
        Param::Message => input.message,
        Param::MessageId => input.message_id,
        Param::MediaPath => input.media_path,
        Param::ContactName => input.contact_name,
        Param::ContactPhone => input.contact_phone,
        Param::PollQuestion => input.poll_question,
        Param::LabelId => input.label_id,
    }
}

/// A required text is there and not empty.
pub open spec fn given(value: Option<String>) -> bool {
    value is Some && value->0@.len() > 0
}

pub open spec fn missing_text(key: Seq<char>) -> Seq<char> {
    "Missing required parameter '"@ + key + "'."@
}

/// A required text parameter, or the error that names it.
pub fn get_str<'a>(value: &'a Option<String>, key: &str) -> (r: Result<&'a str, ToolResult>)
    ensures
        match r {
            Ok(s) => given(*value) && s@ == value->0@,
            Err(e) => !given(*value) && e@ == Reply::Error(missing_text(key@)),
        },
{
    match value {
        Some(s) => if !s.as_str().is_empty() {
            Ok(s.as_str())
        } else {
            Err(ToolResult::error(cat3("Missing required parameter '", key, "'.")))
        },
        None => Err(ToolResult::error(cat3("Missing required parameter '", key, "'."))),
    }
}

/// The text parameters an action requires once its recipient is known.
pub open spec fn required(a: Action) -> (Option<Param>, Option<Param>) {
    match a {
        Action::Reply | Action::Delete | Action::Forward | Action::React | Action::MarkRead => (
            Some(Param::MessageId),
            None,
        ),
        Action::SetProfileName | Action::SetProfileStatus | Action::StatusUpdate
        | Action::CreateLabel => (Some(Param::Message), None),
        Action::SendPhoto | Action::SendDocument | Action::SendAudio | Action::SendVideo
        | Action::SendSticker => (Some(Param::MediaPath), None),
        Action::SendContact => (Some(Param::ContactName), Some(Param::ContactPhone)),
        Action::SendPoll => (Some(Param::PollQuestion), None),
        Action::AssignLabel => (Some(Param::LabelId), None),
        _ => (None, None),
    }
}

/// What an action lacks once its recipient is known.
pub open spec fn lack(input: SendInput, a: Action) -> Option<Seq<char>> {
    let (p, q) = required(a);
    if p is Some && !given(param(input, p->0)) {
        Some(missing_text(param_name(p->0)))
    } else if q is Some && !given(param(input, q->0)) {
        Some(missing_text(param_name(q->0)))
    } else if a == Action::SendLocation && input.latitude is None {
        Some("Missing required 'latitude' parameter."@)
    } else if a == Action::SendLocation && input.longitude is None {
        Some("Missing required 'longitude' parameter."@)
    } else if a == Action::SendPoll && input.poll_options is None {
        Some("Missing required 'poll_options' parameter."@)
    } else if a == Action::SendPoll && input.poll_options->0@.len() < 2 {
        Some("'poll_options' must have at least 2 options."@)
    } else if a == Action::SendPoll && input.poll_options->0@.len() > 12 {
        Some("'poll_options' supports a maximum of 12 options."@)
    } else {
        None
    }
}

fn lacking_param(input: &SendInput, p: Param) -> (r: Option<String>)
    ensures
        match r {
            Some(s) => !given(param(*input, p)) && s@ == missing_text(param_name(p)),
            None => given(param(*input, p)),
        },
{
    let got = match p {
        Param::Message => get_str(&input.message, "message"),
        Param::MessageId => get_str(&input.message_id, "message_id"),
        Param::MediaPath => get_str(&input.media_path, "media_path"),
        Param::ContactName => get_str(&input.contact_name, "contact_name"),
        Param::ContactPhone => get_str(&input.contact_phone, "contact_phone"),
        Param::PollQuestion => get_str(&input.poll_question, "poll_question"),
        Param::LabelId => get_str(&input.label_id, "label_id"),
    };
    match got {
        Ok(_) => None,
        Err(e) => Some(e.text),
    }
}

fn required_params(a: Action) -> (r: (Option<Param>, Option<Param>))
    ensures
        r == required(a),
{
    match a {
        Action::Reply | Action::Delete | Action::Forward | Action::React | Action::MarkRead => (
            Some(Param::MessageId),
            None,
        ),
        Action::SetProfileName | Action::SetProfileStatus | Action::StatusUpdate
        | Action::CreateLabel => (Some(Param::Message), None),
        Action::SendPhoto | Action::SendDocument | Action::SendAudio | Action::SendVideo
        | Action::SendSticker => (Some(Param::MediaPath), None),
        Action::SendContact => (Some(Param::ContactName), Some(Param::ContactPhone)),
        Action::SendPoll => (Some(Param::PollQuestion), None),
        Action::AssignLabel => (Some(Param::LabelId), None),
        _ => (None, None),
    }
}

/// What an action lacks once its recipient is known, as an error text.
pub fn find_lack(input: &SendInput, a: Action) -> (r: Option<String>)
    ensures
        oview(r) == lack(*input, a),
{
    let (p, q) = required_params(a);
    if let Some(p) = p {
        if let Some(e) = lacking_param(input, p) {
            return Some(e);
        }
    }
    if let Some(q) = q {
        if let Some(e) = lacking_param(input, q) {
            return Some(e);
        }
    }
    match a {
        Action::SendLocation => {
            if input.latitude.is_none() {
                Some("Missing required 'latitude' parameter.".to_owned())
            } else if input.longitude.is_none() {
                Some("Missing required 'longitude' parameter.".to_owned())
            } else {
                None
            }
        },
        Action::SendPoll => match &input.poll_options {
            None => Some("Missing required 'poll_options' parameter.".to_owned()),
            Some(options) => if options.len() < 2 {
                Some("'poll_options' must have at least 2 options.".to_owned())
            } else if options.len() > 12 {
                Some("'poll_options' supports a maximum of 12 options.".to_owned())
            } else {
                None
            },
        },
        _ => None,
    }
}

/// How many options a voter may pick: one, or any number of them.
pub fn selectable(multi_select: Option<bool>, options: usize) -> (r: u32)
    requires
        2 <= options <= 12,
    ensures
        r == if multi_select == Some(true) {
            options
        } else {
            1
        },
{
    match multi_select {
        Some(true) => options as u32,
        _ => 1,
    }
}

// ---------------------------------------------------------------- recipient
/// Whether the allowlist lets a number through; an empty one lets all through.
pub open spec fn permitted(phone: Seq<char>, allowed_phones: Seq<Seq<char>>) -> bool {
    allowed_phones.len() == 0 || exists|k: int|
        0 <= k < allowed_phones.len() && trim_start_of(#[trigger] allowed_phones[k], '+')
            == trim_start_of(phone, '+')
}

fn is_permitted(phone: &str, allowed_phones: &Vec<String>) -> (r: bool)
    ensures
        r == permitted(phone@, views(allowed_phones@)),
{
    if allowed_phones.len() == 0 {
        return true;
    }
    let wanted = strip_leading(phone, '+');
    let mut i: usize = 0;
    while i < allowed_phones.len()
        invariant
            i <= allowed_phones.len(),
            allowed_phones.len() > 0,
            wanted@ == trim_start_of(phone@, '+'),
            forall|k: int|
                0 <= k < i ==> trim_start_of(#[trigger] views(allowed_phones@)[k], '+') != wanted@,
        decreases allowed_phones.len() - i,
    {
        assert(views(allowed_phones@)[i as int] == allowed_phones@[i as int]@);
        if str_eq(strip_leading(allowed_phones[i].as_str(), '+'), wanted) {
            return true;
        }
        i = i + 1;
    }
    false
}

/// The recipient, given how its address reads and what the send scope says of
/// it.
pub open spec fn accepted(
    jid: Seq<char>,
    reading: Result<Seq<char>, Seq<char>>,
    from_phone: bool,
    refusal: Option<Seq<char>>,
) -> Result<Seq<char>, Seq<char>> {
    match reading {
        Err(e) => Err(
            if from_phone {
                "Invalid phone number format: "@ + e
            } else {
                "Invalid owner JID: "@ + e
            },
        ),
        Ok(_) => match refusal {
            Some(reason) => Err(reason),
            None => Ok(jid),
        },
    }
}

/// How a pair of results reads as values.
pub open spec fn result_view(r: Result<String, String>) -> Result<Seq<char>, Seq<char>> {
    match r {
        Ok(s) => Ok(s@),
        Err(e) => Err(e@),
    }
}

/// The recipient, given how its address reads and what the send scope says of
/// it.
pub fn accept_reading(
    jid: String,
    reading: Result<String, String>,
    from_phone: bool,
    refusal: &Option<String>,
) -> (r: Result<String, String>)
    ensures
        result_view(r) == accepted(jid@, result_view(reading), from_phone, oview(*refusal)),
{
    match reading {
        Err(e) => Err(
            if from_phone {
                cat2("Invalid phone number format: ", e.as_str())
            } else {
                cat2("Invalid owner JID: ", e.as_str())
            },
        ),
        Ok(_) => match refusal {
            Some(reason) => Err(reason.clone()),
            None => Ok(jid),
        },
    }
}

/// The address a call goes to: that of the number it names, or the owner's.
pub open spec fn addressed(phone: Option<Seq<char>>, owner_jid: Option<Seq<char>>) -> Option<
    Seq<char>,
> {
    match phone {
        Some(p) => Some(trim_start_of(p, '+') + pn_suffix()),
        None => owner_jid,
    }
}

/// The address a call goes to, and so the one that the send scope is asked
/// about.
pub fn address(phone: &Option<String>, owner_jid: &Option<String>) -> (r: Option<String>)
    ensures
        oview(r) == addressed(oview(*phone), oview(*owner_jid)),
{
    match phone {
        Some(p) => Some(pn_address(strip_leading(p.as_str(), '+'))),
        None => match owner_jid {
            Some(jid) => Some(jid.clone()),
            None => None,
        },
    }
}

/// Whom a call goes to: the number it names, if the allowlist has it, or the
/// owner. `refusal` is what the send scope objects to the address.
pub open spec fn recipient(
    phone: Option<Seq<char>>,
    allowed_phones: Seq<Seq<char>>,
    owner_jid: Option<Seq<char>>,
    refusal: Option<Seq<char>>,
) -> Result<Seq<char>, Seq<char>> {
    match phone {
        Some(p) => if !permitted(p, allowed_phones) {
            Err(
                "Sending to "@ + p
                    + " is not permitted. This number is not in the allowed_users config."@,
            )
        } else {
            let jid = addressed(phone, owner_jid)->0;
            accepted(jid, jid_reading(jid), true, refusal)
        },
        None => match owner_jid {
            None => Err(
                "No owner phone number configured and no 'phone' parameter provided. Specify a phone number to send to."@,
            ),
            Some(jid) => accepted(jid, jid_reading(jid), false, refusal),
        },
    }
}

/// Resolves the recipient of a call. `refusal` is what the send scope objects
/// to that recipient, if anything.
pub fn resolve_jid(
    phone: &Option<String>,
    allowed_phones: &Vec<String>,
    owner_jid: &Option<String>,
    refusal: &Option<String>,
) -> (r: Result<String, String>)
    ensures
        result_view(r) == recipient(
            oview(*phone),
            views(allowed_phones@),
            oview(*owner_jid),
            oview(*refusal),
        ),
{
    match phone {
        Some(p) => {
            if !is_permitted(p.as_str(), allowed_phones) {
                return Err(
                    cat3(
                        "Sending to ",
                        p.as_str(),
                        " is not permitted. This number is not in the allowed_users config.",
                    ),
                );
            }
            let jid = pn_address(strip_leading(p.as_str(), '+'));
            let reading = read_jid(jid.as_str());
            accept_reading(jid, reading, true, refusal)
        },
        None => match owner_jid {
            None => Err(
                "No owner phone number configured and no 'phone' parameter provided. Specify a phone number to send to.".to_owned(),
            ),
            Some(jid) => {
                let reading = read_jid(jid.as_str());
                accept_reading(jid.clone(), reading, false, refusal)
            },
        },
    }
}

/// Whether an action goes to one recipient.
pub open spec fn has_recipient(a: Action) -> bool {
    !(a == Action::SetProfileName || a == Action::SetProfileStatus || a == Action::StatusUpdate
        || a == Action::ListNewsletters || a == Action::CreateLabel || a == Action::ListBlocked)
}

/// What a budgeted action would deliver. Receipts, presence and account
/// operations are not messages and have none; texts go through the queue.
pub open spec fn cargo(a: Action) -> Option<Seq<char>> {
    match a {
        Action::Forward => Some("the forwarded message"@),
        Action::SendPhoto => Some("the photo"@),
        Action::SendDocument => Some("the document"@),
        Action::SendAudio => Some("the audio"@),
        Action::SendVideo => Some("the video"@),
        Action::SendSticker => Some("the sticker"@),
        Action::SendLocation => Some("the location"@),
        Action::SendContact => Some("the contact card"@),
        Action::React => Some("the reaction"@),
        Action::SendPoll => Some("the poll"@),
        _ => None,
    }
}

fn cargo_of(a: Action) -> (r: Option<&'static str>)
    ensures
        match r {
            Some(s) => cargo(a) == Some(s@),
            None => cargo(a) is None,
        },
{
    match a {
        Action::Forward => Some("the forwarded message"),
        Action::SendPhoto => Some("the photo"),
        Action::SendDocument => Some("the document"),
        Action::SendAudio => Some("the audio"),
        Action::SendVideo => Some("the video"),
        Action::SendSticker => Some("the sticker"),
        Action::SendLocation => Some("the location"),
        Action::SendContact => Some("the contact card"),
        Action::React => Some("the reaction"),
        Action::SendPoll => Some("the poll"),
        _ => None,
    }
}

pub open spec fn cap_text(what: Seq<char>) -> Seq<char> {
    "Daily WhatsApp send cap reached; "@ + what
        + " was NOT sent. Unlike text, this is not queued for retry - try again once the 24h window slides."@
}

/// The answer to a send that the daily cap holds back.
pub fn cap_refusal(what: &str) -> (r: ToolResult)
    ensures
        r@ == Reply::Error(cap_text(what@)),
{
    ToolResult::error(
        cat3(
            "Daily WhatsApp send cap reached; ",
            what,
            " was NOT sent. Unlike text, this is not queued for retry - try again once the 24h window slides.",
        ),
    )
}

// ----------------------------------------------------------------- one call
/// What the tool does next.
pub enum Step {
    /// Answer and stop.
    Answer(ToolResult),
    /// Ask the limiter for the recipient's budget, then go on with
    /// [`after_gate`].
    Gate { action: Action, jid: String },
    /// Perform the action; `jid` is empty where it has no recipient.
    Perform { action: Action, jid: String },
}

/// What the tool does next, as values.
pub enum StepV {
    Answer(Reply),
    Gate { action: Action, jid: Seq<char> },
    Perform { action: Action, jid: Seq<char> },
}

impl View for Step {
    type V = StepV;

    open spec fn view(&self) -> StepV {
        match self {
            Step::Answer(t) => StepV::Answer(t@),
            Step::Gate { action, jid } => StepV::Gate { action: *action, jid: jid@ },
            Step::Perform { action, jid } => StepV::Perform { action: *action, jid: jid@ },
        }
    }
}

pub open spec fn unknown_text(name: Seq<char>) -> Seq<char> {
    "Unknown action '"@ + name
        + "'. Valid actions: send, reply, delete, send_photo, send_document, send_audio, send_video, send_sticker, send_location, send_contact, react, send_poll, typing, mark_read, block_contact, unblock_contact, list_blocked, pin, unpin, forward, set_profile_name, set_profile_status, status_update, list_newsletters, create_label, assign_label"@
}

/// The step once the recipient is known and the budget granted.
pub open spec fn ready(input: SendInput, a: Action, jid: Seq<char>) -> StepV {
    match lack(input, a) {
        Some(e) => StepV::Answer(Reply::Error(e)),
        None => StepV::Perform { action: a, jid },
    }
}

/// The first step of an action.
pub open spec fn opened(
    input: SendInput,
    a: Action,
    to: Result<Seq<char>, Seq<char>>,
) -> StepV {
    if a == Action::Send && !given(input.message) {
        StepV::Answer(Reply::Error("Missing or empty 'message' parameter."@))
    } else if a == Action::Reply && !given(input.message) {
        StepV::Answer(Reply::Error(missing_text("message"@)))
    } else if !has_recipient(a) {
        ready(input, a, Seq::empty())
    } else {
        match to {
            Err(e) => StepV::Answer(Reply::Error(e)),
            Ok(jid) => if cargo(a) is Some {
                StepV::Gate { action: a, jid }
            } else {
                ready(input, a, jid)
            },
        }
    }
}

/// The step once the recipient is known and the budget granted.
fn ready_step(input: &SendInput, a: Action, jid: String) -> (r: Step)
    ensures
        r@ == ready(*input, a, jid@),
{
    match find_lack(input, a) {
        Some(e) => Step::Answer(ToolResult::error(e)),
        None => Step::Perform { action: a, jid },
    }
}

/// Opens a call: checks the action, the connection, the parameters that are
/// read before the recipient, and the recipient.
pub fn execute(
    input: &SendInput,
    connected: bool,
    allowed_phones: &Vec<String>,
    owner_jid: &Option<String>,
    refusal: &Option<String>,
) -> (r: Step)
    ensures
        !given(input.action) ==> r@ == StepV::Answer(
            Reply::Error("Missing required 'action' parameter."@),
        ),
        given(input.action) && !connected ==> r@ == StepV::Answer(
            Reply::Error(
                "WhatsApp is not connected. Ask the user to connect WhatsApp first (use the whatsapp_connect tool)."@,
            ),
        ),
        given(input.action) && connected && !is_action(input.action->0@) ==> r@ == StepV::Answer(
            Reply::Error(unknown_text(input.action->0@)),
        ),
        forall|a: Action|
            given(input.action) && connected && #[trigger] action_name(a) == input.action->0@
                ==> r@ == opened(
                *input,
                a,
                recipient(
                    oview(input.phone),
                    views(allowed_phones@),
                    oview(*owner_jid),
                    oview(*refusal),
                ),
            ),
{
    let name = match &input.action {
        Some(a) => a.as_str(),
        None => "",
    };
    proof {
        reveal_strlit("");
    }
    if name.is_empty() {
        return Step::Answer(ToolResult::error("Missing required 'action' parameter.".to_owned()));
    }
    if !connected {
        return Step::Answer(
            ToolResult::error(
                "WhatsApp is not connected. Ask the user to connect WhatsApp first (use the whatsapp_connect tool).".to_owned(),
            ),
        );
    }
    let action = match parse_action(name) {
        Some(a) => a,
        None => {
            return Step::Answer(
                ToolResult::error(
                    cat3(
                        "Unknown action '",
                        name,
                        "'. Valid actions: send, reply, delete, send_photo, send_document, send_audio, send_video, send_sticker, send_location, send_contact, react, send_poll, typing, mark_read, block_contact, unblock_contact, list_blocked, pin, unpin, forward, set_profile_name, set_profile_status, status_update, list_newsletters, create_label, assign_label",
                    ),
                ),
            );
        },
    };
    proof {
        assert forall|a: Action| #[trigger] action_name(a) == name@ implies a == action by {
            law_action_names_are_distinct(a, action);
        }
    }
    let has_message = match &input.message {
        Some(m) => !m.as_str().is_empty(),
        None => false,
    };
    if action == Action::Send && !has_message {
        return Step::Answer(ToolResult::error("Missing or empty 'message' parameter.".to_owned()));
    }
    if action == Action::Reply && !has_message {
        return Step::Answer(
            ToolResult::error(cat3("Missing required parameter '", "message", "'.")),
        );
    }
    if action == Action::SetProfileName || action == Action::SetProfileStatus || action
        == Action::StatusUpdate || action == Action::ListNewsletters || action
        == Action::CreateLabel || action == Action::ListBlocked {
        return ready_step(input, action, String::new());
    }
    match resolve_jid(&input.phone, allowed_phones, owner_jid, refusal) {
        Err(e) => Step::Answer(ToolResult::error(e)),
        Ok(jid) => {
            if cargo_of(action).is_some() {
                Step::Gate { action, jid }
            } else {
                ready_step(input, action, jid)
            }
        },
    }
}

/// Goes on after the limiter answered.
pub fn after_gate(input: &SendInput, action: Action, jid: String, granted: bool) -> (r: Step)
    requires
        cargo(action) is Some,
    ensures
        r@ == if granted {
            ready(*input, action, jid@)
        } else {
            StepV::Answer(Reply::Error(cap_text(cargo(action)->0)))
        },
{
    if !granted {
        if let Some(what) = cargo_of(action) {
            return Step::Answer(cap_refusal(what));
        }
    }
    ready_step(input, action, jid)
}

// ------------------------------------------------------------------ answers
/// The text parameter, or nothing.
pub open spec fn text_or_empty(value: Option<String>) -> Seq<char> {
    match value {
        Some(s) => s@,
        None => ""@,
    }
}

fn or_empty(value: &Option<String>) -> (r: &str)
    ensures
        r@ == text_or_empty(*value),
{
    match value {
        Some(s) => s.as_str(),
        None => "",
    }
}

/// What is answered when an action went through. `new_id` is the id that the
/// client returned (forward) or that was minted (a label without id).
pub open spec fn done_text(a: Action, input: SendInput, jid: Seq<char>, new_id: Seq<char>) -> Seq<
    char,
> {
    let message = text_or_empty(input.message);
    let id = text_or_empty(input.message_id);
    match a {
        Action::Delete => "Message "@ + id + " deleted for "@ + jid + "."@,
        Action::Pin => "Chat with "@ + jid + " pinned."@,
        Action::Unpin => "Chat with "@ + jid + " unpinned."@,
        Action::Forward => "Forwarded message "@ + id + " to "@ + jid + " via WhatsApp (new id "@
            + new_id + ")."@,
        Action::SetProfileName => "WhatsApp profile name set to '"@ + message + "'."@,
        Action::SetProfileStatus => "WhatsApp profile status set to '"@ + message + "'."@,
        Action::SendPhoto => "Photo sent to "@ + jid + " via WhatsApp."@,
        Action::SendDocument => "Document sent to "@ + jid + " via WhatsApp."@,
        Action::SendAudio => if input.voice_note != Some(false) {
            "Voice note sent to "@ + jid + " via WhatsApp."@
        } else {
            "Audio sent to "@ + jid + " via WhatsApp."@
        },
        Action::SendVideo => "Video sent to "@ + jid + " via WhatsApp."@,
        Action::SendSticker => "Sticker sent to "@ + jid + " via WhatsApp."@,
        Action::SendLocation => "Location ("@ + text_or_empty(input.latitude) + ", "@
            + text_or_empty(input.longitude) + ") sent to "@ + jid + " via WhatsApp."@,
        Action::SendContact => "Contact '"@ + text_or_empty(input.contact_name) + "' sent to "@
            + jid + " via WhatsApp."@,
        Action::React => if text_or_empty(input.emoji).len() == 0 {
            "Reaction removed from message "@ + id + " for "@ + jid + "."@
        } else {
            "Reaction '"@ + text_or_empty(input.emoji) + "' set on message "@ + id + " for "@ + jid
                + "."@
        },
        Action::SendPoll => "Poll '"@ + text_or_empty(input.poll_question) + "' sent to "@ + jid
            + " via WhatsApp."@,
        Action::Typing => if input.typing_active != Some(false) {
            "Typing composing sent to "@ + jid + "."@
        } else {
            "Typing paused sent to "@ + jid + "."@
        },
        Action::MarkRead => "Message "@ + id + " marked as read for "@ + jid + "."@,
        Action::CreateLabel => "Label '"@ + message + "' saved with id "@ + (match input.label_id {
            Some(l) => l@,
            None => new_id,
        }) + "."@,
        Action::AssignLabel => if input.remove == Some(true) {
            "Label "@ + text_or_empty(input.label_id) + " removed from chat with "@ + jid + "."@
        } else {
            "Label "@ + text_or_empty(input.label_id) + " added to chat with "@ + jid + "."@
        },
        Action::BlockContact => "Blocked "@ + jid
            + " on WhatsApp. Their messages no longer reach the bot."@,
        Action::UnblockContact => "Unblocked "@ + jid + " on WhatsApp."@,
        _ => Seq::empty(),
    }
}

/// Whether an action has a fixed answer when it went through; the others
/// report what was delivered or listed.
pub open spec fn has_done_text(a: Action) -> bool {
    !(a == Action::Send || a == Action::Reply || a == Action::StatusUpdate || a
        == Action::ListNewsletters || a == Action::ListBlocked)
}

/// The answer to an action that went through.
pub fn succeeded(a: Action, input: &SendInput, jid: &str, new_id: &str) -> (r: ToolResult)
    requires
        has_done_text(a),
    ensures
        r@ == Reply::Success(done_text(a, *input, jid@, new_id@)),
{
    let message = or_empty(&input.message);
    let id = or_empty(&input.message_id);
    let text = match a {
        Action::Delete => cat5("Message ", id, " deleted for ", jid, "."),
        Action::Pin => cat3("Chat with ", jid, " pinned."),
        Action::Unpin => cat3("Chat with ", jid, " unpinned."),
        Action::Forward => {
            let mut t = cat5("Forwarded message ", id, " to ", jid, " via WhatsApp (new id ");
            t.append(new_id);
            t.append(").");
            t
        },
        Action::SetProfileName => cat3("WhatsApp profile name set to '", message, "'."),
        Action::SetProfileStatus => cat3("WhatsApp profile status set to '", message, "'."),
        Action::SendPhoto => cat3("Photo sent to ", jid, " via WhatsApp."),
        Action::SendDocument => cat3("Document sent to ", jid, " via WhatsApp."),
        Action::SendAudio => match input.voice_note {
            Some(false) => cat3("Audio sent to ", jid, " via WhatsApp."),
            _ => cat3("Voice note sent to ", jid, " via WhatsApp."),
        },
        Action::SendVideo => cat3("Video sent to ", jid, " via WhatsApp."),
        Action::SendSticker => cat3("Sticker sent to ", jid, " via WhatsApp."),
        Action::SendLocation => {
            let mut t = cat5(
                "Location (",
                or_empty(&input.latitude),
                ", ",
                or_empty(&input.longitude),
                ") sent to ",
            );
            t.append(jid);
            t.append(" via WhatsApp.");
            t
        },
        Action::SendContact => cat5(
            "Contact '",
            or_empty(&input.contact_name),
            "' sent to ",
            jid,
            " via WhatsApp.",
        ),
        Action::React => {
            let emoji = or_empty(&input.emoji);
            if emoji.is_empty() {
                cat5("Reaction removed from message ", id, " for ", jid, ".")
            } else {
                let mut t = cat5("Reaction '", emoji, "' set on message ", id, " for ");
                t.append(jid);
                t.append(".");
                t
            }
        },
        Action::SendPoll => cat5(
            "Poll '",
            or_empty(&input.poll_question),
            "' sent to ",
            jid,
            " via WhatsApp.",
        ),
        Action::Typing => match input.typing_active {
            Some(false) => cat3("Typing paused sent to ", jid, "."),
            _ => cat3("Typing composing sent to ", jid, "."),
        },
        Action::MarkRead => cat5("Message ", id, " marked as read for ", jid, "."),
        Action::CreateLabel => {
            let label = match &input.label_id {
                Some(l) => l.as_str(),
                None => new_id,
            };
            cat5("Label '", message, "' saved with id ", label, ".")
        },
        Action::AssignLabel => match input.remove {
            Some(true) => cat5(
                "Label ",
                or_empty(&input.label_id),
                " removed from chat with ",
                jid,
                ".",
            ),
            _ => cat5("Label ", or_empty(&input.label_id), " added to chat with ", jid, "."),
        },
        Action::BlockContact => cat3(
            "Blocked ",
            jid,
            " on WhatsApp. Their messages no longer reach the bot.",
        ),
        Action::UnblockContact => cat3("Unblocked ", jid, " on WhatsApp."),
        _ => String::new(),
    };
    ToolResult::success(text)
}

/// What is answered when the client refused an action.
pub open spec fn failed_text(a: Action, id: Seq<char>, jid: Seq<char>, e: Seq<char>) -> Seq<char> {
    match a {
        Action::Delete => "Failed to delete message: "@ + e,
        Action::Pin => "Failed to pin chat "@ + jid + ": "@ + e,
        Action::Unpin => "Failed to unpin chat "@ + jid + ": "@ + e,
        Action::Forward => "Failed to forward "@ + id + " to "@ + jid + ": "@ + e,
        Action::SetProfileName => "Failed to set the profile name: "@ + e,
        Action::SetProfileStatus => "Failed to set the profile status: "@ + e,
        Action::SendPhoto => "Failed to send photo: "@ + e,
        Action::SendDocument => "Failed to send document: "@ + e,
        Action::SendAudio => "Failed to send audio: "@ + e,
        Action::SendVideo => "Failed to send video: "@ + e,
        Action::SendSticker => "Failed to send sticker: "@ + e,
        Action::SendLocation => "Failed to send location: "@ + e,
        Action::SendContact => "Failed to send contact: "@ + e,
        Action::React => "Failed to send reaction: "@ + e,
        Action::SendPoll => "Failed to send poll: "@ + e,
        Action::Typing => "Failed to send typing indicator: "@ + e,
        Action::MarkRead => "Failed to mark message as read: "@ + e,
        Action::StatusUpdate => "Failed to post the status update: "@ + e,
        Action::ListNewsletters => "Failed to list newsletters: "@ + e,
        Action::CreateLabel => "Failed to save the label: "@ + e,
        Action::AssignLabel => "Failed to update the label on "@ + jid + ": "@ + e,
        Action::BlockContact => "Failed to block "@ + jid + ": "@ + e,
        Action::UnblockContact => "Failed to unblock "@ + jid + ": "@ + e,
        Action::ListBlocked => "Failed to fetch the blocklist: "@ + e,
        Action::Send | Action::Reply => Seq::empty(),
    }
}

/// The answer to an action that the client refused. Sends and replies report
/// through [`ChunkRun`].
pub fn failed(a: Action, id: &str, jid: &str, e: &str) -> (r: ToolResult)
    requires
        a != Action::Send,
        a != Action::Reply,
    ensures
        r@ == Reply::Error(failed_text(a, id@, jid@, e@)),
{
    let text = match a {
        Action::Delete => cat2("Failed to delete message: ", e),
        Action::Pin => cat4("Failed to pin chat ", jid, ": ", e),
        Action::Unpin => cat4("Failed to unpin chat ", jid, ": ", e),
        Action::Forward => {
            let mut t = cat5("Failed to forward ", id, " to ", jid, ": ");
            t.append(e);
            t
        },
        Action::SetProfileName => cat2("Failed to set the profile name: ", e),
        Action::SetProfileStatus => cat2("Failed to set the profile status: ", e),
        Action::SendPhoto => cat2("Failed to send photo: ", e),
        Action::SendDocument => cat2("Failed to send document: ", e),
        Action::SendAudio => cat2("Failed to send audio: ", e),
        Action::SendVideo => cat2("Failed to send video: ", e),
        Action::SendSticker => cat2("Failed to send sticker: ", e),
        Action::SendLocation => cat2("Failed to send location: ", e),
        Action::SendContact => cat2("Failed to send contact: ", e),
        Action::React => cat2("Failed to send reaction: ", e),
        Action::SendPoll => cat2("Failed to send poll: ", e),
        Action::Typing => cat2("Failed to send typing indicator: ", e),
        Action::MarkRead => cat2("Failed to mark message as read: ", e),
        Action::StatusUpdate => cat2("Failed to post the status update: ", e),
        Action::ListNewsletters => cat2("Failed to list newsletters: ", e),
        Action::CreateLabel => cat2("Failed to save the label: ", e),
        Action::AssignLabel => cat4("Failed to update the label on ", jid, ": ", e),
        Action::BlockContact => cat4("Failed to block ", jid, ": ", e),
        Action::UnblockContact => cat4("Failed to unblock ", jid, ": ", e),
        Action::ListBlocked => cat2("Failed to fetch the blocklist: ", e),
        Action::Send | Action::Reply => String::new(),
    };
    ToolResult::error(text)
}

// -------------------------------------------------------------- chunked text
/// Outgoing text under the channel's attribution header.
pub open spec fn tagged(header: Seq<char>, message: Seq<char>) -> Seq<char> {
    header + "\n\n"@ + message
}

/// Puts outgoing text under the channel's attribution header.
pub fn tag_with_header(header: &str, message: &str) -> (r: String)
    ensures
        r@ == tagged(header@, message@),
{
    cat3(header, "\n\n", message)
}

/// The entries one after the other.
pub open spec fn concatenated(parts: Seq<Seq<char>>) -> Seq<char>
    decreases parts.len(),
{
    if parts.len() == 0 {
        Seq::empty()
    } else {
        concatenated(parts.drop_last()) + parts.last()
    }
}

/// The chunks that left, one after the other.
pub fn delivered_prefix(delivered: &Vec<String>) -> (r: String)
    ensures
        r@ == concatenated(views(delivered@)),
{
    let mut r = String::new();
    let mut i: usize = 0;
    assert(views(delivered@).take(0) =~= Seq::empty());
    while i < delivered.len()
        invariant
            i <= delivered.len(),
            r@ == concatenated(views(delivered@).take(i as int)),
        decreases delivered.len() - i,
    {
        assert(views(delivered@).take(i + 1).drop_last() =~= views(delivered@).take(i as int));
        r.append(delivered[i].as_str());
        i = i + 1;
    }
    assert(views(delivered@).take(i as int) =~= views(delivered@));
    r
}

/// Error text for a chunked send that died partway.
pub open spec fn partial_failure(total: nat, delivered: nat, err: Seq<char>) -> Seq<char> {
    if delivered == 0 {
        "Failed to send WhatsApp message: "@ + err
            + ". No chunks were delivered; safe to retry the whole message."@
    } else {
        "Failed to send WhatsApp message: chunk "@ + decimal(delivered + 1) + " of "@ + decimal(
            total,
        ) + " failed: "@ + err + ". Chunks 1-"@ + decimal(delivered)
            + " were DELIVERED and persisted; do NOT resend them. Retry only the remaining text if needed."@
    }
}

/// Error text for a chunked send that died partway: names what was delivered
/// and what a retry must not resend.
pub fn partial_failure_report(total: usize, delivered: usize, err: &str) -> (r: String)
    requires
        delivered < usize::MAX,
    ensures
        r@ == partial_failure(total as nat, delivered as nat, err@),
{
    if delivered == 0 {
        cat3(
            "Failed to send WhatsApp message: ",
            err,
            ". No chunks were delivered; safe to retry the whole message.",
        )
    } else {
        let mut t = cat5(
            "Failed to send WhatsApp message: chunk ",
            dec_usize(delivered + 1).as_str(),
            " of ",
            dec_usize(total).as_str(),
            " failed: ",
        );
        t.append(err);
        t.append(". Chunks 1-");
        t.append(dec_usize(delivered).as_str());
        t.append(
            " were DELIVERED and persisted; do NOT resend them. Retry only the remaining text if needed.",
        );
        t
    }
}

/// What became of one chunk.
pub enum ChunkEvent {
    /// The daily cap parked it for the drainer.
    Queued,
    Sent,
    /// The client refused it.
    Failed(String),
}

/// Whether a chunk quotes the message it answers: the first one of a reply.
pub fn quotes(a: Action, index: usize) -> (r: bool)
    ensures
        r == (a == Action::Reply && index == 0),
{
    a == Action::Reply && index == 0
}

/// Accounting of one chunked send.
pub struct ChunkRun {
    /// How many chunks the text has.
    pub total: usize,
    /// The chunks that left, in order.
    pub delivered: Vec<String>,
    pub queued_any: bool,
}

/// A message worth storing: not blank.
pub open spec fn storable(text: Seq<char>) -> Option<Seq<char>> {
    if is_blank(text) {
        None
    } else {
        Some(text)
    }
}

fn storable_text(text: String) -> (r: Option<String>)
    ensures
        oview(r) == storable(text@),
{
    if blank(text.as_str()) {
        None
    } else {
        Some(text)
    }
}

/// How a chunked send ends: what to store, and the answer.
pub struct ChunkEnd {
    pub persist: Option<String>,
    pub answer: ToolResult,
}

pub open spec fn queued_text(total: nat, delivered: nat, reply: bool) -> Seq<char> {
    "WhatsApp daily cap reached: "@ + decimal((total - delivered) as nat) + " of "@ + decimal(total)
        + (if reply {
        " reply chunk(s) queued for automatic delivery as the 24h window slides (owner alerted once); "@
    } else {
        " chunk(s) queued for automatic delivery as the 24h window slides (owner alerted once); "@
    }) + decimal(delivered) + " delivered now. Do NOT resend the queued part."@
}

/// The answer to a text that was delivered whole.
pub open spec fn sent_text(jid: Seq<char>, ttl: Option<u32>, reply: bool) -> Seq<char> {
    if reply {
        "Reply sent to "@ + jid + " via WhatsApp."@
    } else {
        match ttl {
            Some(s) => "Message sent to "@ + jid + " via WhatsApp; it disappears after "@
                + lifetime_text(s as nat) + "."@,
            None => "Message sent to "@ + jid + " via WhatsApp."@,
        }
    }
}

impl ChunkRun {
    pub open spec fn wf(&self) -> bool {
        self.delivered@.len() <= self.total
    }

    pub fn new(total: usize) -> (r: Self)
        ensures
            r.wf(),
            r.total == total,
            r.delivered@.len() == 0,
            !r.queued_any,
    {
        ChunkRun { total, delivered: Vec::new(), queued_any: false }
    }

    /// Accounts for one chunk. A refused chunk ends the run: what already left
    /// is stored, and the answer names exactly what arrived.
    pub fn chunk(&mut self, chunk: &str, event: ChunkEvent) -> (r: Option<ChunkEnd>)
        requires
            old(self).wf(),
            old(self).delivered@.len() < old(self).total,
        ensures
            final(self).wf(),
            final(self).total == old(self).total,
            match event {
                ChunkEvent::Queued => r is None && final(self).queued_any && final(self).delivered
                    == old(self).delivered,
                ChunkEvent::Sent => r is None && final(self).queued_any == old(self).queued_any
                    && views(final(self).delivered@) == views(old(self).delivered@).push(chunk@),
                ChunkEvent::Failed(e) => {
                    &&& final(self).queued_any == old(self).queued_any
                    &&& final(self).delivered == old(self).delivered
                    &&& r is Some
                    &&& oview(r->0.persist) == storable(
                        concatenated(views(old(self).delivered@)),
                    )
                    &&& r->0.answer@ == Reply::Error(
                        partial_failure(
                            old(self).total as nat,
                            old(self).delivered@.len(),
                            e@,
                        ),
                    )
                },
            },
    {
        match event {
            ChunkEvent::Queued => {
                self.queued_any = true;
                None
            },
            ChunkEvent::Sent => {
                let ghost pre = views(self.delivered@);
                self.delivered.push(chunk.to_owned());
                assert(views(self.delivered@) =~= pre.push(chunk@));
                None
            },
            ChunkEvent::Failed(e) => Some(
                ChunkEnd {
                    persist: storable_text(delivered_prefix(&self.delivered)),
                    answer: ToolResult::error(
                        partial_failure_report(self.total, self.delivered.len(), e.as_str()),
                    ),
                },
            ),
        }
    }

    /// Ends a run in which no chunk was refused: the whole text is stored, or,
    /// where some chunks wait in the queue, what left now.
    pub fn finish(self, full: &str, jid: &str, ttl: Option<u32>, reply: bool) -> (r: ChunkEnd)
        requires
            self.wf(),
        ensures
            self.queued_any ==> oview(r.persist) == storable(
                concatenated(views(self.delivered@)),
            ) && r.answer@ == Reply::Success(
                queued_text(self.total as nat, self.delivered@.len(), reply),
            ),
            !self.queued_any ==> oview(r.persist) == storable(full@) && r.answer@
                == Reply::Success(sent_text(jid@, ttl, reply)),
    {
        if self.queued_any {
            let n: usize = self.delivered.len();
            let middle = if reply {
                " reply chunk(s) queued for automatic delivery as the 24h window slides (owner alerted once); "
            } else {
                " chunk(s) queued for automatic delivery as the 24h window slides (owner alerted once); "
            };
            let mut t = cat5(
                "WhatsApp daily cap reached: ",
                dec_usize(self.total - n).as_str(),
                " of ",
                dec_usize(self.total).as_str(),
                middle,
            );
            t.append(dec_usize(n).as_str());
            t.append(" delivered now. Do NOT resend the queued part.");
            return ChunkEnd {
                persist: storable_text(delivered_prefix(&self.delivered)),
                answer: ToolResult::success(t),
            };
        }
        let text = if reply {
            cat3("Reply sent to ", jid, " via WhatsApp.")
        } else {
            match ttl {
                Some(seconds) => cat5(
                    "Message sent to ",
                    jid,
                    " via WhatsApp; it disappears after ",
                    describe(seconds).as_str(),
                    ".",
                ),
                None => cat3("Message sent to ", jid, " via WhatsApp."),
            }
        };
        ChunkEnd { persist: storable_text(full.to_owned()), answer: ToolResult::success(text) }
    }
}

/// What the first chunks of a text hold is a prefix of the text: where no
/// chunk was queued, the stored part of a failed send is exactly what the
/// recipient has.
pub proof fn law_delivered_is_a_prefix(chunks: Seq<Seq<char>>, n: int)
    requires
        0 <= n <= chunks.len(),
    ensures
        concatenated(chunks.take(n)).len() <= concatenated(chunks).len(),
        concatenated(chunks.take(n)) == concatenated(chunks).take(
            concatenated(chunks.take(n)).len() as int,
        ),
    decreases chunks.len() - n,
{
    let part = concatenated(chunks.take(n));
    if n < chunks.len() {
        law_delivered_is_a_prefix(chunks, n + 1);
        assert(chunks.take(n + 1).drop_last() =~= chunks.take(n));
        let more = concatenated(chunks.take(n + 1));
        assert(more.take(part.len() as int) =~= part);
        assert(concatenated(chunks).take(more.len() as int).take(part.len() as int)
            =~= concatenated(chunks).take(part.len() as int));
    } else {
        assert(chunks.take(n) =~= chunks);
        assert(part.take(part.len() as int) =~= part);
    }
}

// ------------------------------------------------------------- status updates
pub open spec fn refused_text(refused: Seq<Seq<char>>) -> Seq<char> {
    decimal(refused.len())
        + " target(s) are not on channels.whatsapp.broadcast.allowed_targets and NOTHING was sent: "@
        + join(refused, ", "@)
        + ". Broadcast is opt-in per number; add them to the config first."@
}

/// The recipients a status update asks for: those it names, or the allowlist.
pub open spec fn asked(targets: Option<Vec<String>>, allowlist: Seq<Seq<char>>) -> Seq<Seq<char>> {
    match targets {
        Some(t) => views(t@),
        None => allowlist,
    }
}

/// Whom a status update reaches: everyone it asks for, or nobody.
pub fn plan_status(targets: &Option<Vec<String>>, allowlist: &Vec<String>) -> (r: Result<
    Vec<String>,
    ToolResult,
>)
    ensures
        ({
            let wanted = asked(*targets, views(allowlist@));
            let refused = selected(wanted, views(allowlist@), false);
            match r {
                Ok(jids) => {
                    &&& wanted.len() > 0
                    &&& refused.len() == 0
                    &&& jids@.len() == wanted.len()
                    &&& forall|i: int|
                        0 <= i < jids@.len() ==> (#[trigger] views(jids@)[i]) == number(wanted[i])
                            + pn_suffix()
                },
                Err(e) => {
                    ||| wanted.len() == 0 && e@ == Reply::Error(
                        "No status recipients. Set channels.whatsapp.broadcast.allowed_targets in config.toml, or pass 'targets'. An empty allowlist allows nobody on purpose."@,
                    )
                    ||| wanted.len() > 0 && refused.len() > 0 && e@ == Reply::Error(
                        refused_text(refused),
                    )
                },
            }
        }),
{
    let wanted: &Vec<String> = match targets {
        Some(t) => t,
        None => allowlist,
    };
    if wanted.len() == 0 {
        return Err(
            ToolResult::error(
                "No status recipients. Set channels.whatsapp.broadcast.allowed_targets in config.toml, or pass 'targets'. An empty allowlist allows nobody on purpose.".to_owned(),
            ),
        );
    }
    let (yes, no) = partition(wanted, allowlist);
    assert(no@.len() == views(no@).len());
    if no.len() > 0 {
        return Err(
            ToolResult::error(
                cat4(
                    dec_usize(no.len()).as_str(),
                    " target(s) are not on channels.whatsapp.broadcast.allowed_targets and NOTHING was sent: ",
                    join_strs(&no, ", ").as_str(),
                    ". Broadcast is opt-in per number; add them to the config first.",
                ),
            ),
        );
    }
    proof {
        lemma_all_selected(views(wanted@), views(allowlist@));
    }
    let mut jids: Vec<String> = Vec::new();
    let mut i: usize = 0;
    while i < yes.len()
        invariant
            i <= yes.len(),
            views(yes@) == views(wanted@),
            forall|k: int|
                0 <= k < yes@.len() ==> number(#[trigger] views(wanted@)[k]).len() > 0,
            jids@.len() == i,
            forall|k: int|
                0 <= k < i ==> (#[trigger] views(jids@)[k]) == number(views(wanted@)[k])
                    + pn_suffix(),
        decreases yes.len() - i,
    {
        assert(yes@[i as int]@ == views(yes@)[i as int]);
        assert(number(views(wanted@)[i as int]).len() > 0);
        if let Some(jid) = target_jid(yes[i].as_str()) {
            let ghost pre = views(jids@);
            jids.push(jid);
            assert(views(jids@) =~= pre.push(jid@));
        }
        i = i + 1;
    }
    Ok(jids)
}

/// With nobody refused, everybody was selected, and has a number.
proof fn lemma_all_selected(targets: Seq<Seq<char>>, allowlist: Seq<Seq<char>>)
    requires
        selected(targets, allowlist, false).len() == 0,
    ensures
        selected(targets, allowlist, true) == targets,
        forall|k: int| 0 <= k < targets.len() ==> number(#[trigger] targets[k]).len() > 0,
    decreases targets.len(),
{
    if targets.len() > 0 {
        let rest = targets.drop_last();
        assert(selected(rest, allowlist, false).len() == 0);
        lemma_all_selected(rest, allowlist);
        assert(allowed(targets.last(), allowlist));
        assert(rest.push(targets.last()) =~= targets);
        assert forall|k: int| 0 <= k < targets.len() implies number(#[trigger] targets[k]).len()
            > 0 by {
            if k < rest.len() {
                assert(number(rest[k]).len() > 0);
            }
        }
    }
}

/// Seconds to wait after charging for the recipient at `index` of a status
/// update: the first one is not waited for.
pub open spec fn status_wait(index: nat, pace: nat) -> nat {
    if index == 0 {
        0
    } else {
        pace
    }
}

/// Goes on with the recipient at `index` of a status update once the limiter
/// answered: how many seconds to wait, or the answer where the budget is used
/// up.
pub fn status_step(index: usize, pace: u64, granted: bool) -> (r: Result<u64, ToolResult>)
    ensures
        match r {
            Ok(wait) => granted && wait == status_wait(index as nat, pace as nat),
            Err(e) => !granted && e@ == Reply::Error(cap_text("the status update"@)),
        },
{
    if !granted {
        return Err(cap_refusal("the status update"));
    }
    if index == 0 {
        Ok(0)
    } else {
        Ok(pace)
    }
}

/// Seconds that a status update to the first `count` recipients waits.
pub open spec fn status_waits(count: nat, pace: nat) -> nat
    decreases count,
{
    if count == 0 {
        0
    } else {
        status_waits((count - 1) as nat, pace) + status_wait((count - 1) as nat, pace)
    }
}

/// There is no fire-and-forget mass send: a status update waits exactly the
/// floor that its answer tells.
pub proof fn law_status_waits_its_floor(count: nat, pace: nat)
    ensures
        status_waits(count, pace) == floor_seconds(count, pace),
    decreases count,
{
    if count > 0 {
        law_status_waits_its_floor((count - 1) as nat, pace);
        if count > 1 {
            assert(pace * (count - 1) == pace * (count - 2) + pace) by (nonlinear_arith);
        }
    }
}

pub open spec fn status_text(count: nat, pace: nat) -> Seq<char> {
    "Status update posted to "@ + decimal(count) + " allowlisted recipient(s), paced at "@
        + decimal(pace) + "s (at least "@ + decimal(floor_seconds(count, pace))
        + "s of wall clock)."@
}

/// The answer to a status update that was posted.
pub fn status_posted(count: usize, pace: u64) -> (r: ToolResult)
    requires
        floor_seconds(count as nat, pace as nat) <= u64::MAX,
    ensures
        r@ == Reply::Success(status_text(count as nat, pace as nat)),
{
    let mut t = cat5(
        "Status update posted to ",
        dec_usize(count).as_str(),
        " allowlisted recipient(s), paced at ",
        dec_u64(pace).as_str(),
        "s (at least ",
    );
    t.append(dec_u64(burst_floor(count, pace)).as_str());
    t.append("s of wall clock).");
    ToolResult::success(t)
}

// -------------------------------------------------------------------- lists
pub open spec fn newsletter_lines(list: Seq<(String, String)>) -> Seq<Seq<char>> {
    list.map_values(|n: (String, String)| "- "@ + n.0@ + " ("@ + n.1@ + ")"@)
}

/// The answer to a listing of the newsletters the account follows, each a
/// name and an address.
pub fn newsletters_listed(list: &Vec<(String, String)>) -> (r: ToolResult)
    ensures
        r@ == Reply::Success(
            if list@.len() == 0 {
                "This WhatsApp account follows no newsletters (channels)."@
            } else {
                decimal(list@.len()) + " newsletter(s):\n"@ + join(
                    newsletter_lines(list@),
                    "\n"@,
                )
            },
        ),
{
    if list.len() == 0 {
        return ToolResult::success(
            "This WhatsApp account follows no newsletters (channels).".to_owned(),
        );
    }
    let mut lines: Vec<String> = Vec::new();
    let mut i: usize = 0;
    while i < list.len()
        invariant
            i <= list.len(),
            views(lines@) == newsletter_lines(list@).take(i as int),
        decreases list.len() - i,
    {
        let line = cat5("- ", list[i].0.as_str(), " (", list[i].1.as_str(), ")");
        let ghost pre = views(lines@);
        lines.push(line);
        assert(views(lines@) =~= pre.push(newsletter_lines(list@)[i as int]));
        assert(newsletter_lines(list@).take(i + 1) =~= newsletter_lines(list@).take(i as int).push(
            newsletter_lines(list@)[i as int],
        ));
        i = i + 1;
    }
    assert(newsletter_lines(list@).take(i as int) =~= newsletter_lines(list@));
    ToolResult::success(
        cat3(
            dec_usize(list.len()).as_str(),
            " newsletter(s):\n",
            join_strs(&lines, "\n").as_str(),
        ),
    )
}

/// The answer to a listing of the blocked contacts.
pub fn blocked_listed(jids: &Vec<String>) -> (r: ToolResult)
    ensures
        r@ == Reply::Success(
            if jids@.len() == 0 {
                "No blocked contacts on this WhatsApp account."@
            } else {
                decimal(jids@.len()) + " blocked contact(s):\n"@ + join(views(jids@), "\n"@)
            },
        ),
{
    if jids.len() == 0 {
        return ToolResult::success("No blocked contacts on this WhatsApp account.".to_owned());
    }
    ToolResult::success(
        cat3(
            dec_usize(jids.len()).as_str(),
            " blocked contact(s):\n",
            join_strs(jids, "\n").as_str(),
        ),
    )
}

// -------------------------------------------------------------------- media
/// The MIME type of a file extension.
pub open spec fn extension_mime(ext: Seq<char>) -> Option<Seq<char>> {
    if ext == "jpg"@ || ext == "jpeg"@ {
        Some("image/jpeg"@)
    } else if ext == "png"@ {
        Some("image/png"@)
    } else if ext == "gif"@ {
        Some("image/gif"@)
    } else if ext == "webp"@ {
        Some("image/webp"@)
    } else if ext == "mp4"@ {
        Some("video/mp4"@)
    } else if ext == "3gp"@ {
        Some("video/3gpp"@)
    } else if ext == "avi"@ {
        Some("video/x-msvideo"@)
    } else if ext == "mov"@ {
        Some("video/quicktime"@)
    } else if ext == "mp3"@ {
        Some("audio/mpeg"@)
    } else if ext == "ogg"@ || ext == "opus"@ {
        Some("audio/ogg"@)
    } else if ext == "aac"@ {
        Some("audio/aac"@)
    } else if ext == "m4a"@ {
        Some("audio/mp4"@)
    } else if ext == "pdf"@ {
        Some("application/pdf"@)
    } else if ext == "doc"@ || ext == "docx"@ {
        Some("application/msword"@)
    } else if ext == "xls"@ || ext == "xlsx"@ {
        Some("application/vnd.ms-excel"@)
    } else if ext == "ppt"@ || ext == "pptx"@ {
        Some("application/vnd.ms-powerpoint"@)
    } else if ext == "txt"@ {
        Some("text/plain"@)
    } else if ext == "csv"@ {
        Some("text/csv"@)
    } else if ext == "zip"@ {
        Some("application/zip"@)
    } else {
        None
    }
}

/// The MIME type of a lower-case file extension.
pub fn mime_of_extension(ext: &str) -> (r: Option<String>)
    ensures
        oview(r) == extension_mime(ext@),
{
    if str_eq(ext, "jpg") || str_eq(ext, "jpeg") {
        Some("image/jpeg".to_owned())
    } else if str_eq(ext, "png") {
        Some("image/png".to_owned())
    } else if str_eq(ext, "gif") {
        Some("image/gif".to_owned())
    } else if str_eq(ext, "webp") {
        Some("image/webp".to_owned())
    } else if str_eq(ext, "mp4") {
        Some("video/mp4".to_owned())
    } else if str_eq(ext, "3gp") {
        Some("video/3gpp".to_owned())
    } else if str_eq(ext, "avi") {
        Some("video/x-msvideo".to_owned())
    } else if str_eq(ext, "mov") {
        Some("video/quicktime".to_owned())
    } else if str_eq(ext, "mp3") {
        Some("audio/mpeg".to_owned())
    } else if str_eq(ext, "ogg") || str_eq(ext, "opus") {
        Some("audio/ogg".to_owned())
    } else if str_eq(ext, "aac") {
        Some("audio/aac".to_owned())
    } else if str_eq(ext, "m4a") {
        Some("audio/mp4".to_owned())
    } else if str_eq(ext, "pdf") {
        Some("application/pdf".to_owned())
    } else if str_eq(ext, "doc") || str_eq(ext, "docx") {
        Some("application/msword".to_owned())
    } else if str_eq(ext, "xls") || str_eq(ext, "xlsx") {
        Some("application/vnd.ms-excel".to_owned())
    } else if str_eq(ext, "ppt") || str_eq(ext, "pptx") {
        Some("application/vnd.ms-powerpoint".to_owned())
    } else if str_eq(ext, "txt") {
        Some("text/plain".to_owned())
    } else if str_eq(ext, "csv") {
        Some("text/csv".to_owned())
    } else if str_eq(ext, "zip") {
        Some("application/zip".to_owned())
    } else {
        None
    }
}

/// The MIME type of a path, by what follows its last dot.
pub fn mime_from_extension(path: &str) -> (r: Option<String>)
    ensures
        oview(r) == extension_mime(lowercase(after_last(path@, '.'))),
{
    mime_of_extension(to_lower(after_last_char(path, '.')).as_str())
}

/// The MIME type an action falls back to.
pub fn default_mime(a: Action) -> (r: &'static str)
    ensures
        r@ == match a {
            Action::SendPhoto => "image/jpeg"@,
            Action::SendAudio => "audio/ogg"@,
            Action::SendVideo => "video/mp4"@,
            Action::SendSticker => "image/webp"@,
            _ => "application/octet-stream"@,
        },
{
    match a {
        Action::SendPhoto => "image/jpeg",
        Action::SendAudio => "audio/ogg",
        Action::SendVideo => "video/mp4",
        Action::SendSticker => "image/webp",
        _ => "application/octet-stream",
    }
}

/// A file about to be sent.
pub struct LocalMedia {
    /// Where the file is read.
    pub path: String,
    pub mime: String,
    pub filename: String,
}

/// What a file about to be sent is called: its name, or `file` where the path
/// ends in none.
pub open spec fn media_name(path: Seq<char>) -> Seq<char> {
    match file_name(path) {
        Some(n) => n,
        None => "file"@,
    }
}

/// The MIME type of a file about to be sent: that of its extension, or the
/// action's.
pub open spec fn media_mime(path: Seq<char>, otherwise: Seq<char>) -> Seq<char> {
    match extension_mime(lowercase(after_last(path, '.'))) {
        Some(m) => m,
        None => otherwise,
    }
}

/// The file that a `media_path` names, with its type and its name.
pub fn local_media(media_path: &str, home: Option<&str>, otherwise: &str) -> (r: LocalMedia)
    ensures
        ({
            let path = expanded(
                media_path@,
                match home {
                    Some(h) => Some(h@),
                    None => None,
                },
            );
            &&& r.path@ == path
            &&& r.mime@ == media_mime(path, otherwise@)
            &&& r.filename@ == media_name(path)
        }),
{
    let path = expand_tilde(media_path, home);
    let mime = match mime_from_extension(path.as_str()) {
        Some(m) => m,
        None => otherwise.to_owned(),
    };
    let filename = match file_name_of(path.as_str()) {
        Some(n) => n,
        None => "file".to_owned(),
    };
    LocalMedia { path, mime, filename }
}

/// The answer where a file could not be read.
pub fn unreadable(path: &str, error: &str) -> (r: ToolResult)
    ensures
        r@ == Reply::Error("Failed to read file '"@ + path@ + "': "@ + error@),
{
    ToolResult::error(cat4("Failed to read file '", path, "': ", error))
}

/// The answer where a file could not be uploaded.
pub fn upload_failed(error: &str) -> (r: ToolResult)
    ensures
        r@ == Reply::Error("Media upload failed: "@ + error@),
{
    ToolResult::error(cat2("Media upload failed: ", error))
}

/// The refusal to forward a message: `None` where it is still remembered.
pub fn forward_refusal(remembered: bool, id: &str) -> (r: Option<ToolResult>)
    ensures
        match r {
            None => remembered,
            Some(a) => !remembered && a@ == Reply::Error(
                "Message "@ + id@
                    + " is not in the recent-message window, so it cannot be forwarded. Only messages this session has seen can be forwarded."@,
            ),
        },
{
    if remembered {
        None
    } else {
        Some(
            ToolResult::error(
                cat3(
                    "Message ",
                    id,
                    " is not in the recent-message window, so it cannot be forwarded. Only messages this session has seen can be forwarded.",
                ),
            ),
        )
    }
}

/// A vCard of a name and a phone number.
pub open spec fn vcard(name: Seq<char>, phone: Seq<char>) -> Seq<char> {
    "BEGIN:VCARD\nVERSION:3.0\nFN:"@ + name + "\nTEL;TYPE=CELL:"@ + phone + "\nEND:VCARD"@
}

/// A vCard of a name and a phone number.
pub fn build_vcard(name: &str, phone: &str) -> (r: String)
    ensures
        r@ == vcard(name@, phone@),
{
    cat5("BEGIN:VCARD\nVERSION:3.0\nFN:", name, "\nTEL;TYPE=CELL:", phone, "\nEND:VCARD")
}

/// A stored copy of an outgoing message.
pub struct OutgoingRow {
    pub channel: String,
    pub chat_id: String,
    pub sender_id: String,
    pub sender_name: String,
    pub content: String,
    pub kind: String,
}

/// The row an outgoing message is stored as; a blank one is not stored.
pub fn persist_outgoing(jid: &str, content: &str) -> (r: Option<OutgoingRow>)
    ensures
        match r {
            Some(row) => {
                &&& !is_blank(content@)
                &&& row.channel@ == "whatsapp"@
                &&& row.chat_id@ == jid@
                &&& row.sender_id@ == "bot:opencrabs"@
                &&& row.sender_name@ == "OpenCrabs"@
                &&& row.content@ == content@
                &&& row.kind@ == "text"@
            },
            None => is_blank(content@),
        },
{
    if blank(content) {
        return None;
    }
    Some(
        OutgoingRow {
            channel: "whatsapp".to_owned(),
            chat_id: jid.to_owned(),
            sender_id: "bot:opencrabs".to_owned(),
            sender_name: "OpenCrabs".to_owned(),
            content: content.to_owned(),
            kind: "text".to_owned(),
        },
    )
}

// -------------------------------------------------------------------- laws
/// Every number on the allowlist can be reached, wherever it stands on it: a
/// call that names it goes to that number's address, once the address reads
/// and the send scope has no objection. A leading plus sign does not matter.
pub proof fn law_every_allowed_number_is_reached(
    allowed_phones: Seq<Seq<char>>,
    k: int,
    phone: Seq<char>,
    owner_jid: Option<Seq<char>>,
)
    requires
        0 <= k < allowed_phones.len(),
        phone == allowed_phones[k] || phone == seq!['+'] + allowed_phones[k] || allowed_phones[k]
            == seq!['+'] + phone,
    ensures
        jid_reading(trim_start_of(phone, '+') + "@s.whatsapp.net"@) is Ok ==> recipient(
            Some(phone),
            allowed_phones,
            owner_jid,
            None,
        ) == Ok::<Seq<char>, Seq<char>>(trim_start_of(phone, '+') + "@s.whatsapp.net"@),
        forall|reason: Seq<char>|
            jid_reading(trim_start_of(phone, '+') + "@s.whatsapp.net"@) is Ok ==> #[trigger] recipient(Some(phone), allowed_phones, owner_jid, Some(reason)) == Err::<
                Seq<char>,
                Seq<char>,
            >(reason),
{
    lemma_plus_does_not_matter(phone);
    lemma_plus_does_not_matter(allowed_phones[k]);
    assert(trim_start_of(allowed_phones[k], '+') == trim_start_of(phone, '+'));
    assert(permitted(phone, allowed_phones));
}

proof fn lemma_plus_does_not_matter(phone: Seq<char>)
    ensures
        trim_start_of(seq!['+'] + phone, '+') == trim_start_of(phone, '+'),
{
    assert((seq!['+'] + phone).drop_first() =~= phone);
}

/// The order of the allowlist does not matter, nor how often a number stands
/// on it: two lists of the same numbers let the same calls through.
pub proof fn law_allowlist_order_does_not_matter(
    a: Seq<Seq<char>>,
    b: Seq<Seq<char>>,
    phone: Option<Seq<char>>,
    owner_jid: Option<Seq<char>>,
    refusal: Option<Seq<char>>,
)
    requires
        forall|x: Seq<char>| a.contains(x) <==> b.contains(x),
    ensures
        recipient(phone, a, owner_jid, refusal) == recipient(phone, b, owner_jid, refusal),
{
    if a.len() > 0 {
        assert(a.contains(a[0]));
    }
    if b.len() > 0 {
        assert(b.contains(b[0]));
    }
    if let Some(p) = phone {
        if a.len() > 0 && permitted(p, a) {
            let k = choose|k: int|
                0 <= k < a.len() && trim_start_of(#[trigger] a[k], '+') == trim_start_of(p, '+');
            assert(b.contains(a[k]));
            let j = choose|j: int| 0 <= j < b.len() && b[j] == a[k];
            assert(trim_start_of(b[j], '+') == trim_start_of(p, '+'));
        }
        if b.len() > 0 && permitted(p, b) {
            let k = choose|k: int|
                0 <= k < b.len() && trim_start_of(#[trigger] b[k], '+') == trim_start_of(p, '+');
            assert(a.contains(b[k]));
            let j = choose|j: int| 0 <= j < a.len() && a[j] == b[k];
            assert(trim_start_of(a[j], '+') == trim_start_of(p, '+'));
        }
    }
}

/// A number that is not on the allowlist is not reached, and the refusal names
/// it; an empty allowlist lets every number through.
pub proof fn law_other_numbers_are_refused(
    phone: Seq<char>,
    allowed_phones: Seq<Seq<char>>,
    owner_jid: Option<Seq<char>>,
    refusal: Option<Seq<char>>,
)
    ensures
        allowed_phones.len() > 0 && (forall|k: int|
            0 <= k < allowed_phones.len() ==> trim_start_of(#[trigger] allowed_phones[k], '+')
                != trim_start_of(phone, '+')) ==> recipient(
            Some(phone),
            allowed_phones,
            owner_jid,
            refusal,
        ) is Err && tells(
            recipient(Some(phone), allowed_phones, owner_jid, refusal)->Err_0,
            "Sending to "@ + phone + " is not permitted"@,
        ),
        allowed_phones.len() == 0 && refusal is None && jid_reading(
            trim_start_of(phone, '+') + "@s.whatsapp.net"@,
        ) is Ok ==> recipient(Some(phone), allowed_phones, owner_jid, refusal) == Ok::<
            Seq<char>,
            Seq<char>,
        >(trim_start_of(phone, '+') + "@s.whatsapp.net"@),
{
    reveal_strlit(" is not permitted");
    reveal_strlit(" is not permitted. This number is not in the allowed_users config.");
    let whole = " is not permitted. This number is not in the allowed_users config."@;
    let t = "Sending to "@ + phone + whole;
    let part = "Sending to "@ + phone + " is not permitted"@;
    assert(t =~= Seq::<char>::empty() + part + whole.skip(17));
    lemma_tells(t, Seq::empty(), part, whole.skip(17));
}

/// A call without a number goes to the owner, whatever the allowlist says; an
/// address that cannot be read is answered with what is wrong with it.
pub proof fn law_without_a_number_the_owner_is_meant(
    allowed_phones: Seq<Seq<char>>,
    owner: Seq<char>,
    refusal: Option<Seq<char>>,
    e: Seq<char>,
)
    ensures
        jid_reading(owner) is Ok && refusal is None ==> recipient(
            None,
            allowed_phones,
            Some(owner),
            refusal,
        ) == Ok::<Seq<char>, Seq<char>>(owner),
        jid_reading(owner) is Ok && refusal is Some ==> recipient(
            None,
            allowed_phones,
            Some(owner),
            refusal,
        ) == Err::<Seq<char>, Seq<char>>(refusal->0),
        jid_reading(owner) == Err::<Seq<char>, Seq<char>>(e) ==> recipient(
            None,
            allowed_phones,
            Some(owner),
            refusal,
        ) == Err::<Seq<char>, Seq<char>>("Invalid owner JID: "@ + e),
        recipient(None, allowed_phones, None, refusal) is Err,
        addressed(Some(owner), None) == Some(trim_start_of(owner, '+') + "@s.whatsapp.net"@),
        addressed(None, Some(owner)) == Some(owner),
{
}

/// Whether a text is given and not empty.
pub open spec fn filled_in(s: Option<String>) -> bool {
    s is Some && s->0@.len() > 0
}

/// An action is performed exactly when it has what it needs: the message it is
/// about, the text, the file, the contact, the place, the poll with two to
/// twelve options, or the label. What is missing is named.
pub proof fn law_performed_when_complete(input: SendInput, a: Action, jid: Seq<char>)
    ensures
        ready(input, a, jid) == (StepV::Perform { action: a, jid }) <==> match a {
            Action::Reply | Action::Delete | Action::Forward | Action::React
            | Action::MarkRead => filled_in(input.message_id),
            Action::SetProfileName | Action::SetProfileStatus | Action::StatusUpdate
            | Action::CreateLabel => filled_in(input.message),
            Action::SendPhoto | Action::SendDocument | Action::SendAudio | Action::SendVideo
            | Action::SendSticker => filled_in(input.media_path),
            Action::SendContact => filled_in(input.contact_name) && filled_in(
                input.contact_phone,
            ),
            Action::SendPoll => filled_in(input.poll_question) && input.poll_options is Some && 2
                <= input.poll_options->0@.len() <= 12,
            Action::AssignLabel => filled_in(input.label_id),
            Action::SendLocation => input.latitude is Some && input.longitude is Some,
            _ => true,
        },
        !(ready(input, a, jid) is Perform) ==> ready(input, a, jid) is Answer && ready(
            input,
            a,
            jid,
        )->Answer_0 is Error,
{
}

/// What is missing is named.
pub proof fn law_missing_parameter_is_named(input: SendInput, a: Action)
    ensures
        (a == Action::Reply || a == Action::Delete || a == Action::Forward || a == Action::React
            || a == Action::MarkRead) && !filled_in(input.message_id) ==> lack(input, a) == Some(
            "Missing required parameter '"@ + "message_id"@ + "'."@,
        ),
        (a == Action::SetProfileName || a == Action::SetProfileStatus || a == Action::StatusUpdate
            || a == Action::CreateLabel) && !filled_in(input.message) ==> lack(input, a) == Some(
            "Missing required parameter '"@ + "message"@ + "'."@,
        ),
        (a == Action::SendPhoto || a == Action::SendDocument || a == Action::SendAudio || a
            == Action::SendVideo || a == Action::SendSticker) && !filled_in(input.media_path)
            ==> lack(input, a) == Some("Missing required parameter '"@ + "media_path"@ + "'."@),
        a == Action::SendContact && !filled_in(input.contact_name) ==> lack(input, a) == Some(
            "Missing required parameter '"@ + "contact_name"@ + "'."@,
        ),
        a == Action::SendContact && filled_in(input.contact_name) && !filled_in(
            input.contact_phone,
        ) ==> lack(input, a) == Some("Missing required parameter '"@ + "contact_phone"@ + "'."@),
        a == Action::SendPoll && !filled_in(input.poll_question) ==> lack(input, a) == Some(
            "Missing required parameter '"@ + "poll_question"@ + "'."@,
        ),
        a == Action::AssignLabel && !filled_in(input.label_id) ==> lack(input, a) == Some(
            "Missing required parameter '"@ + "label_id"@ + "'."@,
        ),
{
}

/// Whom a call involves first: what is delivered other than as text asks the
/// limiter, for the recipient that was found; texts and what is no message are
/// performed at once; what concerns the account alone needs no recipient. A
/// recipient that was not found is the answer.
pub proof fn law_first_step(input: SendInput, a: Action, jid: Seq<char>, e: Seq<char>)
    ensures
        ({
            let ok = Ok::<Seq<char>, Seq<char>>(jid);
            let err = Err::<Seq<char>, Seq<char>>(e);
            let worded = (a == Action::Send || a == Action::Reply) ==> filled_in(input.message);
            match a {
                Action::Forward | Action::SendPhoto | Action::SendDocument | Action::SendAudio
                | Action::SendVideo | Action::SendSticker | Action::SendLocation
                | Action::SendContact | Action::React | Action::SendPoll => opened(input, a, ok)
                    == (StepV::Gate { action: a, jid }) && opened(input, a, err) == StepV::Answer(
                    Reply::Error(e),
                ),
                Action::SetProfileName | Action::SetProfileStatus | Action::StatusUpdate
                | Action::ListNewsletters | Action::CreateLabel | Action::ListBlocked => opened(
                    input,
                    a,
                    err,
                ) == opened(input, a, ok) && opened(input, a, ok) == ready(
                    input,
                    a,
                    Seq::empty(),
                ),
                _ => if worded {
                    opened(input, a, ok) == ready(input, a, jid) && opened(input, a, err)
                        == StepV::Answer(Reply::Error(e))
                } else {
                    opened(input, a, ok) is Answer && opened(input, a, ok)->Answer_0 is Error
                        && opened(input, a, err) == opened(input, a, ok)
                },
            }
        }),
{
}

proof fn lemma_middle(t: Seq<char>, a: Seq<char>, x: Seq<char>, b: Seq<char>)
    requires
        t =~= a + x + b,
    ensures
        tells(t, x),
{
    lemma_tells(t, a, x, b);
}

/// The answer to an action that went through names the chat it concerned, and
/// the message, the text, the contact, the question, the place, the reaction
/// or the label that it was about.
pub proof fn law_answer_names_what_was_done(
    a: Action,
    input: SendInput,
    jid: Seq<char>,
    new_id: Seq<char>,
)
    requires
        has_done_text(a),
    ensures
        ({
            let t = done_text(a, input, jid, new_id);
            let word = |s: Option<String>| s is Some ==> tells(t, s->0@);
            &&& has_recipient(a) ==> tells(t, jid)
            &&& a == Action::Delete || a == Action::Forward || a == Action::React || a
                == Action::MarkRead ==> word(input.message_id)
            &&& a == Action::SetProfileName || a == Action::SetProfileStatus || a
                == Action::CreateLabel ==> word(input.message)
            &&& a == Action::SendContact ==> word(input.contact_name)
            &&& a == Action::SendPoll ==> word(input.poll_question)
            &&& a == Action::SendLocation ==> word(input.latitude) && word(input.longitude)
            &&& a == Action::React ==> word(input.emoji)
            &&& a == Action::AssignLabel || a == Action::CreateLabel ==> word(input.label_id)
            &&& a == Action::Forward || (a == Action::CreateLabel && input.label_id is None)
                ==> tells(t, new_id)
        }),
{
    let t = done_text(a, input, jid, new_id);
    let id = text_or_empty(input.message_id);
    let message = text_or_empty(input.message);
    let e = Seq::<char>::empty();
    reveal_strlit("");
    assert(matches_at(t, e, 0)) by {
        assert(t.subrange(0, 0) =~= e);
    }
    match a {
        Action::Delete => {
            lemma_middle(t, "Message "@ + id + " deleted for "@, jid, "."@);
            lemma_middle(t, "Message "@, id, " deleted for "@ + jid + "."@);
        },
        Action::Pin => lemma_middle(t, "Chat with "@, jid, " pinned."@),
        Action::Unpin => lemma_middle(t, "Chat with "@, jid, " unpinned."@),
        Action::Forward => {
            lemma_middle(
                t,
                "Forwarded message "@,
                id,
                " to "@ + jid + " via WhatsApp (new id "@ + new_id + ")."@,
            );
            lemma_middle(
                t,
                "Forwarded message "@ + id + " to "@,
                jid,
                " via WhatsApp (new id "@ + new_id + ")."@,
            );
            lemma_middle(
                t,
                "Forwarded message "@ + id + " to "@ + jid + " via WhatsApp (new id "@,
                new_id,
                ")."@,
            );
        },
        Action::SetProfileName => lemma_middle(
            t,
            "WhatsApp profile name set to '"@,
            message,
            "'."@,
        ),
        Action::SetProfileStatus => lemma_middle(
            t,
            "WhatsApp profile status set to '"@,
            message,
            "'."@,
        ),
        Action::SendPhoto => lemma_middle(t, "Photo sent to "@, jid, " via WhatsApp."@),
        Action::SendDocument => lemma_middle(t, "Document sent to "@, jid, " via WhatsApp."@),
        Action::SendAudio => if input.voice_note != Some(false) {
            lemma_middle(t, "Voice note sent to "@, jid, " via WhatsApp."@)
        } else {
            lemma_middle(t, "Audio sent to "@, jid, " via WhatsApp."@)
        },
        Action::SendVideo => lemma_middle(t, "Video sent to "@, jid, " via WhatsApp."@),
        Action::SendSticker => lemma_middle(t, "Sticker sent to "@, jid, " via WhatsApp."@),
        Action::SendLocation => {
            let lat = text_or_empty(input.latitude);
            let lon = text_or_empty(input.longitude);
            lemma_middle(
                t,
                "Location ("@,
                lat,
                ", "@ + lon + ") sent to "@ + jid + " via WhatsApp."@,
            );
            lemma_middle(
                t,
                "Location ("@ + lat + ", "@,
                lon,
                ") sent to "@ + jid + " via WhatsApp."@,
            );
            lemma_middle(
                t,
                "Location ("@ + lat + ", "@ + lon + ") sent to "@,
                jid,
                " via WhatsApp."@,
            );
        },
        Action::SendContact => {
            let name = text_or_empty(input.contact_name);
            lemma_middle(t, "Contact '"@, name, "' sent to "@ + jid + " via WhatsApp."@);
            lemma_middle(t, "Contact '"@ + name + "' sent to "@, jid, " via WhatsApp."@);
        },
        Action::React => {
            let emoji = text_or_empty(input.emoji);
            if emoji.len() == 0 {
                assert(emoji =~= e);
                lemma_middle(t, "Reaction removed from message "@, id, " for "@ + jid + "."@);
                lemma_middle(t, "Reaction removed from message "@ + id + " for "@, jid, "."@);
            } else {
                lemma_middle(
                    t,
                    "Reaction '"@,
                    emoji,
                    "' set on message "@ + id + " for "@ + jid + "."@,
                );
                lemma_middle(
                    t,
                    "Reaction '"@ + emoji + "' set on message "@,
                    id,
                    " for "@ + jid + "."@,
                );
                lemma_middle(
                    t,
                    "Reaction '"@ + emoji + "' set on message "@ + id + " for "@,
                    jid,
                    "."@,
                );
            }
        },
        Action::SendPoll => {
            let q = text_or_empty(input.poll_question);
            lemma_middle(t, "Poll '"@, q, "' sent to "@ + jid + " via WhatsApp."@);
            lemma_middle(t, "Poll '"@ + q + "' sent to "@, jid, " via WhatsApp."@);
        },
        Action::Typing => if input.typing_active != Some(false) {
            lemma_middle(t, "Typing composing sent to "@, jid, "."@)
        } else {
            lemma_middle(t, "Typing paused sent to "@, jid, "."@)
        },
        Action::MarkRead => {
            lemma_middle(t, "Message "@, id, " marked as read for "@ + jid + "."@);
            lemma_middle(t, "Message "@ + id + " marked as read for "@, jid, "."@);
        },
        Action::CreateLabel => {
            let label = match input.label_id {
                Some(l) => l@,
                None => new_id,
            };
            lemma_middle(t, "Label '"@, message, "' saved with id "@ + label + "."@);
            lemma_middle(t, "Label '"@ + message + "' saved with id "@, label, "."@);
        },
        Action::AssignLabel => {
            let label = text_or_empty(input.label_id);
            if input.remove == Some(true) {
                lemma_middle(t, "Label "@, label, " removed from chat with "@ + jid + "."@);
                lemma_middle(t, "Label "@ + label + " removed from chat with "@, jid, "."@);
            } else {
                lemma_middle(t, "Label "@, label, " added to chat with "@ + jid + "."@);
                lemma_middle(t, "Label "@ + label + " added to chat with "@, jid, "."@);
            }
        },
        Action::BlockContact => lemma_middle(
            t,
            "Blocked "@,
            jid,
            " on WhatsApp. Their messages no longer reach the bot."@,
        ),
        Action::UnblockContact => lemma_middle(t, "Unblocked "@, jid, " on WhatsApp."@),
        _ => {},
    }
}

/// A failure is told: the answer to an action that the client refused ends
/// with what the client said.
pub proof fn law_failure_tells_the_reason(a: Action, id: Seq<char>, jid: Seq<char>, e: Seq<char>)
    requires
        a != Action::Send,
        a != Action::Reply,
    ensures
        ({
            let t = failed_text(a, id, jid, e);
            &&& t.len() > e.len()
            &&& t.skip(t.len() - e.len()) == e
            &&& t.take(9) == "Failed to"@
        }),
{
    reveal_strlit("Failed to");
    reveal_strlit("Failed to delete message: ");
    reveal_strlit("Failed to pin chat ");
    reveal_strlit("Failed to unpin chat ");
    reveal_strlit("Failed to forward ");
    reveal_strlit("Failed to set the profile name: ");
    reveal_strlit("Failed to set the profile status: ");
    reveal_strlit("Failed to send photo: ");
    reveal_strlit("Failed to send document: ");
    reveal_strlit("Failed to send audio: ");
    reveal_strlit("Failed to send video: ");
    reveal_strlit("Failed to send sticker: ");
    reveal_strlit("Failed to send location: ");
    reveal_strlit("Failed to send contact: ");
    reveal_strlit("Failed to send reaction: ");
    reveal_strlit("Failed to send poll: ");
    reveal_strlit("Failed to send typing indicator: ");
    reveal_strlit("Failed to mark message as read: ");
    reveal_strlit("Failed to post the status update: ");
    reveal_strlit("Failed to list newsletters: ");
    reveal_strlit("Failed to save the label: ");
    reveal_strlit("Failed to update the label on ");
    reveal_strlit("Failed to block ");
    reveal_strlit("Failed to unblock ");
    reveal_strlit("Failed to fetch the blocklist: ");
    reveal_strlit(": ");
    let t = failed_text(a, id, jid, e);
    assert(t.skip(t.len() - e.len()) =~= e);
    assert(t.take(9) =~= "Failed to"@);
}

/// A text goes out whole under its header; what is stored of it is what was
/// sent, unless it is blank; chunks are put together in their order.
pub proof fn law_outgoing_text_is_whole(
    header: Seq<char>,
    message: Seq<char>,
    a: Seq<Seq<char>>,
    b: Seq<Seq<char>>,
)
    ensures
        tagged(header, message).take(header.len() as int) == header,
        tagged(header, message).skip((header.len() + 2) as int) == message,
        trimmed(message).len() > 0 ==> storable(message) == Some(message),
        trimmed(message).len() == 0 ==> storable(message) is None,
        concatenated(Seq::empty()).len() == 0,
        concatenated(seq![message]) == message,
        concatenated(a + b) == concatenated(a) + concatenated(b),
    decreases b.len(),
{
    reveal_strlit("\n\n");
    assert(tagged(header, message).take(header.len() as int) =~= header);
    assert(tagged(header, message).skip((header.len() + 2) as int) =~= message);
    reveal_with_fuel(concatenated, 2);
    assert(seq![message].drop_last() =~= Seq::empty());
    assert(concatenated(seq![message]) =~= message);
    if b.len() == 0 {
        assert(a + b =~= a);
        assert(concatenated(a) + concatenated(b) =~= concatenated(a));
    } else {
        law_outgoing_text_is_whole(header, message, a, b.drop_last());
        assert((a + b).drop_last() =~= a + b.drop_last());
        assert(concatenated(a + b) =~= concatenated(a) + concatenated(b));
    }
}

/// A send that died partway tells what a retry must know: the reason, and
/// either that nothing left or how many chunks did and must not be resent.
pub proof fn law_partial_failure_tells_what_left(total: nat, delivered: nat, err: Seq<char>)
    ensures
        ({
            let t = partial_failure(total, delivered, err);
            &&& tells(t, err)
            &&& delivered == 0 ==> tells(
                t,
                ". No chunks were delivered; safe to retry the whole message."@,
            )
            &&& delivered > 0 ==> tells(
                t,
                "chunk "@ + decimal(delivered + 1) + " of "@ + decimal(total) + " failed: "@,
            ) && tells(t, "Chunks 1-"@ + decimal(delivered) + " were DELIVERED"@)
        }),
{
    let t = partial_failure(total, delivered, err);
    let e = Seq::<char>::empty();
    if delivered == 0 {
        let tail = ". No chunks were delivered; safe to retry the whole message."@;
        lemma_middle(t, "Failed to send WhatsApp message: "@, err, tail);
        lemma_middle(t, "Failed to send WhatsApp message: "@ + err, tail, e);
    } else {
        reveal_strlit("Failed to send WhatsApp message: chunk ");
        reveal_strlit("Failed to send WhatsApp message: ");
        reveal_strlit("chunk ");
        reveal_strlit(". Chunks 1-");
        reveal_strlit(". ");
        reveal_strlit("Chunks 1-");
        reveal_strlit(" were DELIVERED");
        reveal_strlit(
            " were DELIVERED and persisted; do NOT resend them. Retry only the remaining text if needed.",
        );
        let which = "chunk "@ + decimal(delivered + 1) + " of "@ + decimal(total) + " failed: "@;
        let last =
            " were DELIVERED and persisted; do NOT resend them. Retry only the remaining text if needed."@;
        let rest = ". Chunks 1-"@ + decimal(delivered) + last;
        lemma_middle(t, "Failed to send WhatsApp message: "@, which, err + rest);
        lemma_middle(t, "Failed to send WhatsApp message: "@ + which, err, rest);
        let sent = "Chunks 1-"@ + decimal(delivered) + " were DELIVERED"@;
        lemma_middle(
            t,
            "Failed to send WhatsApp message: "@ + which + err + ". "@,
            sent,
            last.skip(15),
        );
    }
}

/// The answer to a text names its chat; one that is queued in part tells how
/// many chunks wait and how many left.
pub proof fn law_sent_text_names_the_chat(
    jid: Seq<char>,
    ttl: Option<u32>,
    reply: bool,
    total: nat,
    delivered: nat,
)
    requires
        delivered <= total,
    ensures
        tells(sent_text(jid, ttl, reply), jid),
        !reply && ttl is Some ==> tells(
            sent_text(jid, ttl, reply),
            "disappears after "@ + lifetime_text(ttl->0 as nat),
        ),
        tells(
            queued_text(total, delivered, reply),
            decimal((total - delivered) as nat) + " of "@ + decimal(total),
        ),
        tells(queued_text(total, delivered, reply), decimal(delivered) + " delivered now."@),
{
    let t = sent_text(jid, ttl, reply);
    if reply {
        lemma_middle(t, "Reply sent to "@, jid, " via WhatsApp."@);
    } else {
        match ttl {
            Some(s) => {
                reveal_strlit(" via WhatsApp; it disappears after ");
                reveal_strlit("disappears after ");
                let life = lifetime_text(s as nat);
                let mid = " via WhatsApp; it disappears after "@;
                lemma_middle(t, "Message sent to "@, jid, mid + life + "."@);
                lemma_middle(
                    t,
                    "Message sent to "@ + jid + mid.take(18),
                    "disappears after "@ + life,
                    "."@,
                );
            },
            None => lemma_middle(t, "Message sent to "@, jid, " via WhatsApp."@),
        }
    }
    let q = queued_text(total, delivered, reply);
    let middle = if reply {
        " reply chunk(s) queued for automatic delivery as the 24h window slides (owner alerted once); "@
    } else {
        " chunk(s) queued for automatic delivery as the 24h window slides (owner alerted once); "@
    };
    let left = decimal((total - delivered) as nat) + " of "@ + decimal(total);
    reveal_strlit(" delivered now. Do NOT resend the queued part.");
    reveal_strlit(" delivered now.");
    let last = " delivered now. Do NOT resend the queued part."@;
    lemma_middle(
        q,
        "WhatsApp daily cap reached: "@,
        left,
        middle + decimal(delivered) + last,
    );
    lemma_middle(
        q,
        "WhatsApp daily cap reached: "@ + left + middle,
        decimal(delivered) + " delivered now."@,
        last.skip(15),
    );
}

/// Refusals name what they refuse: the budget what was not sent, a status
/// update every number that is not on the list. A list shows every entry, a
/// card the name and the number.
pub proof fn law_lists_and_refusals_are_complete(
    what: Seq<char>,
    refused: Seq<Seq<char>>,
    i: int,
    list: Seq<(String, String)>,
    k: int,
    name: Seq<char>,
    phone: Seq<char>,
)
    requires
        0 <= i < refused.len(),
        0 <= k < list.len(),
    ensures
        tells(cap_text(what), what + " was NOT sent."@),
        tells(refused_text(refused), refused[i]),
        tells(refused_text(refused), decimal(refused.len()) + " target(s)"@),
        tells(join(newsletter_lines(list), "\n"@), list[k].0@),
        tells(join(newsletter_lines(list), "\n"@), list[k].1@),
        vcard(name, phone) == "BEGIN:VCARD\nVERSION:3.0\nFN:"@ + name + "\nTEL;TYPE=CELL:"@ + phone
            + "\nEND:VCARD"@,
{
    reveal_strlit(" was NOT sent.");
    reveal_strlit(
        " was NOT sent. Unlike text, this is not queued for retry - try again once the 24h window slides.",
    );
    let last =
        " was NOT sent. Unlike text, this is not queued for retry - try again once the 24h window slides."@;
    lemma_middle(
        cap_text(what),
        "Daily WhatsApp send cap reached; "@,
        what + " was NOT sent."@,
        last.skip(14),
    );
    reveal_strlit(" target(s)");
    reveal_strlit(
        " target(s) are not on channels.whatsapp.broadcast.allowed_targets and NOTHING was sent: ",
    );
    let mid =
        " target(s) are not on channels.whatsapp.broadcast.allowed_targets and NOTHING was sent: "@;
    let end = ". Broadcast is opt-in per number; add them to the config first."@;
    let names = join(refused, ", "@);
    let t = refused_text(refused);
    lemma_middle(
        t,
        Seq::empty(),
        decimal(refused.len()) + " target(s)"@,
        mid.skip(10) + names + end,
    );
    law_join_holds_each(refused, ", "@, i);
    assert(t =~= (decimal(refused.len()) + mid) + names + end);
    lemma_tells_more(t, decimal(refused.len()) + mid, names, end, refused[i]);
    let lines = newsletter_lines(list);
    law_join_holds_each(lines, "\n"@, k);
    let line = lines[k];
    let all = join(lines, "\n"@);
    let (n, j) = (list[k].0@, list[k].1@);
    lemma_middle(line, "- "@, n, " ("@ + j + ")"@);
    lemma_middle(line, "- "@ + n + " ("@, j, ")"@);
    let at = choose|at: int| #[trigger] matches_at(all, line, at);
    assert(all =~= all.take(at) + line + all.skip(at + line.len()));
    lemma_tells_more(all, all.take(at), line, all.skip(at + line.len()), n);
    lemma_tells_more(all, all.take(at), line, all.skip(at + line.len()), j);
}

/// A status update reaches those it names; without names, the allowlist. Its
/// answer tells how many, how fast, and the least time it took.
pub proof fn law_status_targets(
    targets: Vec<String>,
    allowlist: Seq<Seq<char>>,
    count: nat,
    pace: nat,
)
    ensures
        asked(Some(targets), allowlist) == targets@.map_values(|s: String| s@),
        asked(None, allowlist) == allowlist,
        tells(status_text(count, pace), decimal(count) + " allowlisted recipient(s)"@),
        tells(status_text(count, pace), "paced at "@ + decimal(pace) + "s"@),
        count > 0 ==> tells(
            status_text(count, pace),
            "at least "@ + decimal(pace * ((count - 1) as nat)) + "s of wall clock"@,
        ),
{
    assert(asked(Some(targets), allowlist) =~= targets@.map_values(|s: String| s@));
    reveal_strlit(" allowlisted recipient(s), paced at ");
    reveal_strlit(" allowlisted recipient(s)");
    reveal_strlit("paced at ");
    reveal_strlit("s (at least ");
    reveal_strlit("s");
    reveal_strlit("at least ");
    reveal_strlit("s of wall clock).");
    reveal_strlit("s of wall clock");
    let t = status_text(count, pace);
    let a = " allowlisted recipient(s), paced at "@;
    let b = "s (at least "@;
    let c = "s of wall clock)."@;
    let fl = decimal(floor_seconds(count, pace));
    lemma_middle(
        t,
        "Status update posted to "@,
        decimal(count) + " allowlisted recipient(s)"@,
        a.skip(25) + decimal(pace) + b + fl + c,
    );
    lemma_middle(
        t,
        "Status update posted to "@ + decimal(count) + a.take(27),
        "paced at "@ + decimal(pace) + "s"@,
        b.skip(1) + fl + c,
    );
    if count > 0 {
        lemma_floor_is_pace_per_gap(count, pace);
        lemma_middle(
            t,
            "Status update posted to "@ + decimal(count) + a + decimal(pace) + b.take(3),
            "at least "@ + fl + "s of wall clock"@,
            c.skip(15),
        );
    }
}

proof fn lemma_floor_is_pace_per_gap(count: nat, pace: nat)
    requires
        count > 0,
    ensures
        floor_seconds(count, pace) == pace * ((count - 1) as nat),
{
    assert(pace * ((count - 1) as nat) == ((count - 1) as nat) * pace) by (nonlinear_arith)
        requires
            count > 0,
    ;
}

/// The type of a file goes by its extension; one that is not known has none.
pub proof fn law_types_of_files(ext: Seq<char>, path: Seq<char>, otherwise: Seq<char>)
    ensures
        ext == "jpg"@ ==> extension_mime(ext) == Some("image/jpeg"@),
        ext == "jpeg"@ ==> extension_mime(ext) == Some("image/jpeg"@),
        ext == "png"@ ==> extension_mime(ext) == Some("image/png"@),
        ext == "gif"@ ==> extension_mime(ext) == Some("image/gif"@),
        ext == "webp"@ ==> extension_mime(ext) == Some("image/webp"@),
        ext == "mp4"@ ==> extension_mime(ext) == Some("video/mp4"@),
        ext == "3gp"@ ==> extension_mime(ext) == Some("video/3gpp"@),
        ext == "avi"@ ==> extension_mime(ext) == Some("video/x-msvideo"@),
        ext == "mov"@ ==> extension_mime(ext) == Some("video/quicktime"@),
        ext == "mp3"@ ==> extension_mime(ext) == Some("audio/mpeg"@),
        ext == "ogg"@ ==> extension_mime(ext) == Some("audio/ogg"@),
        ext == "opus"@ ==> extension_mime(ext) == Some("audio/ogg"@),
        ext == "aac"@ ==> extension_mime(ext) == Some("audio/aac"@),
        ext == "m4a"@ ==> extension_mime(ext) == Some("audio/mp4"@),
        ext == "pdf"@ ==> extension_mime(ext) == Some("application/pdf"@),
        ext == "doc"@ ==> extension_mime(ext) == Some("application/msword"@),
        ext == "docx"@ ==> extension_mime(ext) == Some("application/msword"@),
        ext == "xls"@ ==> extension_mime(ext) == Some("application/vnd.ms-excel"@),
        ext == "xlsx"@ ==> extension_mime(ext) == Some("application/vnd.ms-excel"@),
        ext == "ppt"@ ==> extension_mime(ext) == Some("application/vnd.ms-powerpoint"@),
        ext == "pptx"@ ==> extension_mime(ext) == Some("application/vnd.ms-powerpoint"@),
        ext == "txt"@ ==> extension_mime(ext) == Some("text/plain"@),
        ext == "csv"@ ==> extension_mime(ext) == Some("text/csv"@),
        ext == "zip"@ ==> extension_mime(ext) == Some("application/zip"@),
        ext != "jpg"@ && ext != "jpeg"@ && ext != "png"@ && ext != "gif"@ && ext != "webp"@ && ext != "mp4"@ && ext != "3gp"@ && ext != "avi"@ && ext != "mov"@ && ext != "mp3"@ && ext != "ogg"@ && ext != "opus"@ && ext != "aac"@ && ext != "m4a"@ && ext != "pdf"@ && ext != "doc"@ && ext != "docx"@ && ext != "xls"@ && ext != "xlsx"@ && ext != "ppt"@ && ext != "pptx"@ && ext != "txt"@ && ext != "csv"@ && ext != "zip"@ ==> extension_mime(ext) is None,
        extension_mime(lowercase(after_last(path, '.'))) is None ==> media_mime(path, otherwise)
            == otherwise,
        extension_mime(lowercase(after_last(path, '.'))) is Some ==> media_mime(path, otherwise)
            == extension_mime(lowercase(after_last(path, '.')))->0,
        file_name(path) is Some ==> media_name(path) == file_name(path)->0,
        file_name(path) is None ==> media_name(path) == "file"@,
{
    reveal_strlit("jpg");
    reveal_strlit("jpeg");
    reveal_strlit("png");
    reveal_strlit("gif");
    reveal_strlit("webp");
    reveal_strlit("mp4");
    reveal_strlit("3gp");
    reveal_strlit("avi");
    reveal_strlit("mov");
    reveal_strlit("mp3");
    reveal_strlit("ogg");
    reveal_strlit("opus");
    reveal_strlit("aac");
    reveal_strlit("m4a");
    reveal_strlit("pdf");
    reveal_strlit("doc");
    reveal_strlit("docx");
    reveal_strlit("xls");
    reveal_strlit("xlsx");
    reveal_strlit("ppt");
    reveal_strlit("pptx");
    reveal_strlit("txt");
    reveal_strlit("csv");
    reveal_strlit("zip");
    assert("jpg"@.len() == 3 && "jpg"@[0] == 'j' && "jpg"@[1] == 'p' && "jpg"@[2] == 'g');
    assert("jpeg"@.len() == 4 && "jpeg"@[0] == 'j' && "jpeg"@[1] == 'p' && "jpeg"@[2] == 'e' && "jpeg"@[3] == 'g');
    assert("png"@.len() == 3 && "png"@[0] == 'p' && "png"@[1] == 'n' && "png"@[2] == 'g');
    assert("gif"@.len() == 3 && "gif"@[0] == 'g' && "gif"@[1] == 'i' && "gif"@[2] == 'f');
    assert("webp"@.len() == 4 && "webp"@[0] == 'w' && "webp"@[1] == 'e' && "webp"@[2] == 'b' && "webp"@[3] == 'p');
    assert("mp4"@.len() == 3 && "mp4"@[0] == 'm' && "mp4"@[1] == 'p' && "mp4"@[2] == '4');
    assert("3gp"@.len() == 3 && "3gp"@[0] == '3' && "3gp"@[1] == 'g' && "3gp"@[2] == 'p');
    assert("avi"@.len() == 3 && "avi"@[0] == 'a' && "avi"@[1] == 'v' && "avi"@[2] == 'i');
    assert("mov"@.len() == 3 && "mov"@[0] == 'm' && "mov"@[1] == 'o' && "mov"@[2] == 'v');
    assert("mp3"@.len() == 3 && "mp3"@[0] == 'm' && "mp3"@[1] == 'p' && "mp3"@[2] == '3');
    assert("ogg"@.len() == 3 && "ogg"@[0] == 'o' && "ogg"@[1] == 'g' && "ogg"@[2] == 'g');
    assert("opus"@.len() == 4 && "opus"@[0] == 'o' && "opus"@[1] == 'p' && "opus"@[2] == 'u' && "opus"@[3] == 's');
    assert("aac"@.len() == 3 && "aac"@[0] == 'a' && "aac"@[1] == 'a' && "aac"@[2] == 'c');
    assert("m4a"@.len() == 3 && "m4a"@[0] == 'm' && "m4a"@[1] == '4' && "m4a"@[2] == 'a');
    assert("pdf"@.len() == 3 && "pdf"@[0] == 'p' && "pdf"@[1] == 'd' && "pdf"@[2] == 'f');
    assert("doc"@.len() == 3 && "doc"@[0] == 'd' && "doc"@[1] == 'o' && "doc"@[2] == 'c');
    assert("docx"@.len() == 4 && "docx"@[0] == 'd' && "docx"@[1] == 'o' && "docx"@[2] == 'c' && "docx"@[3] == 'x');
    assert("xls"@.len() == 3 && "xls"@[0] == 'x' && "xls"@[1] == 'l' && "xls"@[2] == 's');
    assert("xlsx"@.len() == 4 && "xlsx"@[0] == 'x' && "xlsx"@[1] == 'l' && "xlsx"@[2] == 's' && "xlsx"@[3] == 'x');
    assert("ppt"@.len() == 3 && "ppt"@[0] == 'p' && "ppt"@[1] == 'p' && "ppt"@[2] == 't');
    assert("pptx"@.len() == 4 && "pptx"@[0] == 'p' && "pptx"@[1] == 'p' && "pptx"@[2] == 't' && "pptx"@[3] == 'x');
    assert("txt"@.len() == 3 && "txt"@[0] == 't' && "txt"@[1] == 'x' && "txt"@[2] == 't');
    assert("csv"@.len() == 3 && "csv"@[0] == 'c' && "csv"@[1] == 's' && "csv"@[2] == 'v');
    assert("zip"@.len() == 3 && "zip"@[0] == 'z' && "zip"@[1] == 'i' && "zip"@[2] == 'p');
}

} // verus!
