//! Armed suggestion keyboards, and the columns they are stored in.
use vstd::prelude::*;

use crate::text::{oview, views};

verus! {

/// The message a keyboard can ride on.
pub struct FollowupHost {
    pub message_id: i64,
    pub html: String,
    pub rich: bool,
    /// Markdown of a markdown-plane host.
    pub markdown: Option<String>,
}

/// One armed suggestion keyboard.
pub struct PendingFollowup {
    pub token: String,
    pub session_id: String,
    pub options: Vec<String>,
    pub host: Option<FollowupHost>,
}

/// The columns of a stored keyboard.
pub struct FollowupColumns {
    pub token: String,
    pub session_id: String,
    pub options_json: String,
    pub host_message_id: Option<i64>,
    pub host_html: Option<String>,
    pub host_rich: bool,
    pub host_markdown: Option<String>,
}

/// A host, as values.
pub struct HostV {
    pub message_id: i64,
    pub html: Seq<char>,
    pub rich: bool,
    pub markdown: Option<Seq<char>>,
}

/// A keyboard, as values.
pub struct FollowupV {
    pub token: Seq<char>,
    pub session_id: Seq<char>,
    pub options: Seq<Seq<char>>,
    pub host: Option<HostV>,
}

pub open spec fn host_view(h: Option<FollowupHost>) -> Option<HostV> {
    match h {
        Some(h) => Some(
            HostV {
                message_id: h.message_id,
                html: h.html@,
                rich: h.rich,
                markdown: oview(h.markdown),
            },
        ),
        None => None,
    }
}

impl View for PendingFollowup {
    type V = FollowupV;

    open spec fn view(&self) -> FollowupV {
        FollowupV {
            token: self.token@,
            session_id: self.session_id@,
            options: views(self.options@),
            host: host_view(self.host),
        }
    }
}

/// A list of texts as JSON, as `serde_json` writes it.
pub uninterp spec fn list_json(items: Seq<Seq<char>>) -> Seq<char>;

/// The list of texts that a JSON text holds, as `serde_json` reads it; `None`
/// where it holds none.
pub uninterp spec fn json_list(text: Seq<char>) -> Option<Seq<Seq<char>>>;

/// `serde_json::to_string` of a list of strings, which cannot fail. The text
/// depends on the list alone and is named; beside the name the contract claims
/// that reading it gives the list back.
#[verifier::external_body]
pub(crate) fn write_list(items: &Vec<String>) -> (r: String)
    ensures
        r@ == list_json(views(items@)),
        json_list(r@) == Some(views(items@)),
{
    match serde_json::to_string(items) {
        Ok(t) => t,
        Err(_) => String::new(),
    }
}

/// `serde_json::from_str` into a list of strings. The result depends on the
/// text alone and is named.
#[verifier::external_body]
pub(crate) fn read_list(text: &str) -> (r: Option<Vec<String>>)
    ensures
        match r {
            Some(v) => json_list(text@) == Some(views(v@)),
            None => json_list(text@) is None,
        },
{
    serde_json::from_str::<Vec<String>>(text).ok()
}

/// The stored form of a keyboard, its options already written.
pub open spec fn stored_as(c: FollowupColumns, e: FollowupV, options_json: Seq<char>) -> bool {
    &&& c.token@ == e.token
    &&& c.session_id@ == e.session_id
    &&& c.options_json@ == options_json
    &&& match e.host {
        Some(h) => {
            &&& c.host_message_id == Some(h.message_id)
            &&& oview(c.host_html) == Some(h.html)
            &&& c.host_rich == h.rich
            &&& oview(c.host_markdown) == h.markdown
        },
        None => c.host_message_id is None && c.host_html is None && !c.host_rich
            && c.host_markdown is None,
    }
}

/// The columns a keyboard is stored in.
pub fn save(entry: &PendingFollowup) -> (r: FollowupColumns)
    ensures
        stored_as(r, entry@, list_json(views(entry.options@))),
        json_list(r.options_json@) == Some(views(entry.options@)),
{
    let options_json = write_list(&entry.options);
    match &entry.host {
        Some(h) => FollowupColumns {
            token: entry.token.clone(),
            session_id: entry.session_id.clone(),
            options_json,
            host_message_id: Some(h.message_id),
            host_html: Some(h.html.clone()),
            host_rich: h.rich,
            host_markdown: match &h.markdown {
                Some(m) => Some(m.clone()),
                None => None,
            },
        },
        None => FollowupColumns {
            token: entry.token.clone(),
            session_id: entry.session_id.clone(),
            options_json,
            host_message_id: None,
            host_html: None,
            host_rich: false,
            host_markdown: None,
        },
    }
}

/// The keyboard that columns stand for, once its options are read. Without a
/// host message there is no host.
pub open spec fn loaded(c: FollowupColumns, options: Seq<Seq<char>>) -> FollowupV {
    FollowupV {
        token: c.token@,
        session_id: c.session_id@,
        options,
        host: match c.host_message_id {
            Some(id) => Some(
                HostV {
                    message_id: id,
                    html: match c.host_html {
                        Some(h) => h@,
                        None => Seq::empty(),
                    },
                    rich: c.host_rich,
                    markdown: oview(c.host_markdown),
                },
            ),
            None => None,
        },
    }
}

/// The keyboard that columns stand for, once its options are read.
pub fn assemble(c: FollowupColumns, options: Vec<String>) -> (r: PendingFollowup)
    ensures
        r@ == loaded(c, views(options@)),
{
    PendingFollowup {
        token: c.token,
        session_id: c.session_id,
        options,
        host: match c.host_message_id {
            Some(message_id) => Some(
                FollowupHost {
                    message_id,
                    html: match c.host_html {
                        Some(h) => h,
                        None => String::new(),
                    },
                    rich: c.host_rich,
                    markdown: c.host_markdown,
                },
            ),
            None => None,
        },
    }
}

/// The keyboard that columns stand for; `None` where its options cannot be
/// read.
pub fn load(c: FollowupColumns) -> (r: Option<PendingFollowup>)
    ensures
        match r {
            Some(e) => json_list(c.options_json@) is Some && e@ == loaded(
                c,
                json_list(c.options_json@)->0,
            ),
            None => json_list(c.options_json@) is None,
        },
{
    match read_list(c.options_json.as_str()) {
        Some(options) => Some(assemble(c, options)),
        None => None,
    }
}

/// A keyboard survives a restart: what was saved loads as it was.
pub proof fn law_saved_loads_back(e: PendingFollowup, c: FollowupColumns)
    requires
        stored_as(c, e@, list_json(views(e.options@))),
        json_list(c.options_json@) == Some(views(e.options@)),
    ensures
        loaded(c, json_list(c.options_json@)->0) == e@,
{
}

/// The columns hold each part of a keyboard, and two keyboards with the same
/// columns are the same.
pub proof fn law_columns_hold_every_part(c: FollowupColumns, e: FollowupV, other: FollowupV)
    requires
        stored_as(c, e, c.options_json@),
    ensures
        c.token@ == e.token,
        c.session_id@ == e.session_id,
        e.host is Some ==> c.host_message_id == Some(e.host->0.message_id),
        e.host is Some ==> c.host_html is Some && c.host_html->0@ == e.host->0.html,
        e.host is Some ==> c.host_rich == e.host->0.rich,
        e.host is Some ==> oview(c.host_markdown) == e.host->0.markdown,
        e.host is None ==> c.host_message_id is None,
        stored_as(c, other, c.options_json@) ==> other.token == e.token && other.session_id
            == e.session_id && other.host == e.host,
{
    if stored_as(c, other, c.options_json@) && e.host is Some && other.host is Some {
        assert(e.host->0.html =~= other.host->0.html);
        assert(e.host->0 == other.host->0);
    }
}

/// What is loaded is what the columns hold.
pub proof fn law_loaded_is_what_is_stored(c: FollowupColumns, options: Seq<Seq<char>>)
    ensures
        loaded(c, options).token == c.token@,
        loaded(c, options).session_id == c.session_id@,
        loaded(c, options).options == options,
        loaded(c, options).host is Some <==> c.host_message_id is Some,
        c.host_message_id is Some ==> loaded(c, options).host->0.message_id
            == c.host_message_id->0,
        c.host_message_id is Some && c.host_html is Some ==> loaded(c, options).host->0.html
            == c.host_html->0@,
        c.host_message_id is Some ==> loaded(c, options).host->0.rich == c.host_rich,
        c.host_message_id is Some ==> loaded(c, options).host->0.markdown == oview(
            c.host_markdown,
        ),
{
}

} // verus!
