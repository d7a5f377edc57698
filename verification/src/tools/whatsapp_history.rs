//! Read-only search over a WhatsApp chat's stored history.
use vstd::prelude::*;

use super::result::{Reply, ToolHints, ToolResult};
use crate::clock::{format_utc, utc_text};
use crate::json::{integer, member, param, param_of, Json};
use crate::search::{
    dec_i64, dec_usize, decimal, decimal_int, has_prefix, join, join_strs, law_join_holds_each,
    lemma_tells, lemma_tells_more, tells,
};
use crate::text::{cat2, cat5, views};

verus! {

/// The history tool.
pub struct WhatsAppHistoryTool {}

/// `n` within `lo..=hi`.
pub open spec fn within(n: int, lo: int, hi: int) -> int {
    if n < lo {
        lo
    } else if n > hi {
        hi
    } else {
        n
    }
}

/// The day window and the row limit of a search, within their bounds.
pub fn clamp_search(days: i64, limit: i64) -> (r: (i64, i64))
    ensures
        r.0 == within(days as int, 1, 90),
        r.1 == within(limit as int, 1, 100),
{
    let d: i64 = if days < 1 {
        1
    } else if days > 90 {
        90
    } else {
        days
    };
    let l: i64 = if limit < 1 {
        1
    } else if limit > 100 {
        100
    } else {
        limit
    };
    (d, l)
}

/// A search of the stored history.
pub struct HistoryQuery {
    pub chat: String,
    /// A part of the text; empty for any.
    pub query: String,
    pub days: i64,
    pub limit: i64,
    /// Unix seconds from which on messages count.
    pub since: i64,
}

pub open spec fn int_or(j: Option<Json>, default: int) -> int {
    match integer(j) {
        Some(n) => n,
        None => default,
    }
}

fn int_param(input: &Json, key: &str, default: i64) -> (r: i64)
    ensures
        r == int_or(member(*input, key@), default as int),
{
    match input.get(key) {
        Some(v) => match v.as_i64() {
            Some(n) => n,
            None => default,
        },
        None => default,
    }
}

/// A stored message.
pub struct HistoryRow {
    pub content: String,
    pub sender: String,
    /// Unix seconds.
    pub at: i64,
}

/// When a message was stored; the bare seconds where no date has them.
pub open spec fn when_text(at: i64, date: Option<Seq<char>>) -> Seq<char> {
    match date {
        Some(t) => t,
        None => decimal_int(at as int),
    }
}

/// One message as a line, given its date.
pub open spec fn line_text(row: HistoryRow, date: Option<Seq<char>>) -> Seq<char> {
    "["@ + when_text(row.at, date) + "] "@ + row.sender@ + ": "@ + row.content@
}

/// One message as a line, given its date.
pub fn history_line(row: &HistoryRow, date: Option<String>) -> (r: String)
    ensures
        r@ == line_text(*row, crate::text::oview(date)),
{
    let when = match date {
        Some(t) => t,
        None => dec_i64(row.at),
    };
    let head = cat5("[", when.as_str(), "] ", row.sender.as_str(), ": ");
    cat2(head.as_str(), row.content.as_str())
}

/// The messages as lines.
pub open spec fn line_texts(rows: Seq<HistoryRow>) -> Seq<Seq<char>> {
    rows.map_values(
        |r: HistoryRow| line_text(r, utc_text(r.at as int, "%Y-%m-%d %H:%M"@)),
    )
}

/// The answer with what was found.
pub open spec fn found_text(q: HistoryQuery, rows: Seq<HistoryRow>) -> Seq<char> {
    if rows.len() == 0 {
        "No stored WhatsApp history for "@ + q.chat@ + " in the last "@ + decimal_int(
            q.days as int,
        ) + " day(s)"@ + (if q.query@.len() == 0 {
            Seq::empty()
        } else {
            " matching '"@ + q.query@ + "'"@
        }) + "."@
    } else {
        decimal(rows.len()) + " stored message(s) for "@ + q.chat@
            + ", newest first (window "@ + decimal_int(q.days as int) + "d):\n"@ + join(
            line_texts(rows),
            "\n"@,
        )
    }
}

impl WhatsAppHistoryTool {
    pub fn new() -> (r: Self)
        ensures
            r == (WhatsAppHistoryTool {}),
    {
        WhatsAppHistoryTool {}
    }

    /// Searching changes nothing. What is not said here is as `default` has it.
    pub fn hints(&self, default: ToolHints) -> (r: ToolHints)
        ensures
            r == (ToolHints { read_only: true, destructive: false, ..default }),
    {
        ToolHints { read_only: true, destructive: false, ..default }
    }

    /// The search that an input asks for; `now` is in Unix seconds.
    pub fn execute(&self, input: &Json, now: i64) -> (r: Result<HistoryQuery, ToolResult>)
        requires
            now >= i64::MIN + 90 * 86400,
        ensures
            match r {
                Err(e) => param(*input, "chat"@).len() == 0 && e@ == Reply::Error(
                    "Missing required parameter 'chat'."@,
                ),
                Ok(q) => {
                    &&& param(*input, "chat"@).len() > 0
                    &&& q.chat@ == param(*input, "chat"@)
                    &&& q.query@ == param(*input, "query"@)
                    &&& q.days == within(int_or(member(*input, "days"@), 90), 1, 90)
                    &&& q.limit == within(int_or(member(*input, "limit"@), 50), 1, 100)
                    &&& q.since == now - q.days * 86400
                },
            },
    {
        let chat = param_of(input, "chat");
        if chat.as_str().is_empty() {
            return Err(ToolResult::error("Missing required parameter 'chat'.".to_owned()));
        }
        let query = param_of(input, "query");
        let (days, limit) = clamp_search(
            int_param(input, "days", 90),
            int_param(input, "limit", 50),
        );
        Ok(HistoryQuery { chat, query, days, limit, since: now - days * 86400 })
    }

    /// The answer with what was found, newest first.
    pub fn found(&self, q: &HistoryQuery, rows: &Vec<HistoryRow>) -> (r: ToolResult)
        ensures
            r@ == Reply::Success(found_text(*q, rows@)),
    {
        if rows.len() == 0 {
            let mut out = cat5(
                "No stored WhatsApp history for ",
                q.chat.as_str(),
                " in the last ",
                dec_i64(q.days).as_str(),
                " day(s)",
            );
            let ghost head = out@;
            if !q.query.as_str().is_empty() {
                let mut qual = cat2(" matching '", q.query.as_str());
                qual.append("'");
                out.append(qual.as_str());
            } else {
                assert(head + Seq::<char>::empty() =~= head);
            }
            out.append(".");
            return ToolResult::success(out);
        }
        let mut lines: Vec<String> = Vec::new();
        let mut i: usize = 0;
        assert(views(lines@) =~= line_texts(rows@).take(0));
        while i < rows.len()
            invariant
                i <= rows.len(),
                views(lines@) == line_texts(rows@).take(i as int),
            decreases rows.len() - i,
        {
            let line = history_line(&rows[i], format_utc(rows[i].at, "%Y-%m-%d %H:%M"));
            let ghost pre = views(lines@);
            let ghost l = line@;
            lines.push(line);
            assert(views(lines@) =~= pre.push(l));
            assert(line_texts(rows@).take(i + 1) =~= line_texts(rows@).take(i as int).push(l));
            i = i + 1;
        }
        assert(line_texts(rows@).take(i as int) =~= line_texts(rows@));
        let head = cat5(
            dec_usize(rows.len()).as_str(),
            " stored message(s) for ",
            q.chat.as_str(),
            ", newest first (window ",
            dec_i64(q.days).as_str(),
        );
        let mut out = cat2(head.as_str(), "d):\n");
        out.append(join_strs(&lines, "\n").as_str());
        ToolResult::success(out)
    }

    /// The answer where the search failed.
    pub fn failed(&self, error: &str) -> (r: ToolResult)
        ensures
            r@ == Reply::Error("History search failed: "@ + error@),
    {
        ToolResult::error(cat2("History search failed: ", error))
    }
}

/// A number inside the bounds stays, and one outside becomes the nearer bound.
pub proof fn law_bounds_hold(n: int, lo: int, hi: int)
    requires
        lo <= hi,
    ensures
        lo <= within(n, lo, hi) <= hi,
        lo <= n <= hi ==> within(n, lo, hi) == n,
        n < lo ==> within(n, lo, hi) == lo,
        n > hi ==> within(n, lo, hi) == hi,
{
}

/// A number that is given counts, and the default only where there is none.
pub proof fn law_given_numbers_count(j: Option<Json>, default: int)
    ensures
        integer(j) is Some ==> int_or(j, default) == integer(j)->0,
        integer(j) is None ==> int_or(j, default) == default,
{
}

/// A line tells when a message came, who sent it and all that it says.
pub proof fn law_lines_tell_the_message(row: HistoryRow, date: Option<Seq<char>>)
    ensures
        date is Some ==> has_prefix(line_text(row, date), "["@ + date->0 + "] "@),
        date is None ==> has_prefix(line_text(row, date), "["@ + decimal_int(row.at as int) + "] "@),
        tells(line_text(row, date), row.sender@ + ": "@ + row.content@),
{
    let t = line_text(row, date);
    let head = "["@ + when_text(row.at, date) + "] "@;
    let said = row.sender@ + ": "@ + row.content@;
    assert(t =~= head + said + Seq::<char>::empty());
    assert(t.subrange(0, head.len() as int) =~= head);
    lemma_tells(t, head, said, Seq::empty());
}

/// The answer shows every message that was found; without any it names the
/// chat and what was searched for.
pub proof fn law_found_messages_are_shown(q: HistoryQuery, rows: Seq<HistoryRow>, i: int)
    ensures
        0 <= i < rows.len() ==> tells(
            found_text(q, rows),
            line_text(rows[i], utc_text(rows[i].at as int, "%Y-%m-%d %H:%M"@)),
        ),
        rows.len() > 0 ==> has_prefix(
            found_text(q, rows),
            decimal(rows.len()) + " stored message(s) for "@ + q.chat@,
        ),
        rows.len() == 0 ==> tells(found_text(q, rows), q.chat@),
        rows.len() == 0 && q.query@.len() > 0 ==> tells(
            found_text(q, rows),
            " matching '"@ + q.query@ + "'"@,
        ),
        tells(found_text(q, rows), decimal_int(q.days as int)),
{
    let t = found_text(q, rows);
    let none = Seq::<char>::empty();
    if rows.len() > 0 {
        let all = join(line_texts(rows), "\n"@);
        let head = decimal(rows.len()) + " stored message(s) for "@ + q.chat@;
        let before = head + ", newest first (window "@;
        let mid = before + decimal_int(q.days as int) + "d):\n"@;
        assert(t == mid + all);
        assert(t.subrange(0, head.len() as int) =~= head);
        assert(t =~= before + decimal_int(q.days as int) + ("d):\n"@ + all));
        lemma_tells(t, before, decimal_int(q.days as int), "d):\n"@ + all);
        if 0 <= i < rows.len() {
            law_join_holds_each(line_texts(rows), "\n"@, i);
            assert(t =~= mid + all + none);
            lemma_tells_more(t, mid, all, none, line_texts(rows)[i]);
        }
    } else {
        let a = "No stored WhatsApp history for "@;
        let b = " in the last "@;
        let d = decimal_int(q.days as int);
        let m = if q.query@.len() == 0 {
            Seq::empty()
        } else {
            " matching '"@ + q.query@ + "'"@
        };
        assert(t == a + q.chat@ + b + d + " day(s)"@ + m + "."@);
        assert(t =~= a + q.chat@ + (b + d + " day(s)"@ + m + "."@));
        lemma_tells(t, a, q.chat@, b + d + " day(s)"@ + m + "."@);
        assert(t =~= (a + q.chat@ + b) + d + (" day(s)"@ + m + "."@));
        lemma_tells(t, a + q.chat@ + b, d, " day(s)"@ + m + "."@);
        lemma_tells(t, a + q.chat@ + b + d + " day(s)"@, m, "."@);
    }
}

} // verus!
