//! One prompt drives one turn. Progress of the loop becomes updates to the
//! client, and tools that need approval are decided by the session's mode.
use vstd::prelude::*;

use crate::json::{
    compact, law_object_shows_each_member, literal, member_views, render_object, rendered_object, to_compact, to_literal, Json,
};
use crate::search::{dec_u64, decimal, lemma_tells_more, tells};
use crate::text::{blank, is_blank, is_space, law_trimming_leaves_the_text, str_eq, trim, trimmed};

verus! {

/// Why a provider stopped.
#[derive(Clone, Copy, PartialEq, Eq, Structural)]
pub enum StopReason {
    EndTurn,
    MaxTokens,
    StopSequence,
    ToolUse,
}

pub open spec fn stop_text(reason: Option<StopReason>) -> Seq<char> {
    match reason {
        Some(StopReason::MaxTokens) => "max_tokens"@,
        Some(StopReason::StopSequence) => "stop_sequence"@,
        _ => "end_turn"@,
    }
}

/// The client's name for why a turn stopped.
pub fn stop_reason(reason: Option<StopReason>) -> (r: &'static str)
    ensures
        r@ == stop_text(reason),
{
    match reason {
        Some(StopReason::MaxTokens) => "max_tokens",
        Some(StopReason::StopSequence) => "stop_sequence",
        _ => "end_turn",
    }
}

/// How a turn is answered.
pub enum TurnAnswer {
    /// With this stop reason.
    Stopped(&'static str),
    /// With an internal error that says this.
    Failed(String),
}

/// How a turn is answered: by `cancelled` wherever it was cancelled, even
/// where the loop ended in an error.
pub fn turn_answer(outcome: Result<Option<StopReason>, String>, cancelled: bool) -> (r: TurnAnswer)
    ensures
        match outcome {
            Ok(reason) => r is Stopped && r->Stopped_0@ == if cancelled {
                "cancelled"@
            } else {
                stop_text(reason)
            },
            Err(e) => if cancelled {
                r is Stopped && r->Stopped_0@ == "cancelled"@
            } else {
                r is Failed && r->Failed_0@ == e@
            },
        },
{
    match outcome {
        Ok(reason) => TurnAnswer::Stopped(
            if cancelled {
                "cancelled"
            } else {
                stop_reason(reason)
            },
        ),
        Err(e) => if cancelled {
            TurnAnswer::Stopped("cancelled")
        } else {
            TurnAnswer::Failed(e)
        },
    }
}

/// Whether a round's text repeats what was streamed. White space at the ends
/// does not count, and an empty text repeats nothing.
pub open spec fn repeats(streamed: Seq<char>, aggregate: Seq<char>) -> bool {
    !is_blank(aggregate) && trimmed(streamed) == trimmed(aggregate)
}

/// Whether a round's text repeats what was streamed.
pub fn round_text_is_duplicate(streamed: &str, aggregate: &str) -> (r: bool)
    ensures
        r == repeats(streamed@, aggregate@),
{
    !blank(aggregate) && str_eq(trim(streamed), trim(aggregate))
}

/// Progress of the loop.
pub enum ProgressEvent {
    StreamingChunk(String),
    /// The text of a round, once more as a whole.
    IntermediateText(String),
    ReasoningChunk(String),
    ToolStarted { name: String, input: Json },
    ToolCompleted { name: String, success: bool, summary: String },
    TokenCount(u64),
    /// Anything the client has no word for.
    Other,
}

/// What the client is told.
pub enum Update {
    Message(String),
    Thought(String),
    ToolCall { id: String, name: String, input: Json },
    ToolUpdate { id: String, success: bool, output: String },
    Usage { used: u64 },
}

/// The state of a turn: what was streamed since the last round ended, and the
/// calls that are open, each a tool's name with the id it was given, in the
/// order in which they started.
pub struct Turn {
    pub streamed: String,
    pub open: Vec<(String, String)>,
}

pub open spec fn calls(v: Seq<(String, String)>) -> Seq<(Seq<char>, Seq<char>)> {
    v.map_values(|c: (String, String)| (c.0@, c.1@))
}

/// The index of the first open call of a tool.
pub open spec fn first_open(open: Seq<(Seq<char>, Seq<char>)>, name: Seq<char>) -> Option<int>
    decreases open.len(),
{
    if open.len() == 0 {
        None
    } else if open[0].0 == name {
        Some(0)
    } else {
        match first_open(open.drop_first(), name) {
            Some(i) => Some(i + 1),
            None => None,
        }
    }
}

/// The id that a completed call is reported under: that of the first open call
/// of the tool, else a fresh one.
pub open spec fn completed_id(
    open: Seq<(Seq<char>, Seq<char>)>,
    name: Seq<char>,
    fresh: Seq<char>,
) -> Seq<char> {
    match first_open(open, name) {
        Some(i) => open[i].1,
        None => fresh,
    }
}

/// The calls that remain open.
pub open spec fn still_open(open: Seq<(Seq<char>, Seq<char>)>, name: Seq<char>) -> Seq<
    (Seq<char>, Seq<char>),
> {
    match first_open(open, name) {
        Some(i) => open.remove(i),
        None => open,
    }
}

proof fn lemma_first_open(open: Seq<(Seq<char>, Seq<char>)>, name: Seq<char>)
    ensures
        match first_open(open, name) {
            Some(i) => {
                &&& 0 <= i < open.len()
                &&& open[i].0 == name
                &&& forall|k: int| 0 <= k < i ==> (#[trigger] open[k]).0 != name
            },
            None => forall|k: int| 0 <= k < open.len() ==> (#[trigger] open[k]).0 != name,
        },
    decreases open.len(),
{
    if open.len() > 0 && open[0].0 != name {
        let t = open.drop_first();
        lemma_first_open(t, name);
        match first_open(t, name) {
            Some(i) => {
                assert(t[i] == open[i + 1]);
                assert forall|k: int| 0 <= k < i + 1 implies (#[trigger] open[k]).0 != name by {
                    if k > 0 {
                        assert(t[k - 1] == open[k]);
                    }
                }
            },
            None => {
                assert forall|k: int| 0 <= k < open.len() implies (#[trigger] open[k]).0
                    != name by {
                    if k > 0 {
                        assert(t[k - 1] == open[k]);
                    }
                }
            },
        }
    }
}

impl Turn {
    pub fn new() -> (r: Self)
        ensures
            r.streamed@.len() == 0,
            r.open@.len() == 0,
    {
        Turn { streamed: String::new(), open: Vec::new() }
    }

    fn find_open(&self, name: &str) -> (r: Option<usize>)
        ensures
            match r {
                Some(i) => first_open(calls(self.open@), name@) == Some(i as int) && i
                    < self.open@.len(),
                None => first_open(calls(self.open@), name@) is None,
            },
    {
        let ghost all = calls(self.open@);
        proof {
            lemma_first_open(all, name@);
        }
        let mut i: usize = 0;
        while i < self.open.len()
            invariant
                i <= self.open.len(),
                all == calls(self.open@),
                forall|k: int| 0 <= k < i ==> (#[trigger] all[k]).0 != name@,
                match first_open(all, name@) {
                    Some(f) => {
                        &&& 0 <= f < all.len()
                        &&& all[f].0 == name@
                        &&& forall|k: int| 0 <= k < f ==> (#[trigger] all[k]).0 != name@
                    },
                    None => forall|k: int| 0 <= k < all.len() ==> (#[trigger] all[k]).0 != name@,
                },
            decreases self.open.len() - i,
        {
            assert(all[i as int] == (self.open@[i as int].0@, self.open@[i as int].1@));
            if str_eq(self.open[i].0.as_str(), name) {
                return Some(i);
            }
            i = i + 1;
        }
        None
    }

    /// Takes progress in; `fresh` is an id not used before. The events name
    /// tools, not calls, so a completion goes to the tool's first open call.
    pub fn on_event(&mut self, event: ProgressEvent, fresh: String) -> (r: Option<Update>)
        ensures
            match event {
                ProgressEvent::StreamingChunk(t) => {
                    &&& r == Some(Update::Message(t))
                    &&& final(self).streamed@ == old(self).streamed@ + t@
                    &&& final(self).open@ == old(self).open@
                },
                ProgressEvent::IntermediateText(t) => {
                    &&& r == if repeats(old(self).streamed@, t@) {
                        None
                    } else {
                        Some(Update::Message(t))
                    }
                    &&& final(self).streamed@.len() == 0
                    &&& final(self).open@ == old(self).open@
                },
                ProgressEvent::ReasoningChunk(t) => {
                    &&& r == Some(Update::Thought(t))
                    &&& *final(self) == *old(self)
                },
                ProgressEvent::ToolStarted { name, input } => {
                    &&& r is Some && r->0 is ToolCall
                    &&& r->0->ToolCall_id@ == fresh@
                    &&& r->0->ToolCall_name@ == name@
                    &&& r->0->ToolCall_input == input
                    &&& final(self).streamed@.len() == 0
                    &&& calls(final(self).open@) == calls(old(self).open@).push((name@, fresh@))
                },
                ProgressEvent::ToolCompleted { name, success, summary } => {
                    &&& r is Some && r->0 is ToolUpdate
                    &&& r->0->ToolUpdate_id@ == completed_id(
                        calls(old(self).open@),
                        name@,
                        fresh@,
                    )
                    &&& r->0->ToolUpdate_success == success
                    &&& r->0->ToolUpdate_output@ == summary@
                    &&& final(self).streamed@ == old(self).streamed@
                    &&& calls(final(self).open@) == still_open(calls(old(self).open@), name@)
                },
                ProgressEvent::TokenCount(n) => {
                    &&& r == Some(Update::Usage { used: n })
                    &&& *final(self) == *old(self)
                },
                ProgressEvent::Other => r is None && *final(self) == *old(self),
            },
    {
        match event {
            ProgressEvent::StreamingChunk(t) => {
                self.streamed.append(t.as_str());
                Some(Update::Message(t))
            },
            ProgressEvent::IntermediateText(t) => {
                let duplicate = round_text_is_duplicate(self.streamed.as_str(), t.as_str());
                self.streamed = String::new();
                if duplicate {
                    None
                } else {
                    Some(Update::Message(t))
                }
            },
            ProgressEvent::ReasoningChunk(t) => Some(Update::Thought(t)),
            ProgressEvent::ToolStarted { name, input } => {
                self.streamed = String::new();
                let ghost pre = calls(self.open@);
                let ghost call = (name@, fresh@);
                self.open.push((name.clone(), fresh.clone()));
                assert(calls(self.open@) =~= pre.push(call));
                Some(Update::ToolCall { id: fresh, name, input })
            },
            ProgressEvent::ToolCompleted { name, success, summary } => {
                let ghost pre = calls(self.open@);
                let id = match self.find_open(name.as_str()) {
                    Some(i) => {
                        assert(pre[i as int].1 == self.open@[i as int].1@);
                        let call = self.open.remove(i);
                        assert(calls(self.open@) =~= pre.remove(i as int));
                        call.1
                    },
                    None => fresh,
                };
                Some(Update::ToolUpdate { id, success, output: summary })
            },
            ProgressEvent::TokenCount(used) => Some(Update::Usage { used }),
            ProgressEvent::Other => None,
        }
    }
}

/// An opened call as the client gets it.
pub open spec fn tool_call_text(id: Seq<char>, name: Seq<char>, kind: Seq<char>, input: Json) -> Seq<
    char,
> {
    rendered_object(
        seq![
            ("kind"@, literal(kind)),
            ("rawInput"@, compact(input)),
            ("sessionUpdate"@, literal("tool_call"@)),
            ("status"@, literal("in_progress"@)),
            ("title"@, literal(name)),
            ("toolCallId"@, literal(id)),
        ],
    )
}

/// An opened call as the client gets it; `kind` is the tool's kind.
pub fn tool_call_body(id: &str, name: &str, kind: &str, input: &Json) -> (r: String)
    ensures
        r@ == tool_call_text(id@, name@, kind@, *input),
{
    let mut v: Vec<(String, String)> = Vec::new();
    v.push(("kind".to_owned(), to_literal(kind)));
    v.push(("rawInput".to_owned(), to_compact(input)));
    v.push(("sessionUpdate".to_owned(), to_literal("tool_call")));
    v.push(("status".to_owned(), to_literal("in_progress")));
    v.push(("title".to_owned(), to_literal(name)));
    v.push(("toolCallId".to_owned(), to_literal(id)));
    assert(member_views(v@) =~= seq![
        ("kind"@, literal(kind@)),
        ("rawInput"@, compact(*input)),
        ("sessionUpdate"@, literal("tool_call"@)),
        ("status"@, literal("in_progress"@)),
        ("title"@, literal(name@)),
        ("toolCallId"@, literal(id@)),
    ]);
    render_object(&v)
}

/// A completed call as the client gets it.
pub open spec fn tool_update_text(id: Seq<char>, success: bool, output: Seq<char>) -> Seq<char> {
    rendered_object(
        seq![
            ("rawOutput"@, literal(output)),
            ("sessionUpdate"@, literal("tool_call_update"@)),
            (
                "status"@,
                literal(
                    if success {
                        "completed"@
                    } else {
                        "failed"@
                    },
                ),
            ),
            ("toolCallId"@, literal(id)),
        ],
    )
}

/// A completed call as the client gets it.
pub fn tool_update_body(id: &str, success: bool, output: &str) -> (r: String)
    ensures
        r@ == tool_update_text(id@, success, output@),
{
    let status = if success {
        "completed"
    } else {
        "failed"
    };
    let mut v: Vec<(String, String)> = Vec::new();
    v.push(("rawOutput".to_owned(), to_literal(output)));
    v.push(("sessionUpdate".to_owned(), to_literal("tool_call_update")));
    v.push(("status".to_owned(), to_literal(status)));
    v.push(("toolCallId".to_owned(), to_literal(id)));
    assert(member_views(v@) =~= seq![
        ("rawOutput"@, literal(output@)),
        ("sessionUpdate"@, literal("tool_call_update"@)),
        ("status"@, literal(status@)),
        ("toolCallId"@, literal(id@)),
    ]);
    render_object(&v)
}

/// Usage as the client gets it.
pub open spec fn usage_text(used: u64, size: u64) -> Seq<char> {
    rendered_object(
        seq![
            ("sessionUpdate"@, literal("usage"@)),
            (
                "usage"@,
                rendered_object(
                    seq![("size"@, decimal(size as nat)), ("used"@, decimal(used as nat))],
                ),
            ),
        ],
    )
}

/// Usage as the client gets it; `size` is the session's context limit.
pub fn usage_body(used: u64, size: u64) -> (r: String)
    ensures
        r@ == usage_text(used, size),
{
    let mut inner: Vec<(String, String)> = Vec::new();
    inner.push(("size".to_owned(), dec_u64(size)));
    inner.push(("used".to_owned(), dec_u64(used)));
    assert(member_views(inner@) =~= seq![
        ("size"@, decimal(size as nat)),
        ("used"@, decimal(used as nat)),
    ]);
    let usage = render_object(&inner);
    let ghost u = usage@;
    let mut v: Vec<(String, String)> = Vec::new();
    v.push(("sessionUpdate".to_owned(), to_literal("usage")));
    v.push(("usage".to_owned(), usage));
    assert(member_views(v@) =~= seq![("sessionUpdate"@, literal("usage"@)), ("usage"@, u)]);
    render_object(&v)
}

// --------------------------------------------------------------- permission
/// A session's mode.
#[derive(Clone, Copy, PartialEq, Eq, Structural)]
pub enum AcpMode {
    /// Every gated tool is asked for.
    Supervised,
    /// Edits pass, everything else is asked for.
    AutoAcceptEdits,
    Auto,
    FullAccess,
    /// Nothing gated passes.
    Plan,
}

/// What a mode makes of a gated tool.
#[derive(Clone, Copy, PartialEq, Eq, Structural)]
pub enum Gate {
    Approve,
    Deny,
    /// Ask the client, and decide with [`permission_answer`].
    Ask,
}

/// Seconds to wait for the client.
pub const PERMISSION_TIMEOUT_SECS: u64 = 300;

pub open spec fn gated(mode: AcpMode, kind: Seq<char>) -> Gate {
    match mode {
        AcpMode::Plan => Gate::Deny,
        AcpMode::Auto | AcpMode::FullAccess => Gate::Approve,
        AcpMode::AutoAcceptEdits => if kind == "edit"@ {
            Gate::Approve
        } else {
            Gate::Ask
        },
        AcpMode::Supervised => Gate::Ask,
    }
}

/// What a mode makes of a gated tool of some kind.
pub fn gate(mode: AcpMode, kind: &str) -> (r: Gate)
    ensures
        r == gated(mode, kind@),
{
    match mode {
        AcpMode::Plan => Gate::Deny,
        AcpMode::Auto | AcpMode::FullAccess => Gate::Approve,
        AcpMode::AutoAcceptEdits => if str_eq(kind, "edit") {
            Gate::Approve
        } else {
            Gate::Ask
        },
        AcpMode::Supervised => Gate::Ask,
    }
}

/// Whether a tool is approved, now and always. `answer` is the client's;
/// `None` where it did not answer, the turn was cancelled or the wait ended.
pub fn permission_answer(answer: Option<(bool, bool)>) -> (r: (bool, bool))
    ensures
        r == match answer {
            Some(a) => a,
            None => (false, false),
        },
{
    match answer {
        Some(a) => a,
        None => (false, false),
    }
}

// -------------------------------------------------------------------- laws
/// A call that started is reported as completed under the id it started with,
/// as long as no other call of the same tool was open before it.
pub proof fn law_completed_under_its_own_id(
    open: Seq<(Seq<char>, Seq<char>)>,
    name: Seq<char>,
    id: Seq<char>,
    fresh: Seq<char>,
)
    requires
        first_open(open, name) is None,
    ensures
        completed_id(open.push((name, id)), name, fresh) == id,
        still_open(open.push((name, id)), name) == open,
{
    let all = open.push((name, id));
    lemma_first_open(open, name);
    lemma_first_open(all, name);
    assert(all[open.len() as int] == (name, id));
    assert forall|k: int| 0 <= k < open.len() implies (#[trigger] all[k]).0 != name by {
        assert(all[k] == open[k]);
    }
    assert(first_open(all, name) == Some(open.len() as int));
    assert(all.remove(open.len() as int) =~= open);
}

/// Calls of one tool complete in the order in which they started: a further
/// start does not change which call the next completion goes to.
pub proof fn law_same_tool_completes_in_order(
    open: Seq<(Seq<char>, Seq<char>)>,
    name: Seq<char>,
    later: Seq<char>,
    fresh: Seq<char>,
)
    requires
        first_open(open, name) is Some,
    ensures
        completed_id(open.push((name, later)), name, fresh) == completed_id(open, name, fresh),
{
    let all = open.push((name, later));
    lemma_first_open(open, name);
    lemma_first_open(all, name);
    let i = first_open(open, name)->0;
    assert(all[i] == open[i]);
    assert forall|k: int| 0 <= k < i implies (#[trigger] all[k]).0 != name by {
        assert(all[k] == open[k]);
    }
    match first_open(all, name) {
        Some(j) => {
            if j < i {
                assert(all[j].0 != name);
            }
            if i < j {
                assert(all[i].0 != name);
            }
        },
        None => {
            assert(all[i].0 != name);
        },
    }
}

/// Text that was streamed is not sent again as the round's text, whatever
/// white space the two end in.
pub proof fn law_streamed_text_is_not_repeated(streamed: Seq<char>)
    requires
        !is_blank(streamed),
    ensures
        repeats(streamed, streamed),
        repeats(streamed, trimmed(streamed)),
{
    crate::text::lemma_trimmed_idempotent(streamed);
}

/// In plan mode no gated tool is approved, whatever its kind.
pub proof fn law_plan_denies(kind: Seq<char>)
    ensures
        gated(AcpMode::Plan, kind) == Gate::Deny,
{
}

/// White space around a round's text does not matter; any other difference
/// does.
pub proof fn law_other_text_is_sent(a: Seq<char>, s: Seq<char>, b: Seq<char>, aggregate: Seq<char>)
    requires
        forall|i: int| 0 <= i < a.len() ==> is_space(a[i]),
        forall|i: int| 0 <= i < b.len() ==> is_space(b[i]),
        s.len() > 0,
        !is_space(s[0]) && !is_space(s.last()),
    ensures
        repeats(s, a + s + b),
        repeats(a + s + b, s),
        trimmed(aggregate) != s ==> !repeats(s, aggregate) && !repeats(a + s + b, aggregate),
        is_blank(aggregate) ==> !repeats(aggregate, aggregate),
{
    let none = Seq::<char>::empty();
    law_trimming_leaves_the_text(a, s, b);
    law_trimming_leaves_the_text(none, s, none);
    assert(none + s + none =~= s);
}

/// A completion goes to the tool's first open call: it is reported under that
/// call's id, and that call alone is closed. Without an open call it gets an id
/// of its own, and nothing is closed.
pub proof fn law_first_open_call_completes(
    a: Seq<(Seq<char>, Seq<char>)>,
    name: Seq<char>,
    id: Seq<char>,
    b: Seq<(Seq<char>, Seq<char>)>,
    fresh: Seq<char>,
)
    requires
        forall|i: int| 0 <= i < a.len() ==> (#[trigger] a[i]).0 != name,
    ensures
        completed_id(a.push((name, id)) + b, name, fresh) == id,
        still_open(a.push((name, id)) + b, name) == a + b,
        completed_id(a, name, fresh) == fresh,
        still_open(a, name) == a,
{
    let all = a.push((name, id)) + b;
    lemma_first_open(all, name);
    lemma_first_open(a, name);
    assert(all[a.len() as int] == (name, id));
    assert forall|i: int| 0 <= i < a.len() implies (#[trigger] all[i]).0 != name by {
        assert(all[i] == a[i]);
    }
    assert(first_open(all, name) == Some(a.len() as int));
    assert(all.remove(a.len() as int) =~= a + b);
}

/// What the client is told of a call: its id, its name, its kind and its input;
/// and of its end: its id, its output and whether it succeeded.
pub proof fn law_calls_are_told_in_full(
    id: Seq<char>,
    name: Seq<char>,
    kind: Seq<char>,
    input: Json,
    output: Seq<char>,
)
    ensures
        ({
            let t = tool_call_text(id, name, kind, input);
            &&& tells(t, literal("toolCallId"@) + ":"@ + literal(id))
            &&& tells(t, literal("title"@) + ":"@ + literal(name))
            &&& tells(t, literal("kind"@) + ":"@ + literal(kind))
            &&& tells(t, literal("rawInput"@) + ":"@ + compact(input))
            &&& tells(t, literal("status"@) + ":"@ + literal("in_progress"@))
            &&& tells(t, literal("sessionUpdate"@) + ":"@ + literal("tool_call"@))
        }),
        forall|success: bool|
            ({
                let t = #[trigger] tool_update_text(id, success, output);
                &&& tells(t, literal("toolCallId"@) + ":"@ + literal(id))
                &&& tells(t, literal("rawOutput"@) + ":"@ + literal(output))
                &&& tells(t, literal("sessionUpdate"@) + ":"@ + literal("tool_call_update"@))
                &&& success ==> tells(t, literal("status"@) + ":"@ + literal("completed"@))
                &&& !success ==> tells(t, literal("status"@) + ":"@ + literal("failed"@))
            }),
{
    let ms = seq![
        ("kind"@, literal(kind)),
        ("rawInput"@, compact(input)),
        ("sessionUpdate"@, literal("tool_call"@)),
        ("status"@, literal("in_progress"@)),
        ("title"@, literal(name)),
        ("toolCallId"@, literal(id)),
    ];
    law_object_shows_each_member(ms, 0);
    law_object_shows_each_member(ms, 1);
    law_object_shows_each_member(ms, 2);
    law_object_shows_each_member(ms, 3);
    law_object_shows_each_member(ms, 4);
    law_object_shows_each_member(ms, 5);
    assert forall|success: bool|
        ({
            let t = #[trigger] tool_update_text(id, success, output);
            &&& tells(t, literal("toolCallId"@) + ":"@ + literal(id))
            &&& tells(t, literal("rawOutput"@) + ":"@ + literal(output))
            &&& tells(t, literal("sessionUpdate"@) + ":"@ + literal("tool_call_update"@))
            &&& success ==> tells(t, literal("status"@) + ":"@ + literal("completed"@))
            &&& !success ==> tells(t, literal("status"@) + ":"@ + literal("failed"@))
        }) by {
        let us = seq![
            ("rawOutput"@, literal(output)),
            ("sessionUpdate"@, literal("tool_call_update"@)),
            (
                "status"@,
                literal(
                    if success {
                        "completed"@
                    } else {
                        "failed"@
                    },
                ),
            ),
            ("toolCallId"@, literal(id)),
        ];
        law_object_shows_each_member(us, 0);
        law_object_shows_each_member(us, 1);
        law_object_shows_each_member(us, 2);
        law_object_shows_each_member(us, 3);
    }
}

/// Usage tells what is used and what the limit is, each under its name.
pub proof fn law_usage_tells_both_counts(used: u64, size: u64)
    ensures
        tells(usage_text(used, size), literal("used"@) + ":"@ + decimal(used as nat)),
        tells(usage_text(used, size), literal("size"@) + ":"@ + decimal(size as nat)),
        tells(usage_text(used, size), literal("sessionUpdate"@) + ":"@ + literal("usage"@)),
{
    let inner = seq![("size"@, decimal(size as nat)), ("used"@, decimal(used as nat))];
    let u = rendered_object(inner);
    let ms = seq![("sessionUpdate"@, literal("usage"@)), ("usage"@, u)];
    law_object_shows_each_member(ms, 0);
    law_object_shows_each_member(ms, 1);
    law_object_shows_each_member(inner, 0);
    law_object_shows_each_member(inner, 1);
    let t = usage_text(used, size);
    let head = literal("usage"@) + ":"@;
    let none = Seq::<char>::empty();
    assert(head + u =~= head + u + none);
    let i = choose|i: int| #[trigger] crate::search::matches_at(t, head + u, i);
    let before = t.take(i);
    let after = t.skip(i + (head + u).len());
    assert(t =~= before + (head + u) + after);
    let x = literal("used"@) + ":"@ + decimal(used as nat);
    let y = literal("size"@) + ":"@ + decimal(size as nat);
    lemma_tells_more(head + u, head, u, none, x);
    lemma_tells_more(head + u, head, u, none, y);
    lemma_tells_more(t, before, head + u, after, x);
    lemma_tells_more(t, before, head + u, after, y);
}

/// What the modes make of a tool: the free ones approve every kind, a
/// supervised one asks for every kind, and one that accepts edits asks for every
/// kind but those.
pub proof fn law_modes_gate_tools(kind: Seq<char>)
    ensures
        gated(AcpMode::Auto, kind) == Gate::Approve,
        gated(AcpMode::FullAccess, kind) == Gate::Approve,
        gated(AcpMode::Supervised, kind) == Gate::Ask,
        gated(AcpMode::AutoAcceptEdits, kind) == Gate::Approve <==> kind == "edit"@,
        gated(AcpMode::AutoAcceptEdits, kind) == Gate::Ask <==> kind != "edit"@,
        PERMISSION_TIMEOUT_SECS == 5 * 60,
{
}

/// The reasons that the client is given tell a limit and a stop sequence from
/// an ordinary end.
pub proof fn law_stop_reasons_are_told_apart()
    ensures
        stop_text(Some(StopReason::MaxTokens)) == "max_tokens"@,
        stop_text(Some(StopReason::StopSequence)) == "stop_sequence"@,
        stop_text(Some(StopReason::EndTurn)) == "end_turn"@,
        stop_text(Some(StopReason::ToolUse)) == "end_turn"@,
        stop_text(None) == "end_turn"@,
{
}

} // verus!
