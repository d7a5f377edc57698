//! Method dispatch and the sessions of a client. A session runs one turn at a
//! time.
use vstd::prelude::*;

use crate::json::{literal, member, member_views, render_object, rendered_object, text, to_literal, Json};
use crate::text::{cat2, oview, str_eq};

verus! {

/// One session.
pub struct SessionState {
    /// The client's id of the session.
    pub acp_id: String,
    pub id: u128,
    /// Model override.
    pub model: Option<String>,
    /// The turn in flight, by its number.
    pub turn: Option<u64>,
}

/// A session, as values.
pub struct SessionV {
    pub acp_id: Seq<char>,
    pub id: u128,
    pub model: Option<Seq<char>>,
    pub turn: Option<u64>,
}

impl View for SessionState {
    type V = SessionV;

    open spec fn view(&self) -> SessionV {
        SessionV {
            acp_id: self.acp_id@,
            id: self.id,
            model: oview(self.model),
            turn: self.turn,
        }
    }
}

/// What the server knows: its sessions, the number of the next turn, and the
/// texts that steer the sessions, oldest first.
pub struct ServerState {
    pub sessions: Vec<SessionState>,
    pub next_turn: u64,
    pub steer: Vec<(u128, String)>,
    pub default_model: Option<String>,
}

pub open spec fn sessions_of(v: Seq<SessionState>) -> Seq<SessionV> {
    v.map_values(|s: SessionState| s@)
}

pub open spec fn steers(v: Seq<(u128, String)>) -> Seq<(u128, Seq<char>)> {
    v.map_values(|s: (u128, String)| (s.0, s.1@))
}

/// Whether every turn in flight has a number that was handed out.
pub open spec fn turns_below(v: Seq<SessionV>, next: u64) -> bool {
    forall|i: int| 0 <= i < v.len() && (#[trigger] v[i]).turn is Some ==> v[i].turn->0 < next
}

/// A session once a turn is over: free where that turn was its own.
pub open spec fn freed(s: SessionV, turn: u64) -> SessionV {
    if s.turn == Some(turn) {
        SessionV { turn: None, ..s }
    } else {
        s
    }
}

/// The sessions once a turn is over.
pub open spec fn released(v: Seq<SessionV>, turn: u64) -> Seq<SessionV> {
    v.map_values(|s: SessionV| freed(s, turn))
}

/// The index of a session.
pub open spec fn session_at(v: Seq<SessionV>, acp_id: Seq<char>) -> Option<int>
    decreases v.len(),
{
    if v.len() == 0 {
        None
    } else if v.last().acp_id == acp_id {
        Some(v.len() - 1)
    } else {
        session_at(v.drop_last(), acp_id)
    }
}

proof fn lemma_session_at(v: Seq<SessionV>, acp_id: Seq<char>)
    ensures
        match session_at(v, acp_id) {
            Some(i) => 0 <= i < v.len() && v[i].acp_id == acp_id,
            None => forall|i: int| 0 <= i < v.len() ==> (#[trigger] v[i]).acp_id != acp_id,
        },
    decreases v.len(),
{
    if v.len() > 0 {
        let t = v.drop_last();
        lemma_session_at(t, acp_id);
        assert forall|i: int| 0 <= i < t.len() implies #[trigger] t[i] == v[i] by {}
        if session_at(v, acp_id) is None {
            assert forall|i: int| 0 <= i < v.len() implies (#[trigger] v[i]).acp_id
                != acp_id by {
                if i < t.len() {
                    assert(t[i].acp_id != acp_id);
                }
            }
        }
    }
}

/// The session that parameters name.
pub open spec fn named(v: Seq<SessionV>, params: Json) -> Option<int> {
    match text(member(params, "sessionId"@)) {
        Some(id) => session_at(v, id),
        None => None,
    }
}

/// The class of an error.
#[derive(Clone, Copy, PartialEq, Eq, Structural)]
pub enum ErrorCode {
    InvalidRequest,
    InvalidParams,
    MethodNotFound,
}

/// What to do with a request.
pub enum RequestStep {
    /// Answer with the server's capabilities.
    Initialize,
    /// Create a session, or resume this one, and go on with
    /// [`ServerState::session_ready`].
    Open { resume: Option<String> },
    /// Answer with an empty object.
    Accepted,
    /// Run a turn of this session; it answers the request, and it ends with
    /// [`ServerState::turn_over`] under its number.
    RunTurn { turn: u64, session: u128, acp_id: String, text: String, model: Option<String> },
    Refused { code: ErrorCode, message: String },
}

/// A request's step, as values.
pub enum RequestStepV {
    Initialize,
    Open(Option<Seq<char>>),
    Accepted,
    RunTurn {
        turn: u64,
        session: u128,
        acp_id: Seq<char>,
        text: Seq<char>,
        model: Option<Seq<char>>,
    },
    Refused(ErrorCode, Seq<char>),
}

impl View for RequestStep {
    type V = RequestStepV;

    open spec fn view(&self) -> RequestStepV {
        match self {
            RequestStep::Initialize => RequestStepV::Initialize,
            RequestStep::Open { resume } => RequestStepV::Open(oview(*resume)),
            RequestStep::Accepted => RequestStepV::Accepted,
            RequestStep::RunTurn { turn, session, acp_id, text, model } => RequestStepV::RunTurn {
                turn: *turn,
                session: *session,
                acp_id: acp_id@,
                text: text@,
                model: oview(*model),
            },
            RequestStep::Refused { code, message } => RequestStepV::Refused(*code, message@),
        }
    }
}

/// The model that parameters name; a mode is accepted in its place.
pub open spec fn model_param(params: Json) -> Option<Seq<char>> {
    match member(params, "modelId"@) {
        Some(v) => text(Some(v)),
        None => text(member(params, "modeId"@)),
    }
}

/// What becomes of setting a model.
pub open spec fn set_model_step(v: Seq<SessionV>, params: Json) -> RequestStepV {
    if named(v, params) is None {
        RequestStepV::Refused(ErrorCode::InvalidParams, "session/set_model: unknown session"@)
    } else if model_param(params) is None {
        RequestStepV::Refused(
            ErrorCode::InvalidParams,
            "session/set_model requires modelId (modeId accepted)"@,
        )
    } else {
        RequestStepV::Accepted
    }
}

/// What becomes of a prompt; `prompt` is the text that the parameters carry,
/// `next` the number of the next turn.
pub open spec fn prompt_step(
    v: Seq<SessionV>,
    next: u64,
    params: Json,
    prompt: Option<Seq<char>>,
) -> RequestStepV {
    match named(v, params) {
        None => RequestStepV::Refused(
            ErrorCode::InvalidParams,
            "session/prompt: unknown session — call session/new first"@,
        ),
        Some(i) => match prompt {
            None => RequestStepV::Refused(
                ErrorCode::InvalidParams,
                "session/prompt: empty prompt"@,
            ),
            Some(t) => if v[i].turn is Some {
                RequestStepV::Refused(
                    ErrorCode::InvalidRequest,
                    "turn already in progress for this session"@,
                )
            } else {
                RequestStepV::RunTurn {
                    turn: next,
                    session: v[i].id,
                    acp_id: v[i].acp_id,
                    text: t,
                    model: v[i].model,
                }
            },
        },
    }
}

/// What becomes of a request.
pub open spec fn request_step(
    v: Seq<SessionV>,
    next: u64,
    method: Seq<char>,
    params: Json,
    prompt: Option<Seq<char>>,
) -> RequestStepV {
    if method == "initialize"@ {
        RequestStepV::Initialize
    } else if method == "session/new"@ {
        RequestStepV::Open(None)
    } else if method == "session/load"@ {
        match text(member(params, "sessionId"@)) {
            Some(id) => RequestStepV::Open(Some(id)),
            None => RequestStepV::Refused(
                ErrorCode::InvalidParams,
                "session/load requires sessionId"@,
            ),
        }
    } else if method == "session/set_model"@ || method == "session/set_mode"@ {
        set_model_step(v, params)
    } else if method == "session/prompt"@ {
        prompt_step(v, next, params, prompt)
    } else {
        RequestStepV::Refused(ErrorCode::MethodNotFound, "method not found: "@ + method)
    }
}

/// The sessions after a request.
pub open spec fn sessions_after(
    v: Seq<SessionV>,
    next: u64,
    method: Seq<char>,
    params: Json,
    prompt: Option<Seq<char>>,
) -> Seq<SessionV> {
    match request_step(v, next, method, params, prompt) {
        RequestStepV::Accepted => {
            let i = named(v, params)->0;
            v.update(i, SessionV { model: model_param(params), ..v[i] })
        },
        RequestStepV::RunTurn { turn, session, acp_id, text, model } => {
            let i = named(v, params)->0;
            v.update(i, SessionV { turn: Some(turn), ..v[i] })
        },
        _ => v,
    }
}

/// What to do with a notification.
pub enum NoticeStep {
    /// Cancel this turn.
    Cancel { turn: u64 },
    Nothing,
}

fn text_param<'a>(params: &'a Json, key: &str) -> (r: Option<&'a str>)
    ensures
        match r {
            Some(t) => text(member(*params, key@)) == Some(t@),
            None => text(member(*params, key@)) is None,
        },
{
    match params.get(key) {
        Some(v) => v.as_str(),
        None => None,
    }
}

fn model_of(params: &Json) -> (r: Option<String>)
    ensures
        oview(r) == model_param(*params),
{
    let v = match params.get("modelId") {
        Some(v) => v.as_str(),
        None => text_param(params, "modeId"),
    };
    match v {
        Some(t) => Some(t.to_owned()),
        None => None,
    }
}

fn refuse(code: ErrorCode, message: &str) -> (r: RequestStep)
    ensures
        r@ == RequestStepV::Refused(code, message@),
{
    RequestStep::Refused { code, message: message.to_owned() }
}

impl ServerState {
    /// No turn in flight has a number that is yet to be handed out.
    pub open spec fn wf(&self) -> bool {
        turns_below(sessions_of(self.sessions@), self.next_turn)
    }

    pub fn new(default_model: Option<String>) -> (r: Self)
        ensures
            r.wf(),
            r.sessions@.len() == 0,
            r.next_turn == 0,
            r.steer@.len() == 0,
            r.default_model == default_model,
    {
        ServerState { sessions: Vec::new(), next_turn: 0, steer: Vec::new(), default_model }
    }

    fn index_of(&self, acp_id: &str) -> (r: Option<usize>)
        ensures
            match r {
                Some(i) => session_at(sessions_of(self.sessions@), acp_id@) == Some(i as int) && i
                    < self.sessions@.len(),
                None => session_at(sessions_of(self.sessions@), acp_id@) is None,
            },
    {
        let ghost all = sessions_of(self.sessions@);
        let mut i: usize = self.sessions.len();
        assert(all.take(i as int) =~= all);
        while i > 0
            invariant
                i <= self.sessions.len(),
                all == sessions_of(self.sessions@),
                session_at(all, acp_id@) == session_at(all.take(i as int), acp_id@),
            decreases i,
        {
            assert(all.take(i as int).drop_last() =~= all.take(i - 1));
            assert(all.take(i as int).last() == self.sessions@[i - 1]@);
            if str_eq(self.sessions[i - 1].acp_id.as_str(), acp_id) {
                return Some(i - 1);
            }
            i = i - 1;
        }
        None
    }

    fn lookup(&self, params: &Json) -> (r: Option<usize>)
        ensures
            match r {
                Some(i) => named(sessions_of(self.sessions@), *params) == Some(i as int) && i
                    < self.sessions@.len(),
                None => named(sessions_of(self.sessions@), *params) is None,
            },
    {
        match text_param(params, "sessionId") {
            Some(id) => self.index_of(id),
            None => None,
        }
    }

    fn replace(&mut self, i: usize, s: SessionState)
        requires
            i < old(self).sessions@.len(),
        ensures
            sessions_of(final(self).sessions@) == sessions_of(old(self).sessions@).update(
                i as int,
                s@,
            ),
            final(self).next_turn == old(self).next_turn,
            final(self).steer == old(self).steer,
            final(self).default_model == old(self).default_model,
    {
        let ghost pre = sessions_of(self.sessions@);
        let ghost v = s@;
        self.sessions.set(i, s);
        assert(sessions_of(self.sessions@) =~= pre.update(i as int, v));
    }

    fn copy_model(m: &Option<String>) -> (r: Option<String>)
        ensures
            oview(r) == oview(*m),
    {
        match m {
            Some(t) => Some(t.clone()),
            None => None,
        }
    }

    /// Takes a request in; `prompt` is the text that a prompt's parameters
    /// carry, `None` where it is empty. A prompt claims its session at once,
    /// so that no other can start a turn beside it, and its turn gets a number
    /// of its own.
    pub fn dispatch_request(
        &mut self,
        method: &str,
        params: &Json,
        prompt: Option<String>,
    ) -> (r: RequestStep)
        requires
            old(self).next_turn < u64::MAX,
        ensures
            old(self).wf() ==> final(self).wf(),
            r@ == request_step(
                sessions_of(old(self).sessions@),
                old(self).next_turn,
                method@,
                *params,
                oview(prompt),
            ),
            sessions_of(final(self).sessions@) == sessions_after(
                sessions_of(old(self).sessions@),
                old(self).next_turn,
                method@,
                *params,
                oview(prompt),
            ),
            final(self).next_turn == if r is RunTurn {
                old(self).next_turn + 1
            } else {
                old(self).next_turn as int
            },
            final(self).steer@ == old(self).steer@,
            final(self).default_model == old(self).default_model,
    {
        if str_eq(method, "initialize") {
            return RequestStep::Initialize;
        }
        if str_eq(method, "session/new") {
            return RequestStep::Open { resume: None };
        }
        if str_eq(method, "session/load") {
            return match text_param(params, "sessionId") {
                Some(id) => RequestStep::Open { resume: Some(id.to_owned()) },
                None => refuse(ErrorCode::InvalidParams, "session/load requires sessionId"),
            };
        }
        if str_eq(method, "session/set_model") || str_eq(method, "session/set_mode") {
            let model = model_of(params);
            return match self.lookup(params) {
                None => refuse(ErrorCode::InvalidParams, "session/set_model: unknown session"),
                Some(i) => match model {
                    None => refuse(
                        ErrorCode::InvalidParams,
                        "session/set_model requires modelId (modeId accepted)",
                    ),
                    Some(m) => {
                        let ghost cur = sessions_of(self.sessions@)[i as int];
                        assert(cur == self.sessions@[i as int]@);
                        let s = SessionState {
                            acp_id: self.sessions[i].acp_id.clone(),
                            id: self.sessions[i].id,
                            model: Some(m),
                            turn: self.sessions[i].turn,
                        };
                        self.replace(i, s);
                        RequestStep::Accepted
                    },
                },
            };
        }
        if str_eq(method, "session/prompt") {
            let i = match self.lookup(params) {
                Some(i) => i,
                None => return refuse(
                    ErrorCode::InvalidParams,
                    "session/prompt: unknown session — call session/new first",
                ),
            };
            let t = match prompt {
                Some(t) => t,
                None => return refuse(ErrorCode::InvalidParams, "session/prompt: empty prompt"),
            };
            let ghost cur = sessions_of(self.sessions@)[i as int];
            assert(cur == self.sessions@[i as int]@);
            if self.sessions[i].turn.is_some() {
                return refuse(
                    ErrorCode::InvalidRequest,
                    "turn already in progress for this session",
                );
            }
            let turn: u64 = self.next_turn;
            let acp_id = self.sessions[i].acp_id.clone();
            let session = self.sessions[i].id;
            let model = Self::copy_model(&self.sessions[i].model);
            let s = SessionState {
                acp_id: acp_id.clone(),
                id: session,
                model: Self::copy_model(&self.sessions[i].model),
                turn: Some(turn),
            };
            self.replace(i, s);
            self.next_turn = turn + 1;
            return RequestStep::RunTurn { turn, session, acp_id, text: t, model };
        }
        RequestStep::Refused {
            code: ErrorCode::MethodNotFound,
            message: cat2("method not found: ", method),
        }
    }

    /// Takes in a session that was created or resumed, with the default model
    /// and no turn; the result is the answer. One known under the same id is
    /// replaced.
    pub fn session_ready(&mut self, acp_id: String, id: u128) -> (r: String)
        ensures
            old(self).wf() ==> final(self).wf(),
            r@ == rendered_object(seq![("sessionId"@, literal(acp_id@))]),
            final(self).next_turn == old(self).next_turn,
            final(self).steer == old(self).steer,
            final(self).default_model == old(self).default_model,
            ({
                let v = sessions_of(old(self).sessions@);
                let s = SessionV {
                    acp_id: acp_id@,
                    id,
                    model: oview(old(self).default_model),
                    turn: None,
                };
                sessions_of(final(self).sessions@) == match session_at(v, acp_id@) {
                    Some(i) => v.update(i, s),
                    None => v.push(s),
                }
            }),
    {
        let mut v: Vec<(String, String)> = Vec::new();
        v.push(("sessionId".to_owned(), to_literal(acp_id.as_str())));
        assert(member_views(v@) =~= seq![("sessionId"@, literal(acp_id@))]);
        let answer = render_object(&v);
        let at = self.index_of(acp_id.as_str());
        let s = SessionState {
            acp_id,
            id,
            model: Self::copy_model(&self.default_model),
            turn: None,
        };
        match at {
            Some(i) => self.replace(i, s),
            None => {
                let ghost pre = sessions_of(self.sessions@);
                let ghost x = s@;
                self.sessions.push(s);
                assert(sessions_of(self.sessions@) =~= pre.push(x));
            },
        }
        answer
    }

    /// The answer where a session could not be opened.
    pub fn session_failed(error: &str) -> (r: RequestStep)
        ensures
            r@ == RequestStepV::Refused(ErrorCode::InvalidParams, "session: "@ + error@),
    {
        RequestStep::Refused { code: ErrorCode::InvalidParams, message: cat2("session: ", error) }
    }

    /// Ends a turn: the session that it runs in takes prompts again. One that
    /// took the session's place meanwhile is left alone.
    pub fn turn_over(&mut self, turn: u64)
        ensures
            old(self).wf() ==> final(self).wf(),
            final(self).next_turn == old(self).next_turn,
            final(self).steer == old(self).steer,
            final(self).default_model == old(self).default_model,
            sessions_of(final(self).sessions@) == released(
                sessions_of(old(self).sessions@),
                turn,
            ),
    {
        let ghost v = sessions_of(self.sessions@);
        let mut i: usize = 0;
        while i < self.sessions.len()
            invariant
                i <= self.sessions@.len(),
                v.len() == self.sessions@.len(),
                v == sessions_of(old(self).sessions@),
                self.next_turn == old(self).next_turn,
                self.steer == old(self).steer,
                self.default_model == old(self).default_model,
                forall|k: int|
                    0 <= k < i ==> #[trigger] sessions_of(self.sessions@)[k] == freed(v[k], turn),
                forall|k: int|
                    i <= k < v.len() ==> #[trigger] sessions_of(self.sessions@)[k] == v[k],
            decreases self.sessions.len() - i,
        {
            let ghost cur = sessions_of(self.sessions@)[i as int];
            assert(cur == self.sessions@[i as int]@);
            let own = match self.sessions[i].turn {
                Some(n) => n == turn,
                None => false,
            };
            if own {
                let s = SessionState {
                    acp_id: self.sessions[i].acp_id.clone(),
                    id: self.sessions[i].id,
                    model: Self::copy_model(&self.sessions[i].model),
                    turn: None,
                };
                self.replace(i, s);
                assert(sessions_of(self.sessions@).len() == v.len());
            }
            i = i + 1;
        }
        assert(sessions_of(self.sessions@) =~= released(v, turn));
    }

    /// Takes a notification in: a cancellation ends the turn in flight, and a
    /// steering text is queued for its session. Nothing is answered.
    pub fn dispatch_notification(
        &mut self,
        method: &str,
        params: &Json,
        prompt: Option<String>,
    ) -> (r: NoticeStep)
        ensures
            final(self).sessions == old(self).sessions,
            final(self).next_turn == old(self).next_turn,
            final(self).default_model == old(self).default_model,
            ({
                let v = sessions_of(old(self).sessions@);
                let at = named(v, *params);
                let steer = steers(old(self).steer@);
                if method@ == "session/cancel"@ {
                    &&& steers(final(self).steer@) == steer
                    &&& if at is Some && v[at->0].turn is Some {
                        r is Cancel && r->turn == v[at->0].turn->0
                    } else {
                        r is Nothing
                    }
                } else if method@ == "session/steer"@ {
                    &&& r is Nothing
                    &&& steers(final(self).steer@) == if at is Some && prompt is Some {
                        steer.push((v[at->0].id, prompt->0@))
                    } else {
                        steer
                    }
                } else {
                    r is Nothing && steers(final(self).steer@) == steer
                }
            }),
    {
        if str_eq(method, "session/cancel") {
            if let Some(i) = self.lookup(params) {
                assert(sessions_of(self.sessions@)[i as int] == self.sessions@[i as int]@);
                if let Some(turn) = self.sessions[i].turn {
                    return NoticeStep::Cancel { turn };
                }
            }
            return NoticeStep::Nothing;
        }
        if str_eq(method, "session/steer") {
            if let Some(i) = self.lookup(params) {
                assert(sessions_of(self.sessions@)[i as int] == self.sessions@[i as int]@);
                if let Some(t) = prompt {
                    let ghost pre = steers(self.steer@);
                    let ghost x = (self.sessions@[i as int].id, t@);
                    self.steer.push((self.sessions[i].id, t));
                    assert(steers(self.steer@) =~= pre.push(x));
                }
            }
        }
        NoticeStep::Nothing
    }
}

// -------------------------------------------------------------------- laws
/// A prompt's method is none of the others.
proof fn lemma_prompt(v: Seq<SessionV>, next: u64, params: Json, prompt: Option<Seq<char>>)
    ensures
        request_step(v, next, "session/prompt"@, params, prompt) == prompt_step(
            v,
            next,
            params,
            prompt,
        ),
{
    reveal_strlit("session/prompt");
    reveal_strlit("initialize");
    reveal_strlit("session/new");
    reveal_strlit("session/load");
    reveal_strlit("session/set_model");
    reveal_strlit("session/set_mode");
    assert("session/prompt"@[8] == 'p');
    assert("session/load"@[8] == 'l');
}

/// One turn at a time: a prompt that starts a turn claims its session, and
/// while that turn runs a further prompt to it starts none and changes nothing.
pub proof fn law_one_turn_at_a_time(
    v: Seq<SessionV>,
    next: u64,
    params: Json,
    prompt: Option<Seq<char>>,
    later: u64,
    again: Option<Seq<char>>,
)
    requires
        request_step(v, next, "session/prompt"@, params, prompt) is RunTurn,
    ensures
        ({
            let after = sessions_after(v, next, "session/prompt"@, params, prompt);
            !(request_step(after, later, "session/prompt"@, params, again) is RunTurn)
                && sessions_after(after, later, "session/prompt"@, params, again) == after
        }),
{
    lemma_prompt(v, next, params, prompt);
    let id = text(member(params, "sessionId"@))->0;
    let i = named(v, params)->0;
    lemma_session_at(v, id);
    let after = v.update(i, SessionV { turn: Some(next), ..v[i] });
    lemma_same_ids(v, after, id);
    lemma_prompt(after, later, params, again);
}

/// Once a session's turn is over it takes prompts again.
pub proof fn law_released_session_takes_prompts(
    v: Seq<SessionV>,
    params: Json,
    next: u64,
    prompt: Seq<char>,
)
    requires
        named(v, params) is Some,
        v[named(v, params)->0].turn is Some,
    ensures
        ({
            let after = released(v, v[named(v, params)->0].turn->0);
            prompt_step(after, next, params, Some(prompt)) is RunTurn
        }),
{
    let id = text(member(params, "sessionId"@))->0;
    lemma_session_at(v, id);
    let i = named(v, params)->0;
    let after = released(v, v[i].turn->0);
    lemma_same_ids(v, after, id);
}

/// A turn frees no session but its own: where a turn was started under a
/// number of its own, the end of any turn numbered before leaves the session
/// claimed, also where both turns ran under the same id.
pub proof fn law_an_earlier_turn_frees_nothing(
    v: Seq<SessionV>,
    next: u64,
    params: Json,
    prompt: Option<Seq<char>>,
    earlier: u64,
    later: u64,
    again: Option<Seq<char>>,
)
    requires
        turns_below(v, next),
        request_step(v, next, "session/prompt"@, params, prompt) is RunTurn,
        earlier < next,
    ensures
        ({
            let after = released(
                sessions_after(v, next, "session/prompt"@, params, prompt),
                earlier,
            );
            &&& forall|i: int| 0 <= i < v.len() ==> (#[trigger] v[i]).turn != Some(next)
            &&& !(request_step(after, later, "session/prompt"@, params, again) is RunTurn)
        }),
{
    lemma_prompt(v, next, params, prompt);
    let id = text(member(params, "sessionId"@))->0;
    let i = named(v, params)->0;
    lemma_session_at(v, id);
    let claimed = v.update(i, SessionV { turn: Some(next), ..v[i] });
    let after = released(claimed, earlier);
    lemma_same_ids(v, claimed, id);
    lemma_same_ids(claimed, after, id);
    lemma_prompt(after, later, params, again);
    assert(after[i].turn == Some(next));
}

proof fn lemma_same_ids(a: Seq<SessionV>, b: Seq<SessionV>, id: Seq<char>)
    requires
        a.len() == b.len(),
        forall|k: int| 0 <= k < a.len() ==> (#[trigger] a[k]).acp_id == b[k].acp_id,
    ensures
        session_at(a, id) == session_at(b, id),
    decreases a.len(),
{
    if a.len() > 0 {
        assert(a[a.len() - 1].acp_id == b[b.len() - 1].acp_id);
        let x = a.drop_last();
        let y = b.drop_last();
        assert forall|k: int| 0 <= k < x.len() implies (#[trigger] x[k]).acp_id == y[k].acp_id by {
            assert(a[k].acp_id == b[k].acp_id);
        }
        lemma_same_ids(x, y, id);
    }
}

/// A request does what its method says; an unknown method is refused by name.
pub proof fn law_methods_do_what_they_say(
    v: Seq<SessionV>,
    next: u64,
    method: Seq<char>,
    params: Json,
    prompt: Option<Seq<char>>,
)
    ensures
        method == "initialize"@ <==> request_step(v, next, method, params, prompt) is Initialize,
        method == "session/new"@ ==> request_step(v, next, method, params, prompt)
            == RequestStepV::Open(None),
        method == "session/load"@ && text(member(params, "sessionId"@)) is Some ==> request_step(
            v,
            next,
            method,
            params,
            prompt,
        ) == RequestStepV::Open(text(member(params, "sessionId"@))),
        method == "session/load"@ && text(member(params, "sessionId"@)) is None ==> request_step(
            v,
            next,
            method,
            params,
            prompt,
        ) == RequestStepV::Refused(ErrorCode::InvalidParams, "session/load requires sessionId"@),
        request_step(v, next, method, params, prompt) is RunTurn ==> method == "session/prompt"@,
        request_step(v, next, method, params, prompt) is Accepted ==> method
            == "session/set_model"@ || method == "session/set_mode"@,
        (method == "session/set_model"@ || method == "session/set_mode"@) && named(v, params)
            is Some && model_param(params) is Some ==> request_step(
            v,
            next,
            method,
            params,
            prompt,
        ) is Accepted,
        (method == "session/set_model"@ || method == "session/set_mode"@) && (named(v, params)
            is None || model_param(params) is None) ==> request_step(
            v,
            next,
            method,
            params,
            prompt,
        ) is Refused && request_step(v, next, method, params, prompt)->Refused_0
            == ErrorCode::InvalidParams,
        method != "initialize"@ && method != "session/new"@ && method != "session/load"@ && method
            != "session/set_model"@ && method != "session/set_mode"@ && method
            != "session/prompt"@ ==> request_step(v, next, method, params, prompt)
            == RequestStepV::Refused(ErrorCode::MethodNotFound, "method not found: "@ + method),
{
    reveal_strlit("initialize");
    reveal_strlit("session/new");
    reveal_strlit("session/load");
    reveal_strlit("session/set_model");
    reveal_strlit("session/set_mode");
    reveal_strlit("session/prompt");
    assert("initialize"@.len() == 10 && "session/new"@.len() == 11 && "session/load"@.len() == 12
        && "session/set_model"@.len() == 17 && "session/set_mode"@.len() == 16
        && "session/prompt"@.len() == 14);
}

/// A session is found under its id, and under no other; sessions that come
/// later under other ids do not hide it.
pub proof fn law_session_is_found(v: Seq<SessionV>, s: SessionV, w: Seq<SessionV>, id: Seq<char>)
    requires
        forall|i: int| 0 <= i < w.len() ==> (#[trigger] w[i]).acp_id != s.acp_id,
    ensures
        session_at(v.push(s) + w, s.acp_id) == Some(v.len() as int),
        (forall|i: int| 0 <= i < v.len() ==> (#[trigger] v[i]).acp_id != id) ==> session_at(v, id)
            is None,
    decreases w.len(),
{
    let all = v.push(s) + w;
    lemma_session_at(v, id);
    if w.len() == 0 {
        assert(all =~= v.push(s));
    } else {
        assert(all.drop_last() =~= v.push(s) + w.drop_last());
        assert(all.last() == w[w.len() - 1]);
        law_session_is_found(v, s, w.drop_last(), id);
    }
}

/// A prompt to a free session runs a turn of that session, under the next
/// number, with the prompt's text and the session's model. An unknown session,
/// an empty prompt and a busy session are refused.
pub proof fn law_prompt_runs_its_session(
    v: Seq<SessionV>,
    next: u64,
    params: Json,
    prompt: Option<Seq<char>>,
)
    ensures
        ({
            let step = request_step(v, next, "session/prompt"@, params, prompt);
            let at = named(v, params);
            &&& at is Some && prompt is Some && v[at->0].turn is None ==> step
                == RequestStepV::RunTurn {
                turn: next,
                session: v[at->0].id,
                acp_id: text(member(params, "sessionId"@))->0,
                text: prompt->0,
                model: v[at->0].model,
            }
            &&& at is None || prompt is None ==> step is Refused && step->Refused_0
                == ErrorCode::InvalidParams
            &&& at is Some && prompt is Some && v[at->0].turn is Some ==> step is Refused
                && step->Refused_0 == ErrorCode::InvalidRequest
        }),
        text(member(params, "sessionId"@)) is None ==> named(v, params) is None,
{
    lemma_prompt(v, next, params, prompt);
    if text(member(params, "sessionId"@)) is Some {
        lemma_session_at(v, text(member(params, "sessionId"@))->0);
    }
}

/// A model that was set is the one that the session's next turn runs on. The
/// session's other parts, and every other session, stay as they were.
pub proof fn law_set_model_is_used(
    v: Seq<SessionV>,
    next: u64,
    params: Json,
    prompt: Option<Seq<char>>,
    text_of: Seq<char>,
    later: u64,
)
    requires
        named(v, params) is Some,
        model_param(params) is Some,
        v[named(v, params)->0].turn is None,
    ensures
        ({
            let at = named(v, params)->0;
            let after = sessions_after(v, next, "session/set_model"@, params, prompt);
            let step = request_step(after, later, "session/prompt"@, params, Some(text_of));
            &&& step is RunTurn && step->RunTurn_model == model_param(params)
            &&& step->RunTurn_session == v[at].id && step->RunTurn_text == text_of
            &&& after.len() == v.len()
            &&& forall|i: int| 0 <= i < v.len() && i != at ==> #[trigger] after[i] == v[i]
        }),
        text(member(params, "modelId"@)) is Some ==> model_param(params) == text(
            member(params, "modelId"@),
        ),
        member(params, "modelId"@) is None ==> model_param(params) == text(
            member(params, "modeId"@),
        ),
{
    law_methods_do_what_they_say(v, next, "session/set_model"@, params, prompt);
    let id = text(member(params, "sessionId"@))->0;
    lemma_session_at(v, id);
    let at = named(v, params)->0;
    let after = sessions_after(v, next, "session/set_model"@, params, prompt);
    assert(after == v.update(at, SessionV { model: model_param(params), ..v[at] }));
    lemma_same_ids(v, after, id);
    lemma_prompt(after, later, params, Some(text_of));
}

/// A request that is refused changes no session, and one that starts a turn
/// changes no session but its own.
pub proof fn law_requests_touch_their_session_alone(
    v: Seq<SessionV>,
    next: u64,
    method: Seq<char>,
    params: Json,
    prompt: Option<Seq<char>>,
)
    ensures
        ({
            let after = sessions_after(v, next, method, params, prompt);
            let step = request_step(v, next, method, params, prompt);
            &&& step is Refused || step is Open || step is Initialize ==> after == v
            &&& after.len() == v.len()
            &&& forall|i: int|
                0 <= i < v.len() && Some(i) != named(v, params) ==> #[trigger] after[i] == v[i]
            &&& step is RunTurn ==> after[named(v, params)->0].turn == Some(next)
                && after[named(v, params)->0].model == v[named(v, params)->0].model
                && after[named(v, params)->0].id == v[named(v, params)->0].id
        }),
{
    if text(member(params, "sessionId"@)) is Some {
        lemma_session_at(v, text(member(params, "sessionId"@))->0);
    }
}

/// The end of a turn frees the session that runs it and keeps all else.
pub proof fn law_end_of_a_turn_frees_its_session(v: Seq<SessionV>, turn: u64, i: int)
    requires
        0 <= i < v.len(),
    ensures
        released(v, turn).len() == v.len(),
        v[i].turn == Some(turn) ==> released(v, turn)[i].turn is None,
        v[i].turn != Some(turn) ==> released(v, turn)[i] == v[i],
        released(v, turn)[i].id == v[i].id,
        released(v, turn)[i].acp_id == v[i].acp_id,
        released(v, turn)[i].model == v[i].model,
{
}

} // verus!
