use crabs::a2a::persistence::{is_active, stored_state};
use crabs::a2a::server::{health_check, refused_version, A2aState};
use crabs::acp::catalog::{
    commands_payload, models_payload, Command, ProviderEntry, ProviderSettings,
};
use crabs::acp::server::{ErrorCode, NoticeStep, RequestStep, ServerState};
use crabs::acp::turn::{
    gate, permission_answer, round_text_is_duplicate, stop_reason, tool_call_body,
    tool_update_body, turn_answer, usage_body, AcpMode, Gate, ProgressEvent, StopReason, Turn,
    TurnAnswer, Update,
};
use crabs::json::Json;

fn s(t: &str) -> String {
    t.to_string()
}

fn obj(members: Vec<(&str, &str)>) -> Json {
    Json::Object(members.into_iter().map(|(k, v)| (s(k), Json::Str(s(v)))).collect())
}

#[test]
fn stop_reasons() {
    assert_eq!(stop_reason(Some(StopReason::MaxTokens)), "max_tokens");
    assert_eq!(stop_reason(Some(StopReason::StopSequence)), "stop_sequence");
    assert_eq!(stop_reason(Some(StopReason::ToolUse)), "end_turn");
    assert_eq!(stop_reason(None), "end_turn");
    assert!(matches!(turn_answer(Ok(None), true), TurnAnswer::Stopped("cancelled")));
    assert!(matches!(turn_answer(Ok(Some(StopReason::MaxTokens)), false), TurnAnswer::Stopped("max_tokens")));
    assert!(matches!(turn_answer(Err(s("x")), true), TurnAnswer::Stopped("cancelled")));
    assert!(matches!(turn_answer(Err(s("x")), false), TurnAnswer::Failed(e) if e == "x"));
}

#[test]
fn streamed_text_is_not_repeated() {
    assert!(round_text_is_duplicate("hi\n", " hi"));
    assert!(!round_text_is_duplicate("", "  "));
    assert!(!round_text_is_duplicate("hi", "ho"));
    let mut t = Turn::new();
    assert!(matches!(t.on_event(ProgressEvent::StreamingChunk(s("a")), s("f")), Some(Update::Message(m)) if m == "a"));
    t.on_event(ProgressEvent::StreamingChunk(s("b")), s("f"));
    assert!(t.on_event(ProgressEvent::IntermediateText(s("ab\n")), s("f")).is_none());
    assert!(matches!(t.on_event(ProgressEvent::IntermediateText(s("ab")), s("f")), Some(Update::Message(_))));
    assert!(matches!(t.on_event(ProgressEvent::ReasoningChunk(s("r")), s("f")), Some(Update::Thought(m)) if m == "r"));
    assert!(matches!(t.on_event(ProgressEvent::TokenCount(9), s("f")), Some(Update::Usage { used: 9 })));
    assert!(t.on_event(ProgressEvent::Other, s("f")).is_none());
}

#[test]
fn calls_of_one_tool_complete_in_order() {
    let mut t = Turn::new();
    let start = |n: &str| ProgressEvent::ToolStarted { name: s(n), input: Json::Null };
    let done = |n: &str| ProgressEvent::ToolCompleted { name: s(n), success: true, summary: s("ok") };
    t.on_event(ProgressEvent::StreamingChunk(s("x")), s(""));
    for (n, id) in [("bash", "1"), ("grep", "2"), ("bash", "3")] {
        assert!(matches!(t.on_event(start(n), s(id)), Some(Update::ToolCall { id: got, .. }) if got == id));
    }
    assert!(t.streamed.is_empty());
    for (n, id) in [("bash", "1"), ("bash", "3"), ("grep", "2"), ("grep", "fresh")] {
        assert!(matches!(t.on_event(done(n), s("fresh")), Some(Update::ToolUpdate { id: got, success: true, .. }) if got == id));
    }
    assert!(t.open.is_empty());
}

#[test]
fn update_bodies() {
    assert_eq!(
        tool_call_body("1", "bash", "execute", &obj(vec![("c", "ls")])),
        "{\"kind\":\"execute\",\"rawInput\":{\"c\":\"ls\"},\"sessionUpdate\":\"tool_call\",\"status\":\"in_progress\",\"title\":\"bash\",\"toolCallId\":\"1\"}"
    );
    assert_eq!(
        tool_update_body("1", false, "no"),
        "{\"rawOutput\":\"no\",\"sessionUpdate\":\"tool_call_update\",\"status\":\"failed\",\"toolCallId\":\"1\"}"
    );
    assert!(tool_update_body("1", true, "").contains("\"completed\""));
    assert_eq!(usage_body(5, 100), "{\"sessionUpdate\":\"usage\",\"usage\":{\"size\":100,\"used\":5}}");
}

#[test]
fn modes_gate_tools() {
    for kind in ["edit", "execute", "read"] {
        assert!(gate(AcpMode::Plan, kind) == Gate::Deny);
        assert!(gate(AcpMode::Auto, kind) == Gate::Approve);
        assert!(gate(AcpMode::FullAccess, kind) == Gate::Approve);
        assert!(gate(AcpMode::Supervised, kind) == Gate::Ask);
    }
    assert!(gate(AcpMode::AutoAcceptEdits, "edit") == Gate::Approve);
    assert!(gate(AcpMode::AutoAcceptEdits, "execute") == Gate::Ask);
    assert_eq!(permission_answer(None), (false, false));
    assert_eq!(permission_answer(Some((true, true))), (true, true));
}

fn refused(r: RequestStep) -> (ErrorCode, String) {
    match r {
        RequestStep::Refused { code, message } => (code, message),
        _ => panic!("expected a refusal"),
    }
}

#[test]
fn requests_are_dispatched() {
    let mut st = ServerState::new(Some(s("p/m")));
    let none = obj(vec![]);
    assert!(matches!(st.dispatch_request("initialize", &none, None), RequestStep::Initialize));
    assert!(matches!(st.dispatch_request("session/new", &none, None), RequestStep::Open { resume: None }));
    assert!(matches!(st.dispatch_request("session/load", &obj(vec![("sessionId", "a")]), None),
        RequestStep::Open { resume: Some(id) } if id == "a"));
    let (code, m) = refused(st.dispatch_request("session/load", &none, None));
    assert!(code == ErrorCode::InvalidParams && m == "session/load requires sessionId");
    let (code, m) = refused(st.dispatch_request("session/fly", &none, None));
    assert!(code == ErrorCode::MethodNotFound && m == "method not found: session/fly");
    assert_eq!(st.session_ready(s("a"), 7), "{\"sessionId\":\"a\"}");
    let (_, m) = refused(st.dispatch_request("session/set_model", &obj(vec![("sessionId", "z"), ("modelId", "x")]), None));
    assert_eq!(m, "session/set_model: unknown session");
    let (_, m) = refused(st.dispatch_request("session/set_model", &obj(vec![("sessionId", "a")]), None));
    assert_eq!(m, "session/set_model requires modelId (modeId accepted)");
    assert!(matches!(st.dispatch_request("session/set_mode", &obj(vec![("sessionId", "a"), ("modeId", "q/r")]), None), RequestStep::Accepted));
    assert_eq!(st.sessions[0].model, Some(s("q/r")));
    assert!(matches!(ServerState::session_failed("gone"), RequestStep::Refused { message, .. } if message == "session: gone"));
}

#[test]
fn one_turn_at_a_time() {
    let mut st = ServerState::new(Some(s("p/m")));
    st.session_ready(s("a"), 7);
    let p = obj(vec![("sessionId", "a")]);
    let (_, m) = refused(st.dispatch_request("session/prompt", &obj(vec![("sessionId", "b")]), Some(s("hi"))));
    assert_eq!(m, "session/prompt: unknown session — call session/new first");
    let (_, m) = refused(st.dispatch_request("session/prompt", &p, None));
    assert_eq!(m, "session/prompt: empty prompt");
    assert!(matches!(st.dispatch_request("session/prompt", &p, Some(s("hi"))),
        RequestStep::RunTurn { turn: 0, session: 7, text, model: Some(model), .. } if text == "hi" && model == "p/m"));
    let (code, m) = refused(st.dispatch_request("session/prompt", &p, Some(s("again"))));
    assert!(code == ErrorCode::InvalidRequest && m == "turn already in progress for this session");
    assert!(matches!(st.dispatch_notification("session/cancel", &p, None), NoticeStep::Cancel { turn: 0 }));
    st.turn_over(0);
    assert!(matches!(st.dispatch_notification("session/cancel", &p, None), NoticeStep::Nothing));
    assert!(matches!(st.dispatch_request("session/prompt", &p, Some(s("again"))), RequestStep::RunTurn { turn: 1, .. }));
    st.session_ready(s("a"), 8);
    assert!(st.sessions.len() == 1 && st.sessions[0].turn.is_none());
}

#[test]
fn an_earlier_turn_frees_nothing() {
    let mut st = ServerState::new(None);
    st.session_ready(s("a"), 7);
    let p = obj(vec![("sessionId", "a")]);
    assert!(matches!(st.dispatch_request("session/prompt", &p, Some(s("one"))), RequestStep::RunTurn { turn: 0, .. }));
    st.session_ready(s("a"), 7);
    assert!(matches!(st.dispatch_request("session/prompt", &p, Some(s("two"))), RequestStep::RunTurn { turn: 1, .. }));
    st.turn_over(0);
    let (code, m) = refused(st.dispatch_request("session/prompt", &p, Some(s("three"))));
    assert!(code == ErrorCode::InvalidRequest && m == "turn already in progress for this session");
    assert!(matches!(st.dispatch_notification("session/cancel", &p, None), NoticeStep::Cancel { turn: 1 }));
    st.turn_over(1);
    assert!(matches!(st.dispatch_request("session/prompt", &p, Some(s("three"))), RequestStep::RunTurn { turn: 2, .. }));
}

#[test]
fn steering_texts_queue() {
    let mut st = ServerState::new(None);
    st.session_ready(s("a"), 7);
    let p = obj(vec![("sessionId", "a")]);
    st.dispatch_notification("session/steer", &p, Some(s("left")));
    st.dispatch_notification("session/steer", &p, None);
    st.dispatch_notification("session/steer", &obj(vec![("sessionId", "z")]), Some(s("lost")));
    st.dispatch_notification("session/other", &p, Some(s("lost")));
    assert_eq!(st.steer, vec![(7, s("left"))]);
}

#[test]
fn commands_are_clean_and_unique() {
    let c = |n: &str, d: &str| Command { name: s(n), description: s(d) };
    let got = commands_payload(&vec![c(" /help ", "h"), c("//", "x"), c("/a b", "x"), c("help", "again"), c("/x\\y", "x"), c("/ship", "go")]);
    let names: Vec<(&str, &str)> = got.iter().map(|c| (c.name.as_str(), c.description.as_str())).collect();
    assert_eq!(names, vec![("help", "h"), ("ship", "go")]);
}

#[test]
fn models_are_listed() {
    let set = |enabled, has_api_key, models: Vec<&str>, default: Option<&str>| ProviderSettings {
        enabled, has_api_key, models: models.into_iter().map(s).collect(), default_model: default.map(s),
    };
    let p = |id: &str, needs, settings| ProviderEntry { id: s(id), display: id.to_uppercase(), requires_api_key: needs, settings };
    let registry = vec![
        p("off", false, Some(set(false, true, vec!["m"], None))),
        p("keyless", true, Some(set(true, false, vec!["m"], None))),
        p("absent", false, None),
        p("a", true, Some(set(true, true, vec![" x ", " ", "y"], Some("d")))),
        p("b", false, Some(set(true, false, vec![" "], Some(" d ")))),
    ];
    let custom = Some((s("mine"), set(false, false, vec!["z"], None)));
    let m = models_payload(&registry, &custom, &None);
    let got: Vec<(&str, &str)> = m.available.iter().map(|e| (e.model_id.as_str(), e.name.as_str())).collect();
    assert_eq!(got, vec![("a/x", "A / x"), ("a/y", "A / y"), ("b/d", "B / d"), ("mine/z", "mine / z")]);
    assert_eq!(m.current, "a/x");
    assert_eq!(models_payload(&registry, &custom, &Some(s("q/q"))).current, "q/q");
    assert_eq!(models_payload(&vec![], &None, &None).current, "");
}

#[test]
fn a2a_gateway() {
    assert_eq!(A2aState { host: s("127.0.0.1"), port: 18790 }.address(), "127.0.0.1:18790");
    assert_eq!(refused_version("2.0"), None);
    assert_eq!(refused_version("1.0"), Some("Invalid JSON-RPC version, expected 2.0"));
    assert_eq!(
        health_check("9.9"),
        "{\"protocol\":\"A2A\",\"protocol_version\":\"1.0\",\"provider\":\"OpenCrabs Community\",\"status\":\"ok\",\"version\":\"9.9\"}"
    );
    assert_eq!(stored_state("InputRequired"), "inputrequired");
    assert!(is_active("working") && is_active("submitted"));
    assert!(!is_active("completed") && !is_active("failed") && !is_active("canceled"));
}
