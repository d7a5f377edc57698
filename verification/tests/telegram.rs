use crabs::json::{to_compact, Json};
use crabs::telegram::raw_updates::{
    after_failed_poll, after_poll, classify_poll_failure, id_of, poll_body, poll_url,
    raw_content_for_agent, raw_forward_origin, show, synthesize_text, synthesize_unknown_content,
    take_update, update_kind_name, PollFailure, PollStep, RawStash, UpdateKind, STASH_CAP,
};

fn s(t: &str) -> String {
    t.to_string()
}

fn text(t: &str) -> Json {
    Json::Str(s(t))
}

fn num(n: i64) -> Json {
    Json::Number(n.to_string())
}

fn obj(members: Vec<(&str, Json)>) -> Json {
    Json::Object(members.into_iter().map(|(k, v)| (s(k), v)).collect())
}

#[test]
fn stashed_payloads_are_taken_once() {
    let mut q = RawStash::new();
    q.stash_raw_message(1, 2, s("a"));
    q.stash_raw_message(1, 3, s("b"));
    q.stash_raw_message(1, 2, s("c"));
    assert_eq!(q.entries.len(), 2);
    assert_eq!(q.take_raw_message(1, 2), Some(s("c")));
    assert_eq!(q.take_raw_message(1, 2), None);
    assert_eq!(q.take_raw_message(9, 3), None);
    assert_eq!(q.take_raw_message(1, 3), Some(s("b")));
}

#[test]
fn stash_is_bounded() {
    let mut q = RawStash::new();
    for i in 0..(STASH_CAP as i32 + 2) {
        q.stash_raw_message(7, i, i.to_string());
    }
    assert_eq!(q.entries.len(), STASH_CAP);
    assert_eq!(q.take_raw_message(7, 0), None);
    assert_eq!(q.take_raw_message(7, 1), None);
    assert_eq!(q.take_raw_message(7, 2), Some(s("2")));
}

#[test]
fn origins_are_labelled() {
    let from = |o: Json| raw_forward_origin(&obj(vec![("forward_origin", o)]));
    let user = obj(vec![("first_name", text("Ana")), ("last_name", text("Lima")), ("is_bot", Json::Bool(true))]);
    assert_eq!(from(obj(vec![("sender_user", user)])), Some(s("Ana Lima (bot)")));
    assert_eq!(from(obj(vec![("sender_user", obj(vec![]))])), Some(s("someone")));
    assert_eq!(from(obj(vec![("sender_user_name", text("Hidden"))])), Some(s("Hidden")));
    assert_eq!(from(obj(vec![("sender_chat", obj(vec![("title", text("Group"))]))])), Some(s("Group")));
    assert_eq!(from(obj(vec![("chat", obj(vec![("title", text("Channel"))]))])), Some(s("Channel")));
    assert_eq!(from(obj(vec![])), Some(s("an unknown origin")));
    assert_eq!(raw_forward_origin(&obj(vec![])), None);
}

#[test]
fn content_loses_its_noise() {
    let raw = obj(vec![("message_id", num(1)), ("rich", obj(vec![("b", num(2))])), ("date", num(3))]);
    assert_eq!(raw_content_for_agent(&raw), "{\n  \"rich\": {\n    \"b\": 2\n  }\n}");
    assert_eq!(raw_content_for_agent(&text("x")), "\"x\"");
    assert_eq!(show(None, "otherwise"), "otherwise");
    assert_eq!(show(Some("é".repeat(3000)), "").chars().count(), 2048);
}

#[test]
fn unknown_content_becomes_text() {
    let m = obj(vec![
        ("message_id", num(1)),
        ("chat", obj(vec![("id", num(5))])),
        ("entities", Json::Array(vec![])),
        ("rich", num(2)),
        ("forward_origin", obj(vec![("sender_user_name", text("Bo"))])),
    ]);
    match synthesize_unknown_content(m, &None) {
        Json::Object(v) => {
            let keys: Vec<&str> = v.iter().map(|(k, _)| k.as_str()).collect();
            assert_eq!(keys, vec!["message_id", "chat", "forward_origin", "text"]);
            assert!(matches!(&v[3].1, Json::Str(t) if t.starts_with("[A message forwarded from \"Bo\" arrived in a format")
                && t.ends_with("```json\n{\n  \"rich\": 2\n}\n```")));
        }
        _ => panic!("expected an object"),
    }
    let m = obj(vec![("rich", num(2))]);
    assert!(matches!(synthesize_unknown_content(m, &Some(s("decoded"))),
        Json::Object(v) if matches!(&v[0].1, Json::Str(t) if t == "[A rich message]:\ndecoded")));
    assert_eq!(synthesize_text(&None, &Some(s("d")), "p"), "[A rich message]:\nd");
}

#[test]
fn known_content_is_untouched() {
    let known = obj(vec![("text", text("hi")), ("odd", num(1))]);
    assert_eq!(to_compact(&synthesize_unknown_content(known, &None)), "{\"text\":\"hi\",\"odd\":1}");
    let service = obj(vec![("message_id", num(1)), ("date", num(2))]);
    assert_eq!(to_compact(&synthesize_unknown_content(service, &None)), "{\"message_id\":1,\"date\":2}");
    assert!(matches!(synthesize_unknown_content(Json::Null, &None), Json::Null));
}

#[test]
fn polls_are_classified() {
    let conflict = obj(vec![
        ("ok", Json::Bool(false)),
        ("error_code", num(409)),
        ("description", text("Conflict: terminated by other getUpdates request; x")),
    ]);
    assert!(classify_poll_failure(&conflict) == PollFailure::Conflict);
    assert!(matches!(after_poll(conflict), PollStep::Backoff { secs: 30, conflict: true }));
    let other = obj(vec![("ok", Json::Bool(false)), ("error_code", num(409))]);
    assert!(classify_poll_failure(&other) == PollFailure::Other);
    assert!(matches!(after_poll(other), PollStep::Backoff { secs: 3, conflict: false }));
    assert!(matches!(after_failed_poll(), PollStep::Backoff { secs: 3, conflict: false }));
    let none = obj(vec![("ok", Json::Bool(true))]);
    assert!(matches!(after_poll(none), PollStep::Updates(v) if v.is_empty()));
    let some = obj(vec![("ok", Json::Bool(true)), ("result", Json::Array(vec![num(1), num(2)]))]);
    assert!(matches!(after_poll(some), PollStep::Updates(v) if v.len() == 2));
}

#[test]
fn poll_requests() {
    assert_eq!(poll_url("T"), "https://api.telegram.org/botT/getUpdates");
    assert_eq!(
        poll_body(-5),
        "{\"allowed_updates\":[\"message\",\"edited_message\",\"callback_query\",\"message_reaction\",\"my_chat_member\"],\"offset\":-5,\"timeout\":30}"
    );
}

#[test]
fn updates_are_taken_in() {
    let mut q = RawStash::new();
    let m = || obj(vec![("message_id", num(8)), ("chat", obj(vec![("id", num(-100))])), ("rich", num(1))]);
    let u = obj(vec![("update_id", num(41)), ("message", m()), ("edited_message", obj(vec![("text", text("e"))]))]);
    assert_eq!(id_of(&u), 41);
    let (r, offset) = take_update(u, 10, &mut q, &None, &None);
    assert_eq!(offset, 42);
    assert_eq!(q.take_raw_message(-100, 8), Some(s("{\"message_id\":8,\"chat\":{\"id\":-100},\"rich\":1}")));
    let shown = to_compact(&r);
    assert!(shown.starts_with("{\"update_id\":41,\"message\":{\"message_id\":8,\"chat\":{\"id\":-100},\"text\":"));
    assert!(shown.ends_with("\"edited_message\":{\"text\":\"e\"}}"));
    let (_, offset) = take_update(obj(vec![("update_id", num(3))]), 42, &mut q, &None, &None);
    assert_eq!(offset, 42);
    let (_, offset) = take_update(Json::Null, 0, &mut q, &None, &None);
    assert_eq!(offset, 0);
}

#[test]
fn kinds_have_names() {
    assert_eq!(update_kind_name(UpdateKind::CallbackQuery), "callback_query");
    assert_eq!(update_kind_name(UpdateKind::Error), "ERROR(unparsed)");
    assert_eq!(update_kind_name(UpdateKind::Other), "other");
}
