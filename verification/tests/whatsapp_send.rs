use crabs::tools::whatsapp_send::{
    accept_reading, address, after_gate, all_actions, blocked_listed, build_vcard, cap_refusal,
    default_mime, delivered_prefix, execute, failed, find_lack, forward_refusal, mime_from_extension, name_of,
    local_media, newsletters_listed, parse_action, partial_failure_report, persist_outgoing, plan_status,
    quotes, resolve_jid, selectable, status_posted, status_step, succeeded, tag_with_header, unreadable, upload_failed,
    Action, ChunkEvent, ChunkRun, SendInput, Step,
};
use crabs::whatsapp::rate_limit::{
    admit_send, drain_ready, flush_step, owner_alert, Decision, EphemeralStep, FlushAction,
    FlushEvent, GateOutcome, GateStep, LimiterState, QueuedSend, WaRateLimitConfig,
    WhatsappRateLimiter,
};

fn s(t: &str) -> String {
    t.to_string()
}

fn input(action: &str) -> SendInput {
    SendInput {
        action: Some(s(action)),
        message: None,
        phone: None,
        message_id: None,
        media_path: None,
        contact_name: None,
        contact_phone: None,
        poll_question: None,
        label_id: None,
        emoji: None,
        latitude: None,
        longitude: None,
        poll_options: None,
        targets: None,
        voice_note: None,
        multi_select: None,
        typing_active: None,
        remove: None,
    }
}

fn owner() -> Option<String> {
    Some(s("1555@s.whatsapp.net"))
}

fn open(i: &SendInput) -> Step {
    execute(i, true, &vec![], &owner(), &None)
}

fn error_of(step: Step) -> String {
    match step {
        Step::Answer(r) => {
            assert!(!r.success);
            r.text
        }
        _ => panic!("expected an answer"),
    }
}

#[test]
fn scope_is_asked_about_the_address() {
    let owner = Some(s("5@s.whatsapp.net"));
    assert_eq!(address(&Some(s("+155")), &owner), Some(s("155@s.whatsapp.net")));
    assert_eq!(address(&None, &owner), owner);
    assert_eq!(address(&None, &None), None);
}

#[test]
fn actions_have_names() {
    let all = all_actions();
    assert_eq!(all.len(), 26);
    for a in all {
        assert_eq!(parse_action(name_of(a)), Some(a));
    }
    assert_eq!(parse_action("dance"), None);
}

#[test]
fn calls_are_opened() {
    let mut i = input("send");
    assert_eq!(error_of(open(&i)), "Missing or empty 'message' parameter.");
    i.message = Some(s("hi"));
    assert!(matches!(open(&i), Step::Perform { action: Action::Send, jid } if jid == "1555@s.whatsapp.net"));
    i.phone = Some(s("+1999"));
    assert!(matches!(open(&i), Step::Perform { jid, .. } if jid == "1999@s.whatsapp.net"));
    assert_eq!(
        error_of(execute(&i, true, &vec![s("+1555")], &owner(), &None)),
        "Sending to +1999 is not permitted. This number is not in the allowed_users config."
    );
    assert_eq!(error_of(execute(&i, true, &vec![s("1999")], &owner(), &Some(s("scope")))), "scope");
    assert!(error_of(execute(&i, false, &vec![], &owner(), &None)).starts_with("WhatsApp is not connected"));
    assert!(error_of(open(&input("dance"))).starts_with("Unknown action 'dance'. Valid actions: send, reply"));
    assert_eq!(error_of(open(&input(""))), "Missing required 'action' parameter.");
    i.phone = None;
    assert!(error_of(execute(&i, true, &vec![], &None, &None)).starts_with("No owner phone number configured"));
    assert_eq!(error_of(open(&input("reply"))), "Missing required parameter 'message'.");
}

#[test]
fn budgets_come_before_parameters() {
    let i = input("send_photo");
    match open(&i) {
        Step::Gate { action, jid } => {
            assert_eq!(
                error_of(after_gate(&i, action, jid.clone(), false)),
                "Daily WhatsApp send cap reached; the photo was NOT sent. Unlike text, this is not queued for retry - try again once the 24h window slides."
            );
            assert_eq!(error_of(after_gate(&i, action, jid, true)), "Missing required parameter 'media_path'.");
        }
        _ => panic!("expected the limiter"),
    }
    assert_eq!(error_of(open(&input("delete"))), "Missing required parameter 'message_id'.");
    assert!(cap_refusal("the poll").text.contains("the poll was NOT sent"));
}

#[test]
fn polls_have_bounds() {
    let mut i = input("send_poll");
    i.poll_question = Some(s("q"));
    assert_eq!(find_lack(&i, Action::SendPoll), Some(s("Missing required 'poll_options' parameter.")));
    i.poll_options = Some(vec![s("a")]);
    assert_eq!(find_lack(&i, Action::SendPoll), Some(s("'poll_options' must have at least 2 options.")));
    i.poll_options = Some(vec![s("a"); 13]);
    assert_eq!(find_lack(&i, Action::SendPoll), Some(s("'poll_options' supports a maximum of 12 options.")));
    i.poll_options = Some(vec![s("a"); 12]);
    assert_eq!(find_lack(&i, Action::SendPoll), None);
    assert_eq!((selectable(Some(true), 4), selectable(None, 4)), (4, 1));
    let mut l = input("send_location");
    assert_eq!(find_lack(&l, Action::SendLocation), Some(s("Missing required 'latitude' parameter.")));
    l.latitude = Some(s("1"));
    assert_eq!(find_lack(&l, Action::SendLocation), Some(s("Missing required 'longitude' parameter.")));
    let c = input("send_contact");
    assert_eq!(find_lack(&c, Action::SendContact), Some(s("Missing required parameter 'contact_name'.")));
}

#[test]
fn addresses_are_read() {
    assert_eq!(resolve_jid(&Some(s("++1")), &vec![], &None, &None), Ok(s("1@s.whatsapp.net")));
    assert!(resolve_jid(&None, &vec![], &Some(s("no address at all@nowhere")), &None).is_err());
    assert_eq!(accept_reading(s("j"), Err(s("bad")), true, &None), Err(s("Invalid phone number format: bad")));
    assert_eq!(accept_reading(s("j"), Err(s("bad")), false, &None), Err(s("Invalid owner JID: bad")));
    assert_eq!(accept_reading(s("j"), Ok(s("x")), true, &None), Ok(s("j")));
}

#[test]
fn chunked_sends_are_accounted() {
    let mut run = ChunkRun::new(3);
    assert!(run.chunk("a", ChunkEvent::Sent).is_none());
    let end = run.chunk("b", ChunkEvent::Failed(s("net"))).unwrap();
    assert_eq!(end.persist, Some(s("a")));
    assert_eq!(
        end.answer.text,
        "Failed to send WhatsApp message: chunk 2 of 3 failed: net. Chunks 1-1 were DELIVERED and persisted; do NOT resend them. Retry only the remaining text if needed."
    );
    let mut run = ChunkRun::new(2);
    run.chunk("a", ChunkEvent::Sent);
    run.chunk("b", ChunkEvent::Queued);
    let end = run.finish("ab", "j", None, false);
    assert_eq!(end.persist, Some(s("a")));
    assert!(end.answer.text.starts_with("WhatsApp daily cap reached: 1 of 2 chunk(s) queued"));
    let mut run = ChunkRun::new(1);
    run.chunk("a", ChunkEvent::Sent);
    let end = run.finish("a", "j", Some(86_400), false);
    assert_eq!(end.answer.text, "Message sent to j via WhatsApp; it disappears after 24 hours.");
    assert_eq!(ChunkRun::new(0).finish(" ", "j", None, true).persist, None);
    assert!(partial_failure_report(2, 0, "e").ends_with("safe to retry the whole message."));
    assert_eq!(delivered_prefix(&vec![s("a"), s("b")]), "ab");
    assert_eq!(tag_with_header("H", "m"), "H\n\nm");
}

#[test]
fn answers_and_failures() {
    let mut i = input("delete");
    i.message_id = Some(s("m"));
    assert!(succeeded(Action::MarkRead, &i, "j", "").text == "Message m marked as read for j.");
    assert_eq!(failed(Action::Forward, "m", "j", "e").text, "Failed to forward m to j: e");
    assert_eq!(failed(Action::Pin, "", "j", "e").text, "Failed to pin chat j: e");
    assert!(newsletters_listed(&vec![]).success);
    assert!(blocked_listed(&vec![s("1@s.whatsapp.net")]).text.contains("1@s.whatsapp.net"));
    assert!(build_vcard("Ana", "+1").contains("Ana"));
    assert_eq!(mime_from_extension("/a/B.PNG"), Some(s("image/png")));
    assert_eq!(mime_from_extension("/a/b.unknownext"), None);
    assert_eq!(default_mime(Action::SendSticker), "image/webp");
    let m = local_media("~/pics/A.JPG", Some("/h"), "image/webp");
    assert_eq!((m.path.as_str(), m.mime.as_str(), m.filename.as_str()), ("/h/pics/A.JPG", "image/jpeg", "A.JPG"));
    let m = local_media("/", None, "image/webp");
    assert_eq!((m.mime.as_str(), m.filename.as_str()), ("image/webp", "file"));
    assert_eq!(upload_failed("e").text, "Media upload failed: e");
    assert!(forward_refusal(true, "m").is_none());
    assert!(forward_refusal(false, "m").unwrap().text.starts_with("Message m is not in the recent-message window"));
    assert_eq!(unreadable("/x", "gone").text, "Failed to read file '/x': gone");
    assert!(persist_outgoing("j", "  ").is_none());
    assert_eq!(persist_outgoing("j", "x").unwrap().content, "x");
}

#[test]
fn statuses_reach_the_allowlist_only() {
    assert!(plan_status(&None, &vec![]).is_err());
    assert_eq!(plan_status(&None, &vec![s("+1")]).ok().unwrap().len(), 1);
    assert!(plan_status(&Some(vec![s("2")]), &vec![s("1")]).is_err());
    assert!(status_posted(2, 5).success);
}

#[test]
fn statuses_are_paced() {
    let waits: u64 = (0..4).map(|i| status_step(i, 5, true).ok().unwrap()).sum();
    assert_eq!(waits, 15);
    assert_eq!(status_step(0, 5, true).ok(), Some(0));
    assert!(matches!(status_step(1, 5, false), Err(e) if !e.success && e.text.contains("the status update was NOT sent")));
}

#[test]
fn only_the_first_chunk_of_a_reply_quotes() {
    assert!(quotes(Action::Reply, 0));
    assert!(!quotes(Action::Reply, 1));
    assert!(!quotes(Action::Send, 0));
}

const SEC: u64 = 1_000_000_000;

fn cfg(messages_per_minute: u32, daily_cap: u32) -> WaRateLimitConfig {
    WaRateLimitConfig { messages_per_minute, daily_cap }
}

#[test]
fn the_bucket_paces() {
    let mut st = LimiterState::new();
    let c = cfg(2, 0);
    assert!(matches!(admit_send(&mut st, &c, 0, false), Decision::SendNow));
    assert!(matches!(admit_send(&mut st, &c, 0, false), Decision::SendNow));
    match admit_send(&mut st, &c, 0, false) {
        Decision::Pace(ns) => assert_eq!(ns, 30 * SEC),
        _ => panic!("expected a wait"),
    }
    assert!(matches!(admit_send(&mut st, &c, 0, true), Decision::SendNow));
    assert!(matches!(admit_send(&mut st, &c, 30 * SEC, false), Decision::SendNow));
    assert!(matches!(admit_send(&mut st, &cfg(0, 0), 0, false), Decision::SendNow));
}

#[test]
fn waits_are_rounded_to_the_nearest() {
    let wait = |rate: u32| {
        let mut st = LimiterState::new();
        for _ in 0..rate {
            assert!(matches!(admit_send(&mut st, &cfg(rate, 0), 0, false), Decision::SendNow));
        }
        let Decision::Pace(ns) = admit_send(&mut st, &cfg(rate, 0), 0, false) else {
            panic!("expected a wait");
        };
        assert!(matches!(admit_send(&mut st, &cfg(rate, 0), ns + 1, false), Decision::SendNow));
        ns
    };
    assert_eq!(wait(7), 8_571_428_571);
    assert_eq!(wait(11), 5_454_545_455);
    let mut st = LimiterState::new();
    for _ in 0..7 {
        admit_send(&mut st, &cfg(7, 0), 0, false);
    }
    assert!(matches!(admit_send(&mut st, &cfg(7, 0), 8_571_428_571, false), Decision::Pace(0)));
}

#[test]
fn the_cap_queues_and_alerts_once() {
    let mut l = WhatsappRateLimiter::new();
    let c = cfg(0, 1);
    assert!(matches!(l.gate(&c, 0, "j", "a", false), GateStep::Done(GateOutcome::SendNow)));
    assert!(matches!(l.gate(&c, 1, "j", "b", false), GateStep::Done(GateOutcome::Queued { position: 1 })));
    assert!(l.alert_due());
    l.mark_alert_sent();
    assert!(matches!(l.gate(&c, 2, "j", "c", false), GateStep::Done(GateOutcome::Queued { position: 2 })));
    assert!(!l.alert_due());
    assert!(matches!(l.gate_ephemeral(&c, 3, false), EphemeralStep::Drop));
    assert!(matches!(l.gate_ephemeral(&c, 3, true), EphemeralStep::Proceed));
    assert!(l.drain(&c, 10).is_empty());
    let day = 86_400 * SEC;
    let ready = l.drain(&c, day);
    assert_eq!(ready.iter().map(|q| q.text.as_str()).collect::<Vec<_>>(), vec!["b"]);
    l.requeue_front(ready);
    assert_eq!(l.queue_len(), 2);
    let next = l.drain(&c, 2 * day);
    assert_eq!(next[0].text, "b");
}

#[test]
fn draining_keeps_the_order() {
    let mut st = LimiterState::new();
    for t in ["a", "b", "c"] {
        st.queue.push_back(QueuedSend { jid: s("j"), text: s(t) });
    }
    let out = drain_ready(&mut st, &cfg(2, 0), 0);
    assert_eq!(out.iter().map(|q| q.text.as_str()).collect::<Vec<_>>(), vec!["a", "b"]);
    assert_eq!(st.queue_len(), 1);
    assert!(!st.saturated());
    assert!(matches!(flush_step(FlushEvent::NoClient), FlushAction::RequeueRest));
    assert!(matches!(flush_step(FlushEvent::Failed), FlushAction::RequeueRest));
    assert!(matches!(flush_step(FlushEvent::BadJid), FlushAction::Skip));
    assert!(matches!(flush_step(FlushEvent::Sent), FlushAction::Persist));
    assert!(owner_alert("H", 10, 2).contains("10"));
}
