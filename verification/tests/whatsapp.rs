use crabs::whatsapp::agent::{
    counts_as_delivered, owner_from_config, quote_list, Connection, Greeting, ReceiptType,
};
use crabs::whatsapp::blocklist::Blocklist;
use crabs::whatsapp::broadcast::{burst_floor, delay, is_allowed, normalize, partition, target_jid};
use crabs::whatsapp::ephemeral::{describe, resolve, TTL_MAX};
use crabs::whatsapp::followups::Followups;
use crabs::whatsapp::inbound::{
    describe_contact, describe_live_location, describe_location, describe_reaction,
    phone_from_vcard,
};
use crabs::whatsapp::jid::{canonical_user, user_part, Jid, Server};
use crabs::whatsapp::media_retry::{step, RetryAction, RetryEvent, RetryState};
use crabs::whatsapp::newsletter::{
    format_digest, next_cursor, post_body, select_new, Cursor, Fetched, PageStep, PollRun,
    PostContent, PostRef,
};
use crabs::whatsapp::outbox::{Outbox, OutboxEntry, EDIT_WINDOW};
use crabs::whatsapp::poll::{
    decode_vote, decoded_vote, describe_vote, resolve_options, PollOptions, PollUpdate,
    POLL_CAPACITY,
};
use crabs::whatsapp::rate_limit::GateOutcome;
use crabs::whatsapp::reaction::{build_self_reaction, COMPLETION_EMOJI};
use crabs::whatsapp::recent::RecentMessages;
use crabs::whatsapp::resume::{after_gate, deliverable, resume, ResumeStep};
use crabs::whatsapp::store::{
    check_identity, delete_sender_key_device_rows, expired_tc_tokens, has_same_base_key, TokenRow,
};
use crabs::whatsapp::stream::{
    after_edit, body_of_new, coalesce, deliver, finalize, plan, AfterEdit, DeliverStep, Delivery,
    FinalStep,
};
use crabs::whatsapp::voice_note::{voice_note_mimetype, wants_voice_note};

fn s(t: &str) -> String {
    t.to_string()
}

#[test]
fn owners_are_found() {
    assert_eq!(quote_list(&vec![s("1"), s("2")]), "[\"1\",\"2\"]");
    assert_eq!(quote_list(&vec![]), "[]");
    assert!(owner_from_config(&vec![]).is_none());
    assert!(counts_as_delivered(ReceiptType::Delivered));
    assert!(!counts_as_delivered(ReceiptType::Other));
}

#[test]
fn a_pairing_greets_once() {
    let mut c = Connection::new();
    assert!(c.paired("@s.whatsapp.net", &vec![]).is_none());
    let plan = c.paired("1555:3@s.whatsapp.net", &vec![s("+999")]).unwrap();
    assert_eq!(plan.number, "1555");
    assert_eq!(plan.bot_owner, "[\"1555\"]");
    assert_eq!(plan.allowed_phones, Some(s("[\"+999\",\"1555\"]")));
    assert_eq!(plan.owner_jid, "1555@s.whatsapp.net");
    assert!(matches!(c.connect(&None), Greeting::Greet(_)));
    assert!(matches!(c.connect(&None), Greeting::Suppress));
    c.connected = false;
    assert!(matches!(c.connect(&None), Greeting::Silent));
    let mut d = Connection::new();
    assert!(d.paired("1555@s.whatsapp.net", &vec![s("+1555")]).unwrap().allowed_phones.is_none());
}

#[test]
fn blocks_apply_to_accounts() {
    let mut b = Blocklist::new();
    b.replace(&vec![s("1@s.whatsapp.net/3"), s("2@lid")]);
    assert_eq!(b.len(), 2);
    assert!(b.contains("1@s.whatsapp.net"));
    b.insert("3@s.whatsapp.net");
    b.remove("1@s.whatsapp.net/7");
    assert!(!b.contains("1@s.whatsapp.net"));
    assert!(b.blocks_either("9@lid", Some("3@s.whatsapp.net")));
    assert!(!b.blocks_either("9@lid", None));
    assert_eq!(user_part("15@s.whatsapp.net/3"), "15");
}

#[test]
fn broadcasts_are_railed() {
    assert_eq!(normalize("+1 (555) 123-4567"), "15551234567");
    assert_eq!(normalize("15551234567@s.whatsapp.net"), "15551234567");
    assert_eq!((delay(None), delay(Some(0)), delay(Some(9))), (5, 5, 9));
    assert!(!is_allowed("+1", &vec![]));
    assert!(is_allowed("+1 555", &vec![s("1555")]));
    assert!(!is_allowed("none", &vec![s("x")]));
    assert_eq!(burst_floor(3, 5), 10);
    assert_eq!(burst_floor(0, 5), 0);
    assert_eq!(partition(&vec![s("1"), s("2"), s("+1")], &vec![s("1")]), (vec![s("1"), s("+1")], vec![s("2")]));
    assert_eq!(target_jid("+1 (555)"), Some(s("1555@s.whatsapp.net")));
    assert_eq!(target_jid("nobody"), None);
}

#[test]
fn lifetimes() {
    assert_eq!(resolve(Some(0), Some(60)), None);
    assert_eq!(resolve(None, Some(60)), Some(60));
    assert_eq!(resolve(None, Some(0)), None);
    assert_eq!(resolve(Some(u64::MAX), None), Some(TTL_MAX));
    assert_eq!(describe(86_400), "24 hours");
    assert_eq!(describe(604_800), "7 days");
    assert_eq!(describe(7_776_000), "90 days");
    assert_eq!(describe(172_800), "2 days");
    assert_eq!(describe(7_200), "2 hours");
    assert_eq!(describe(120), "2 minutes");
    assert_eq!(describe(61), "61 seconds");
}

#[test]
fn followups_are_chosen_once() {
    let mut f = Followups::new();
    f.set_pending_followups(1, vec![s("Yes"), s("No")]);
    assert_eq!(f.take_followup_by_reply(1, "0"), None);
    assert_eq!(f.take_followup_by_reply(1, "3"), None);
    assert_eq!(f.take_followup_by_reply(1, "two"), None);
    assert_eq!(f.take_followup_by_reply(1, " 2 "), Some(s("No")));
    assert_eq!(f.take_followup_by_reply(1, "1"), None);
    f.set_pending_followups(1, vec![s("Yes"), s("No")]);
    assert_eq!(f.take_followup_by_label(1, "  "), None);
    assert_eq!(f.take_followup_by_label(1, " YES "), Some(s("Yes")));
    f.set_pending_followups(2, vec![s("x")]);
    f.clear_pending_followups(2);
    assert_eq!(f.take_followup_by_label(2, "x"), None);
}

#[test]
fn inbound_messages_are_described() {
    assert_eq!(describe_location("1.000000", "2.000000", Some(" Home "), Some(" ")), "[location] 1.000000, 2.000000 (Home)");
    assert_eq!(describe_location("1.0", "2.0", None, Some("St")), "[location] 1.0, 2.0 - St");
    assert_eq!(describe_live_location("1.0", "2.0", Some("on my way")), "[live location] 1.0, 2.0 - on my way");
    let card = "BEGIN:VCARD\r\n tel;type=CELL;waid=1555:+1 555\r\nEND:VCARD";
    assert_eq!(phone_from_vcard(card), Some(s("+1 555")));
    assert_eq!(phone_from_vcard("FN:x"), None);
    assert_eq!(describe_contact(Some("Ana"), Some(card)), "[contact] Ana - +1 555");
    assert_eq!(describe_contact(Some(" "), None), "[contact] unnamed");
    assert_eq!(describe_reaction(Some("👍"), Some("m1")), Some(s("[reaction] 👍 on message m1")));
    assert_eq!(describe_reaction(Some(" "), Some("m1")), None);
    assert_eq!(describe_reaction(Some("👍"), None), Some(s("[reaction] 👍 on message unknown message")));
}

#[test]
fn senders_key_on_their_number() {
    let j = |u: &str, server| Jid { user: s(u), server };
    assert_eq!(canonical_user(&j("1", Server::Pn), Some(&j("L", Server::Lid))), "1");
    assert_eq!(canonical_user(&j("L", Server::Lid), Some(&j("1", Server::Pn))), "1");
    assert_eq!(canonical_user(&j("L", Server::HostedLid), Some(&j("1", Server::Hosted))), "1");
    assert_eq!(canonical_user(&j("L", Server::Lid), Some(&j("", Server::Pn))), "L");
    assert_eq!(canonical_user(&j("L", Server::Lid), None), "L");
    assert_eq!(canonical_user(&j("g", Server::Group), Some(&j("1", Server::Pn))), "g");
}

#[test]
fn media_is_tried_twice() {
    assert!(matches!(step(RetryState::First, RetryEvent::Downloaded), (RetryState::Done, RetryAction::Deliver)));
    assert!(matches!(step(RetryState::First, RetryEvent::DownloadFailed { has_key: true }), (RetryState::Reupload, RetryAction::RequestReupload)));
    assert!(matches!(step(RetryState::First, RetryEvent::DownloadFailed { has_key: false }), (RetryState::Done, RetryAction::GiveUp)));
    assert!(matches!(step(RetryState::Reupload, RetryEvent::Reuploaded(s("/p"))), (RetryState::Second, RetryAction::DownloadFrom(p)) if p == "/p"));
    assert!(matches!(step(RetryState::Reupload, RetryEvent::ReuploadFailed), (RetryState::Done, RetryAction::GiveUp)));
    assert!(matches!(step(RetryState::Second, RetryEvent::Downloaded), (RetryState::Done, RetryAction::Deliver)));
    assert!(matches!(step(RetryState::Second, RetryEvent::DownloadFailed { has_key: true }), (RetryState::Done, RetryAction::GiveUp)));
}

fn post(server_id: u64, ts: u64) -> PostRef {
    PostRef { server_id, ts }
}

#[test]
fn newsletter_cursor_never_regresses() {
    let cur = Some(Cursor { last_server_id: 5, last_ts: 50 });
    let page = vec![post(7, 70), post(5, 50), post(6, 60)];
    let ids: Vec<u64> = select_new(cur, &page).iter().map(|p| p.server_id).collect();
    assert_eq!(ids, vec![6, 7]);
    assert!(select_new(None, &page).is_empty());
    let n = next_cursor(cur, &page);
    assert_eq!((n.last_server_id, n.last_ts), (7, 70));
    let n = next_cursor(cur, &vec![post(3, 30)]);
    assert_eq!((n.last_server_id, n.last_ts), (5, 50));
    let n = next_cursor(None, &vec![]);
    assert_eq!((n.last_server_id, n.last_ts), (0, 0));
    let n = next_cursor(None, &page);
    assert_eq!((n.last_server_id, n.last_ts), (7, 70));
}

#[test]
fn digests_name_their_channel() {
    assert_eq!(
        format_digest("News", &vec![post(1, 0), post(2, 86_460)], &vec![s("a"), s("b")]),
        "📰 WhatsApp newsletter digest — News (2 new)\n\n[1970-01-01 00:00] a\n\n[1970-01-02 00:01] b\n"
    );
    let none = PostContent { conversation: None, extended_text: None, image_caption: None, video_caption: None };
    assert_eq!(post_body(&none), "[media post]");
    let photo = PostContent { conversation: None, extended_text: None, image_caption: Some(s("p")), video_caption: None };
    assert_eq!(post_body(&photo), "📷 p");
    let video = PostContent { conversation: None, extended_text: None, image_caption: None, video_caption: Some(s("v")) };
    assert_eq!(post_body(&video), "🎥 v");
    let both = PostContent { conversation: Some(s("c")), extended_text: Some(s("e")), image_caption: None, video_caption: None };
    assert_eq!(post_body(&both), "c");
}

#[test]
fn pages_are_followed_to_known_ground() {
    let f = |id: u64| Fetched { server_id: id, ts: id * 10, content: None };
    let mut run = PollRun::new(Cursor { last_server_id: 1, last_ts: 10 });
    assert!(matches!(run.take_page(&vec![f(3), f(2), f(1)]), PageStep::Stop));
    let (posts, texts) = run.finish().unwrap();
    assert_eq!(posts.iter().map(|p| p.server_id).collect::<Vec<_>>(), vec![2, 3]);
    assert_eq!(texts, vec![s("[post without text]"), s("[post without text]")]);
    let mut run = PollRun::new(Cursor { last_server_id: 0, last_ts: 0 });
    let full: Vec<Fetched> = (101..131).map(f).collect();
    assert!(matches!(run.take_page(&full), PageStep::More));
    assert_eq!(run.before, Some(1010));
    let mut quiet = PollRun::new(Cursor { last_server_id: 9, last_ts: 0 });
    quiet.take_page(&vec![]);
    assert!(quiet.finish().is_none());
}

#[test]
fn outbox_entries_close() {
    let mut o = Outbox::new();
    o.record(1, OutboxEntry::new(s("m"), s("b"), 100));
    assert!(o.set_body(1, s("c")));
    assert!(!o.set_body(2, s("c")));
    assert_eq!(o.editable_outbound(1, 99).unwrap().body, "c");
    assert_eq!(o.editable_outbound(1, 99 + EDIT_WINDOW).unwrap().message_id, "m");
    assert!(o.editable_outbound(1, 100 + EDIT_WINDOW).is_none());
    assert_eq!(o.len(), 0);
    o.record(1, OutboxEntry::new(s("n"), s("b"), 0));
    assert!(o.get(1).is_some());
    assert!(o.clear(1).is_some() && o.clear(1).is_none());
}

#[test]
fn votes_are_labelled() {
    let yes: Vec<u8> = (0..64).step_by(2)
        .map(|i| u8::from_str_radix(&"85a39ab345d672ff8ca9b9c6876f3adcacf45ee7c1e2dbd2408fd338bd55e07e"[i..i + 2], 16).unwrap())
        .collect();
    let options = vec![s("No"), s("Yes")];
    assert_eq!(resolve_options(&vec![yes.clone(), vec![0; 32]], &options), vec![s("Yes")]);
    assert_eq!(describe_vote("Ana", &vec![s("No"), s("Yes")]), Some(s("[poll vote] Ana chose: No, Yes")));
    assert_eq!(describe_vote("Ana", &vec![]), None);
    assert_eq!(decoded_vote("Ana", Some(vec![yes]), &options), Some(s("[poll vote] Ana chose: Yes")));
    assert_eq!(decoded_vote("Ana", None, &options), None);
}

#[test]
fn polls_are_remembered() {
    let mut p = PollOptions::new();
    p.remember(s(""), vec![s("a")]);
    p.remember(s("x"), vec![]);
    assert_eq!(p.len(), 0);
    for i in 0..POLL_CAPACITY + 1 {
        p.remember(i.to_string(), vec![s("a"), s("b")]);
    }
    assert_eq!(p.len(), POLL_CAPACITY);
    assert_eq!(p.get("0"), None);
    assert_eq!(p.get("1"), Some(vec![s("a"), s("b")]));
    let update = |id: &str, jid: Option<&str>| PollUpdate {
        has_key: true, poll_id: Some(s(id)), remote_jid: jid.map(s), enc_payload: Some(vec![1]), enc_iv: Some(vec![2]),
    };
    let v = decode_vote(update("1", Some("1555:4@s.whatsapp.net")), &p, "chat@g.us").unwrap();
    assert_eq!((v.creator.as_str(), v.creator_jid.as_str()), ("1555:4@s.whatsapp.net", "1555:4@s.whatsapp.net"));
    assert_eq!(v.options, vec![s("a"), s("b")]);
    let v = decode_vote(update("1", None), &p, "chat@g.us").unwrap();
    assert_eq!(v.creator, "chat@g.us");
    assert!(decode_vote(update("0", None), &p, "chat@g.us").is_none());
}

#[test]
fn own_reactions() {
    let r = build_self_reaction("1@s.whatsapp.net", "m", COMPLETION_EMOJI, 7);
    assert_eq!((r.remote_jid.as_str(), r.id.as_str(), r.from_me, r.sender_timestamp_ms), ("1@s.whatsapp.net", "m", true, 7));
    assert_eq!(r.text.as_deref(), Some("✅"));
}

#[test]
fn recent_messages_are_bounded() {
    let mut r: RecentMessages<u32> = RecentMessages::with_capacity(2);
    r.remember(s("a"), 1);
    r.remember(s("b"), 2);
    r.remember(s("a"), 3);
    r.remember(s("c"), 4);
    assert_eq!((r.get("a"), r.get("b"), r.get("c"), r.len()), (Some(&3), None, Some(&4), 2));
}

#[test]
fn resumes_need_a_readable_chat() {
    assert!(matches!(resume(Some("1@s.whatsapp.net"), true, true), ResumeStep::Gate { user } if user == "1"));
    assert!(matches!(resume(None, true, true), ResumeStep::Drop));
    assert!(matches!(resume(Some("1@s.whatsapp.net"), false, true), ResumeStep::Drop));
    assert!(matches!(resume(Some("1@s.whatsapp.net"), true, false), ResumeStep::Drop));
    assert!(matches!(deliverable(Some("x"), true, true, false), ResumeStep::Drop));
    assert!(matches!(after_gate(&GateOutcome::SendNow), ResumeStep::Send));
    assert!(matches!(after_gate(&GateOutcome::Queued { position: 1 }), ResumeStep::Parked));
}

#[test]
fn streams_grow_one_message() {
    assert!(matches!(plan(None, " hi ", 10), Delivery::Send(t) if t == "hi"));
    assert!(matches!(plan(Some("éé"), "é", 5), Delivery::Edit(t) if t == "éé\n\né"));
    assert!(matches!(plan(Some("éé"), "éé", 5), Delivery::Send(t) if t == "éé"));
    assert_eq!(coalesce(&vec![s(" a "), s(" "), s("b")]), "a\n\nb");
    let e = OutboxEntry::new(s("m"), s("body"), 0);
    assert!(matches!(deliver(Some(&e), "more"), DeliverStep::Edit { message_id, full } if message_id == "m" && full == "body\n\nmore"));
    assert!(matches!(deliver(None, "x"), DeliverStep::SendNew { text, with_header: true } if text == "x"));
    assert!(matches!(after_edit(true), AfterEdit::UpdateBody));
    assert!(matches!(after_edit(false), AfterEdit::ClearAndSend));
    assert_eq!(body_of_new("H", " t ", true), "H\n\nt");
    assert_eq!(body_of_new("H", " t ", false), "t");
    assert!(matches!(finalize(Some(&e), " body\n"), FinalStep::AlreadyThere));
    assert!(matches!(finalize(Some(&e), "other"), FinalStep::Edit { message_id } if message_id == "m"));
    assert!(matches!(finalize(None, "other"), FinalStep::LeaveAsIs));
    assert!(matches!(finalize(Some(&e), &"x".repeat(4001)), FinalStep::LeaveAsIs));
}

#[test]
fn voice_notes() {
    assert!(wants_voice_note(None) && wants_voice_note(Some(true)) && !wants_voice_note(Some(false)));
    assert_eq!(voice_note_mimetype(" Audio/OGG ", true), "audio/ogg; codecs=opus");
    assert_eq!(voice_note_mimetype("audio/ogg", false), "audio/ogg");
    assert_eq!(voice_note_mimetype("audio/mpeg", true), "audio/mpeg");
}

#[test]
fn store_rules() {
    assert!(check_identity(vec![1; 32]).is_ok());
    assert_eq!(check_identity(vec![1; 31]).err().unwrap(), "identity key length 31 != 32");
    assert!(has_same_base_key(&Some(vec![1, 2]), &vec![1, 2]));
    assert!(!has_same_base_key(&Some(vec![1, 2]), &vec![1, 3]));
    assert!(!has_same_base_key(&Some(vec![1]), &vec![1, 3]));
    assert!(!has_same_base_key(&None, &vec![]));
    let row = |jid: &str, token: Option<Vec<u8>>, t, st| TokenRow { jid: s(jid), token, token_timestamp: t, sender_timestamp: st };
    let rows = vec![
        row("fresh", Some(vec![1]), 100, None),
        row("old", Some(vec![1]), 99, None),
        row("empty", Some(vec![]), 100, Some(49)),
        row("sender", None, 0, Some(50)),
    ];
    assert_eq!(expired_tc_tokens(&rows, 100, 50), vec!["old", "empty"]);
    assert_eq!(delete_sender_key_device_rows(0), None);
    assert_eq!(
        delete_sender_key_device_rows(2).unwrap(),
        "DELETE FROM wa_sender_key_devices WHERE device_id = ? AND device_jid IN (?, ?)"
    );
}
