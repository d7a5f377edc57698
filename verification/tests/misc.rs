use crabs::channels::attachments::{
    attachment_path, channel_attachments_dir, sanitize_attachment_name,
};
use crabs::channels::session_init::{chat_key, inherit, Choice};
use crabs::db::decision_cache::delete_unknown_tiers;
use crabs::db::pending_followup::{load, save, FollowupHost, PendingFollowup};
use crabs::db::session_skills::{all, to_row, SkillColumns};
use crabs::service::context_rows::{next_sweep, stage_after, take_reasoning, Row, Stage, Sweep};
use crabs::service::failure_window::{count, record, STICKY_FALLBACK_WINDOW};
use crabs::service::memory_recall::{
    cache_holds, recall_from, render, touch_recalled, worth_reading_for, Section, Stamp,
};
use crabs::text::{tail_of, truncate_str};
use crabs::timeout::{resolve_timeout, TimeoutTier};
use crabs::trello::{
    process_comment, reply_comments, session_for, split_comment, Card, Comment, SessionPlan,
};

fn s(t: &str) -> String {
    t.to_string()
}

#[test]
fn long_comments_are_split() {
    assert_eq!(split_comment("short", 10), vec!["short"]);
    assert_eq!(split_comment("", 0), vec![""]);
    assert_eq!(split_comment("ab\ncd\nef", 6), vec!["ab\ncd\n", "ef"]);
    assert_eq!(split_comment("abcdef", 4), vec!["abcd", "ef"]);
    assert_eq!(split_comment("éééé", 3), vec!["ééé", "é"]);
    let text = "line one\nline two is longer\n\nend".repeat(7);
    for n in 1..20 {
        let parts = split_comment(&text, n);
        assert_eq!(parts.concat(), text);
        assert!(parts.iter().all(|p| p.chars().count() <= n));
    }
}

#[test]
fn comments_are_routed() {
    let c = |card: bool, text: &str| Comment {
        card: if card { Some(Card { id: s("c1"), name: s("Fix it") }) } else { None },
        member_id: s("m1"),
        member_name: s("Ana"),
        text: s(text),
    };
    let r = process_comment(&c(true, " hi "), &Some(s("m1"))).unwrap();
    assert_eq!((r.card_id.as_str(), r.message.as_str(), r.is_owner), ("c1", "[Trello card: Fix it]\nhi", true));
    assert!(!process_comment(&c(true, "hi"), &None).unwrap().is_owner);
    assert!(process_comment(&c(false, "hi"), &None).is_none());
    assert!(process_comment(&c(true, " \n"), &None).is_none());
    assert!(matches!(session_for(true, "Ana", Some(1), Some(2)), SessionPlan::Use(1)));
    assert!(matches!(session_for(false, "Ana", Some(1), Some(2)), SessionPlan::Use(2)));
    assert!(matches!(session_for(true, "Ana", None, Some(2)), SessionPlan::Create { title } if title == "Trello"));
    assert!(matches!(session_for(false, "Ana", Some(1), None), SessionPlan::Create { title } if title == "Trello: Ana"));
    assert!(reply_comments("  ").is_empty());
    assert_eq!(reply_comments(&"x".repeat(4001)).len(), 2);
}

#[test]
fn attachment_names_are_inert() {
    assert_eq!(sanitize_attachment_name("../../etc/pass wd"), "_.._etc_pass_wd");
    assert_eq!(sanitize_attachment_name("..."), "attachment.bin");
    assert_eq!(sanitize_attachment_name(""), "attachment.bin");
    assert_eq!(sanitize_attachment_name(".env"), "env");
    assert_eq!(sanitize_attachment_name("rés.png"), "r_s.png");
    assert_eq!(channel_attachments_dir("/h"), "/h/channel_attachments");
    assert_eq!(attachment_path("/h/channel_attachments", "slack", 17, "a/b"), "/h/channel_attachments/slack/17-a_b");
}

#[test]
fn new_sessions_inherit() {
    let choice = |p: Option<&str>, m: Option<&str>| Some(Choice { provider: p.map(s), model: m.map(s) });
    let r = inherit(&choice(Some("or"), Some("m")), &choice(Some("d"), Some("dm")), &Some(s("/w")));
    assert_eq!((r.provider, r.model, r.working_directory), (Some(s("or")), Some(s("m")), Some(s("/w"))));
    let r = inherit(&choice(None, Some("m")), &choice(Some("d"), None), &None);
    assert_eq!((r.provider, r.model, r.working_directory), (Some(s("d")), None, None));
    let r = inherit(&choice(None, Some("m")), &choice(None, Some("dm")), &None);
    assert_eq!((r.provider, r.model), (None, Some(s("m"))));
    let r = inherit(&None, &None, &None);
    assert!(r.provider.is_none() && r.model.is_none());
}

#[test]
fn chat_keys() {
    assert_eq!(chat_key(&Some(s("Telegram: Ana [chat:42]"))), Some(s("[chat:42]")));
    assert_eq!(chat_key(&Some(s("[chat:1] [chat:2] x"))), Some(s("[chat:2] x")));
    assert_eq!(chat_key(&Some(s("plain"))), None);
    assert_eq!(chat_key(&None), None);
}

#[test]
fn timeouts_resolve() {
    let r = resolve_timeout(Some(120), Some(60), Some(300));
    assert_eq!((r.effective, r.tier, r.override_duration()), (Some(120), TimeoutTier::Provider, Some(120)));
    let r = resolve_timeout(None, Some(60), Some(300));
    assert_eq!((r.duration(), r.tier), (Some(60), TimeoutTier::Agent));
    let r = resolve_timeout(None, None, Some(300));
    assert_eq!((r.duration(), r.tier, r.override_duration()), (Some(300), TimeoutTier::Default, None));
    let r = resolve_timeout(Some(0), None, Some(300));
    assert_eq!((r.duration(), r.tier, r.provider_zero), (Some(300), TimeoutTier::Default, true));
    assert_eq!(r.zero_note(), Some("[providers.<name>] carried 0"));
    let r = resolve_timeout(None, None, None);
    assert_eq!((r.duration(), r.tier, r.zero_note()), (None, TimeoutTier::Default, None));
    assert_eq!(resolve_timeout(Some(0), Some(0), None).zero_note(), Some("[providers.<name>] and [agent] both carried 0"));
    assert_eq!(resolve_timeout(Some(5), Some(0), None).zero_note(), Some("[agent] carried 0"));
    assert_eq!(TimeoutTier::Agent.label(), "[agent]");
    assert_eq!(TimeoutTier::Default.label(), "compiled default");
}

#[test]
fn failures_age_out() {
    let minute = 60_000_000_000u64;
    let mut f = Vec::new();
    assert_eq!(record(&mut f, minute, STICKY_FALLBACK_WINDOW), 1);
    assert_eq!(record(&mut f, 10 * minute, STICKY_FALLBACK_WINDOW), 2);
    assert_eq!(count(&f, 16 * minute, STICKY_FALLBACK_WINDOW), 2);
    assert_eq!(count(&f, 16 * minute + 1, STICKY_FALLBACK_WINDOW), 1);
    assert_eq!(record(&mut f, 17 * minute, STICKY_FALLBACK_WINDOW), 2);
    assert_eq!(f, vec![10 * minute, 17 * minute]);
    assert_eq!(count(&f, 17 * minute, STICKY_FALLBACK_WINDOW), 2);
}

#[test]
fn rows_are_swept_in_order() {
    let row = Row { role: s("assistant"), content: s("<!-- phantom_blocked=1 -->x"), thinking: None };
    let mut stage = Stage::Raw;
    let mut seen = Vec::new();
    while stage != Stage::Clean {
        let sweep = next_sweep(stage, &row, true);
        seen.push(sweep);
        stage = stage_after(sweep);
    }
    let want = [Sweep::StripPhantom, Sweep::HoistReasoning, Sweep::StripArtifacts, Sweep::StripBanner];
    assert!(seen.len() == 4 && seen.iter().zip(want.iter()).all(|(a, b)| a == b));
    let plain = Row { role: s("user"), content: s("x"), thinking: None };
    assert!(next_sweep(Stage::Raw, &plain, true) == Sweep::StripBanner);
    assert!(next_sweep(Stage::Clean, &row, true) == Sweep::Nothing);
}

#[test]
fn reasoning_is_hoisted() {
    let mut row = Row { role: s("assistant"), content: s("c"), thinking: Some(s("old")) };
    take_reasoning(&mut row, s("clean"), Some(s("new")));
    assert_eq!((row.content.as_str(), row.thinking.as_deref()), ("clean", Some("old\n\nnew")));
    let mut row = Row { role: s("assistant"), content: s("c"), thinking: Some(s(" ")) };
    take_reasoning(&mut row, s("clean"), Some(s("new")));
    assert_eq!(row.thinking.as_deref(), Some("new"));
    take_reasoning(&mut row, s("other"), None);
    assert_eq!(row.content, "clean");
}

#[test]
fn recall_is_labelled() {
    let sec = |h: &str, r: &str| Section { heading: s(h), rendered: s(r) };
    let found = vec![sec("## Deploy", "## Deploy\nship"), sec(" # ", "x")];
    assert_eq!(
        recall_from("how to deploy", &vec![s("deploy")], &found),
        Some(s("─── from your MEMORY.md, possibly relevant ───\n## Deploy\nship\n\nx\n[Recalled automatically. Load MEMORY.md with a query for more.]"))
    );
    assert_eq!(recall_from("[System: restart]", &vec![s("restart")], &found), None);
    assert_eq!(recall_from("ok", &vec![], &found), None);
    assert!(worth_reading_for("deploy", &vec![s("deploy")]));
    assert_eq!(render(&vec![]), None);
    assert_eq!(touch_recalled(&found), vec!["MEMORY.md##Deploy"]);
    let a = Stamp { modified: 1, len: 2 };
    assert!(cache_holds(&Some(a), a));
    assert!(!cache_holds(&Some(a), Stamp { modified: 1, len: 3 }));
    assert!(!cache_holds(&None, a));
}

#[test]
fn saved_keyboards_load_back() {
    let entry = PendingFollowup {
        token: s("t"),
        session_id: s("s"),
        options: vec![s("a \"q\""), s("b\n")],
        host: Some(FollowupHost { message_id: 5, html: s("<b>"), rich: true, markdown: Some(s("**")) }),
    };
    let c = save(&entry);
    assert_eq!(c.options_json, "[\"a \\\"q\\\"\",\"b\\n\"]");
    let back = load(c).unwrap();
    assert_eq!(back.options, entry.options);
    let h = back.host.unwrap();
    assert_eq!((h.message_id, h.html.as_str(), h.rich, h.markdown.as_deref()), (5, "<b>", true, Some("**")));
    let mut bare = save(&PendingFollowup { token: s("t"), session_id: s("s"), options: vec![], host: None });
    assert!(bare.host_message_id.is_none());
    bare.options_json = s("nope");
    assert!(load(bare).is_none());
}

#[test]
fn unreadable_sessions_are_skipped() {
    let c = |id: &str| SkillColumns { session_id: s(id), slug: s("sk"), epoch: Some(2), loaded_mtime: Some(9) };
    let rows = all(&vec![c("00000000-0000-0000-0000-00000000000a"), c("bad"), c("0000000000000000000000000000000b")]);
    assert_eq!(rows.iter().map(|r| r.session).collect::<Vec<_>>(), vec![10, 11]);
    assert_eq!((rows[0].epoch, rows[0].loaded_mtime), (Some(2), Some(9)));
    assert!(to_row(&c("x"), None).is_none());
    assert_eq!(to_row(&c("x"), Some(4)).unwrap().session, 4);
}

#[test]
fn statements_have_a_mark_per_value() {
    assert_eq!(delete_unknown_tiers(0), "DELETE FROM decision_cache");
    assert_eq!(delete_unknown_tiers(3), "DELETE FROM decision_cache WHERE tier_id NOT IN (?,?,?)");
}

#[test]
fn texts_are_cut_at_characters() {
    assert_eq!(truncate_str("aé€😀", 3), "aé");
    assert_eq!(truncate_str("aé€😀", 9), "aé€");
    assert_eq!(truncate_str("aé€😀", 10), "aé€😀");
    assert_eq!(tail_of("aé€😀", 6), "😀");
    assert_eq!(tail_of("aé€😀", 7), "€😀");
    assert_eq!(tail_of("abc", 10), "abc");
}
