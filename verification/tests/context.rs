use crabs::context::{
    consolidated_marker_text, delta_marker_text, full_marker_text, AgentContext, CompactionScope,
    ContentBlock, Counted, DbMessage, Message, Role, TrackedFile,
};

fn c(text: &str, tokens: usize) -> Counted {
    Counted { text: text.to_string(), tokens }
}

fn user(text: &str, tokens: usize) -> Message {
    Message::user(c(text, tokens))
}

fn assistant(text: &str, tokens: usize) -> Message {
    Message { role: Role::Assistant, content: vec![ContentBlock::Text(c(text, tokens))] }
}

fn result(tokens: usize) -> Message {
    Message {
        role: Role::User,
        content: vec![ContentBlock::ToolResult { id: "t".to_string(), content: c("out", tokens), is_error: None }],
    }
}

fn first_text(m: &Message) -> &str {
    match &m.content[0] {
        ContentBlock::Text(t) => t.text.as_str(),
        _ => "",
    }
}

#[test]
fn messages_are_counted() {
    let mut ctx = AgentContext::new(1, 100).with_system_brain(c("brain", 7));
    assert_eq!(ctx.token_count, 7);
    ctx.add_message(user("hi", 3));
    assert_eq!(ctx.token_count, 14);
    ctx.track_file(TrackedFile { id: 1, path: "/f".to_string(), content: None, token_count: 6 });
    assert_eq!(ctx.token_count, 20);
    assert!(ctx.would_exceed_limit(81));
    assert!(!ctx.would_exceed_limit(80));
    let m = Message {
        role: Role::Assistant,
        content: vec![
            ContentBlock::Image { source: "{}".to_string() },
            ContentBlock::ToolUse { id: "i".to_string(), name: c("bash", 1), input: c("{}", 2) },
            ContentBlock::Thinking { text: c("hm", 5), signature: None },
        ],
    };
    assert_eq!(ctx.estimate_message_tokens(&m), 1012);
    assert_eq!(AgentContext::estimate_tokens_static(&m), 1012);
}

#[test]
fn rows_become_messages() {
    let row = |role: &str, content: &str, thinking: Option<&str>| DbMessage {
        role: role.to_string(),
        content: c(content, 1),
        thinking: thinking.map(|t| c(t, 2)),
    };
    let ctx = AgentContext::from_db_messages(
        9,
        vec![
            row("user", "", None),
            row("assistant", "a", Some("why")),
            row("assistant", "", Some("only")),
            row("tool", "x", Some("dropped")),
            row("assistant", "b", Some("  ")),
        ],
        100,
    );
    assert_eq!(ctx.messages.len(), 4);
    assert_eq!(ctx.messages[0].content.len(), 2);
    assert!(matches!(&ctx.messages[0].content[0], ContentBlock::Thinking { text, signature: None } if text.text == "why"));
    assert!(matches!(&ctx.messages[1].content[0], ContentBlock::Thinking { .. }));
    assert!(ctx.messages[2].role == Role::User && ctx.messages[2].content.len() == 1);
    assert_eq!(ctx.messages[3].content.len(), 1);
    assert_eq!(ctx.token_count, (2 + 1 + 4) + (2 + 4) + (1 + 4) + (1 + 4));
}

#[test]
fn trimming_drops_a_prefix() {
    let mut ctx = AgentContext::new(1, 50);
    for i in 0..5 {
        ctx.add_message(user(&i.to_string(), 6));
    }
    ctx.trim_to_fit(20);
    assert_eq!(ctx.messages.len(), 3);
    assert_eq!(first_text(&ctx.messages[0]), "2");
    assert_eq!(ctx.token_count, 30);
}

#[test]
fn orphaned_results_are_dropped() {
    let mut ctx = AgentContext::new(1, 30);
    ctx.add_message(assistant("call", 16));
    ctx.add_message(result(6));
    ctx.add_message(user("next", 6));
    assert!(AgentContext::is_orphaned_tool_result_msg(&ctx.messages[1]));
    ctx.trim_to_fit(0);
    assert_eq!(ctx.messages.len(), 1);
    assert_eq!(ctx.token_count, 10);
    let mut ctx = AgentContext::new(1, 1000);
    for i in 0..5 {
        ctx.add_message(user(&i.to_string(), 6));
    }
    ctx.hard_truncate_to(0);
    assert_eq!(ctx.messages.len(), 2);
    assert_eq!(first_text(&ctx.messages[0]), "3");
}

#[test]
fn a_budget_does_not_count_the_summary() {
    let mut ctx = AgentContext::new(1, 1000);
    for i in 0..3 {
        ctx.add_message(user(&i.to_string(), 0));
    }
    assert_eq!(ctx.token_count, 12);
    ctx.compact_with_summary("s", 500, 12);
    assert_eq!(ctx.messages.len(), 4);
    assert_eq!(first_text(&ctx.messages[1]), "0");
    assert_eq!(ctx.token_count, 504 + 12);
}

#[test]
fn truncation_keeps_the_most_recent_pair() {
    let mut ctx = AgentContext::new(1, 1000);
    ctx.add_message(user("ask", 6));
    ctx.add_message(assistant("call", 6));
    ctx.add_message(result(6));
    ctx.add_message(assistant("done", 6));
    ctx.hard_truncate_to(0);
    assert_eq!(ctx.messages.len(), 2);
    assert!(AgentContext::is_orphaned_tool_result_msg(&ctx.messages[0]));
    assert_eq!(first_text(&ctx.messages[1]), "done");
    assert_eq!(ctx.token_count, 20);
    let mut ctx = AgentContext::new(1, 1000);
    ctx.add_message(assistant("call", 6));
    ctx.add_message(result(6));
    ctx.add_message(user("more", 6));
    ctx.add_message(assistant("done", 6));
    ctx.hard_truncate_to(35);
    assert_eq!(ctx.messages.len(), 2);
    assert_eq!(first_text(&ctx.messages[0]), "more");
}

#[test]
fn provider_count_anchors_the_budget() {
    let mut ctx = AgentContext::new(1, 1000);
    ctx.add_message(user("a", 6));
    assert_eq!(ctx.effective_token_count(), 10);
    ctx.record_provider_reported_tokens(100);
    assert_eq!(ctx.effective_token_count(), 100);
    ctx.add_message(user("b", 6));
    assert_eq!(ctx.effective_token_count(), 110);
    ctx.trim_to_fit(985);
    assert_eq!(ctx.effective_token_count(), 100);
}

#[test]
fn first_compaction_takes_the_whole_window() {
    let mut ctx = AgentContext::new(1, 1000).with_system_brain(c("b", 5));
    for i in 0..4 {
        ctx.add_message(user(&i.to_string(), 6));
    }
    assert!(ctx.compaction_scope() == CompactionScope::FullWindow);
    let (scope, input, tokens) = ctx.compaction_input(0);
    assert!(scope == CompactionScope::FullWindow && input.len() == 4 && tokens == 45);
    ctx.record_provider_reported_tokens(77);
    ctx.compact_with_summary("sum", 30, 30);
    assert_eq!(ctx.messages.len(), 4);
    assert_eq!(first_text(&ctx.messages[0]), full_marker_text("sum"));
    assert_eq!(first_text(&ctx.messages[1]), "1");
    assert_eq!(ctx.token_count, 5 + 34 + 30);
    assert!(ctx.provider_anchor.is_none());
    assert!(AgentContext::is_compaction_marker_msg(&ctx.messages[0]));
}

#[test]
fn a_clean_compaction_keeps_only_the_summary() {
    let mut ctx = AgentContext::new(1, 1000);
    ctx.add_message(user("x", 6));
    ctx.add_message(assistant("y", 6));
    ctx.compact_with_summary("s", 20, 0);
    assert_eq!(ctx.messages.len(), 1);
    let mut ctx = AgentContext::new(1, 1000);
    for i in 0..4 {
        ctx.add_message(user(&i.to_string(), 600));
    }
    ctx.compact_with_summary("s", 20, 60);
    assert_eq!(ctx.messages.len(), 3);
}

#[test]
fn delta_keeps_frozen_segments() {
    let mut ctx = AgentContext::new(1, 1000);
    ctx.add_message(user("old", 6));
    ctx.compact_with_delta_summary("one", 20, 20);
    assert_eq!(first_text(&ctx.messages[0]), full_marker_text("one"));
    ctx.add_message(user("new", 6));
    assert!(ctx.compaction_scope() == CompactionScope::DeltaSinceMarker);
    let (_, delta, tokens) = ctx.compaction_input(0);
    assert!(delta.len() == 1 && first_text(&delta[0]) == "new" && tokens == 10);
    assert!(delta.iter().all(|m| !AgentContext::is_compaction_marker_msg(m)));
    ctx.compact_with_delta_summary("two", 20, 20);
    assert_eq!(ctx.messages.len(), 2);
    assert_eq!(first_text(&ctx.messages[0]), full_marker_text("one"));
    assert_eq!(first_text(&ctx.messages[1]), delta_marker_text("two"));
    assert_eq!(ctx.segments_token_count(), 48);
    assert_eq!(ctx.segment_marker_texts().len(), 2);
    assert_eq!((ctx.first_marker_index(), ctx.last_marker_index()), (Some(0), Some(1)));
}

#[test]
fn crowded_segments_are_consolidated() {
    let mut ctx = AgentContext::new(1, 60);
    ctx.add_message(user("x", 1));
    ctx.compact_with_delta_summary("one", 20, 20);
    ctx.compact_with_delta_summary("two", 20, 20);
    ctx.add_message(user("tail", 1));
    assert!(ctx.compaction_scope() == CompactionScope::SegmentConsolidation);
    let joined = ctx.consolidation_text();
    assert_eq!(joined, format!("{}\n\n---\n\n{}", full_marker_text("one"), delta_marker_text("two")));
    let (_, input, tokens) = ctx.compaction_input(40);
    assert!(input.len() == 1 && first_text(&input[0]) == joined && tokens == 44);
    ctx.consolidate_segments("all", 20, 20);
    assert_eq!(ctx.messages.len(), 2);
    assert_eq!(first_text(&ctx.messages[0]), consolidated_marker_text("all"));
    assert_eq!(first_text(&ctx.messages[1]), "tail");
    assert_eq!(ctx.token_count, 24 + 5);
}
