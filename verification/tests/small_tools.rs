use crabs::json::Json;
use crabs::tools::github_issue::{
    after_create, after_list, parse_repo_from_agents_md, GhOutcome, GithubIssueTool, IssueStep,
};
use crabs::tools::load_brain_file::{BrainFile, LoadBrainFileTool, LoadStep};
use crabs::tools::rebuild::{
    built_path, detached_build_command, rebuild_completion_hook, rebuild_deliver_target,
    restart_failed, Completion, RebuildTool,
};
use crabs::tools::serper_search::{
    answer, refused, request_body, validate_input, SerperOrganic, SerperSearchInput,
    SerperSearchTool,
};
use crabs::tools::slash_command::{
    directory_checked, directory_persisted, policy_read, policy_written, source_detected,
    user_command, DirProbe, SlashCommandTool, SlashStep, UserCommand,
};
use crabs::tools::whatsapp_history::{
    clamp_search, history_line, HistoryRow, WhatsAppHistoryTool,
};

fn s(t: &str) -> String {
    t.to_string()
}

fn obj(members: Vec<(&str, &str)>) -> Json {
    Json::Object(members.into_iter().map(|(k, v)| (s(k), Json::Str(s(v)))).collect())
}

fn slash(command: &str, args: &str) -> SlashStep {
    let tool = SlashCommandTool {};
    tool.execute(&obj(vec![("command", command), ("args", args)]))
}

fn bare(command: &str) -> SlashStep {
    let tool = SlashCommandTool {};
    tool.execute(&obj(vec![("command", command)]))
}

#[test]
fn test_tool_metadata() {
    let tool = SlashCommandTool {};
    assert_eq!(tool.name(), "slash_command");
    assert!(tool.requires_approval());
}

#[test]
fn test_missing_slash() {
    match bare("cd") {
        SlashStep::Done(r) => {
            assert!(!r.success);
            assert!(r.text.contains("must start with '/'"));
        }
        _ => panic!("expected an answer"),
    }
}

#[test]
fn test_tui_only_command() {
    match bare("/models") {
        SlashStep::Done(r) => {
            assert!(r.success);
            assert!(r.text.contains("TUI-only"));
        }
        _ => panic!("expected an answer"),
    }
}

#[test]
fn test_cd_no_args() {
    match bare("/cd") {
        SlashStep::Done(r) => {
            assert!(!r.success);
            assert!(r.text.contains("No directory"));
        }
        _ => panic!("expected an answer"),
    }
}

#[test]
fn test_unknown_command() {
    match bare("/nonexistent") {
        SlashStep::LookUp { command } => {
            let r = user_command(&vec![], &command);
            assert!(!r.success);
            assert!(r.text.contains("Unknown command"));
        }
        _ => panic!("expected a lookup"),
    }
}

#[test]
fn slash_commands_take_their_way() {
    assert!(matches!(slash("/cd", "  /tmp "), SlashStep::ChangeDir { path } if path == "/tmp"));
    assert!(matches!(slash("/rebuild", ""), SlashStep::DetectSource));
    assert!(matches!(slash("/approve", " "), SlashStep::ReadPolicy));
    assert!(
        matches!(slash("/approve", "auto-always"), SlashStep::WritePolicy { policy } if policy == "auto-always")
    );
    assert!(matches!(slash("/approve", "yolo"), SlashStep::Done(r) if !r.success
        && r.text == "Invalid policy: 'yolo'. Valid: approve-only, auto-session, auto-always"));
    assert!(matches!(slash("/compact", ""), SlashStep::Done(r) if r.success));
    assert!(matches!(slash("/whisper", ""), SlashStep::Done(r) if r.success));
}

#[test]
fn builtin_commands_are_never_looked_up() {
    for c in [
        "/cd", "/compact", "/rebuild", "/approve", "/models", "/sessions", "/help", "/onboard",
        "/usage", "/whisper", "/settings",
    ] {
        assert!(!matches!(slash(c, ""), SlashStep::LookUp { .. }), "{c}");
    }
}

#[test]
fn cd_answers() {
    assert!(matches!(directory_checked("/x", DirProbe::Missing), Err(r) if r.text == "Path does not exist: /x"));
    assert!(matches!(directory_checked("/x", DirProbe::NotDirectory), Err(r) if r.text == "Path is not a directory: /x"));
    assert!(matches!(directory_checked("/x", DirProbe::Unresolved(s("e"))), Err(r) if r.text == "Failed to resolve path: e"));
    assert!(matches!(directory_checked("/x", DirProbe::Resolved(s("/y"))), Ok(p) if p == "/y"));
    assert_eq!(directory_persisted("/y", &Ok(())).text, "Working directory changed to: /y");
    assert!(!directory_persisted("/y", &Err(s("ro"))).success);
    assert!(source_detected(&Ok(s("/src"))).text.starts_with("Source detected at: /src."));
    assert_eq!(source_detected(&Err(s("no"))).text, "Cannot detect project source: no");
    assert_eq!(policy_read(&Ok(s("auto-session"))).text, "Current approval policy: auto-session");
    assert_eq!(policy_read(&Err(s("io"))).text, "Failed to read config: io");
    assert_eq!(policy_written("auto-always", &Ok(())).text, "Approval policy set to: auto-always");
    assert_eq!(policy_written("auto-always", &Err(s("io"))).text, "Failed to write config: io");
}

#[test]
fn user_commands_answer_by_action() {
    let cmds = vec![
        UserCommand { name: s("/deploy"), description: s("ship it"), action: s("prompt"), prompt: s("run the deploy") },
        UserCommand { name: s("/note"), description: s("n"), action: s("system"), prompt: s("hello") },
    ];
    assert_eq!(user_command(&cmds, "/deploy").text, "User command '/deploy' (ship it): run the deploy");
    assert_eq!(user_command(&cmds, "/note").text, "[System message] hello");
    let r = user_command(&cmds, "/gone");
    assert_eq!(
        r.text,
        "Unknown command: '/gone'. Built-in: /cd, /compact, /rebuild, /approve, /models, /sessions, /help, /onboard, /usage, /whisper, /settings. User-defined: /deploy, /note"
    );
    assert!(user_command(&vec![], "/gone").text.ends_with("User-defined: (none)"));
}

#[test]
fn repo_marker_is_found() {
    let text = "# Agents\n<!-- rsi:github-issues repo:adolfo/crabs -->\n";
    assert_eq!(parse_repo_from_agents_md(text), Some(s("adolfo/crabs")));
    assert_eq!(parse_repo_from_agents_md("<!-- rsi:github-issues repo:a/b-->"), Some(s("a/b")));
    assert_eq!(parse_repo_from_agents_md("<!-- rsi:github-issues repo:nope -->"), None);
    assert_eq!(parse_repo_from_agents_md("repo:a/b"), None);
    assert_eq!(
        parse_repo_from_agents_md("rsi:github-issues\nrsi:github-issues repo: c/d"),
        Some(s("c/d"))
    );
}

#[test]
fn issue_requests_begin() {
    let t = GithubIssueTool::new(s("o/r"));
    match t.execute(&obj(vec![("action", "list")])) {
        IssueStep::List(a) => assert_eq!(
            a,
            vec![
                "issue", "list", "--repo", "o/r", "--label", "rsi-detected", "--state", "open",
                "--limit", "20", "--json", "number,title,url,createdAt"
            ]
        ),
        _ => panic!("expected a listing"),
    }
    assert!(matches!(t.execute(&obj(vec![("action", "create"), ("title", "T")])),
        IssueStep::Done(r) if r.text == "title and body are required for 'create'"));
    assert!(matches!(t.execute(&obj(vec![("action", "close")])),
        IssueStep::Done(r) if r.text == "Unknown action: 'close'. Use 'list' or 'create'."));
    match t.execute(&obj(vec![("action", "create"), ("title", "T"), ("body", "B")])) {
        IssueStep::Search(a) => {
            assert_eq!(a[8], "--search");
            assert_eq!(a[9], "T");
        }
        _ => panic!("expected a search"),
    }
}

fn ran(success: bool, out: &str) -> GhOutcome {
    GhOutcome::Output { success, stdout: s(out), stderr: s("") }
}

#[test]
fn searches_are_read_from_the_output() {
    let t = GithubIssueTool::new(s("o/r"));
    let input = obj(vec![("action", "create"), ("title", "T"), ("body", "B")]);
    let open = r#"[{"title": "other"}, 7, {"title": "[RSI] t", "number": 3, "url": "https://x/\u0031"}]"#;
    assert!(matches!(t.after_search(&input, &ran(true, open)),
        IssueStep::Done(r) if r.success && r.text == "Duplicate — open issue already exists: https://x/1"));
    assert!(matches!(t.after_search(&input, &ran(false, open)), IssueStep::Create(_)));
    assert!(matches!(t.after_search(&input, &GhOutcome::Failed(s("no gh"))), IssueStep::Create(_)));
    assert!(matches!(t.after_search(&input, &ran(true, "[]")), IssueStep::Create(_)));
    assert!(matches!(t.after_search(&input, &ran(true, r#"{"title": "t"}"#)), IssueStep::Create(_)));
    assert!(matches!(t.after_search(&input, &ran(true, "not json")), IssueStep::Create(_)));
    assert!(matches!(t.after_search(&input, &ran(true, r#"[{"title": "T", "url": 5}]"#)),
        IssueStep::Done(r) if r.text.ends_with("(unknown)")));
}

#[test]
fn open_title_is_not_filed_again() {
    let t = GithubIssueTool::new(s("o/r"));
    let input = obj(vec![("action", "create"), ("title", "Leak In Loop"), ("body", "B"), ("labels", "bug, rsi-detected, ,perf")]);
    let open = vec![(Some(s("[RSI] leak in loop")), Some(s("https://x/1")))];
    match t.after_reading(&input, &Some(open)) {
        IssueStep::Done(r) => {
            assert!(r.success);
            assert_eq!(r.text, "Duplicate — open issue already exists: https://x/1");
        }
        _ => panic!("expected a duplicate"),
    }
    let nameless = vec![(Some(s("LEAK IN LOOP")), None)];
    assert!(matches!(t.after_reading(&input, &Some(nameless)),
        IssueStep::Done(r) if r.text.ends_with("(unknown)")));
    for issues in [None, Some(vec![(Some(s("other")), None), (None, Some(s("https://x/2")))])] {
        match t.after_reading(&input, &issues) {
            IssueStep::Create(a) => assert_eq!(
                a,
                vec![
                    "issue", "create", "--repo", "o/r", "--title", "[RSI] Leak In Loop", "--body",
                    "B", "--label", "rsi-detected,bug,perf"
                ]
            ),
            _ => panic!("expected a creation"),
        }
    }
}

#[test]
fn marked_titles_are_not_marked_twice() {
    let t = GithubIssueTool::new(s("o/r"));
    let input = obj(vec![("action", "create"), ("title", "[RSI] X"), ("body", "B")]);
    assert!(matches!(t.after_reading(&input, &None), IssueStep::Create(a) if a[5] == "[RSI] X" && a[9] == "rsi-detected"));
}

#[test]
fn gh_outcomes() {
    let ok = |out: &str| GhOutcome::Output { success: true, stdout: s(out), stderr: s("") };
    let bad = GhOutcome::Output { success: false, stdout: s(""), stderr: s("boom") };
    assert_eq!(after_list(&ok(" [] \n")).text, "No open rsi-detected issues found.");
    assert_eq!(after_list(&ok("[{}]")).text, "[{}]");
    assert_eq!(after_list(&bad).text, "gh issue list failed: boom");
    assert_eq!(after_list(&GhOutcome::Failed(s("nf"))).text, "Failed to run gh command: nf");
    assert_eq!(after_create(&ok(" https://x/2\n")).text, "Issue created: https://x/2");
    assert_eq!(after_create(&bad).text, "gh issue create failed: boom");
    assert!(!after_create(&GhOutcome::Failed(s("nf"))).success);
}

#[test]
fn rebuild_targets() {
    let t = |c: &str, chat: Option<&str>, th: Option<&str>| {
        rebuild_deliver_target(c, &chat.map(s), &th.map(s))
    };
    assert_eq!(t("telegram", Some(" 42 "), None), Some(s("telegram:42")));
    assert_eq!(t("telegram", Some("42"), Some(" 7 ")), Some(s("telegram:42:7")));
    assert_eq!(t("telegram", Some("42"), Some(" ")), Some(s("telegram:42")));
    assert_eq!(t("discord", Some("42"), Some("7")), Some(s("discord:42")));
    assert_eq!(t("slack", Some("c"), None), Some(s("slack:c")));
    assert_eq!(t("tui", Some("42"), None), None);
    assert_eq!(t("telegram", Some("  "), None), None);
    assert_eq!(t("telegram", None, None), None);
}

#[test]
fn rebuild_completion() {
    assert_eq!(detached_build_command(), "RUSTFLAGS='-C target-cpu=native' cargo build --release");
    assert_eq!(built_path("/src"), "/src/target/release/opencrabs");
    match rebuild_completion_hook(true, "", "/src", "/bin/oc", true, &vec![s("a"), s("b")], &Some(s("slack:c"))) {
        Completion::Restart { binary, report, warning, notice } => {
            assert_eq!(binary, "/src/target/release/opencrabs");
            assert_eq!(report, "✅ Background rebuild succeeded — binary at /src/target/release/opencrabs. Hot-reloading now.");
            assert!(warning.unwrap().ends_with("restart: a, b"));
            let n = notice.unwrap();
            assert_eq!(n.target, "slack:c");
            assert_eq!(n.text, "✅ Rebuilt from source — reloading into the new binary now.");
        }
        _ => panic!("expected a restart"),
    }
    match rebuild_completion_hook(true, "", "/src", "/bin/oc", false, &vec![], &None) {
        Completion::Restart { binary, warning, notice, .. } => {
            assert_eq!(binary, "/bin/oc");
            assert!(warning.is_none() && notice.is_none());
        }
        _ => panic!("expected a restart"),
    }
    assert_eq!(restart_failed("no exec"), "⚠️ Rebuild finished but the reload failed: no exec");
}

#[test]
fn failed_build_shows_the_end_of_its_output() {
    let output = format!("{}{}", "x".repeat(10), "é".repeat(2000));
    match rebuild_completion_hook(false, &output, "/src", "/b", true, &vec![], &Some(s("slack:c"))) {
        Completion::Failed { message, notice } => {
            assert_eq!(message, format!("⚠️ Background rebuild failed:\n{}", "é".repeat(2000)));
            assert_eq!(notice.unwrap().text, message);
        }
        _ => panic!("expected a failure"),
    }
    let odd = format!("é{}", "y".repeat(3999));
    assert!(matches!(rebuild_completion_hook(false, &odd, "/s", "/b", true, &vec![], &None),
        Completion::Failed { message, .. } if message == format!("⚠️ Background rebuild failed:\n{}", "y".repeat(3999))));
}

#[test]
fn rebuild_needs_its_services() {
    let t = RebuildTool::new();
    assert!(t.refused(true, true).is_none());
    assert!(t.refused(false, true).unwrap().text.contains("background task manager"));
    assert!(t.refused(true, false).unwrap().text.contains("service context"));
    assert!(t.started(&Ok(())).success);
    assert_eq!(RebuildTool::default().started(&Err(s("rebuild: x"))).text, "rebuild: x");
}

#[test]
fn serper_requests() {
    assert_eq!(SerperSearchTool::new(s("k")).api_key, "k");
    let q = |query: &str, n: usize, gl: Option<&str>, hl: Option<&str>| SerperSearchInput {
        query: s(query), max_results: n, gl: gl.map(s), hl: hl.map(s),
    };
    assert_eq!(request_body(&q("a \"b\"", 3, None, None)), "{\"q\":\"a \\\"b\\\"\",\"num\":3}");
    assert_eq!(
        request_body(&q("a", 5, Some(" pt "), Some("  "))),
        "{\"q\":\"a\",\"num\":5,\"gl\":\"pt\"}"
    );
    assert!(validate_input(&q("a", 5, Some("us"), Some("en"))).is_ok());
    let why = |i: SerperSearchInput| validate_input(&i).err().unwrap().message();
    assert_eq!(why(q("  ", 5, None, None)), "Invalid input: Query cannot be empty");
    assert_eq!(why(q("a", 0, None, None)), "Invalid input: max_results must be between 1 and 10");
    assert_eq!(why(q("a", 11, None, None)), "Invalid input: max_results must be between 1 and 10");
    assert_eq!(why(q("a", 1, Some(" "), None)), "Invalid input: gl cannot be empty when provided");
    assert_eq!(why(q("a", 1, None, Some(""))), "Invalid input: hl cannot be empty when provided");
}

#[test]
fn serper_answers() {
    let hits = vec![
        SerperOrganic { title: s("One"), link: s("https://1"), snippet: Some(s("first")) },
        SerperOrganic { title: s("Two"), link: s("https://2"), snippet: None },
    ];
    assert_eq!(
        answer("q", &hits).text,
        "Search results for: \"q\"\n\n1. One\n   URL: https://1\n   first\n\n2. Two\n   URL: https://2\n\n"
    );
    assert!(answer("q", &vec![]).text.ends_with("No results found. Try rephrasing your query.\n"));
    assert_eq!(refused("403 Forbidden", "no").text, "Serper search failed with status 403 Forbidden: no");
}

fn brain() -> Vec<BrainFile> {
    vec![
        BrainFile { name: s("USER.md"), label: s("user profile") },
        BrainFile { name: s("MEMORY.md"), label: s("memory") },
    ]
}

#[test]
fn only_listed_brain_files_are_read() {
    let t = LoadBrainFileTool {};
    let step = |n: &str| t.execute(&obj(vec![("name", n)]), &brain());
    assert!(matches!(step(" memory.MD "), LoadStep::Read { name } if name == "MEMORY.md"));
    assert!(matches!(step("all"), LoadStep::ReadAll));
    assert!(matches!(step("../../etc/passwd"), LoadStep::Done(r) if !r.success
        && r.text == "Unknown brain file '../../etc/passwd'. Valid options: USER.md, MEMORY.md (or \"all\")"));
    assert!(matches!(step(" "), LoadStep::Done(r) if r.text == "name parameter is required"));
}

#[test]
fn brain_file_answers() {
    let t = LoadBrainFileTool {};
    assert_eq!(t.one_read("A.md", &Some(s(" hi \n"))).text, "--- A.md ---\nhi");
    assert_eq!(t.one_read("A.md", &Some(s(" \n"))).text, "A.md exists but is empty.");
    assert_eq!(t.one_read("A.md", &None).text, "A.md not found at ~/.opencrabs/A.md. No content available.");
    assert_eq!(
        t.all_read(&brain(), &vec![Some(s("u\n")), None]).text,
        "--- USER.md (user profile) ---\nu\n\n"
    );
    assert_eq!(t.all_read(&brain(), &vec![None, Some(s(" "))]).text, "No contextual brain files found.");
}

#[test]
fn tools_hint_at_their_effects() {
    let send = crabs::tools::whatsapp_send::hints();
    assert!(!send.read_only && send.destructive && !send.idempotent && send.open_world);
    let history = WhatsAppHistoryTool::new().hints(send);
    assert!(history.read_only && !history.destructive && !history.idempotent && history.open_world);
}

#[test]
fn history_search_is_clamped() {
    assert_eq!(clamp_search(0, 0), (1, 1));
    assert_eq!(clamp_search(365, 1000), (90, 100));
    assert_eq!(clamp_search(7, 20), (7, 20));
    let t = WhatsAppHistoryTool::new();
    let q = t.execute(&obj(vec![("chat", "5@g.us"), ("query", "x")]), 10_000_000).ok().unwrap();
    assert_eq!((q.days, q.limit, q.since), (90, 50, 10_000_000 - 90 * 86400));
    let j = Json::Object(vec![
        (s("chat"), Json::Str(s("5@g.us"))),
        (s("days"), Json::Number(s("400"))),
        (s("limit"), Json::Number(s("-3"))),
    ]);
    let q = t.execute(&j, 0).ok().unwrap();
    assert_eq!((q.days, q.limit), (90, 1));
    assert!(matches!(t.execute(&obj(vec![]), 0), Err(r) if r.text == "Missing required parameter 'chat'."));
}

#[test]
fn history_answers() {
    let t = WhatsAppHistoryTool::new();
    let q = t.execute(&obj(vec![("chat", "c"), ("query", "hi")]), 0).ok().unwrap();
    let rows = vec![
        HistoryRow { content: s("hi there"), sender: s("Ana"), at: 86_400 },
        HistoryRow { content: s("hi"), sender: s("Bo"), at: 0 },
    ];
    assert_eq!(
        t.found(&q, &rows).text,
        "2 stored message(s) for c, newest first (window 90d):\n[1970-01-02 00:00] Ana: hi there\n[1970-01-01 00:00] Bo: hi"
    );
    assert_eq!(t.found(&q, &vec![]).text, "No stored WhatsApp history for c in the last 90 day(s) matching 'hi'.");
    let far = HistoryRow { content: s("x"), sender: s("A"), at: i64::MAX };
    assert_eq!(history_line(&far, None), "[9223372036854775807] A: x");
    assert!(t.found(&q, &vec![far]).text.ends_with("[9223372036854775807] A: x"));
    assert_eq!(t.failed("db").text, "History search failed: db");
}
