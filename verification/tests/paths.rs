use crabs::tools::error::{
    collapse_home, describe_file_type, edit_distance, expand_tilde, missing_file_hint,
    missing_report, resolve_tool_path, strip_path_wrappers, suggest, validate_directory_path,
    validate_file_path, validate_path_safety, FileKind, Probe, ToolError,
};

fn s(t: &str) -> String {
    t.to_string()
}

fn probe(exists: bool, parent_exists: bool, is_file: bool, is_dir: bool) -> Probe {
    Probe { exists, parent_exists, is_file, is_dir, kind: FileKind::Special }
}

#[test]
fn errors_read_as_sentences() {
    assert_eq!(ToolError::NotFound(s("x")).message(), "Tool not found: x");
    assert_eq!(ToolError::InvalidInput(s("x")).message(), "Invalid input: x");
    assert_eq!(ToolError::Execution(s("x")).message(), "Execution error: x");
    assert_eq!(ToolError::PermissionDenied(s("x")).message(), "Permission denied: x");
    assert_eq!(ToolError::ApprovalRequired(s("x")).message(), "Tool requires approval: x");
    assert_eq!(ToolError::FileNotFound(s("x")).message(), "File not found: x");
    assert_eq!(ToolError::Io(s("x")).message(), "I/O error: x");
    assert_eq!(ToolError::Json(s("x")).message(), "JSON error: x");
    assert_eq!(ToolError::Timeout(30).message(), "Tool execution timed out after 30s");
    assert_eq!(ToolError::Internal(s("x")).message(), "Internal error: x");
    assert!(ToolError::NotFound(s("x")).is_pre_execution_miss());
    assert!(ToolError::InvalidInput(s("x")).is_pre_execution_miss());
    assert!(!ToolError::Execution(s("x")).is_pre_execution_miss());
}

#[test]
fn home_is_expanded_and_collapsed() {
    let h = Some("/home/ana");
    assert_eq!(expand_tilde("~/a/b", h), "/home/ana/a/b");
    assert_eq!(expand_tilde("~", h), "/home/ana");
    assert_eq!(expand_tilde("~bob/x", h), "~bob/x");
    assert_eq!(expand_tilde("~/a", None), "~/a");
    assert_eq!(collapse_home("/home/ana/a/b", h), "~/a/b");
    assert_eq!(collapse_home("/home/ana", h), "~");
    assert_eq!(collapse_home("/home/anabel/x", h), "/home/anabel/x");
    for p in ["/home/ana/a/b", "/home/ana", "/etc/hosts"] {
        assert_eq!(expand_tilde(&collapse_home(p, h), h), p);
    }
}

#[test]
fn paths_resolve_against_the_working_directory() {
    assert_eq!(resolve_tool_path("a.txt", "/w", None), "/w/a.txt");
    assert_eq!(resolve_tool_path("/abs", "/w", None), "/abs");
    assert_eq!(resolve_tool_path("~/x", "/w", Some("/h")), "/h/x");
}

#[test]
fn new_files_need_their_directory() {
    assert!(matches!(validate_path_safety("a", "/w", None, probe(true, true, true, false)), Ok(p) if p == "/w/a"));
    assert!(validate_path_safety("n", "/w", None, probe(false, true, false, false)).is_ok());
    match validate_path_safety("d/n", "/w", None, probe(false, false, false, false)) {
        Err(e) => assert!(e.message().ends_with("Parent directory does not exist: /w/d")),
        Ok(_) => panic!("expected an error"),
    }
    match validate_path_safety("/", "/w", None, probe(false, false, false, false)) {
        Err(e) => assert!(e.message().ends_with("Invalid path: no parent directory")),
        Ok(_) => panic!("expected an error"),
    }
}

#[test]
fn wrappers_are_stripped() {
    assert_eq!(strip_path_wrappers(" `a.txt` "), "a.txt");
    assert_eq!(strip_path_wrappers("**b.txt**"), "b.txt");
    assert_eq!(strip_path_wrappers("\" c.txt \""), "c.txt");
    assert_eq!(strip_path_wrappers("'d.txt'"), "d.txt");
    assert_eq!(strip_path_wrappers("``"), "``");
    assert_eq!(strip_path_wrappers("`e"), "`e");
}

#[test]
fn distances() {
    assert_eq!(edit_distance("kitten", "sitting"), 3);
    assert_eq!(edit_distance("", "abc"), 3);
    assert_eq!(edit_distance("Main.RS", "main.rs"), 0);
    assert_eq!(edit_distance("flaw", "lawn"), edit_distance("lawn", "flaw"));
}

#[test]
fn near_names_are_suggested() {
    let names = vec![s("zzz"), s("man.rs"), s("main.rs"), s("mains.rs"), s("maid.rs")];
    let d: Vec<usize> = names.iter().map(|n| edit_distance(n, "mian.rs")).collect();
    assert_eq!(suggest(&names, &d, "mian.rs").len(), 3);
    assert_eq!(missing_report("/a", &vec![]), "File not found: /a");
    assert_eq!(missing_report("/a", &vec![s("b"), s("c")]), "File not found: /a — did you mean: 'b', 'c'?");
    assert_eq!(
        missing_file_hint("/src/mian.rs", &Some(vec![s("main.rs"), s("README.md")])),
        "File not found: /src/mian.rs — did you mean: 'main.rs'?"
    );
    assert_eq!(missing_file_hint("/src/mian.rs", &None), "File not found: /src/mian.rs");
}

#[test]
fn files_and_directories_are_checked() {
    let file = probe(true, true, true, false);
    let dir = probe(true, true, false, true);
    let none = probe(false, true, false, false);
    assert_eq!(validate_file_path("a", "/w", None, file, file, &None), Ok(s("/w/a")));
    assert!(validate_file_path("a", "/w", None, none, none, &None).is_err());
    assert!(validate_file_path("a", "/w", None, dir, dir, &None).is_err());
    assert_eq!(validate_directory_path("d", "/w", None, dir), Ok(s("/w/d")));
    assert!(validate_directory_path("d", "/w", None, file).is_err());
    assert!(validate_directory_path("d", "/w", None, none).is_err());
    assert_eq!(describe_file_type(FileKind::Fifo), "FIFO (named pipe)");
}
