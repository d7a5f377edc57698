use crabs::tools::result::ToolResult;
use crabs::tools::web_search::{
    answer_page, choose_hits, combine, ddg_page, ddg_step, ddg_url, ddg_user_agent, dedup_sections,
    entry_url, format_results, is_entry_start, normalize_url, parse_lite_results, validate_input,
    DdgEvent, DdgStep, SearchResult, WebSearchTool, DDG_ATTEMPTS,
};

fn s(t: &str) -> String {
    t.to_string()
}

const BRAVE: &str = "Search results for: \"q\"\n\n1. One\n   URL: https://one.example/\n   text\n\n2. Two\n   URL: https://two.example\n\n";
const DDG: &str = "🔍 Search results for: \"q\"\n\n1. First\n   🔗 https://ONE.example\n\n2. Third\n   🔗 https://three.example\n\n";

#[test]
fn engines() {
    assert!(WebSearchTool::new(false, false, false).ddg_only());
    assert!(!WebSearchTool::new(true, false, false).ddg_only());
    assert!(!WebSearchTool::new(false, false, true).ddg_only());
}

#[test]
fn queries_are_checked() {
    assert!(validate_input("rust", 10).is_ok());
    assert_eq!(validate_input(" \t", 5).err().unwrap().message(), "Invalid input: Query cannot be empty");
    assert_eq!(validate_input("x", 0).err().unwrap().message(), "Invalid input: max_results must be between 1 and 10");
    assert!(validate_input("x", 11).is_err());
}

#[test]
fn query_is_percent_encoded() {
    assert_eq!(
        ddg_url("a b&c/é~_-.9"),
        "https://lite.duckduckgo.com/lite/?q=a%20b%26c%2F%C3%A9~_-.9"
    );
}

#[test]
fn user_agents_rotate() {
    let all: Vec<&str> = (0..DDG_ATTEMPTS).map(ddg_user_agent).collect();
    for i in 0..all.len() {
        for j in 0..i {
            assert_ne!(all[i], all[j]);
        }
    }
}

#[test]
fn ddg_steps() {
    let status = |code: u16, line: &str| DdgEvent::Status { code, line: s(line) };
    assert!(matches!(ddg_step(0, &status(202, "202 Accepted")), DdgStep::Done(r) if !r.success));
    assert!(matches!(ddg_step(3, &status(200, "200 OK")), DdgStep::ReadPage));
    assert!(matches!(ddg_step(0, &status(403, "403 Forbidden")), DdgStep::Retry { attempt: 1 }));
    assert!(matches!(ddg_step(2, &DdgEvent::Failed(s("timeout"))), DdgStep::Retry { attempt: 3 }));
    assert!(matches!(ddg_step(3, &status(403, "403 Forbidden")), DdgStep::Done(r)
        if r.text == "DuckDuckGo search failed after 4 attempts (last error: HTTP 403 Forbidden)."));
    assert!(matches!(ddg_step(3, &DdgEvent::Failed(s("timeout"))), DdgStep::Done(r)
        if r.text == "DuckDuckGo search failed after 4 attempts (last error: timeout)."));
}

#[test]
fn marked_links_are_parsed() {
    let html = "<a rel=\"x\" class=\"result-link\" href=\"https://a.example\">A page</a>\
                <a class=\"result-link\" href=\"/local\">Local</a>\
                <a class=\"result-link\" href=\"https://b.example\"> </a>\
                <a class=\"result-link\" href=\"https://c.example\">C</a>";
    let r = parse_lite_results(html, 5);
    let got: Vec<(&str, &str)> = r.iter().map(|x| (x.url.as_str(), x.title.as_str())).collect();
    assert_eq!(got, vec![("https://a.example", "A page"), ("https://c.example", "C")]);
    assert_eq!(parse_lite_results(html, 1).len(), 1);
    assert_eq!(parse_lite_results(html, 0).len(), 0);
}

#[test]
fn generic_links_are_the_fallback() {
    let html = "<a href=\"https://duckduckgo.com/about\">About this engine</a>\
                <a href=\"https://x.example\">short</a>\
                <a href=\"https://y.example\">A long enough title</a>";
    let r = parse_lite_results(html, 5);
    assert_eq!(r.len(), 1);
    assert_eq!(r[0].url, "https://y.example");
}

#[test]
fn choosing_hits_takes_the_links_as_they_are() {
    let marked = vec![(s("ftp://a"), s("A"))];
    let generic = vec![(s("https://g"), s("G")), (s("https://duckduckgo.com/x"), s("D"))];
    let r = choose_hits(&marked, &generic, 3);
    assert_eq!(r.len(), 1);
    assert_eq!(r[0].title, "G");
}

#[test]
fn challenge_page_is_an_error() {
    let r = ddg_page("q", "<html><form action=x></form></html>", 5);
    assert!(!r.success);
    assert_eq!(r.text, "DuckDuckGo returned a captcha/challenge page instead of results.");
    assert!(ddg_page("q", "<html>nothing</html>", 5).text.contains("No results found"));
    let one = vec![SearchResult { title: s("T"), url: s("https://t") }];
    assert!(answer_page("q", "<form", &one).success);
}

#[test]
fn results_are_numbered() {
    let r = vec![
        SearchResult { title: s("One"), url: s("https://1") },
        SearchResult { title: s("Two"), url: s("https://2") },
    ];
    assert_eq!(
        format_results("q", &r),
        "🔍 Search results for: \"q\"\n\n1. One\n   🔗 https://1\n\n2. Two\n   🔗 https://2\n\n"
    );
}

#[test]
fn lines_are_recognised() {
    assert_eq!(entry_url("   URL: https://x "), Some(s("https://x")));
    assert_eq!(entry_url("   🔗 http://y"), Some(s("http://y")));
    assert_eq!(entry_url("URL: ftp://x"), None);
    assert_eq!(entry_url("see https://x"), None);
    assert!(is_entry_start("1. Title"));
    assert!(is_entry_start("  10. Title. More"));
    assert!(!is_entry_start("a. Title"));
    assert!(!is_entry_start(". Title"));
    assert!(!is_entry_start("1.Title"));
    assert_eq!(normalize_url("HTTPS://X.example//"), "https://x.example");
}

#[test]
fn no_address_survives_twice() {
    let merged = dedup_sections(&vec![s(BRAVE), s(DDG)]);
    assert_eq!(merged.to_lowercase().matches("one.example").count(), 1);
    assert!(merged.starts_with(BRAVE));
    assert!(merged.contains("2. Third"));
    assert!(!merged.contains("1. First"));
}

#[test]
fn untouched_sections_are_verbatim() {
    let plain = "An answer without entries.\r\n\r\nSecond paragraph.\n";
    assert_eq!(dedup_sections(&vec![s(plain)]), plain);
    assert_eq!(dedup_sections(&vec![s(DDG), s(plain)]), format!("{DDG}\n\n{plain}"));
}

#[test]
fn unnumbered_section_is_untouched() {
    let numbered = "1. A\nURL: https://x.com";
    let plain = "Foo\nURL: https://x.com\nbar\nURL: https://y.com";
    assert_eq!(
        dedup_sections(&vec![s(numbered), s(plain)]),
        "1. A\nURL: https://x.com\n\nFoo\nURL: https://x.com\nbar\nURL: https://y.com",
    );
    let later = "1. B\nURL: https://y.com/\n2. C\nURL: https://z.com";
    assert_eq!(
        dedup_sections(&vec![s(numbered), s(plain), s(later)]),
        format!("{numbered}\n\n{plain}\n\n2. C\nURL: https://z.com"),
    );
}

#[test]
fn first_entries_stay() {
    let a = "1. A\nURL: https://a.com\n2. B\nURL: https://b.com";
    let b = "1. B again\nURL: https://b.com/\n2. C\nURL: https://c.com\nmore\n3. C again\nURL: https://C.com";
    assert_eq!(dedup_sections(&vec![s(a), s(b)]), format!("{a}\n\n2. C\nURL: https://c.com\nmore"));
    let two = "1. D\nURL: https://d.com\nURL: https://a.com\n2. E\nURL: https://e.com";
    assert_eq!(dedup_sections(&vec![s(a), s(two)]), format!("{a}\n\n2. E\nURL: https://e.com"));
}

#[test]
fn section_without_entries_left_is_dropped() {
    assert_eq!(dedup_sections(&vec![s(BRAVE), s(BRAVE)]), BRAVE);
}

#[test]
fn earlier_engines_come_first() {
    let merged = dedup_sections(&vec![s(DDG), s(BRAVE)]);
    assert!(merged.starts_with(DDG));
    assert!(merged.contains("2. Two"));
    assert!(!merged.contains("1. One"));
}

#[test]
fn engine_answers_are_combined() {
    let r = combine(&vec![
        Some(ToolResult::error(s("captcha"))),
        None,
        Some(ToolResult::success(s(BRAVE))),
        Some(ToolResult::success(s(DDG))),
    ]);
    assert!(r.success);
    assert!(r.text.starts_with(BRAVE));
    let none = combine(&vec![Some(ToolResult::error(s("captcha"))), None]);
    assert!(!none.success);
    assert!(none.text.starts_with("All search engines failed"));
}
