//! One search over several engines: their results are merged, and a hit that
//! an earlier engine already gave is dropped.
use vstd::prelude::*;
use vstd::utf8::encode_utf8;

use super::error::ToolError;
use super::result::{Reply, ToolResult};
use crate::regexes::{capture_pairs, captured, link_pattern, pair_views};
use crate::search::{
    contains, dec_usize, decimal, find, find_in, has, has_prefix, join, join_strs,
    law_search_finds, lemma_find_from, lemma_tells, lemma_tells_more, lines, lines_of, matches_at,
    starts_with, strip_prefix, tells,
};
use crate::text::{
    blank, cat2, cat3, cat4, char_is_digit, chars_of, is_blank, is_digit, is_space,
    law_trailing_run_is_dropped, law_trimming_leaves_the_text, law_white_space, list_has, lowercase,
    oview, strip_trailing, to_lower, trim, trim_end_of_char,
    trim_start, trim_start_str, trimmed, views,
};

verus! {

/// The engines that are configured beside DuckDuckGo.
pub struct WebSearchTool {
    pub exa: bool,
    pub brave: bool,
    pub serper: bool,
}

impl WebSearchTool {
    pub fn new(exa: bool, brave: bool, serper: bool) -> (r: Self)
        ensures
            r == (WebSearchTool { exa, brave, serper }),
    {
        WebSearchTool { exa, brave, serper }
    }

    /// Whether DuckDuckGo is the only engine, so that its answer is the
    /// tool's.
    pub fn ddg_only(&self) -> (r: bool)
        ensures
            r == (!self.exa && !self.brave && !self.serper),
    {
        !self.exa && !self.brave && !self.serper
    }
}

/// How many results are asked for where the caller does not say.
pub const DEFAULT_MAX_RESULTS: usize = 5;

/// Why an input is refused.
pub open spec fn input_fault(query: Seq<char>, max_results: usize) -> Option<Seq<char>> {
    if is_blank(query) {
        Some("Query cannot be empty"@)
    } else if max_results == 0 || max_results > 10 {
        Some("max_results must be between 1 and 10"@)
    } else {
        None
    }
}

/// Checks a query and the number of results asked for.
pub fn validate_input(query: &str, max_results: usize) -> (r: Result<(), ToolError>)
    ensures
        match r {
            Ok(()) => input_fault(query@, max_results) is None,
            Err(e) => e is InvalidInput && input_fault(query@, max_results) == Some(
                e->InvalidInput_0@,
            ),
        },
{
    if blank(query) {
        return Err(ToolError::InvalidInput("Query cannot be empty".to_owned()));
    }
    if max_results == 0 || max_results > 10 {
        return Err(
            ToolError::InvalidInput("max_results must be between 1 and 10".to_owned()),
        );
    }
    Ok(())
}

// -------------------------------------------------------------- DuckDuckGo
/// Whether a byte stands for itself in a percent-encoded text.
pub open spec fn stands_plain(b: u8) -> bool {
    ||| 0x30 <= b <= 0x39
    ||| 0x41 <= b <= 0x5a
    ||| 0x61 <= b <= 0x7a
    ||| b == 0x2d
    ||| b == 0x2e
    ||| b == 0x5f
    ||| b == 0x7e
}

/// An upper-case hexadecimal digit.
pub open spec fn hex_upper(d: int) -> char {
    if d < 10 {
        (0x30 + d) as char
    } else {
        (0x41 + d - 10) as char
    }
}

/// Bytes in percent encoding.
pub open spec fn percent_encoded(bytes: Seq<u8>) -> Seq<char>
    decreases bytes.len(),
{
    if bytes.len() == 0 {
        Seq::empty()
    } else {
        let b = bytes.last();
        let init = percent_encoded(bytes.drop_last());
        if stands_plain(b) {
            init.push(b as char)
        } else {
            init + seq!['%', hex_upper(b as int / 16), hex_upper(b as int % 16)]
        }
    }
}

/// `urlencoding::encode`: every byte of the text's UTF-8 form is
/// percent-encoded with upper-case digits, except ASCII letters and digits and
/// `-`, `.`, `_`, `~`.
#[verifier::external_body]
pub(crate) fn percent_encode(s: &str) -> (r: String)
    ensures
        r@ == percent_encoded(encode_utf8(s@)),
{
    urlencoding::encode(s).into_owned()
}

/// The address of a query's result page.
pub open spec fn ddg_address(query: Seq<char>) -> Seq<char> {
    "https://lite.duckduckgo.com/lite/?q="@ + percent_encoded(encode_utf8(query))
}

/// The address of a query's result page.
pub fn ddg_url(query: &str) -> (r: String)
    ensures
        r@ == ddg_address(query@),
{
    cat2("https://lite.duckduckgo.com/lite/?q=", percent_encode(query).as_str())
}

/// The number of user agents tried.
pub const DDG_ATTEMPTS: usize = 4;

/// Milliseconds between two attempts.
pub const DDG_BACKOFF_MS: u64 = 250;

/// The user agent of an attempt; DuckDuckGo blocks one that repeats.
pub open spec fn ddg_agent(attempt: int) -> Seq<char> {
    if attempt == 0 {
        "Mozilla/5.0 (Windows NT 10.0; Win64; x64) AppleWebKit/537.36 (KHTML, like Gecko) Chrome/122.0.0.0 Safari/537.36"@
    } else if attempt == 1 {
        "Mozilla/5.0 (Macintosh; Intel Mac OS X 10_15_7) AppleWebKit/605.1.15 (KHTML, like Gecko) Version/17.3 Safari/605.1.15"@
    } else if attempt == 2 {
        "Mozilla/5.0 (Windows NT 10.0; Win64; x64; rv:123.0) Gecko/20100101 Firefox/123.0"@
    } else {
        "Mozilla/5.0 (X11; Linux x86_64) AppleWebKit/537.36 (KHTML, like Gecko) Chrome/121.0.0.0 Safari/537.36"@
    }
}

/// The user agent of an attempt.
pub fn ddg_user_agent(attempt: usize) -> (r: &'static str)
    ensures
        r@ == ddg_agent(attempt as int),
{
    if attempt == 0 {
        "Mozilla/5.0 (Windows NT 10.0; Win64; x64) AppleWebKit/537.36 (KHTML, like Gecko) Chrome/122.0.0.0 Safari/537.36"
    } else if attempt == 1 {
        "Mozilla/5.0 (Macintosh; Intel Mac OS X 10_15_7) AppleWebKit/605.1.15 (KHTML, like Gecko) Version/17.3 Safari/605.1.15"
    } else if attempt == 2 {
        "Mozilla/5.0 (Windows NT 10.0; Win64; x64; rv:123.0) Gecko/20100101 Firefox/123.0"
    } else {
        "Mozilla/5.0 (X11; Linux x86_64) AppleWebKit/537.36 (KHTML, like Gecko) Chrome/121.0.0.0 Safari/537.36"
    }
}

/// What came of a request.
pub enum DdgEvent {
    /// A response, with its status code and the code with its reason.
    Status { code: u16, line: String },
    /// The request failed.
    Failed(String),
}

/// What to do next.
pub enum DdgStep {
    /// Read the page and hand it to [`ddg_page`].
    ReadPage,
    /// Wait [`DDG_BACKOFF_MS`], then try the next user agent.
    Retry { attempt: usize },
    Done(ToolResult),
}

/// The error an attempt leaves.
pub open spec fn attempt_error(e: DdgEvent) -> Seq<char> {
    match e {
        DdgEvent::Status { code, line } => "HTTP "@ + line@,
        DdgEvent::Failed(e) => e@,
    }
}

/// The step that follows an attempt: a challenge ends the search at once, a
/// page is read, and anything else moves on to the next user agent.
pub fn ddg_step(attempt: usize, event: &DdgEvent) -> (r: DdgStep)
    requires
        attempt < DDG_ATTEMPTS,
    ensures
        match *event {
            DdgEvent::Status { code, line } if code == 202 => r is Done && r->Done_0@
                == Reply::Error("DuckDuckGo returned a bot-detection challenge (HTTP 202)."@),
            DdgEvent::Status { code, line } if 200 <= code < 300 => r is ReadPage,
            _ => if attempt + 1 < DDG_ATTEMPTS {
                r == (DdgStep::Retry { attempt: (attempt + 1) as usize })
            } else {
                r is Done && r->Done_0@ == Reply::Error(
                    "DuckDuckGo search failed after "@ + decimal(DDG_ATTEMPTS as nat)
                        + " attempts (last error: "@ + attempt_error(*event) + ")."@,
                )
            },
        },
{
    if let DdgEvent::Status { code, .. } = event {
        if *code == 202 {
            return DdgStep::Done(
                ToolResult::error(
                    "DuckDuckGo returned a bot-detection challenge (HTTP 202).".to_owned(),
                ),
            );
        }
        if 200 <= *code && *code < 300 {
            return DdgStep::ReadPage;
        }
    }
    if attempt + 1 < DDG_ATTEMPTS {
        return DdgStep::Retry { attempt: attempt + 1 };
    }
    let last = match event {
        DdgEvent::Status { line, .. } => cat2("HTTP ", line.as_str()),
        DdgEvent::Failed(e) => e.clone(),
    };
    let head = cat3(
        "DuckDuckGo search failed after ",
        dec_usize(DDG_ATTEMPTS).as_str(),
        " attempts (last error: ",
    );
    DdgStep::Done(ToolResult::error(cat3(head.as_str(), last.as_str(), ").")))
}

/// A hit of a result page.
pub struct SearchResult {
    pub title: String,
    pub url: String,
}

/// The hits, as values.
pub open spec fn hits(v: Seq<SearchResult>) -> Seq<(Seq<char>, Seq<char>)> {
    v.map_values(|r: SearchResult| (r.url@, r.title@))
}

/// Whether a link is a hit. A marked link must lead to a web address, a
/// generic one must lead away from the engine.
pub open spec fn is_hit(link: (Seq<char>, Seq<char>), generic: bool) -> bool {
    &&& !is_blank(link.1)
    &&& if generic {
        !(has(link.0, "duckduckgo.com"@))
    } else {
        has_prefix(link.0, "http"@)
    }
}

/// The links that are hits, in order.
pub open spec fn hits_among(links: Seq<(Seq<char>, Seq<char>)>, generic: bool) -> Seq<
    (Seq<char>, Seq<char>),
>
    decreases links.len(),
{
    if links.len() == 0 {
        Seq::empty()
    } else if is_hit(links.last(), generic) {
        hits_among(links.drop_last(), generic).push(links.last())
    } else {
        hits_among(links.drop_last(), generic)
    }
}

/// At most the first `n` entries.
pub open spec fn first<T>(s: Seq<T>, n: int) -> Seq<T> {
    if s.len() > n {
        s.take(n)
    } else {
        s
    }
}

/// The first hits among the links of a page, each an address with a title.
pub fn pick_hits(links: &Vec<(String, String)>, max_results: usize, generic: bool) -> (r: Vec<
    SearchResult,
>)
    ensures
        hits(r@) == first(hits_among(pair_views(links@), generic), max_results as int),
{
    let ghost all = pair_views(links@);
    let mut out: Vec<SearchResult> = Vec::new();
    let mut i: usize = 0;
    assert(all.take(0) =~= Seq::empty());
    assert(hits(out@) =~= Seq::empty());
    while i < links.len()
        invariant
            i <= links.len(),
            all == pair_views(links@),
            hits(out@) == first(hits_among(all.take(i as int), generic), max_results as int),
        decreases links.len() - i,
    {
        assert(all.take(i + 1).drop_last() =~= all.take(i as int));
        assert(all[i as int] == (links@[i as int].0@, links@[i as int].1@));
        let ghost before = hits_among(all.take(i as int), generic);
        let ghost pre = hits(out@);
        let url = links[i].0.as_str();
        let title = links[i].1.as_str();
        let good = !blank(title) && if generic {
            !contains(url, "duckduckgo.com")
        } else {
            starts_with(url, "http")
        };
        if good {
            if out.len() < max_results {
                out.push(SearchResult { title: title.to_owned(), url: url.to_owned() });
                assert(hits(out@) =~= pre.push(all[i as int]));
            } else {
                assert(before.push(all[i as int]).take(max_results as int) =~= pre);
            }
        }
        i = i + 1;
    }
    assert(all.take(i as int) =~= all);
    out
}

/// The pattern of the links that DuckDuckGo marks as results.
pub const MARKED_LINK: &'static str = "<a[^>]*class=\"result-link\"[^>]*href=\"([^\"]*)\"[^>]*>([^<]*)</a>";

/// The pattern of any link with a title of some length.
pub const GENERIC_LINK: &'static str = "<a[^>]*href=\"(https?://[^\"]*)\"[^>]*>([^<]{10,})</a>";

/// The hits of a page, given its marked and its generic links: the generic
/// ones count only where no marked one is a hit.
pub open spec fn page_hits(
    marked: Seq<(Seq<char>, Seq<char>)>,
    generic: Seq<(Seq<char>, Seq<char>)>,
    max_results: int,
) -> Seq<(Seq<char>, Seq<char>)> {
    let found = first(hits_among(marked, false), max_results);
    if found.len() > 0 {
        found
    } else {
        first(hits_among(generic, true), max_results)
    }
}

/// The hits of a page, given its marked and its generic links.
pub fn choose_hits(
    marked: &Vec<(String, String)>,
    generic: &Vec<(String, String)>,
    max_results: usize,
) -> (r: Vec<SearchResult>)
    ensures
        hits(r@) == page_hits(pair_views(marked@), pair_views(generic@), max_results as int),
{
    let found = pick_hits(marked, max_results, false);
    assert(hits(found@).len() == found.len());
    if found.len() > 0 {
        found
    } else {
        pick_hits(generic, max_results, true)
    }
}

/// The links that a pattern finds.
pub open spec fn links_of(pattern: Seq<char>, html: Seq<char>) -> Seq<(Seq<char>, Seq<char>)> {
    match captured(pattern, html) {
        Some(v) => v,
        None => Seq::empty(),
    }
}

fn find_links(pattern: &str, html: &str) -> (r: Vec<(String, String)>)
    requires
        link_pattern(pattern@),
    ensures
        pair_views(r@) == links_of(pattern@, html@),
{
    match capture_pairs(pattern, html) {
        Some(v) => v,
        None => Vec::new(),
    }
}

/// The hits of a page.
pub fn parse_lite_results(html: &str, max_results: usize) -> (r: Vec<SearchResult>)
    ensures
        hits(r@) == page_hits(
            links_of(MARKED_LINK@, html@),
            links_of(GENERIC_LINK@, html@),
            max_results as int,
        ),
{
    choose_hits(
        &find_links(MARKED_LINK, html),
        &find_links(GENERIC_LINK, html),
        max_results,
    )
}

/// The first `n` hits as numbered entries.
pub open spec fn numbered(found: Seq<(Seq<char>, Seq<char>)>, n: nat) -> Seq<char>
    decreases n,
{
    if n == 0 {
        Seq::empty()
    } else {
        numbered(found, (n - 1) as nat) + (decimal(n) + ". "@ + found[n - 1].1 + "\n"@) + (
        "   🔗 "@ + found[n - 1].0 + "\n\n"@)
    }
}

/// The hits as the tool shows them.
pub open spec fn results_text(query: Seq<char>, found: Seq<(Seq<char>, Seq<char>)>) -> Seq<char> {
    let head = "🔍 Search results for: \""@ + query + "\"\n\n"@;
    if found.len() == 0 {
        head + "ℹ️  No results found. Try:\n  • Rephrasing your query\n  • Using more specific keywords\n  • Searching for a different topic\n"@
    } else {
        head + numbered(found, found.len())
    }
}

/// The hits as the tool shows them.
pub fn format_results(query: &str, results: &Vec<SearchResult>) -> (r: String)
    ensures
        r@ == results_text(query@, hits(results@)),
{
    let mut out = cat3("🔍 Search results for: \"", query, "\"\n\n");
    if results.len() == 0 {
        out.append(
            "ℹ️  No results found. Try:\n  • Rephrasing your query\n  • Using more specific keywords\n  • Searching for a different topic\n",
        );
        return out;
    }
    let ghost head = out@;
    let ghost found = hits(results@);
    let mut i: usize = 0;
    assert(out@ =~= head + numbered(found, 0));
    while i < results.len()
        invariant
            i <= results.len(),
            found == hits(results@),
            out@ == head + numbered(found, i as nat),
        decreases results.len() - i,
    {
        assert(found[i as int] == (results@[i as int].url@, results@[i as int].title@));
        let entry = cat4(dec_usize(i + 1).as_str(), ". ", results[i].title.as_str(), "\n");
        let link = cat3("   🔗 ", results[i].url.as_str(), "\n\n");
        out.append(entry.as_str());
        out.append(link.as_str());
        assert(out@ =~= head + numbered(found, (i + 1) as nat));
        i = i + 1;
    }
    out
}

/// The answer for a page, given its hits: no hit on a page with a form is a
/// challenge.
pub open spec fn page_answer(
    query: Seq<char>,
    html: Seq<char>,
    found: Seq<(Seq<char>, Seq<char>)>,
) -> Reply {
    if found.len() == 0 && has(html, "<form"@) {
        Reply::Error("DuckDuckGo returned a captcha/challenge page instead of results."@)
    } else {
        Reply::Success(results_text(query, found))
    }
}

/// The answer for a page, given its hits.
pub fn answer_page(query: &str, html: &str, found: &Vec<SearchResult>) -> (r: ToolResult)
    ensures
        r@ == page_answer(query@, html@, hits(found@)),
{
    if found.len() == 0 && contains(html, "<form") {
        return ToolResult::error(
            "DuckDuckGo returned a captcha/challenge page instead of results.".to_owned(),
        );
    }
    assert(hits(found@).len() == found.len());
    ToolResult::success(format_results(query, found))
}

/// The answer for a page.
pub fn ddg_page(query: &str, html: &str, max_results: usize) -> (r: ToolResult)
    ensures
        r@ == page_answer(
            query@,
            html@,
            page_hits(
                links_of(MARKED_LINK@, html@),
                links_of(GENERIC_LINK@, html@),
                max_results as int,
            ),
        ),
{
    answer_page(query, html, &parse_lite_results(html, max_results))
}

// ----------------------------------------------------------------- merging
/// The address that a rendered line carries.
pub open spec fn line_url(line: Seq<char>) -> Option<Seq<char>> {
    let t = trim_start(line);
    let rest = if has_prefix(t, "URL:"@) {
        Some(t.skip("URL:"@.len() as int))
    } else if has_prefix(t, "🔗"@) {
        Some(t.skip("🔗"@.len() as int))
    } else {
        None
    };
    match rest {
        Some(r) => {
            let url = trimmed(r);
            if has_prefix(url, "http://"@) || has_prefix(url, "https://"@) {
                Some(url)
            } else {
                None
            }
        },
        None => None,
    }
}

/// The address that a rendered line carries.
pub fn entry_url(line: &str) -> (r: Option<String>)
    ensures
        oview(r) == line_url(line@),
{
    let t = trim_start_str(line);
    let rest = match strip_prefix(t, "URL:") {
        Some(r) => Some(r),
        None => strip_prefix(t, "🔗"),
    };
    match rest {
        Some(r) => {
            let url = trim(r);
            if starts_with(url, "http://") || starts_with(url, "https://") {
                Some(url.to_owned())
            } else {
                None
            }
        },
        None => None,
    }
}

/// Whether a line begins a numbered entry.
pub open spec fn begins_entry(line: Seq<char>) -> bool {
    let t = trim_start(line);
    match find(t, ". "@) {
        Some(n) => n > 0 && forall|i: int| 0 <= i < n ==> is_digit(#[trigger] t[i]),
        None => false,
    }
}

/// Whether a line begins a numbered entry.
pub fn is_entry_start(line: &str) -> (r: bool)
    ensures
        r == begins_entry(line@),
{
    let t = trim_start_str(line);
    match find_in(t, ". ") {
        Some(n) => {
            if n == 0 {
                return false;
            }
            let v = chars_of(t);
            let mut i: usize = 0;
            proof {
                crate::search::lemma_find_from(t@, ". "@, 0);
            }
            while i < n
                invariant
                    i <= n,
                    n <= v.len(),
                    v@ == t@,
                    forall|k: int| 0 <= k < i ==> is_digit(#[trigger] t@[k]),
                    t@ == trim_start(line@),
                    find(t@, ". "@) == Some(n as int),
                decreases n - i,
            {
                if !char_is_digit(v[i]) {
                    assert(!is_digit(t@[i as int]));
                    return false;
                }
                i = i + 1;
            }
            true
        },
        None => false,
    }
}

/// The form in which two addresses are compared: without trailing slashes and
/// in lower case.
pub open spec fn same_form(url: Seq<char>) -> Seq<char> {
    lowercase(trim_end_of_char(url, '/'))
}

/// The form in which two addresses are compared.
pub fn normalize_url(url: &str) -> (r: String)
    ensures
        r@ == same_form(url@),
{
    to_lower(strip_trailing(url, '/'))
}

/// How far a section has been read.
pub struct Scan {
    /// Addresses given so far, by this section and those before it.
    pub seen: Seq<Seq<char>>,
    /// Lines kept.
    pub out: Seq<Seq<char>>,
    /// Where the current entry's lines begin.
    pub start: Option<int>,
    /// Whether the current entry is being dropped.
    pub dropping: bool,
    /// Whether any entry was dropped.
    pub mutated: bool,
}

/// The lines kept where the current entry is taken back.
pub open spec fn taken_back(out: Seq<Seq<char>>, start: Option<int>) -> Seq<Seq<char>> {
    match start {
        Some(n) => first(out, n),
        None => out,
    }
}

/// Reads one line.
pub open spec fn scan_line(s: Scan, line: Seq<char>) -> Scan {
    let begins = begins_entry(line);
    let start = if begins {
        Some(s.out.len() as int)
    } else {
        s.start
    };
    if s.dropping && !begins {
        s
    } else {
        match line_url(line) {
            Some(u) => if s.seen.contains(same_form(u)) {
                Scan {
                    seen: s.seen,
                    out: taken_back(s.out, start),
                    start,
                    dropping: true,
                    mutated: true,
                }
            } else {
                Scan {
                    seen: s.seen.push(same_form(u)),
                    out: s.out.push(line),
                    start,
                    dropping: false,
                    mutated: s.mutated,
                }
            },
            None => Scan { out: s.out.push(line), start, dropping: false, ..s },
        }
    }
}

/// Reads a section's lines, knowing the addresses given before it.
pub open spec fn scan(section: Seq<Seq<char>>, seen: Seq<Seq<char>>) -> Scan
    decreases section.len(),
{
    if section.len() == 0 {
        Scan { seen, out: Seq::empty(), start: None, dropping: false, mutated: false }
    } else {
        scan_line(scan(section.drop_last(), seen), section.last())
    }
}

/// Whether some line begins an entry.
pub open spec fn has_entry(section: Seq<Seq<char>>) -> bool {
    exists|i: int| 0 <= i < section.len() && begins_entry(#[trigger] section[i])
}

/// The addresses given once the lines have been given too.
pub open spec fn noted(section: Seq<Seq<char>>, seen: Seq<Seq<char>>) -> Seq<Seq<char>>
    decreases section.len(),
{
    if section.len() == 0 {
        seen
    } else {
        let before = noted(section.drop_last(), seen);
        match line_url(section.last()) {
            Some(u) => if before.contains(same_form(u)) {
                before
            } else {
                before.push(same_form(u))
            },
            None => before,
        }
    }
}

/// Sections merged so far.
pub struct Merge {
    pub seen: Seq<Seq<char>>,
    /// The sections' texts.
    pub texts: Seq<Seq<char>>,
    /// The lines in those that hold numbered entries.
    pub kept: Seq<Seq<char>>,
}

/// Adds one section. Without numbered entries it passes through untouched. Of
/// the others, one is dropped where no entry is left, and it stays as it is
/// where no entry was dropped.
pub open spec fn merge_section(m: Merge, section: Seq<char>) -> Merge {
    let s = scan(lines(section), m.seen);
    if !has_entry(lines(section)) {
        Merge {
            seen: noted(lines(section), m.seen),
            texts: m.texts.push(section),
            kept: m.kept,
        }
    } else if !has_entry(s.out) {
        Merge { seen: s.seen, texts: m.texts, kept: m.kept }
    } else {
        Merge {
            seen: s.seen,
            texts: m.texts.push(
                if s.mutated {
                    join(s.out, "\n"@)
                } else {
                    section
                },
            ),
            kept: m.kept + s.out,
        }
    }
}

/// Merges sections in order.
pub open spec fn merge(sections: Seq<Seq<char>>) -> Merge
    decreases sections.len(),
{
    if sections.len() == 0 {
        Merge { seen: Seq::empty(), texts: Seq::empty(), kept: Seq::empty() }
    } else {
        merge_section(merge(sections.drop_last()), sections.last())
    }
}

fn any_entry(v: &Vec<String>) -> (r: bool)
    ensures
        r == has_entry(views(v@)),
{
    let mut i: usize = 0;
    while i < v.len()
        invariant
            i <= v.len(),
            forall|k: int| 0 <= k < i ==> !begins_entry(#[trigger] views(v@)[k]),
        decreases v.len() - i,
    {
        assert(views(v@)[i as int] == v@[i as int]@);
        if is_entry_start(v[i].as_str()) {
            return true;
        }
        i = i + 1;
    }
    false
}

fn scan_section(section: &Vec<String>, seen: &mut Vec<String>) -> (r: (Vec<String>, bool))
    ensures
        ({
            let s = scan(views(section@), views(old(seen)@));
            views(final(seen)@) == s.seen && views(r.0@) == s.out && r.1 == s.mutated
        }),
{
    let ghost before = views(seen@);
    let ghost all = views(section@);
    let mut out: Vec<String> = Vec::new();
    let mut start: Option<usize> = None;
    let mut dropping = false;
    let mut mutated = false;
    let mut i: usize = 0;
    assert(all.take(0) =~= Seq::empty());
    assert(views(out@) =~= Seq::empty());
    while i < section.len()
        invariant
            i <= section.len(),
            all == views(section@),
            ({
                let s = scan(all.take(i as int), before);
                &&& views(seen@) == s.seen
                &&& views(out@) == s.out
                &&& s.start == match start {
                    Some(n) => Some(n as int),
                    None => None,
                }
                &&& dropping == s.dropping
                &&& mutated == s.mutated
            }),
        decreases section.len() - i,
    {
        let ghost s0 = scan(all.take(i as int), before);
        assert(all.take(i + 1).drop_last() =~= all.take(i as int));
        assert(all.take(i + 1).last() == section@[i as int]@);
        let line = section[i].as_str();
        if is_entry_start(line) {
            dropping = false;
            start = Some(out.len());
        }
        if !dropping {
            match entry_url(line) {
                Some(url) => {
                    let form = normalize_url(url.as_str());
                    let ghost f = form@;
                    if list_has(seen, form.as_str()) {
                        let ghost o = out@;
                        if let Some(n) = start {
                            out.truncate(n);
                            assert(views(out@) =~= first(views(o), n as int));
                        }
                        dropping = true;
                        mutated = true;
                    } else {
                        seen.push(form);
                        assert(views(seen@) =~= s0.seen.push(f));
                        out.push(section[i].clone());
                        assert(views(out@) =~= s0.out.push(all[i as int]));
                    }
                },
                None => {
                    out.push(section[i].clone());
                    assert(views(out@) =~= s0.out.push(all[i as int]));
                },
            }
        }
        i = i + 1;
    }
    assert(all.take(i as int) =~= all);
    (out, mutated)
}

fn note_section(section: &Vec<String>, seen: &mut Vec<String>)
    ensures
        views(final(seen)@) == noted(views(section@), views(old(seen)@)),
{
    let ghost before = views(seen@);
    let ghost all = views(section@);
    let mut i: usize = 0;
    assert(all.take(0) =~= Seq::empty());
    while i < section.len()
        invariant
            i <= section.len(),
            all == views(section@),
            views(seen@) == noted(all.take(i as int), before),
        decreases section.len() - i,
    {
        let ghost s0 = views(seen@);
        assert(all.take(i + 1).drop_last() =~= all.take(i as int));
        assert(all.take(i + 1).last() == section@[i as int]@);
        if let Some(url) = entry_url(section[i].as_str()) {
            let form = normalize_url(url.as_str());
            let ghost f = form@;
            if !list_has(seen, form.as_str()) {
                seen.push(form);
                assert(views(seen@) =~= s0.push(f));
            }
        }
        i = i + 1;
    }
    assert(all.take(i as int) =~= all);
}

/// Merges the sections of several engines, in their order. A later entry whose
/// address was given before is dropped, and so is a section that loses all its
/// entries. A section without numbered entries passes through untouched.
pub fn dedup_sections(sections: &Vec<String>) -> (r: String)
    ensures
        r@ == join(merge(views(sections@)).texts, "\n\n"@),
{
    let ghost all = views(sections@);
    let mut seen: Vec<String> = Vec::new();
    let mut texts: Vec<String> = Vec::new();
    let mut i: usize = 0;
    assert(all.take(0) =~= Seq::empty());
    assert(views(seen@) =~= Seq::empty());
    assert(views(texts@) =~= Seq::empty());
    while i < sections.len()
        invariant
            i <= sections.len(),
            all == views(sections@),
            views(seen@) == merge(all.take(i as int)).seen,
            views(texts@) == merge(all.take(i as int)).texts,
        decreases sections.len() - i,
    {
        assert(all.take(i + 1).drop_last() =~= all.take(i as int));
        assert(all.take(i + 1).last() == sections@[i as int]@);
        let section = lines_of(sections[i].as_str());
        let ghost pre = views(texts@);
        if !any_entry(&section) {
            note_section(&section, &mut seen);
            texts.push(sections[i].clone());
            assert(views(texts@) =~= pre.push(sections@[i as int]@));
        } else {
            let (out, mutated) = scan_section(&section, &mut seen);
            if any_entry(&out) {
                let text = if mutated {
                    join_strs(&out, "\n")
                } else {
                    sections[i].clone()
                };
                let ghost t = text@;
                texts.push(text);
                assert(views(texts@) =~= pre.push(t));
            }
        }
        i = i + 1;
    }
    assert(all.take(i as int) =~= all);
    join_strs(&texts, "\n\n")
}

/// The sections of the engines that answered, in order.
pub open spec fn sections_of(answers: Seq<Option<Reply>>) -> Seq<Seq<char>>
    decreases answers.len(),
{
    if answers.len() == 0 {
        Seq::empty()
    } else {
        match answers.last() {
            Some(Reply::Success(t)) => sections_of(answers.drop_last()).push(t),
            _ => sections_of(answers.drop_last()),
        }
    }
}

pub open spec fn answer_views(v: Seq<Option<ToolResult>>) -> Seq<Option<Reply>> {
    v.map_values(
        |a: Option<ToolResult>|
            match a {
                Some(r) => Some(r@),
                None => None,
            },
    )
}

/// The merged answer.
pub open spec fn combined(answers: Seq<Option<Reply>>) -> Reply {
    let sections = sections_of(answers);
    if sections.len() == 0 {
        Reply::Error(
            "All search engines failed or returned no results. Try rephrasing the query or using http_request against a search API."@,
        )
    } else {
        Reply::Success(join(merge(sections).texts, "\n\n"@))
    }
}

/// Merges what the engines answered: DuckDuckGo, Exa, Brave, Serper, in that
/// order. An engine that is not configured or failed outright has no answer;
/// one that answered with an error is left out.
pub fn combine(answers: &Vec<Option<ToolResult>>) -> (r: ToolResult)
    ensures
        r@ == combined(answer_views(answers@)),
{
    let ghost all = answer_views(answers@);
    let mut sections: Vec<String> = Vec::new();
    let mut i: usize = 0;
    assert(all.take(0) =~= Seq::empty());
    assert(views(sections@) =~= Seq::empty());
    while i < answers.len()
        invariant
            i <= answers.len(),
            all == answer_views(answers@),
            views(sections@) == sections_of(all.take(i as int)),
        decreases answers.len() - i,
    {
        assert(all.take(i + 1).drop_last() =~= all.take(i as int));
        let ghost pre = views(sections@);
        if let Some(a) = &answers[i] {
            if a.success {
                sections.push(a.text.clone());
                assert(views(sections@) =~= pre.push(a.text@));
            }
        }
        i = i + 1;
    }
    assert(all.take(i as int) =~= all);
    assert(views(sections@).len() == sections.len());
    if sections.len() == 0 {
        return ToolResult::error(
            "All search engines failed or returned no results. Try rephrasing the query or using http_request against a search API.".to_owned(),
        );
    }
    ToolResult::success(dedup_sections(&sections))
}

// -------------------------------------------------------------------- laws
/// Whether no two lines carry the same address.
pub open spec fn distinct_urls(section: Seq<Seq<char>>) -> bool {
    forall|i: int, j: int|
        0 <= i < j < section.len() && line_url(#[trigger] section[i]) is Some && line_url(
            #[trigger] section[j],
        ) is Some ==> same_form(line_url(section[i])->0) != same_form(line_url(section[j])->0)
}

/// Whether every address in the lines is among `seen`.
pub open spec fn urls_within(section: Seq<Seq<char>>, seen: Seq<Seq<char>>) -> bool {
    forall|i: int|
        0 <= i < section.len() && line_url(#[trigger] section[i]) is Some ==> seen.contains(
            same_form(line_url(section[i])->0),
        )
}

/// Whether no address in the lines is among `seen`.
pub open spec fn urls_outside(section: Seq<Seq<char>>, seen: Seq<Seq<char>>) -> bool {
    forall|i: int|
        0 <= i < section.len() && line_url(#[trigger] section[i]) is Some ==> !seen.contains(
            same_form(line_url(section[i])->0),
        )
}

/// Whether `a` is all in `b`.
pub open spec fn within(a: Seq<Seq<char>>, b: Seq<Seq<char>>) -> bool {
    forall|x: Seq<char>| a.contains(x) ==> #[trigger] b.contains(x)
}

proof fn lemma_push_contains(s: Seq<Seq<char>>, x: Seq<char>)
    ensures
        s.push(x).contains(x),
        within(s, s.push(x)),
        forall|y: Seq<char>| #[trigger] s.push(x).contains(y) ==> y == x || s.contains(y),
{
    assert(s.push(x)[s.len() as int] == x);
    assert forall|y: Seq<char>| s.contains(y) implies #[trigger] s.push(x).contains(y) by {
        let i = choose|i: int| 0 <= i < s.len() && s[i] == y;
        assert(s.push(x)[i] == y);
    }
    assert forall|y: Seq<char>| #[trigger] s.push(x).contains(y) implies y == x || s.contains(
        y,
    ) by {
        let i = choose|i: int| 0 <= i < s.push(x).len() && s.push(x)[i] == y;
        if i < s.len() {
            assert(s[i] == y);
        }
    }
}

proof fn lemma_scan(section: Seq<Seq<char>>, seen: Seq<Seq<char>>)
    ensures
        distinct_urls(scan(section, seen).out),
        urls_within(scan(section, seen).out, scan(section, seen).seen),
        urls_outside(scan(section, seen).out, seen),
        within(seen, scan(section, seen).seen),
        scan(section, seen).start is Some ==> scan(section, seen).start->0 >= 0,
    decreases section.len(),
{
    if section.len() > 0 {
        lemma_scan(section.drop_last(), seen);
        let s = scan(section.drop_last(), seen);
        let line = section.last();
        let t = scan_line(s, line);
        if s.dropping && !begins_entry(line) {
        } else {
            match line_url(line) {
                Some(u) => {
                    if s.seen.contains(same_form(u)) {
                        assert(forall|i: int| 0 <= i < t.out.len() ==> t.out[i] == s.out[i]);
                    } else {
                        lemma_push_contains(s.seen, same_form(u));
                        assert(!seen.contains(same_form(u)));
                    }
                },
                None => {},
            }
        }
    }
}

proof fn lemma_noted(section: Seq<Seq<char>>, seen: Seq<Seq<char>>)
    ensures
        within(seen, noted(section, seen)),
        urls_within(section, noted(section, seen)),
    decreases section.len(),
{
    if section.len() > 0 {
        let init = section.drop_last();
        lemma_noted(init, seen);
        let before = noted(init, seen);
        let after = noted(section, seen);
        if let Some(u) = line_url(section.last()) {
            lemma_push_contains(before, same_form(u));
        }
        assert(within(before, after));
        assert forall|i: int|
            0 <= i < section.len() && line_url(#[trigger] section[i]) is Some implies after.contains(
            same_form(line_url(section[i])->0),
        ) by {
            if i < init.len() {
                assert(init[i] == section[i]);
                assert(before.contains(same_form(line_url(init[i])->0)));
            }
        }
    }
}

/// A section without numbered entries passes through untouched, and its
/// addresses count as given from then on.
pub proof fn law_unnumbered_section_is_untouched(m: Merge, section: Seq<char>)
    requires
        !has_entry(lines(section)),
    ensures
        merge_section(m, section).texts == m.texts.push(section),
        within(m.seen, merge_section(m, section).seen),
        urls_within(lines(section), merge_section(m, section).seen),
{
    lemma_noted(lines(section), m.seen);
}

/// Of a section with numbered entries, no line stays whose address was given
/// before it, in any form of section.
pub proof fn law_given_address_is_dropped(m: Merge, section: Seq<char>)
    requires
        has_entry(lines(section)),
    ensures
        urls_outside(scan(lines(section), m.seen).out, m.seen),
        merge_section(m, section).kept == m.kept || merge_section(m, section).kept == m.kept
            + scan(lines(section), m.seen).out,
{
    lemma_scan(lines(section), m.seen);
}

/// No address survives twice: among all lines kept of the sections with
/// numbered entries, no two carry the same address.
pub proof fn law_no_address_twice(sections: Seq<Seq<char>>)
    ensures
        distinct_urls(merge(sections).kept),
        urls_within(merge(sections).kept, merge(sections).seen),
    decreases sections.len(),
{
    if sections.len() > 0 {
        law_no_address_twice(sections.drop_last());
        let m = merge(sections.drop_last());
        lemma_noted(lines(sections.last()), m.seen);
        lemma_scan(lines(sections.last()), m.seen);
        let s = scan(lines(sections.last()), m.seen);
        let t = m.kept + s.out;
        assert(urls_within(t, s.seen)) by {
            assert forall|i: int|
                0 <= i < t.len() && line_url(#[trigger] t[i]) is Some implies s.seen.contains(
                same_form(line_url(t[i])->0),
            ) by {
                if i < m.kept.len() {
                    assert(t[i] == m.kept[i]);
                } else {
                    assert(t[i] == s.out[i - m.kept.len()]);
                }
            }
        }
        assert(distinct_urls(t)) by {
            assert forall|i: int, j: int|
                0 <= i < j < t.len() && line_url(#[trigger] t[i]) is Some && line_url(
                    #[trigger] t[j],
                ) is Some implies same_form(line_url(t[i])->0) != same_form(
                line_url(t[j])->0,
            ) by {
                if j < m.kept.len() {
                    assert(t[i] == m.kept[i] && t[j] == m.kept[j]);
                } else if i < m.kept.len() {
                    assert(t[i] == m.kept[i] && t[j] == s.out[j - m.kept.len()]);
                } else {
                    assert(t[i] == s.out[i - m.kept.len()] && t[j] == s.out[j - m.kept.len()]);
                }
            }
        }
        assert(urls_within(m.kept, s.seen));
    }
}

proof fn lemma_fresh_scan(section: Seq<Seq<char>>, seen: Seq<Seq<char>>)
    requires
        distinct_urls(section),
        urls_outside(section, seen),
    ensures
        scan(section, seen).out == section,
        !scan(section, seen).mutated,
        !scan(section, seen).dropping,
        forall|x: Seq<char>| #[trigger]
            scan(section, seen).seen.contains(x) ==> seen.contains(x) || exists|i: int|
                0 <= i < section.len() && line_url(#[trigger] section[i]) == Some(
                    line_url(section[i])->0,
                ) && same_form(line_url(section[i])->0) == x,
    decreases section.len(),
{
    if section.len() > 0 {
        let init = section.drop_last();
        assert forall|i: int, j: int|
            0 <= i < j < init.len() && line_url(#[trigger] init[i]) is Some && line_url(
                #[trigger] init[j],
            ) is Some implies same_form(line_url(init[i])->0) != same_form(
            line_url(init[j])->0,
        ) by {
            assert(init[i] == section[i] && init[j] == section[j]);
        }
        assert forall|i: int|
            0 <= i < init.len() && line_url(#[trigger] init[i]) is Some implies !seen.contains(
            same_form(line_url(init[i])->0),
        ) by {
            assert(init[i] == section[i]);
        }
        lemma_fresh_scan(init, seen);
        let s = scan(init, seen);
        let line = section.last();
        assert(line == section[section.len() - 1]);
        assert(init.push(line) =~= section);
        match line_url(line) {
            Some(u) => {
                if s.seen.contains(same_form(u)) {
                    assert(!seen.contains(same_form(u)));
                    let i = choose|i: int|
                        0 <= i < init.len() && line_url(#[trigger] init[i]) == Some(
                            line_url(init[i])->0,
                        ) && same_form(line_url(init[i])->0) == same_form(u);
                    assert(init[i] == section[i]);
                    assert(false);
                }
                lemma_push_contains(s.seen, same_form(u));
                assert forall|x: Seq<char>| #[trigger]
                    scan(section, seen).seen.contains(x) implies seen.contains(x) || exists|i: int|

                    0 <= i < section.len() && line_url(#[trigger] section[i]) == Some(
                        line_url(section[i])->0,
                    ) && same_form(line_url(section[i])->0) == x by {
                    if x == same_form(u) {
                        assert(line_url(section[section.len() - 1]) == Some(u));
                    } else if !seen.contains(x) {
                        let i = choose|i: int|
                            0 <= i < init.len() && line_url(#[trigger] init[i]) == Some(
                                line_url(init[i])->0,
                            ) && same_form(line_url(init[i])->0) == x;
                        assert(init[i] == section[i]);
                    }
                }
            },
            None => {
                assert forall|x: Seq<char>| #[trigger]
                    scan(section, seen).seen.contains(x) implies seen.contains(x) || exists|i: int|

                    0 <= i < section.len() && line_url(#[trigger] section[i]) == Some(
                        line_url(section[i])->0,
                    ) && same_form(line_url(section[i])->0) == x by {
                    if !seen.contains(x) {
                        let i = choose|i: int|
                            0 <= i < init.len() && line_url(#[trigger] init[i]) == Some(
                                line_url(init[i])->0,
                            ) && same_form(line_url(init[i])->0) == x;
                        assert(init[i] == section[i]);
                    }
                }
            },
        }
    }
}

/// A section whose addresses are all new and differ from one another is kept
/// as it is. A section in which no line carries an address is such a section.
pub proof fn law_fresh_section_is_verbatim(m: Merge, section: Seq<char>)
    requires
        distinct_urls(lines(section)),
        urls_outside(lines(section), m.seen),
    ensures
        merge_section(m, section).texts == m.texts.push(section),
        has_entry(lines(section)) ==> merge_section(m, section).kept == m.kept + lines(section),
{
    lemma_fresh_scan(lines(section), m.seen);
}

/// Merging never reorders: what was merged before stays in front of what a
/// further section adds.
pub proof fn law_earlier_engines_come_first(m: Merge, section: Seq<char>)
    ensures
        m.texts.len() <= merge_section(m, section).texts.len() <= m.texts.len() + 1,
        merge_section(m, section).texts.take(m.texts.len() as int) == m.texts,
{
    assert(merge_section(m, section).texts.take(m.texts.len() as int) =~= m.texts);
}

/// Whether the lines from `from` to `to` are one numbered entry.
pub open spec fn is_entry(section: Seq<Seq<char>>, from: int, to: int) -> bool {
    &&& 0 <= from < to <= section.len()
    &&& begins_entry(section[from])
    &&& forall|k: int| from < k < to ==> !begins_entry(#[trigger] section[k])
    &&& to < section.len() ==> begins_entry(section[to])
}

/// Whether every address of some lines is new when it is read.
pub open spec fn all_new(
    section: Seq<Seq<char>>,
    seen: Seq<Seq<char>>,
    from: int,
    to: int,
) -> bool {
    forall|j: int|
        from <= j < to && line_url(#[trigger] section[j]) is Some ==> !scan(
            section.take(j),
            seen,
        ).seen.contains(same_form(line_url(section[j])->0))
}

/// Whether some lines stand together among others.
pub open spec fn holds(all: Seq<Seq<char>>, part: Seq<Seq<char>>) -> bool {
    exists|p: int| #[trigger] stands_at(all, part, p)
}

pub open spec fn stands_at(all: Seq<Seq<char>>, part: Seq<Seq<char>>, p: int) -> bool {
    0 <= p && p + part.len() <= all.len() && all.subrange(p, p + part.len()) == part
}

proof fn lemma_scan_step(section: Seq<Seq<char>>, seen: Seq<Seq<char>>, k: int)
    requires
        0 <= k < section.len(),
    ensures
        scan(section.take(k + 1), seen) == scan_line(scan(section.take(k), seen), section[k]),
{
    assert(section.take(k + 1).drop_last() =~= section.take(k));
}

/// While an entry with new addresses is read, its lines are kept.
proof fn lemma_entry_is_read(
    section: Seq<Seq<char>>,
    seen: Seq<Seq<char>>,
    from: int,
    to: int,
    k: int,
)
    requires
        is_entry(section, from, to),
        all_new(section, seen, from, to),
        from < k <= to,
    ensures
        ({
            let before = scan(section.take(from), seen);
            let s = scan(section.take(k), seen);
            s.out == before.out + section.subrange(from, k) && !s.dropping
        }),
    decreases k,
{
    let before = scan(section.take(from), seen);
    lemma_scan_step(section, seen, k - 1);
    if k > from + 1 {
        lemma_entry_is_read(section, seen, from, to, k - 1);
    } else {
        assert(section.subrange(from, k - 1) =~= Seq::empty());
    }
    let s = scan(section.take(k - 1), seen);
    assert(s.out =~= before.out + section.subrange(from, k - 1));
    assert(line_url(section[k - 1]) is Some ==> !s.seen.contains(
        same_form(line_url(section[k - 1])->0),
    ));
    assert(s.out.push(section[k - 1]) =~= before.out + section.subrange(from, k));
}

/// What is kept up to the start of an entry stays whatever follows.
proof fn lemma_entry_stays(section: Seq<Seq<char>>, seen: Seq<Seq<char>>, to: int, k: int)
    requires
        0 <= to <= k <= section.len(),
        to < section.len() ==> begins_entry(section[to]),
    ensures
        ({
            let kept = scan(section.take(to), seen).out;
            let s = scan(section.take(k), seen);
            &&& kept.len() <= s.out.len()
            &&& s.out.take(kept.len() as int) == kept
            &&& k > to ==> s.start is Some && s.start->0 >= kept.len()
        }),
    decreases k,
{
    let kept = scan(section.take(to), seen).out;
    assert(kept.take(kept.len() as int) =~= kept);
    if k > to {
        lemma_entry_stays(section, seen, to, k - 1);
        lemma_scan_step(section, seen, k - 1);
        let s = scan(section.take(k - 1), seen);
        let r = scan(section.take(k), seen);
        assert(s.out.push(section[k - 1]).take(kept.len() as int) =~= s.out.take(
            kept.len() as int,
        ));
        assert(r.out.take(kept.len() as int) =~= kept);
    }
}

/// An entry none of whose addresses was given before is kept whole.
pub proof fn law_new_entry_is_kept(
    section: Seq<Seq<char>>,
    seen: Seq<Seq<char>>,
    from: int,
    to: int,
)
    requires
        is_entry(section, from, to),
        all_new(section, seen, from, to),
    ensures
        holds(scan(section, seen).out, section.subrange(from, to)),
        has_entry(scan(section, seen).out),
{
    lemma_entry_is_read(section, seen, from, to, to);
    lemma_entry_stays(section, seen, to, section.len() as int);
    assert(section.take(section.len() as int) =~= section);
    let p = scan(section.take(from), seen).out.len() as int;
    let kept = scan(section.take(to), seen).out;
    let out = scan(section, seen).out;
    let entry = section.subrange(from, to);
    assert(out.subrange(p, p + entry.len()) =~= entry) by {
        assert forall|i: int| 0 <= i < entry.len() implies out[p + i] == #[trigger] entry[i] by {
            assert(out.take(kept.len() as int)[p + i] == kept[p + i]);
        }
    }
    assert(stands_at(out, entry, p));
    assert(out[p] == out.subrange(p, p + entry.len())[0]);
    assert(begins_entry(out[p]));
}

/// Whether a line carries an address.
pub open spec fn carries(line: Seq<char>, address: Seq<char>) -> bool {
    line_url(line) is Some && same_form(line_url(line)->0) == address
}

/// Whether some line carries an address.
pub open spec fn given_in(section: Seq<Seq<char>>, address: Seq<char>) -> bool {
    exists|i: int| 0 <= i < section.len() && #[trigger] carries(section[i], address)
}

/// Whether some section carries an address.
pub open spec fn given(sections: Seq<Seq<char>>, address: Seq<char>) -> bool {
    exists|n: int| 0 <= n < sections.len() && #[trigger] given_in(lines(sections[n]), address)
}

/// Reading lines notes only addresses that they carry.
proof fn lemma_only_given(section: Seq<Seq<char>>, seen: Seq<Seq<char>>, x: Seq<char>)
    ensures
        scan(section, seen).seen.contains(x) ==> seen.contains(x) || given_in(section, x),
        noted(section, seen).contains(x) ==> seen.contains(x) || given_in(section, x),
    decreases section.len(),
{
    if section.len() > 0 {
        let init = section.drop_last();
        let line = section.last();
        lemma_only_given(init, seen, x);
        if given_in(init, x) {
            let i = choose|i: int| 0 <= i < init.len() && #[trigger] carries(init[i], x);
            assert(carries(section[i], x));
        }
        if let Some(u) = line_url(line) {
            lemma_push_contains(scan(init, seen).seen, same_form(u));
            lemma_push_contains(noted(init, seen), same_form(u));
            if x == same_form(u) {
                assert(carries(section[section.len() - 1], x));
            }
        }
    }
}

/// Merging notes only addresses that the sections carry.
proof fn lemma_merge_only_given(sections: Seq<Seq<char>>, x: Seq<char>)
    ensures
        merge(sections).seen.contains(x) ==> given(sections, x),
    decreases sections.len(),
{
    if sections.len() > 0 {
        let init = sections.drop_last();
        lemma_merge_only_given(init, x);
        lemma_only_given(lines(sections.last()), merge(init).seen, x);
        if given(init, x) {
            let n = choose|n: int| 0 <= n < init.len() && #[trigger] given_in(lines(init[n]), x);
            assert(given_in(lines(sections[n]), x));
        }
        if given_in(lines(sections.last()), x) {
            assert(given_in(lines(sections[sections.len() - 1]), x));
        }
    }
}

/// What the first sections gave stays whatever is merged after them.
proof fn lemma_merge_extends(sections: Seq<Seq<char>>, n: int)
    requires
        0 <= n <= sections.len(),
    ensures
        ({
            let a = merge(sections.take(n));
            let b = merge(sections);
            &&& a.kept.len() <= b.kept.len() && b.kept.take(a.kept.len() as int) == a.kept
            &&& a.texts.len() <= b.texts.len() && b.texts.take(a.texts.len() as int) == a.texts
        }),
    decreases sections.len(),
{
    let a = merge(sections.take(n));
    if n == sections.len() {
        assert(sections.take(n) =~= sections);
        assert(a.kept.take(a.kept.len() as int) =~= a.kept);
        assert(a.texts.take(a.texts.len() as int) =~= a.texts);
    } else {
        let init = sections.drop_last();
        lemma_merge_extends(init, n);
        assert(init.take(n) =~= sections.take(n));
        let c = merge(init);
        let b = merge(sections);
        law_earlier_engines_come_first(c, sections.last());
        assert(b.kept.take(c.kept.len() as int) =~= c.kept);
        assert(b.kept.take(a.kept.len() as int) =~= c.kept.take(a.kept.len() as int));
        assert(b.texts.take(a.texts.len() as int) =~= b.texts.take(c.texts.len() as int).take(
            a.texts.len() as int,
        ));
    }
}

/// The text under which a section with numbered entries is merged.
pub open spec fn merged_text(m: Merge, section: Seq<char>) -> Seq<char> {
    let s = scan(lines(section), m.seen);
    if s.mutated {
        join(s.out, "\n"@)
    } else {
        section
    }
}

/// Every address keeps its first entry: the entry that gives it first, in the
/// order of the sections and of their lines, is kept whole and its section is
/// in the answer, unless the entry also carries an address given before it.
#[verifier::rlimit(60)]
#[verifier::spinoff_prover]
pub proof fn law_first_entry_stays(sections: Seq<Seq<char>>, n: int, from: int, to: int)
    requires
        0 <= n < sections.len(),
        is_entry(lines(sections[n]), from, to),
        forall|j: int, x: Seq<char>|
            from <= j < to && #[trigger] carries(lines(sections[n])[j], x) ==> !given(
                sections.take(n),
                x,
            ) && !given_in(lines(sections[n]).take(j), x),
    ensures
        ({
            let section = lines(sections[n]);
            let before = merge(sections.take(n));
            let entry = section.subrange(from, to);
            &&& holds(merge(sections).kept, entry)
            &&& holds(scan(section, before.seen).out, entry)
            &&& merge(sections).texts.contains(merged_text(before, sections[n]))
        }),
{
    let section = lines(sections[n]);
    let before = merge(sections.take(n));
    let entry = section.subrange(from, to);
    assert forall|j: int|
        from <= j < to && line_url(#[trigger] section[j]) is Some implies !scan(
        section.take(j),
        before.seen,
    ).seen.contains(same_form(line_url(section[j])->0)) by {
        let x = same_form(line_url(section[j])->0);
        assert(carries(section[j], x));
        lemma_merge_only_given(sections.take(n), x);
        lemma_only_given(section.take(j), before.seen, x);
    }
    law_new_entry_is_kept(section, before.seen, from, to);
    let out = scan(section, before.seen).out;
    assert(has_entry(section)) by {
        assert(begins_entry(section[from]));
    }
    let upto = sections.take(n + 1);
    assert(upto.drop_last() =~= sections.take(n));
    assert(upto.last() == sections[n]);
    let mid = merge(upto);
    assert(mid == merge_section(before, sections[n]));
    assert(mid.kept == before.kept + out);
    assert(mid.texts == before.texts.push(merged_text(before, sections[n])));
    lemma_merge_extends(sections, n + 1);
    let all = merge(sections);
    let p = choose|p: int| #[trigger] stands_at(out, entry, p);
    let q = before.kept.len() + p;
    assert(all.kept.subrange(q, q + entry.len()) =~= entry) by {
        assert forall|i: int| 0 <= i < entry.len() implies all.kept[q + i] == #[trigger] entry[i] by {
            assert(all.kept.take(mid.kept.len() as int)[q + i] == mid.kept[q + i]);
            assert(out.subrange(p, p + entry.len())[i] == entry[i]);
        }
    }
    assert(stands_at(all.kept, entry, q));
    let at = before.texts.len() as int;
    assert(all.texts.take(mid.texts.len() as int)[at] == mid.texts[at]);
    assert(all.texts[at] == merged_text(before, sections[n]));
}

/// A query that says something is accepted with one to ten results, and no
/// other number; a blank one never is.
pub proof fn law_inputs_that_are_accepted(query: Seq<char>, max_results: usize)
    ensures
        input_fault(query, max_results) is None <==> !is_blank(query) && 1 <= max_results <= 10,
        is_blank(query) ==> input_fault(query, max_results) == Some("Query cannot be empty"@),
        input_fault(query, DEFAULT_MAX_RESULTS) is None <==> !is_blank(query),
        DEFAULT_MAX_RESULTS == 5,
{
}

/// The page's address carries the query, and each attempt has a user agent of
/// its own.
pub proof fn law_requests_to_the_engine(query: Seq<char>, other: Seq<char>, i: int, j: int)
    ensures
        ddg_address(query) == ddg_address(other) ==> percent_encoded(encode_utf8(query))
            == percent_encoded(encode_utf8(other)),
        has_prefix(ddg_address(query), "https://lite.duckduckgo.com/lite/?q="@),
        0 <= i < j < DDG_ATTEMPTS ==> ddg_agent(i) != ddg_agent(j),
        DDG_ATTEMPTS == 4,
        DDG_BACKOFF_MS == 250,
{
    let head = "https://lite.duckduckgo.com/lite/?q="@;
    let x = percent_encoded(encode_utf8(query));
    let y = percent_encoded(encode_utf8(other));
    if ddg_address(query) == ddg_address(other) {
        assert(x =~= ddg_address(query).skip(head.len() as int));
        assert(y =~= ddg_address(other).skip(head.len() as int));
    }
    assert(ddg_address(query).subrange(0, head.len() as int) =~= head);
    reveal_strlit("Mozilla/5.0 (Windows NT 10.0; Win64; x64) AppleWebKit/537.36 (KHTML, like Gecko) Chrome/122.0.0.0 Safari/537.36");
    reveal_strlit("Mozilla/5.0 (Macintosh; Intel Mac OS X 10_15_7) AppleWebKit/605.1.15 (KHTML, like Gecko) Version/17.3 Safari/605.1.15");
    reveal_strlit("Mozilla/5.0 (Windows NT 10.0; Win64; x64; rv:123.0) Gecko/20100101 Firefox/123.0");
    reveal_strlit("Mozilla/5.0 (X11; Linux x86_64) AppleWebKit/537.36 (KHTML, like Gecko) Chrome/121.0.0.0 Safari/537.36");
    assert(ddg_agent(0).len() == 111);
    assert(ddg_agent(1).len() == 117);
    assert(ddg_agent(2).len() == 80);
    assert(ddg_agent(3).len() == 101);
}

/// Letters and digits stand for themselves in an encoded query, and every other
/// byte but four is encoded by its two digits.
pub proof fn law_encoding_byte_by_byte(a: Seq<u8>, b: u8)
    ensures
        0x30 <= b <= 0x39 || 0x41 <= b <= 0x5a || 0x61 <= b <= 0x7a || b == 0x2d || b == 0x2e || b
            == 0x5f || b == 0x7e ==> percent_encoded(a.push(b)) == percent_encoded(a).push(
            b as char,
        ),
        b == 0x20 ==> percent_encoded(a.push(b)) == percent_encoded(a) + "%20"@,
        b == 0x26 ==> percent_encoded(a.push(b)) == percent_encoded(a) + "%26"@,
        b == 0xc3 ==> percent_encoded(a.push(b)) == percent_encoded(a) + "%C3"@,
        b == 0xa9 ==> percent_encoded(a.push(b)) == percent_encoded(a) + "%A9"@,
        percent_encoded(Seq::empty()).len() == 0,
{
    assert(a.push(b).drop_last() =~= a);
    reveal_strlit("%20");
    reveal_strlit("%26");
    reveal_strlit("%C3");
    assert(hex_upper(2) == '2' && hex_upper(0) == '0' && hex_upper(6) == '6' && hex_upper(12)
        == 'C' && hex_upper(3) == '3');
    if b == 0x20 {
        assert(percent_encoded(a.push(b)) =~= percent_encoded(a) + "%20"@);
    }
    if b == 0x26 {
        assert(percent_encoded(a.push(b)) =~= percent_encoded(a) + "%26"@);
    }
    reveal_strlit("%A9");
    assert(hex_upper(10) == 'A' && hex_upper(9) == '9');
    if b == 0xa9 {
        assert(percent_encoded(a.push(b)) =~= percent_encoded(a) + "%A9"@);
    }
    if b == 0xc3 {
        assert(percent_encoded(a.push(b)) =~= percent_encoded(a) + "%C3"@);
    }
}

/// An attempt that failed leaves its status line or its error.
pub proof fn law_failed_attempts_are_told(code: u16, line: String, e: String)
    ensures
        attempt_error(DdgEvent::Status { code, line }) == "HTTP "@ + line@,
        attempt_error(DdgEvent::Failed(e)) == e@,
{
}

proof fn lemma_hits_add(
    a: Seq<(Seq<char>, Seq<char>)>,
    b: Seq<(Seq<char>, Seq<char>)>,
    generic: bool,
)
    ensures
        hits_among(a + b, generic) == hits_among(a, generic) + hits_among(b, generic),
    decreases b.len(),
{
    if b.len() == 0 {
        assert(a + b =~= a);
        assert(hits_among(a, generic) + hits_among(b, generic) =~= hits_among(a, generic));
    } else {
        assert((a + b).drop_last() =~= a + b.drop_last());
        lemma_hits_add(a, b.drop_last(), generic);
        assert(hits_among(a + b, generic) =~= hits_among(a, generic) + hits_among(b, generic));
    }
}

/// A link is kept, in its place, where it has a title and leads to the web: a
/// marked one by its scheme, a generic one by leaving the engine's own pages.
pub proof fn law_links_that_are_hits(
    a: Seq<(Seq<char>, Seq<char>)>,
    url: Seq<char>,
    title: Seq<char>,
    b: Seq<(Seq<char>, Seq<char>)>,
)
    ensures
        !is_blank(title) && has_prefix(url, "http"@) ==> hits_among(
            a.push((url, title)) + b,
            false,
        ) == hits_among(a, false).push((url, title)) + hits_among(b, false),
        is_blank(title) || !has_prefix(url, "http"@) ==> hits_among(a.push((url, title)) + b, false)
            == hits_among(a, false) + hits_among(b, false),
        !is_blank(title) && !tells(url, "duckduckgo.com"@) ==> hits_among(
            a.push((url, title)) + b,
            true,
        ) == hits_among(a, true).push((url, title)) + hits_among(b, true),
        is_blank(title) || tells(url, "duckduckgo.com"@) ==> hits_among(
            a.push((url, title)) + b,
            true,
        ) == hits_among(a, true) + hits_among(b, true),
{
    lemma_hits_add(a.push((url, title)), b, false);
    lemma_hits_add(a.push((url, title)), b, true);
    assert(a.push((url, title)).drop_last() =~= a);
    law_search_finds(url, "duckduckgo.com"@);
}

/// A page gives its marked hits; only where none is marked does it give the
/// generic ones. It never gives more than were asked for, and it gives all that
/// there are up to that number.
pub proof fn law_marked_links_come_first(
    marked: Seq<(Seq<char>, Seq<char>)>,
    generic: Seq<(Seq<char>, Seq<char>)>,
    n: int,
)
    requires
        n >= 0,
    ensures
        page_hits(marked, generic, n).len() <= n,
        n > 0 && hits_among(marked, false).len() > 0 && hits_among(marked, false).len() <= n
            ==> page_hits(marked, generic, n) == hits_among(marked, false),
        n > 0 && hits_among(marked, false).len() > n ==> page_hits(marked, generic, n)
            == hits_among(marked, false).take(n),
        hits_among(marked, false).len() == 0 && hits_among(generic, true).len() <= n ==> page_hits(
            marked,
            generic,
            n,
        ) == hits_among(generic, true),
        hits_among(marked, false).len() == 0 && hits_among(generic, true).len() > n ==> page_hits(
            marked,
            generic,
            n,
        ) == hits_among(generic, true).take(n),
{
}

proof fn lemma_numbered_tells(found: Seq<(Seq<char>, Seq<char>)>, n: nat, i: int)
    requires
        0 <= i < n <= found.len(),
    ensures
        tells(numbered(found, n), decimal((i + 1) as nat) + ". "@ + found[i].1 + "\n"@),
        tells(numbered(found, n), "   🔗 "@ + found[i].0 + "\n\n"@),
    decreases n,
{
    let before = numbered(found, (n - 1) as nat);
    let entry = decimal(n) + ". "@ + found[n - 1].1 + "\n"@;
    let link = "   🔗 "@ + found[n - 1].0 + "\n\n"@;
    let none = Seq::<char>::empty();
    let all = numbered(found, n);
    assert(all == before + entry + link);
    if i == n - 1 {
        lemma_tells(all, before, entry, link);
        assert(before + entry + link + none =~= before + entry + link);
        lemma_tells(all, before + entry, link, none);
    } else {
        lemma_numbered_tells(found, (n - 1) as nat, i);
        assert(none + before + (entry + link) =~= before + entry + link);
        lemma_tells_more(
            all,
            none,
            before,
            entry + link,
            decimal((i + 1) as nat) + ". "@ + found[i].1 + "\n"@,
        );
        lemma_tells_more(all, none, before, entry + link, "   🔗 "@ + found[i].0 + "\n\n"@);
    }
}

/// The answer repeats the query and shows every hit, numbered from one, with
/// its title and its address.
pub proof fn law_every_hit_is_shown(query: Seq<char>, found: Seq<(Seq<char>, Seq<char>)>, i: int)
    ensures
        has_prefix(
            results_text(query, found),
            "🔍 Search results for: \""@ + query + "\"\n\n"@,
        ),
        0 <= i < found.len() ==> tells(
            results_text(query, found),
            decimal((i + 1) as nat) + ". "@ + found[i].1 + "\n"@,
        ),
        0 <= i < found.len() ==> tells(
            results_text(query, found),
            "   🔗 "@ + found[i].0 + "\n\n"@,
        ),
{
    let t = results_text(query, found);
    let head = "🔍 Search results for: \""@ + query + "\"\n\n"@;
    assert(t.subrange(0, head.len() as int) =~= head);
    if 0 <= i < found.len() {
        let all = numbered(found, found.len());
        let none = Seq::<char>::empty();
        lemma_numbered_tells(found, found.len(), i);
        assert(head + all + none =~= head + all);
        lemma_tells_more(t, head, all, none, decimal((i + 1) as nat) + ". "@ + found[i].1 + "\n"@);
        lemma_tells_more(t, head, all, none, "   🔗 "@ + found[i].0 + "\n\n"@);
    }
}

/// A page with hits is a success whatever else it holds; one without is a
/// challenge where it holds a form, and an empty answer otherwise.
pub proof fn law_challenges_are_recognised(
    query: Seq<char>,
    html: Seq<char>,
    found: Seq<(Seq<char>, Seq<char>)>,
)
    ensures
        found.len() > 0 ==> page_answer(query, html, found) == Reply::Success(
            results_text(query, found),
        ),
        found.len() == 0 && tells(html, "<form"@) ==> page_answer(query, html, found) is Error,
        found.len() == 0 && !tells(html, "<form"@) ==> page_answer(query, html, found)
            == Reply::Success(results_text(query, found)),
{
    law_search_finds(html, "<form"@);
}

/// A line carries the web address behind its mark, whatever white space stands
/// around either.
pub proof fn law_address_is_read(
    a: Seq<char>,
    w: Seq<char>,
    url: Seq<char>,
    b: Seq<char>,
)
    requires
        forall|i: int| 0 <= i < a.len() ==> is_space(a[i]),
        forall|i: int| 0 <= i < w.len() ==> is_space(w[i]),
        forall|i: int| 0 <= i < b.len() ==> is_space(b[i]),
        url.len() > 0,
        !is_space(url[0]) && !is_space(url.last()),
    ensures
        has_prefix(url, "http://"@) || has_prefix(url, "https://"@) ==> line_url(
            a + ("URL:"@ + w + url) + b,
        ) == Some(url) && line_url(a + ("🔗"@ + w + url) + b) == Some(url),
        !has_prefix(url, "http://"@) && !has_prefix(url, "https://"@) ==> line_url(
            a + ("URL:"@ + w + url) + b,
        ) is None && line_url(a + ("🔗"@ + w + url) + b) is None,
        !has_prefix(url, "URL:"@) && !has_prefix(url, "🔗"@) && (url + b).len() >= 4 && url.len()
            >= 4 ==> line_url(a + url + b) is None,
{
    reveal_strlit("URL:");
    reveal_strlit("🔗");
    let plain = "URL:"@ + w + url;
    let link = "🔗"@ + w + url;
    law_white_space('U');
    assert(!is_space('🔗'));
    assert(plain[0] == 'U' && plain.last() == url.last());
    assert(link[0] == '🔗' && link.last() == url.last());
    law_trimming_leaves_the_text(a, plain, b);
    law_trimming_leaves_the_text(a, link, b);
    law_trimming_leaves_the_text(w, url, b);
    law_trimming_leaves_the_text(a, url, b);
    let t = plain + b;
    assert(t.subrange(0, 4) =~= "URL:"@);
    assert(t.skip(4) =~= w + url + b);
    let u = link + b;
    assert(u.subrange(0, 1) =~= "🔗"@);
    assert(u.skip(1) =~= w + url + b);
    if has_prefix(u, "URL:"@) {
        assert(u.subrange(0, 4)[0] == 'U');
    }
    let v = url + b;
    if url.len() >= 4 {
        assert(v.subrange(0, 4) =~= url.subrange(0, 4));
        assert(v.subrange(0, 1) =~= url.subrange(0, 1));
    }
}

/// A line begins an entry where, after white space, digits stand before a full
/// stop and a blank. One that begins with no digit begins none.
pub proof fn law_numbered_lines_begin_entries(
    a: Seq<char>,
    digits: Seq<char>,
    rest: Seq<char>,
    line: Seq<char>,
)
    requires
        forall|i: int| 0 <= i < a.len() ==> is_space(a[i]),
        digits.len() > 0,
        forall|i: int| 0 <= i < digits.len() ==> is_digit(digits[i]),
    ensures
        begins_entry(a + (digits + ". "@) + rest),
        begins_entry(line) ==> trim_start(line).len() > 0 && is_digit(trim_start(line)[0]) && tells(
            trim_start(line),
            ". "@,
        ),
{
    reveal_strlit(". ");
    let s = digits + "."@;
    reveal_strlit(".");
    law_white_space(digits[0]);
    law_white_space('.');
    let t = digits + ". "@ + rest;
    lemma_trim_start_keeps(a, t);
    assert(a + (digits + ". "@) + rest =~= a + t);
    lemma_find_from(t, ". "@, 0);
    let n = digits.len() as int;
    assert(t.subrange(n, n + 2) =~= ". "@);
    assert(matches_at(t, ". "@, n));
    if let Some(k) = find(t, ". "@) {
        if k < n {
            assert(t.subrange(k, k + 2)[0] == t[k]);
            assert(t[k] == digits[k]);
            law_white_space(digits[k]);
        }
    }
    lemma_find_from(trim_start(line), ". "@, 0);
}

proof fn lemma_trim_start_keeps(a: Seq<char>, t: Seq<char>)
    requires
        forall|i: int| 0 <= i < a.len() ==> is_space(a[i]),
        t.len() > 0,
        !is_space(t[0]),
    ensures
        trim_start(a + t) == t,
    decreases a.len(),
{
    let all = a + t;
    if a.len() == 0 {
        assert(all =~= t);
    } else {
        assert(all[0] == a[0]);
        assert(all.drop_first() =~= a.drop_first() + t);
        lemma_trim_start_keeps(a.drop_first(), t);
    }
}

/// Slashes at the end of an address do not tell two addresses apart.
pub proof fn law_trailing_slashes_do_not_count(url: Seq<char>, m: nat, n: nat)
    requires
        url.len() > 0 ==> url.last() != '/',
    ensures
        same_form(url + Seq::new(m, |i: int| '/')) == same_form(url + Seq::new(n, |i: int| '/')),
        same_form(url + Seq::new(n, |i: int| '/')) == lowercase(url),
{
    law_trailing_run_is_dropped(m, url, '/');
    law_trailing_run_is_dropped(n, url, '/');
}

proof fn lemma_entry_begins(
    section: Seq<Seq<char>>,
    seen: Seq<Seq<char>>,
    from: int,
    to: int,
    k: int,
)
    requires
        is_entry(section, from, to),
        from < k <= to,
        all_new(section, seen, from, k),
    ensures
        ({
            let before = scan(section.take(from), seen);
            let s = scan(section.take(k), seen);
            &&& s.out == before.out + section.subrange(from, k)
            &&& s.start == Some(before.out.len() as int)
            &&& !s.dropping
        }),
    decreases k,
{
    let before = scan(section.take(from), seen);
    lemma_scan_step(section, seen, k - 1);
    if k > from + 1 {
        lemma_entry_begins(section, seen, from, to, k - 1);
    } else {
        assert(section.subrange(from, k - 1) =~= Seq::empty());
    }
    let s = scan(section.take(k - 1), seen);
    assert(s.out =~= before.out + section.subrange(from, k - 1));
    assert(line_url(section[k - 1]) is Some ==> !s.seen.contains(
        same_form(line_url(section[k - 1])->0),
    ));
    assert(s.out.push(section[k - 1]) =~= before.out + section.subrange(from, k));
}

proof fn lemma_entry_drops(
    section: Seq<Seq<char>>,
    seen: Seq<Seq<char>>,
    from: int,
    to: int,
    j: int,
    k: int,
)
    requires
        is_entry(section, from, to),
        from <= j < k <= to,
        all_new(section, seen, from, j),
        line_url(section[j]) is Some,
        scan(section.take(j), seen).seen.contains(same_form(line_url(section[j])->0)),
    ensures
        ({
            let s = scan(section.take(k), seen);
            s.out == scan(section.take(from), seen).out && s.dropping && s.mutated
        }),
    decreases k,
{
    lemma_scan_step(section, seen, k - 1);
    let before = scan(section.take(from), seen);
    if k > j + 1 {
        lemma_entry_drops(section, seen, from, to, j, k - 1);
    } else {
        let s = scan(section.take(j), seen);
        if j > from {
            lemma_entry_begins(section, seen, from, to, j);
            assert(s.out.take(before.out.len() as int) =~= before.out);
        } else {
            assert(s.out == before.out);
        }
    }
}

/// An entry with an address that was given before is dropped whole, its title
/// and its other lines with it: none of its lines is kept.
pub proof fn law_repeated_entry_is_dropped_whole(
    section: Seq<Seq<char>>,
    seen: Seq<Seq<char>>,
    from: int,
    to: int,
    j: int,
)
    requires
        is_entry(section, from, to),
        from <= j < to,
        all_new(section, seen, from, j),
        line_url(section[j]) is Some,
    ensures
        scan(section.take(j), seen).seen.contains(same_form(line_url(section[j])->0)) ==> scan(
            section.take(to),
            seen,
        ).out == scan(section.take(from), seen).out,
        scan(section.take(j), seen).seen.contains(same_form(line_url(section[j])->0)) ==> scan(
            section.take(to),
            seen,
        ).mutated,
{
    if scan(section.take(j), seen).seen.contains(same_form(line_url(section[j])->0)) {
        lemma_entry_drops(section, seen, from, to, j, to);
    }
}

/// A section that loses all its entries is left out; one that loses some is
/// shown by the lines that are left, and one that loses none as it was.
pub proof fn law_sections_show_what_is_left(m: Merge, section: Seq<char>)
    requires
        has_entry(lines(section)),
    ensures
        ({
            let s = scan(lines(section), m.seen);
            &&& !has_entry(s.out) ==> merge_section(m, section).texts == m.texts
            &&& has_entry(s.out) && s.mutated ==> merge_section(m, section).texts == m.texts.push(
                join(s.out, "\n"@),
            )
            &&& has_entry(s.out) && !s.mutated ==> merge_section(m, section).texts == m.texts.push(
                section,
            )
        }),
{
}

proof fn lemma_sections_add(a: Seq<Option<Reply>>, b: Seq<Option<Reply>>)
    ensures
        sections_of(a + b) == sections_of(a) + sections_of(b),
    decreases b.len(),
{
    if b.len() == 0 {
        assert(a + b =~= a);
        assert(sections_of(a) + sections_of(b) =~= sections_of(a));
    } else {
        assert((a + b).drop_last() =~= a + b.drop_last());
        lemma_sections_add(a, b.drop_last());
        assert(sections_of(a + b) =~= sections_of(a) + sections_of(b));
    }
}

/// Every engine that succeeded has its section, in order; errors and engines
/// without an answer have none. The search fails only where no engine
/// succeeded.
pub proof fn law_every_success_counts(a: Seq<Option<Reply>>, t: Seq<char>, b: Seq<Option<Reply>>)
    ensures
        sections_of(a.push(Some(Reply::Success(t))) + b) == sections_of(a).push(t) + sections_of(b),
        sections_of(a.push(Some(Reply::Error(t))) + b) == sections_of(a) + sections_of(b),
        sections_of(a.push(None) + b) == sections_of(a) + sections_of(b),
        combined(a.push(Some(Reply::Success(t))) + b) is Success,
        sections_of(a).len() == 0 ==> combined(a) is Error,
        sections_of(a).len() > 0 ==> combined(a) == Reply::Success(
            join(merge(sections_of(a)).texts, "\n\n"@),
        ),
{
    lemma_sections_add(a.push(Some(Reply::Success(t))), b);
    lemma_sections_add(a.push(Some(Reply::Error(t))), b);
    lemma_sections_add(a.push(None), b);
    assert(a.push(Some(Reply::Success(t))).drop_last() =~= a);
    assert(a.push(Some(Reply::Error(t))).drop_last() =~= a);
    assert(a.push(None).drop_last() =~= a);
}

} // verus!
