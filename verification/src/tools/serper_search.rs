//! Google results through Serper: the request, and how its results render.
use vstd::prelude::*;

use super::error::ToolError;
use super::result::{Reply, ToolResult};
use super::web_search::input_fault;
use crate::json::{
    law_object_shows_each_member, literal, member_views, render_object, rendered_object, to_literal,
};
use crate::search::{dec_usize, decimal, has_prefix, lemma_tells, lemma_tells_more, tells};
use crate::text::{blank, cat2, cat3, cat4, is_blank, oview, trim, trimmed};

verus! {

/// The Serper tool.
pub struct SerperSearchTool {
    pub api_key: String,
}

impl SerperSearchTool {
    pub fn new(api_key: String) -> (r: Self)
        ensures
            r.api_key@ == api_key@,
    {
        SerperSearchTool { api_key }
    }
}

/// A search.
pub struct SerperSearchInput {
    pub query: String,
    pub max_results: usize,
    /// Country code.
    pub gl: Option<String>,
    /// Language code.
    pub hl: Option<String>,
}

/// Whether a code was given and is blank.
pub open spec fn empty_code(code: Option<String>) -> bool {
    code is Some && is_blank(code->0@)
}

/// Why a search is refused.
pub open spec fn search_fault(input: SerperSearchInput) -> Option<Seq<char>> {
    match input_fault(input.query@, input.max_results) {
        Some(f) => Some(f),
        None => if empty_code(input.gl) {
            Some("gl"@ + " cannot be empty when provided"@)
        } else if empty_code(input.hl) {
            Some("hl"@ + " cannot be empty when provided"@)
        } else {
            None
        },
    }
}

fn code_is_empty(code: &Option<String>) -> (r: bool)
    ensures
        r == empty_code(*code),
{
    match code {
        Some(c) => blank(c.as_str()),
        None => false,
    }
}

/// Checks a search.
pub fn validate_input(input: &SerperSearchInput) -> (r: Result<(), ToolError>)
    ensures
        match r {
            Ok(()) => search_fault(*input) is None,
            Err(e) => e is InvalidInput && search_fault(*input) == Some(e->InvalidInput_0@),
        },
{
    match super::web_search::validate_input(input.query.as_str(), input.max_results) {
        Ok(()) => {},
        Err(e) => return Err(e),
    }
    if code_is_empty(&input.gl) {
        return Err(ToolError::InvalidInput(cat2("gl", " cannot be empty when provided")));
    }
    if code_is_empty(&input.hl) {
        return Err(ToolError::InvalidInput(cat2("hl", " cannot be empty when provided")));
    }
    Ok(())
}

/// A code as it is sent: trimmed, and left out where nothing remains.
pub open spec fn sent_code(key: Seq<char>, code: Option<Seq<char>>) -> Seq<(Seq<char>, Seq<char>)> {
    match code {
        Some(c) => if trimmed(c).len() > 0 {
            seq![(key, literal(trimmed(c)))]
        } else {
            Seq::empty()
        },
        None => Seq::empty(),
    }
}

/// The request's body.
pub open spec fn request_text(input: SerperSearchInput) -> Seq<char> {
    rendered_object(
        seq![("q"@, literal(input.query@)), ("num"@, decimal(input.max_results as nat))]
            + sent_code("gl"@, oview(input.gl)) + sent_code("hl"@, oview(input.hl)),
    )
}

fn push_code(v: &mut Vec<(String, String)>, key: &str, code: &Option<String>)
    ensures
        member_views(final(v)@) == member_views(old(v)@) + sent_code(key@, oview(*code)),
{
    let ghost pre = member_views(v@);
    if let Some(c) = code {
        let t = trim(c.as_str());
        if !t.is_empty() {
            v.push((key.to_owned(), to_literal(t)));
            assert(member_views(v@) =~= pre + seq![(key@, literal(t@))]);
            return;
        }
    }
    assert(pre + Seq::<(Seq<char>, Seq<char>)>::empty() =~= pre);
}

/// The request's body. A code that is not set is left out, so that the
/// service's own default applies.
pub fn request_body(input: &SerperSearchInput) -> (r: String)
    ensures
        r@ == request_text(*input),
{
    let mut v: Vec<(String, String)> = Vec::new();
    v.push(("q".to_owned(), to_literal(input.query.as_str())));
    v.push(("num".to_owned(), dec_usize(input.max_results)));
    assert(member_views(v@) =~= seq![
        ("q"@, literal(input.query@)),
        ("num"@, decimal(input.max_results as nat)),
    ]);
    push_code(&mut v, "gl", &input.gl);
    push_code(&mut v, "hl", &input.hl);
    render_object(&v)
}

/// A result.
pub struct SerperOrganic {
    pub title: String,
    pub link: String,
    pub snippet: Option<String>,
}

/// One result as a numbered entry.
pub open spec fn entry(n: nat, o: SerperOrganic) -> Seq<char> {
    (decimal(n) + ". "@ + o.title@ + "\n"@) + ("   URL: "@ + o.link@ + "\n"@) + (match o.snippet {
        Some(s) => "   "@ + s@ + "\n"@,
        None => Seq::empty(),
    }) + "\n"@
}

/// The first `n` results.
pub open spec fn entries(v: Seq<SerperOrganic>, n: nat) -> Seq<char>
    decreases n,
{
    if n == 0 {
        Seq::empty()
    } else {
        entries(v, (n - 1) as nat) + entry(n, v[n - 1])
    }
}

/// The answer.
pub open spec fn answer_text(query: Seq<char>, v: Seq<SerperOrganic>) -> Seq<char> {
    let head = "Search results for: \""@ + query + "\"\n\n"@;
    if v.len() == 0 {
        head + "No results found. Try rephrasing your query.\n"@
    } else {
        head + entries(v, v.len())
    }
}

/// The answer with the results of a search.
pub fn answer(query: &str, organic: &Vec<SerperOrganic>) -> (r: ToolResult)
    ensures
        r@ == Reply::Success(answer_text(query@, organic@)),
{
    let mut out = cat3("Search results for: \"", query, "\"\n\n");
    if organic.len() == 0 {
        out.append("No results found. Try rephrasing your query.\n");
        return ToolResult::success(out);
    }
    let ghost head = out@;
    let mut i: usize = 0;
    assert(out@ =~= head + entries(organic@, 0));
    while i < organic.len()
        invariant
            i <= organic.len(),
            out@ == head + entries(organic@, i as nat),
        decreases organic.len() - i,
    {
        let o = &organic[i];
        let title = cat4(dec_usize(i + 1).as_str(), ". ", o.title.as_str(), "\n");
        let link = cat3("   URL: ", o.link.as_str(), "\n");
        let mut e = cat2(title.as_str(), link.as_str());
        let ghost two = e@;
        if let Some(s) = &o.snippet {
            let line = cat3("   ", s.as_str(), "\n");
            e.append(line.as_str());
        } else {
            assert(two + Seq::<char>::empty() =~= two);
        }
        e.append("\n");
        assert(e@ =~= entry((i + 1) as nat, *o));
        out.append(e.as_str());
        assert(out@ =~= head + entries(organic@, (i + 1) as nat));
        i = i + 1;
    }
    ToolResult::success(out)
}

/// The answer where the service refused: the status with its reason, and the
/// body.
pub fn refused(status: &str, body: &str) -> (r: ToolResult)
    ensures
        r@ == Reply::Error("Serper search failed with status "@ + status@ + ": "@ + body@),
{
    ToolResult::error(cat4("Serper search failed with status ", status, ": ", body))
}

/// A search is accepted where its query and number are, and no code that is
/// given is blank.
pub proof fn law_searches_that_are_accepted(input: SerperSearchInput)
    ensures
        search_fault(input) is None <==> input_fault(input.query@, input.max_results) is None && (
        input.gl is Some ==> !is_blank(input.gl->0@)) && (input.hl is Some ==> !is_blank(
            input.hl->0@,
        )),
{
}

/// The request carries the query, the number and each code that is set; a code
/// that is not set is left out.
pub proof fn law_request_carries_the_search(input: SerperSearchInput)
    ensures
        tells(request_text(input), literal("q"@) + ":"@ + literal(input.query@)),
        tells(request_text(input), literal("num"@) + ":"@ + decimal(input.max_results as nat)),
        input.gl is Some && trimmed(input.gl->0@).len() > 0 ==> tells(
            request_text(input),
            literal("gl"@) + ":"@ + literal(trimmed(input.gl->0@)),
        ),
        input.hl is Some && trimmed(input.hl->0@).len() > 0 ==> tells(
            request_text(input),
            literal("hl"@) + ":"@ + literal(trimmed(input.hl->0@)),
        ),
        input.gl is None && input.hl is None ==> request_text(input) == rendered_object(
            seq![("q"@, literal(input.query@)), ("num"@, decimal(input.max_results as nat))],
        ),
{
    let two = seq![("q"@, literal(input.query@)), ("num"@, decimal(input.max_results as nat))];
    let gl = sent_code("gl"@, oview(input.gl));
    let hl = sent_code("hl"@, oview(input.hl));
    let ms = two + gl + hl;
    assert(ms[0] == two[0] && ms[1] == two[1]);
    law_object_shows_each_member(ms, 0);
    law_object_shows_each_member(ms, 1);
    if gl.len() > 0 {
        assert(ms[2] == gl[0]);
        law_object_shows_each_member(ms, 2);
    }
    if hl.len() > 0 {
        let k = (two + gl).len() as int;
        assert(ms[k] == hl[0]);
        law_object_shows_each_member(ms, k);
    }
    if input.gl is None && input.hl is None {
        assert(ms =~= two);
    }
}

proof fn lemma_entry_shows(n: nat, o: SerperOrganic)
    ensures
        tells(entry(n, o), decimal(n) + ". "@ + o.title@ + "\n"@),
        tells(entry(n, o), "   URL: "@ + o.link@ + "\n"@),
        o.snippet is Some ==> tells(entry(n, o), "   "@ + o.snippet->0@ + "\n"@),
{
    let t = entry(n, o);
    let a = decimal(n) + ". "@ + o.title@ + "\n"@;
    let b = "   URL: "@ + o.link@ + "\n"@;
    let c = match o.snippet {
        Some(s) => "   "@ + s@ + "\n"@,
        None => Seq::empty(),
    };
    let none = Seq::<char>::empty();
    assert(t == a + b + c + "\n"@);
    assert(t =~= none + a + (b + c + "\n"@));
    lemma_tells(t, none, a, b + c + "\n"@);
    assert(t =~= a + b + (c + "\n"@));
    lemma_tells(t, a, b, c + "\n"@);
    lemma_tells(t, a + b, c, "\n"@);
}

proof fn lemma_entries_show(v: Seq<SerperOrganic>, n: nat, i: int, x: Seq<char>)
    requires
        0 <= i < n <= v.len(),
        tells(entry((i + 1) as nat, v[i]), x),
    ensures
        tells(entries(v, n), x),
    decreases n,
{
    let t = entries(v, n);
    let before = entries(v, (n - 1) as nat);
    let last = entry(n, v[n - 1]);
    let none = Seq::<char>::empty();
    if i == n - 1 {
        assert(t =~= before + last + none);
        lemma_tells_more(t, before, last, none, x);
    } else {
        lemma_entries_show(v, (n - 1) as nat, i, x);
        assert(t =~= none + before + last);
        lemma_tells_more(t, none, before, last, x);
    }
}

/// The answer repeats the query and shows every result, numbered from one, with
/// its title, its address and what is said of it.
pub proof fn law_every_result_is_shown(query: Seq<char>, v: Seq<SerperOrganic>, i: int)
    ensures
        has_prefix(answer_text(query, v), "Search results for: \""@ + query + "\"\n\n"@),
        0 <= i < v.len() ==> tells(
            answer_text(query, v),
            decimal((i + 1) as nat) + ". "@ + v[i].title@ + "\n"@,
        ) && tells(answer_text(query, v), "   URL: "@ + v[i].link@ + "\n"@),
        0 <= i < v.len() && v[i].snippet is Some ==> tells(
            answer_text(query, v),
            "   "@ + v[i].snippet->0@ + "\n"@,
        ),
{
    let t = answer_text(query, v);
    let head = "Search results for: \""@ + query + "\"\n\n"@;
    assert(t.subrange(0, head.len() as int) =~= head);
    if 0 <= i < v.len() {
        let a = decimal((i + 1) as nat) + ". "@ + v[i].title@ + "\n"@;
        let b = "   URL: "@ + v[i].link@ + "\n"@;
        let all = entries(v, v.len());
        let none = Seq::<char>::empty();
        lemma_entry_shows((i + 1) as nat, v[i]);
        assert(t =~= head + all + none);
        lemma_entries_show(v, v.len(), i, a);
        lemma_entries_show(v, v.len(), i, b);
        lemma_tells_more(t, head, all, none, a);
        lemma_tells_more(t, head, all, none, b);
        if v[i].snippet is Some {
            let c = "   "@ + v[i].snippet->0@ + "\n"@;
            lemma_entries_show(v, v.len(), i, c);
            lemma_tells_more(t, head, all, none, c);
        }
    }
}

} // verus!
