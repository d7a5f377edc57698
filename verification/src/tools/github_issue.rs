//! Reports issues through the `gh` command. The library decides what to run
//! and what its output means.
use vstd::prelude::*;

use super::result::{Reply, ToolResult};
use crate::json::{listed_texts, param, param_of, read_listed, text_pairs, Json};
use crate::search::{
    before_suffixes, contains, find, find_in, first_word, first_word_of, has, has_prefix, has_suffix,
    join, join_strs, law_copies_are_dropped, law_first_word, law_search_finds, lemma_tells_more, lines, lines_of, past_prefixes, split_char, split_on, starts_with, strip_prefixes,
    matches_at, strip_suffixes, tells,
};
use crate::text::{
    cat2, cat3, chars_of, is_space, law_trimming_leaves_the_text, lowercase, oview, str_eq, to_lower, trim, trimmed, views,
};

verus! {

/// The repository that a line's marker names, as `OWNER/REPO`.
pub open spec fn marked_repo(line: Seq<char>) -> Option<Seq<char>> {
    let t = trimmed(line);
    if has(t, "rsi:github-issues"@) {
        match find(t, "repo:"@) {
            Some(i) => {
                let repo = before_suffixes(first_word(t.skip(i + 5)), "-->"@);
                if has(repo, "/"@) {
                    Some(repo)
                } else {
                    None
                }
            },
            None => None,
        }
    } else {
        None
    }
}

/// The repository that the first of the lines with a good marker names.
pub open spec fn first_marked(ls: Seq<Seq<char>>) -> Option<Seq<char>>
    decreases ls.len(),
{
    if ls.len() == 0 {
        None
    } else {
        match marked_repo(ls[0]) {
            Some(r) => Some(r),
            None => first_marked(ls.drop_first()),
        }
    }
}

fn repo_in(line: &str) -> (r: Option<String>)
    ensures
        oview(r) == marked_repo(line@),
{
    let t = trim(line);
    if !contains(t, "rsi:github-issues") {
        return None;
    }
    match find_in(t, "repo:") {
        Some(i) => {
            proof {
                crate::search::lemma_find_from(t@, "repo:"@, 0);
                reveal_strlit("repo:");
            }
            let n = chars_of(t).len();
            let after = t.substring_char(i + 5, n);
            assert(after@ =~= t@.skip(i + 5));
            let word = first_word_of(after);
            let repo = strip_suffixes(word.as_str(), "-->");
            if contains(repo, "/") {
                Some(repo.to_owned())
            } else {
                None
            }
        },
        None => None,
    }
}

/// The repository that the marker in the agents file names:
/// `<!-- rsi:github-issues repo:OWNER/REPO -->`.
pub fn parse_repo_from_agents_md(content: &str) -> (r: Option<String>)
    ensures
        oview(r) == first_marked(lines(content@)),
{
    let ls = lines_of(content);
    let ghost all = views(ls@);
    let mut i: usize = 0;
    assert(all.skip(0) =~= all);
    while i < ls.len()
        invariant
            i <= ls.len(),
            all == views(ls@),
            all == lines(content@),
            first_marked(all) == first_marked(all.skip(i as int)),
        decreases ls.len() - i,
    {
        assert(all.skip(i as int)[0] == ls@[i as int]@);
        assert(all.skip(i as int).drop_first() =~= all.skip(i + 1));
        if let Some(r) = repo_in(ls[i].as_str()) {
            return Some(r);
        }
        i = i + 1;
    }
    None
}

/// The reporter for one repository.
pub struct GithubIssueTool {
    pub repo: String,
}

/// What a run of `gh` gave.
pub enum GhOutcome {
    /// It ran.
    Output { success: bool, stdout: String, stderr: String },
    /// It could not be run.
    Failed(String),
}

/// What to do next.
pub enum IssueStep {
    /// Run `gh` with these arguments and hand the outcome to [`after_list`].
    List(Vec<String>),
    /// Run `gh` with these arguments and hand the outcome to
    /// [`GithubIssueTool::after_search`].
    Search(Vec<String>),
    /// Run `gh` with these arguments and hand the outcome to [`after_create`].
    Create(Vec<String>),
    Done(ToolResult),
}

/// A step, as values.
pub enum IssueStepV {
    List(Seq<Seq<char>>),
    Search(Seq<Seq<char>>),
    Create(Seq<Seq<char>>),
    Done(Reply),
}

impl View for IssueStep {
    type V = IssueStepV;

    open spec fn view(&self) -> IssueStepV {
        match self {
            IssueStep::List(a) => IssueStepV::List(views(a@)),
            IssueStep::Search(a) => IssueStepV::Search(views(a@)),
            IssueStep::Create(a) => IssueStepV::Create(views(a@)),
            IssueStep::Done(r) => IssueStepV::Done(r@),
        }
    }
}

/// The title an issue is filed under.
pub open spec fn filed_title(title: Seq<char>) -> Seq<char> {
    if has_prefix(title, "[RSI]"@) {
        title
    } else {
        "[RSI] "@ + title
    }
}

fn file_title(title: &str) -> (r: String)
    ensures
        r@ == filed_title(title@),
{
    if starts_with(title, "[RSI]") {
        title.to_owned()
    } else {
        cat2("[RSI] ", title)
    }
}

/// What of a title decides whether two issues are the same.
pub open spec fn title_core(title: Seq<char>) -> Seq<char> {
    lowercase(past_prefixes(title, "[RSI] "@))
}

/// The labels among the parts of a list that are added to the standing one.
pub open spec fn extra_labels(parts: Seq<Seq<char>>) -> Seq<Seq<char>>
    decreases parts.len(),
{
    if parts.len() == 0 {
        Seq::empty()
    } else {
        let l = trimmed(parts.last());
        let init = extra_labels(parts.drop_last());
        if l.len() > 0 && l != "rsi-detected"@ {
            init.push(l)
        } else {
            init
        }
    }
}

/// An issue's labels.
pub open spec fn issue_labels(list: Seq<char>) -> Seq<Seq<char>> {
    seq!["rsi-detected"@] + extra_labels(split_on(list, ','))
}

fn labels_for(list: &str) -> (r: Vec<String>)
    ensures
        views(r@) == issue_labels(list@),
{
    let parts = split_char(list, ',');
    let ghost all = views(parts@);
    let mut out: Vec<String> = Vec::new();
    out.push("rsi-detected".to_owned());
    let mut i: usize = 0;
    assert(all.take(0) =~= Seq::empty());
    assert(views(out@) =~= seq!["rsi-detected"@] + extra_labels(all.take(0)));
    while i < parts.len()
        invariant
            i <= parts.len(),
            all == views(parts@),
            views(out@) == seq!["rsi-detected"@] + extra_labels(all.take(i as int)),
        decreases parts.len() - i,
    {
        assert(all.take(i + 1).drop_last() =~= all.take(i as int));
        assert(all.take(i + 1).last() == parts@[i as int]@);
        let l = trim(parts[i].as_str());
        let ghost pre = views(out@);
        if !l.is_empty() && !str_eq(l, "rsi-detected") {
            out.push(l.to_owned());
            assert(views(out@) =~= pre.push(l@));
            assert(views(out@) =~= seq!["rsi-detected"@] + extra_labels(all.take(i + 1)));
        }
        i = i + 1;
    }
    assert(all.take(i as int) =~= all);
    out
}

/// The arguments that list the open issues of a repository.
pub open spec fn list_args(repo: Seq<char>) -> Seq<Seq<char>> {
    seq![
        "issue"@,
        "list"@,
        "--repo"@,
        repo,
        "--label"@,
        "rsi-detected"@,
        "--state"@,
        "open"@,
        "--limit"@,
        "20"@,
        "--json"@,
        "number,title,url,createdAt"@,
    ]
}

/// The arguments that search for open issues with a title.
pub open spec fn search_args(repo: Seq<char>, title: Seq<char>) -> Seq<Seq<char>> {
    seq![
        "issue"@,
        "list"@,
        "--repo"@,
        repo,
        "--label"@,
        "rsi-detected"@,
        "--state"@,
        "open"@,
        "--search"@,
        title,
        "--limit"@,
        "5"@,
        "--json"@,
        "title,number,url"@,
    ]
}

/// The arguments that open an issue.
pub open spec fn create_args(
    repo: Seq<char>,
    title: Seq<char>,
    body: Seq<char>,
    labels: Seq<char>,
) -> Seq<Seq<char>> {
    seq![
        "issue"@,
        "create"@,
        "--repo"@,
        repo,
        "--title"@,
        filed_title(title),
        "--body"@,
        body,
        "--label"@,
        join(issue_labels(labels), ","@),
    ]
}

fn arg(v: &mut Vec<String>, s: &str)
    ensures
        views(final(v)@) == views(old(v)@).push(s@),
{
    let ghost pre = views(v@);
    v.push(s.to_owned());
    assert(views(v@) =~= pre.push(s@));
}

/// How a request begins.
pub open spec fn first_step(repo: Seq<char>, input: Json) -> IssueStepV {
    let action = param(input, "action"@);
    if action == "list"@ {
        IssueStepV::List(list_args(repo))
    } else if action == "create"@ {
        if param(input, "title"@).len() == 0 || param(input, "body"@).len() == 0 {
            IssueStepV::Done(Reply::Error("title and body are required for 'create'"@))
        } else {
            IssueStepV::Search(search_args(repo, param(input, "title"@)))
        }
    } else {
        IssueStepV::Done(
            Reply::Error("Unknown action: '"@ + action + "'. Use 'list' or 'create'."@),
        )
    }
}

/// The title and the address of an issue, where they are known.
pub type IssueTexts = (Option<Seq<char>>, Option<Seq<char>>);

/// The address of the first of the issues with the same title.
pub open spec fn duplicate(issues: Seq<IssueTexts>, core: Seq<char>) -> Option<Seq<char>>
    decreases issues.len(),
{
    if issues.len() == 0 {
        None
    } else {
        match issues[0].0 {
            Some(t) if title_core(t) == core => Some(
                match issues[0].1 {
                    Some(u) => u,
                    None => "(unknown)"@,
                },
            ),
            _ => duplicate(issues.drop_first(), core),
        }
    }
}

fn find_duplicate(issues: &Vec<(Option<String>, Option<String>)>, core: &str) -> (r: Option<
    String,
>)
    ensures
        oview(r) == duplicate(text_pairs(issues@), core@),
{
    let ghost all = text_pairs(issues@);
    let mut i: usize = 0;
    assert(all.skip(0) =~= all);
    while i < issues.len()
        invariant
            i <= issues.len(),
            all == text_pairs(issues@),
            duplicate(all, core@) == duplicate(all.skip(i as int), core@),
        decreases issues.len() - i,
    {
        assert(all.skip(i as int)[0] == all[i as int]);
        assert(all.skip(i as int).drop_first() =~= all.skip(i + 1));
        if let Some(t) = &issues[i].0 {
            if str_eq(to_lower(strip_prefixes(t.as_str(), "[RSI] ")).as_str(), core) {
                return match &issues[i].1 {
                    Some(u) => Some(u.clone()),
                    None => Some("(unknown)".to_owned()),
                };
            }
        }
        i = i + 1;
    }
    None
}

/// The issues that a search gave: those its output lists, where it succeeded
/// and printed a list.
pub open spec fn searched(o: GhOutcome) -> Option<Seq<IssueTexts>> {
    match o {
        GhOutcome::Output { success, stdout, stderr } => if success {
            listed_texts(stdout@, "title"@, "url"@)
        } else {
            None
        },
        GhOutcome::Failed(e) => None,
    }
}

/// What follows the search. No issues are known where it failed or printed no
/// list.
pub open spec fn search_step(
    repo: Seq<char>,
    input: Json,
    issues: Option<Seq<IssueTexts>>,
) -> IssueStepV {
    let found = match issues {
        Some(v) => duplicate(v, title_core(filed_title(param(input, "title"@)))),
        None => None,
    };
    match found {
        Some(url) => IssueStepV::Done(
            Reply::Success("Duplicate — open issue already exists: "@ + url),
        ),
        None => IssueStepV::Create(
            create_args(
                repo,
                param(input, "title"@),
                param(input, "body"@),
                param(input, "labels"@),
            ),
        ),
    }
}

impl GithubIssueTool {
    pub fn new(repo: String) -> (r: Self)
        ensures
            r.repo@ == repo@,
    {
        GithubIssueTool { repo }
    }

    /// Begins a request.
    pub fn execute(&self, input: &Json) -> (r: IssueStep)
        ensures
            r@ == first_step(self.repo@, *input),
    {
        let action = param_of(input, "action");
        if str_eq(action.as_str(), "list") {
            let mut a: Vec<String> = Vec::new();
            assert(views(a@) =~= Seq::empty());
            arg(&mut a, "issue");
            arg(&mut a, "list");
            arg(&mut a, "--repo");
            arg(&mut a, self.repo.as_str());
            arg(&mut a, "--label");
            arg(&mut a, "rsi-detected");
            arg(&mut a, "--state");
            arg(&mut a, "open");
            arg(&mut a, "--limit");
            arg(&mut a, "20");
            arg(&mut a, "--json");
            arg(&mut a, "number,title,url,createdAt");
            assert(views(a@) =~= list_args(self.repo@));
            return IssueStep::List(a);
        }
        if str_eq(action.as_str(), "create") {
            let title = param_of(input, "title");
            let body = param_of(input, "body");
            if title.as_str().is_empty() || body.as_str().is_empty() {
                return IssueStep::Done(
                    ToolResult::error("title and body are required for 'create'".to_owned()),
                );
            }
            let mut a: Vec<String> = Vec::new();
            assert(views(a@) =~= Seq::empty());
            arg(&mut a, "issue");
            arg(&mut a, "list");
            arg(&mut a, "--repo");
            arg(&mut a, self.repo.as_str());
            arg(&mut a, "--label");
            arg(&mut a, "rsi-detected");
            arg(&mut a, "--state");
            arg(&mut a, "open");
            arg(&mut a, "--search");
            arg(&mut a, title.as_str());
            arg(&mut a, "--limit");
            arg(&mut a, "5");
            arg(&mut a, "--json");
            arg(&mut a, "title,number,url");
            assert(views(a@) =~= search_args(self.repo@, title@));
            return IssueStep::Search(a);
        }
        IssueStep::Done(
            ToolResult::error(
                cat3("Unknown action: '", action.as_str(), "'. Use 'list' or 'create'."),
            ),
        )
    }

    /// Goes on after the search: an issue with the same title is not filed
    /// again. A search that failed or printed no list is passed over.
    pub fn after_search(&self, input: &Json, o: &GhOutcome) -> (r: IssueStep)
        ensures
            r@ == search_step(self.repo@, *input, searched(*o)),
    {
        let issues = match o {
            GhOutcome::Output { success, stdout, .. } => if *success {
                read_listed(stdout.as_str(), "title", "url")
            } else {
                None
            },
            GhOutcome::Failed(_) => None,
        };
        self.after_reading(input, &issues)
    }

    /// Goes on once the issues of a search are read, each as its title and its
    /// address.
    pub fn after_reading(
        &self,
        input: &Json,
        issues: &Option<Vec<(Option<String>, Option<String>)>>,
    ) -> (r: IssueStep)
        ensures
            r@ == search_step(
                self.repo@,
                *input,
                match *issues {
                    Some(v) => Some(text_pairs(v@)),
                    None => None,
                },
            ),
    {
        let title = param_of(input, "title");
        let filed = file_title(title.as_str());
        if let Some(v) = issues {
            let core = to_lower(strip_prefixes(filed.as_str(), "[RSI] "));
            if let Some(url) = find_duplicate(v, core.as_str()) {
                return IssueStep::Done(
                    ToolResult::success(
                        cat2("Duplicate — open issue already exists: ", url.as_str()),
                    ),
                );
            }
        }
        let body = param_of(input, "body");
        let labels = join_strs(&labels_for(param_of(input, "labels").as_str()), ",");
        let mut a: Vec<String> = Vec::new();
        assert(views(a@) =~= Seq::empty());
        arg(&mut a, "issue");
        arg(&mut a, "create");
        arg(&mut a, "--repo");
        arg(&mut a, self.repo.as_str());
        arg(&mut a, "--title");
        arg(&mut a, filed.as_str());
        arg(&mut a, "--body");
        arg(&mut a, body.as_str());
        arg(&mut a, "--label");
        arg(&mut a, labels.as_str());
        assert(views(a@) =~= create_args(
            self.repo@,
            title@,
            body@,
            param(*input, "labels"@),
        ));
        IssueStep::Create(a)
    }
}

/// The answer of a listing.
pub open spec fn list_answer(o: GhOutcome) -> Reply {
    match o {
        GhOutcome::Output { success, stdout, stderr } => if success {
            if trimmed(stdout@) == "[]"@ {
                Reply::Success("No open rsi-detected issues found."@)
            } else {
                Reply::Success(stdout@)
            }
        } else {
            Reply::Error("gh issue list failed: "@ + stderr@)
        },
        GhOutcome::Failed(e) => Reply::Error("Failed to run gh command: "@ + e@),
    }
}

/// The answer of a listing.
pub fn after_list(o: &GhOutcome) -> (r: ToolResult)
    ensures
        r@ == list_answer(*o),
{
    match o {
        GhOutcome::Output { success, stdout, stderr } => if *success {
            if str_eq(trim(stdout.as_str()), "[]") {
                ToolResult::success("No open rsi-detected issues found.".to_owned())
            } else {
                ToolResult::success(stdout.clone())
            }
        } else {
            ToolResult::error(cat2("gh issue list failed: ", stderr.as_str()))
        },
        GhOutcome::Failed(e) => ToolResult::error(cat2("Failed to run gh command: ", e.as_str())),
    }
}

/// The answer once an issue was to be opened.
pub open spec fn create_answer(o: GhOutcome) -> Reply {
    match o {
        GhOutcome::Output { success, stdout, stderr } => if success {
            Reply::Success("Issue created: "@ + trimmed(stdout@))
        } else {
            Reply::Error("gh issue create failed: "@ + stderr@)
        },
        GhOutcome::Failed(e) => Reply::Error("Failed to run gh command: "@ + e@),
    }
}

/// The answer once an issue was to be opened.
pub fn after_create(o: &GhOutcome) -> (r: ToolResult)
    ensures
        r@ == create_answer(*o),
{
    match o {
        GhOutcome::Output { success, stdout, stderr } => if *success {
            ToolResult::success(cat2("Issue created: ", trim(stdout.as_str())))
        } else {
            ToolResult::error(cat2("gh issue create failed: ", stderr.as_str()))
        },
        GhOutcome::Failed(e) => ToolResult::error(cat2("Failed to run gh command: ", e.as_str())),
    }
}

// -------------------------------------------------------------------- laws
/// Every issue is filed under a title that begins with `[RSI]`.
pub proof fn law_titles_are_marked(title: Seq<char>)
    ensures
        has_prefix(filed_title(title), "[RSI]"@),
{
    reveal_strlit("[RSI]");
    reveal_strlit("[RSI] ");
    assert(filed_title(title).subrange(0, 5) =~= "[RSI]"@);
}

proof fn lemma_extra_labels(parts: Seq<Seq<char>>)
    ensures
        forall|i: int|
            0 <= i < extra_labels(parts).len() ==> #[trigger] extra_labels(parts)[i]
                != "rsi-detected"@ && extra_labels(parts)[i].len() > 0,
    decreases parts.len(),
{
    if parts.len() > 0 {
        lemma_extra_labels(parts.drop_last());
        let init = extra_labels(parts.drop_last());
        assert forall|i: int| 0 <= i < extra_labels(parts).len() implies #[trigger] extra_labels(
            parts,
        )[i] != "rsi-detected"@ && extra_labels(parts)[i].len() > 0 by {
            if i < init.len() {
                assert(extra_labels(parts)[i] == init[i]);
            }
        }
    }
}

/// The label `rsi-detected` is always there, and only once.
pub proof fn law_label_once(list: Seq<char>)
    ensures
        issue_labels(list)[0] == "rsi-detected"@,
        forall|i: int|
            1 <= i < issue_labels(list).len() ==> #[trigger] issue_labels(list)[i]
                != "rsi-detected"@,
{
    lemma_extra_labels(split_on(list, ','));
    assert forall|i: int| 1 <= i < issue_labels(list).len() implies #[trigger] issue_labels(
        list,
    )[i] != "rsi-detected"@ by {
        assert(issue_labels(list)[i] == extra_labels(split_on(list, ','))[i - 1]);
    }
}

/// A title that is already open, in whatever case and with or without its
/// mark, is not filed again.
pub proof fn law_open_title_is_not_filed_again(
    repo: Seq<char>,
    input: Json,
    issues: Seq<IssueTexts>,
    k: int,
)
    requires
        0 <= k < issues.len(),
        issues[k].0 is Some,
        title_core(issues[k].0->0) == title_core(filed_title(param(input, "title"@))),
    ensures
        search_step(repo, input, Some(issues)) is Done,
{
    lemma_duplicate(issues, title_core(filed_title(param(input, "title"@))), k);
}

proof fn lemma_duplicate(issues: Seq<IssueTexts>, core: Seq<char>, k: int)
    requires
        0 <= k < issues.len(),
        issues[k].0 is Some,
        title_core(issues[k].0->0) == core,
    ensures
        duplicate(issues, core) is Some,
    decreases k,
{
    if k > 0 {
        assert(issues.drop_first()[k - 1] == issues[k]);
        lemma_duplicate(issues.drop_first(), core, k - 1);
    }
}

proof fn lemma_first_marked(ls: Seq<Seq<char>>, i: int)
    ensures
        0 <= i < ls.len() && marked_repo(ls[i]) is Some && (forall|j: int|
            0 <= j < i ==> marked_repo(#[trigger] ls[j]) is None) ==> first_marked(ls)
            == marked_repo(ls[i]),
        (forall|j: int| 0 <= j < ls.len() ==> marked_repo(#[trigger] ls[j]) is None)
            ==> first_marked(ls) is None,
    decreases ls.len(),
{
    if ls.len() > 0 {
        let rest = ls.drop_first();
        lemma_first_marked(rest, i - 1);
        assert forall|j: int| 0 <= j < rest.len() implies #[trigger] rest[j] == ls[j + 1] by {}
        if marked_repo(ls[0]) is None && 0 <= i < ls.len() && marked_repo(ls[i]) is Some {
            assert(rest[i - 1] == ls[i]);
        }
    }
}

/// The repository is that of the first line with a good marker. A marker names
/// both the tracker and a repository with an owner; a line without one names
/// none.
pub proof fn law_first_marker_names_the_repository(ls: Seq<Seq<char>>, i: int, line: Seq<char>)
    ensures
        0 <= i < ls.len() && marked_repo(ls[i]) is Some && (forall|j: int|
            0 <= j < i ==> marked_repo(#[trigger] ls[j]) is None) ==> first_marked(ls)
            == marked_repo(ls[i]),
        (forall|j: int| 0 <= j < ls.len() ==> marked_repo(#[trigger] ls[j]) is None)
            ==> first_marked(ls) is None,
        marked_repo(line) is Some ==> tells(trimmed(line), "rsi:github-issues"@) && tells(
            trimmed(line),
            "repo:"@,
        ) && tells(marked_repo(line)->0, "/"@),
        !tells(trimmed(line), "rsi:github-issues"@) ==> marked_repo(line) is None,
        !tells(trimmed(line), "repo:"@) ==> marked_repo(line) is None,
{
    lemma_first_marked(ls, i);
    let t = trimmed(line);
    law_search_finds(t, "rsi:github-issues"@);
    law_search_finds(t, "repo:"@);
    if let Some(r) = marked_repo(line) {
        law_search_finds(r, "/"@);
    }
}

/// A marker in the middle of a comment names its repository.
pub proof fn law_marker_is_read(pre: Seq<char>, repo: Seq<char>, post: Seq<char>)
    requires
        pre.len() > 0,
        !is_space(pre[0]),
        post.len() > 0,
        is_space(post[0]),
        !is_space(post.last()),
        tells(pre, "rsi:github-issues"@),
        repo.contains('/'),
        forall|i: int| 0 <= i < repo.len() ==> !is_space(repo[i]),
        !has_suffix(repo, "-->"@),
        find(pre + "repo:"@ + repo + post, "repo:"@) == Some(pre.len() as int),
    ensures
        marked_repo(pre + "repo:"@ + repo + post) == Some(repo),
{
    let line = pre + "repo:"@ + repo + post;
    let none = Seq::<char>::empty();
    reveal_strlit("repo:");
    reveal_strlit("/");
    reveal_strlit("-->");
    assert(line[0] == pre[0] && line.last() == post.last());
    law_trimming_leaves_the_text(none, line, none);
    assert(none + line + none =~= line);
    let tail = "repo:"@ + repo + post;
    assert(line =~= none + pre + tail);
    lemma_tells_more(line, none, pre, tail, "rsi:github-issues"@);
    law_search_finds(line, "rsi:github-issues"@);
    let after = line.skip(pre.len() as int + 5);
    assert(after =~= none + repo + post);
    let k = choose|k: int| 0 <= k < repo.len() && repo[k] == '/';
    law_first_word(none, repo, post);
    law_copies_are_dropped(repo, "-->"@);
    assert(repo.subrange(k, k + 1) =~= "/"@);
    assert(matches_at(repo, "/"@, k));
    law_search_finds(repo, "/"@);
}

/// What `gh` is asked: always the tool's own repository; a listing and a search
/// of open issues with the standing label, a search by the title, and a new
/// issue with the title, the body as given, and the labels.
pub proof fn law_gh_is_asked_of_the_repository(
    repo: Seq<char>,
    title: Seq<char>,
    body: Seq<char>,
    labels: Seq<char>,
)
    ensures
        list_args(repo).take(4) == seq!["issue"@, "list"@, "--repo"@, repo],
        list_args(repo).subrange(4, 8) == seq!["--label"@, "rsi-detected"@, "--state"@, "open"@],
        search_args(repo, title).take(4) == seq!["issue"@, "list"@, "--repo"@, repo],
        search_args(repo, title).subrange(4, 10) == seq![
            "--label"@,
            "rsi-detected"@,
            "--state"@,
            "open"@,
            "--search"@,
            title,
        ],
        search_args(repo, title).last() == "title,number,url"@,
        create_args(repo, title, body, labels).take(4) == seq![
            "issue"@,
            "create"@,
            "--repo"@,
            repo,
        ],
        create_args(repo, title, body, labels).subrange(4, 9) == seq![
            "--title"@,
            filed_title(title),
            "--body"@,
            body,
            "--label"@,
        ],
        create_args(repo, title, body, labels).len() == 10,
{
    assert(list_args(repo).take(4) =~= seq!["issue"@, "list"@, "--repo"@, repo]);
    assert(list_args(repo).subrange(4, 8) =~= seq![
        "--label"@,
        "rsi-detected"@,
        "--state"@,
        "open"@,
    ]);
    assert(search_args(repo, title).take(4) =~= seq!["issue"@, "list"@, "--repo"@, repo]);
    assert(search_args(repo, title).subrange(4, 10) =~= seq![
        "--label"@,
        "rsi-detected"@,
        "--state"@,
        "open"@,
        "--search"@,
        title,
    ]);
    assert(create_args(repo, title, body, labels).take(4) =~= seq![
        "issue"@,
        "create"@,
        "--repo"@,
        repo,
    ]);
    assert(create_args(repo, title, body, labels).subrange(4, 9) =~= seq![
        "--title"@,
        filed_title(title),
        "--body"@,
        body,
        "--label"@,
    ]);
}

/// A request lists, or searches before it creates; a creation without title or
/// body, and any other action, is refused. What is new is created.
pub proof fn law_requests_begin(repo: Seq<char>, input: Json)
    ensures
        param(input, "action"@) == "list"@ ==> first_step(repo, input) == IssueStepV::List(
            list_args(repo),
        ),
        param(input, "action"@) == "create"@ && param(input, "title"@).len() > 0 && param(
            input,
            "body"@,
        ).len() > 0 ==> first_step(repo, input) == IssueStepV::Search(
            search_args(repo, param(input, "title"@)),
        ),
        param(input, "action"@) == "create"@ && (param(input, "title"@).len() == 0 || param(
            input,
            "body"@,
        ).len() == 0) ==> first_step(repo, input) is Done && first_step(repo, input)->Done_0
            is Error,
        param(input, "action"@) != "list"@ && param(input, "action"@) != "create"@ ==> first_step(
            repo,
            input,
        ) is Done && first_step(repo, input)->Done_0 is Error,
        search_step(repo, input, None) == IssueStepV::Create(
            create_args(
                repo,
                param(input, "title"@),
                param(input, "body"@),
                param(input, "labels"@),
            ),
        ),
{
    reveal_strlit("list");
    reveal_strlit("create");
    assert("list"@.len() == 4 && "create"@.len() == 6);
}

proof fn lemma_no_duplicate(issues: Seq<IssueTexts>, core: Seq<char>)
    requires
        forall|k: int|
            0 <= k < issues.len() ==> (#[trigger] issues[k]).0 is None || title_core(
                issues[k].0->0,
            ) != core,
    ensures
        duplicate(issues, core) is None,
    decreases issues.len(),
{
    if issues.len() > 0 {
        let rest = issues.drop_first();
        assert(issues[0].0 is None || title_core(issues[0].0->0) != core);
        assert forall|k: int| 0 <= k < rest.len() implies (#[trigger] rest[k]).0 is None
            || title_core(rest[k].0->0) != core by {
            assert(issues[k + 1].0 is None || title_core(issues[k + 1].0->0) != core);
        }
        lemma_no_duplicate(rest, core);
    }
}

/// An issue whose title no open issue has is created, with its title, body and
/// labels.
pub proof fn law_new_title_is_filed(repo: Seq<char>, input: Json, issues: Seq<IssueTexts>)
    requires
        forall|k: int|
            0 <= k < issues.len() ==> (#[trigger] issues[k]).0 is None || title_core(
                issues[k].0->0,
            ) != title_core(filed_title(param(input, "title"@))),
    ensures
        search_step(repo, input, Some(issues)) == IssueStepV::Create(
            create_args(
                repo,
                param(input, "title"@),
                param(input, "body"@),
                param(input, "labels"@),
            ),
        ),
{
    lemma_no_duplicate(issues, title_core(filed_title(param(input, "title"@))));
}

proof fn lemma_labels_add(a: Seq<Seq<char>>, b: Seq<Seq<char>>)
    ensures
        extra_labels(a + b) == extra_labels(a) + extra_labels(b),
    decreases b.len(),
{
    if b.len() == 0 {
        assert(a + b =~= a);
        assert(extra_labels(a) + extra_labels(b) =~= extra_labels(a));
    } else {
        assert((a + b).drop_last() =~= a + b.drop_last());
        lemma_labels_add(a, b.drop_last());
        assert(extra_labels(a + b) =~= extra_labels(a) + extra_labels(b));
    }
}

/// Every label asked for is set, trimmed and in order, behind the standing one;
/// blank ones and the standing one itself are not repeated.
pub proof fn law_labels_are_set(a: Seq<Seq<char>>, l: Seq<char>, b: Seq<Seq<char>>, list: Seq<char>)
    ensures
        extra_labels(a.push(l) + b) == if trimmed(l).len() > 0 && trimmed(l) != "rsi-detected"@ {
            extra_labels(a).push(trimmed(l)) + extra_labels(b)
        } else {
            extra_labels(a) + extra_labels(b)
        },
        issue_labels(list).len() > 0 && issue_labels(list)[0] == "rsi-detected"@,
        issue_labels(list).skip(1) == extra_labels(split_on(list, ',')),
{
    lemma_labels_add(a.push(l), b);
    assert(a.push(l).drop_last() =~= a);
    assert(issue_labels(list).skip(1) =~= extra_labels(split_on(list, ',')));
}

/// The answers: what `gh` printed, or why it failed.
pub proof fn law_gh_answers(stdout: String, stderr: String, e: String)
    ensures
        ({
            let good = GhOutcome::Output { success: true, stdout, stderr };
            let bad = GhOutcome::Output { success: false, stdout, stderr };
            let no = GhOutcome::Failed(e);
            &&& trimmed(stdout@) != "[]"@ ==> list_answer(good) == Reply::Success(stdout@)
            &&& trimmed(stdout@) == "[]"@ ==> list_answer(good) == Reply::Success(
                "No open rsi-detected issues found."@,
            )
            &&& list_answer(bad) == Reply::Error("gh issue list failed: "@ + stderr@)
            &&& list_answer(no) == Reply::Error("Failed to run gh command: "@ + e@)
            &&& create_answer(good) == Reply::Success("Issue created: "@ + trimmed(stdout@))
            &&& create_answer(bad) == Reply::Error("gh issue create failed: "@ + stderr@)
            &&& create_answer(no) == Reply::Error("Failed to run gh command: "@ + e@)
            &&& searched(good) == listed_texts(stdout@, "title"@, "url"@)
            &&& searched(bad) is None && searched(no) is None
        }),
{
}

/// A title counts the same with and without its mark, however often it carries
/// it.
pub proof fn law_mark_does_not_tell_titles_apart(title: Seq<char>)
    requires
        !has_prefix(title, "[RSI] "@),
    ensures
        title_core("[RSI] "@ + title) == lowercase(title),
        title_core("[RSI] "@ + ("[RSI] "@ + title)) == lowercase(title),
        title_core(title) == lowercase(title),
{
    reveal_strlit("[RSI] ");
    let mark = "[RSI] "@;
    let once = mark + title;
    let twice = mark + once;
    assert(mark.len() == 6);
    assert(once.subrange(0, 6) =~= mark && once.skip(6) =~= title);
    assert(twice.subrange(0, 6) =~= mark && twice.skip(6) =~= once);
    reveal_with_fuel(past_prefixes, 3);
    assert(past_prefixes(title, mark) == title);
    assert(past_prefixes(once, mark) == title);
    assert(past_prefixes(twice, mark) == title);
}

} // verus!
