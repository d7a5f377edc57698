//! Loads brain context files on demand. Only files of a known list are read.
use vstd::prelude::*;

use super::result::{Reply, ToolResult};
use crate::json::{param, param_of, Json};
use crate::search::{join, join_strs, law_join_holds_each, lemma_tells, lemma_tells_more, tells};
use crate::text::{ascii_lower, cat2, cat3, cat5, oview, str_eq, to_ascii_lower, trim, trimmed, views};

verus! {

/// The brain file tool.
pub struct LoadBrainFileTool {}

/// A file that may be loaded.
pub struct BrainFile {
    pub name: String,
    pub label: String,
}

pub open spec fn names(v: Seq<BrainFile>) -> Seq<Seq<char>> {
    v.map_values(|f: BrainFile| f.name@)
}

/// The known file of that name, whatever its case, in its own case.
pub open spec fn known(v: Seq<BrainFile>, name: Seq<char>) -> Option<Seq<char>>
    decreases v.len(),
{
    if v.len() == 0 {
        None
    } else if ascii_lower(v[0].name@) == ascii_lower(name) {
        Some(v[0].name@)
    } else {
        known(v.drop_first(), name)
    }
}

/// What to do next.
pub enum LoadStep {
    Done(ToolResult),
    /// Read every known file and answer with [`LoadBrainFileTool::all_read`].
    ReadAll,
    /// Read this file and answer with [`LoadBrainFileTool::one_read`].
    Read { name: String },
}

/// A step, as values.
pub enum LoadStepV {
    Done(Reply),
    ReadAll,
    Read(Seq<char>),
}

impl View for LoadStep {
    type V = LoadStepV;

    open spec fn view(&self) -> LoadStepV {
        match self {
            LoadStep::Done(r) => LoadStepV::Done(r@),
            LoadStep::ReadAll => LoadStepV::ReadAll,
            LoadStep::Read { name } => LoadStepV::Read(name@),
        }
    }
}

/// How a request begins.
pub open spec fn load_step(files: Seq<BrainFile>, given: Seq<char>) -> LoadStepV {
    let name = trimmed(given);
    if name.len() == 0 {
        LoadStepV::Done(Reply::Error("name parameter is required"@))
    } else if name == "all"@ {
        LoadStepV::ReadAll
    } else {
        match known(files, name) {
            Some(n) => LoadStepV::Read(n),
            None => LoadStepV::Done(
                Reply::Error(
                    "Unknown brain file '"@ + name + "'. Valid options: "@ + join(
                        names(files),
                        ", "@,
                    ) + " (or \"all\")"@,
                ),
            ),
        }
    }
}

/// One file among all.
pub open spec fn section(f: BrainFile, content: Option<Seq<char>>) -> Seq<char> {
    match content {
        Some(c) => if trimmed(c).len() > 0 {
            "--- "@ + f.name@ + " ("@ + f.label@ + ") ---\n"@ + trimmed(c) + "\n\n"@
        } else {
            Seq::empty()
        },
        None => Seq::empty(),
    }
}

/// The first `n` files.
pub open spec fn sections(
    files: Seq<BrainFile>,
    contents: Seq<Option<String>>,
    n: nat,
) -> Seq<char>
    decreases n,
{
    if n == 0 {
        Seq::empty()
    } else {
        sections(files, contents, (n - 1) as nat) + section(files[n - 1], oview(contents[n - 1]))
    }
}

impl LoadBrainFileTool {
    /// Begins a request.
    pub fn execute(&self, input: &Json, files: &Vec<BrainFile>) -> (r: LoadStep)
        ensures
            r@ == load_step(files@, param(*input, "name"@)),
    {
        let given = param_of(input, "name");
        let name = trim(given.as_str());
        if name.is_empty() {
            return LoadStep::Done(ToolResult::error("name parameter is required".to_owned()));
        }
        if str_eq(name, "all") {
            return LoadStep::ReadAll;
        }
        let lower = to_ascii_lower(name);
        let mut listed: Vec<String> = Vec::new();
        let mut i: usize = 0;
        assert(files@.skip(0) =~= files@);
        assert(views(listed@) =~= names(files@).take(0));
        while i < files.len()
            invariant
                i <= files.len(),
                lower@ == ascii_lower(name@),
                name@ == trimmed(param(*input, "name"@)),
                name@.len() > 0,
                name@ != "all"@,
                known(files@, name@) == known(files@.skip(i as int), name@),
                views(listed@) == names(files@).take(i as int),
            decreases files.len() - i,
        {
            assert(files@.skip(i as int)[0] == files@[i as int]);
            assert(files@.skip(i as int).drop_first() =~= files@.skip(i + 1));
            if str_eq(to_ascii_lower(files[i].name.as_str()).as_str(), lower.as_str()) {
                return LoadStep::Read { name: files[i].name.clone() };
            }
            let ghost pre = views(listed@);
            listed.push(files[i].name.clone());
            assert(views(listed@) =~= pre.push(files@[i as int].name@));
            assert(names(files@).take(i + 1) =~= names(files@).take(i as int).push(
                files@[i as int].name@,
            ));
            i = i + 1;
        }
        assert(names(files@).take(i as int) =~= names(files@));
        LoadStep::Done(
            ToolResult::error(
                cat5(
                    "Unknown brain file '",
                    name,
                    "'. Valid options: ",
                    join_strs(&listed, ", ").as_str(),
                    " (or \"all\")",
                ),
            ),
        )
    }

    /// The answer with all files; `contents` are the files' contents, in
    /// order, `None` where one could not be read.
    pub fn all_read(&self, files: &Vec<BrainFile>, contents: &Vec<Option<String>>) -> (r:
        ToolResult)
        requires
            contents@.len() == files@.len(),
        ensures
            ({
                let all = sections(files@, contents@, files@.len());
                r@ == Reply::Success(
                    if all.len() == 0 {
                        "No contextual brain files found."@
                    } else {
                        all
                    },
                )
            }),
    {
        let mut out = String::new();
        let mut i: usize = 0;
        while i < files.len()
            invariant
                i <= files.len(),
                contents@.len() == files@.len(),
                out@ == sections(files@, contents@, i as nat),
            decreases files.len() - i,
        {
            let ghost pre = out@;
            match &contents[i] {
                Some(c) => {
                    let t = trim(c.as_str());
                    if !t.is_empty() {
                        let head = cat5(
                            "--- ",
                            files[i].name.as_str(),
                            " (",
                            files[i].label.as_str(),
                            ") ---\n",
                        );
                        let all = cat3(head.as_str(), t, "\n\n");
                        out.append(all.as_str());
                    } else {
                        assert(pre + Seq::<char>::empty() =~= pre);
                    }
                },
                None => {
                    assert(pre + Seq::<char>::empty() =~= pre);
                },
            }
            i = i + 1;
        }
        if out.as_str().is_empty() {
            ToolResult::success("No contextual brain files found.".to_owned())
        } else {
            ToolResult::success(out)
        }
    }

    /// The answer with one file; `None` where it could not be read.
    pub fn one_read(&self, name: &str, content: &Option<String>) -> (r: ToolResult)
        ensures
            r@ == Reply::Success(
                match *content {
                    Some(c) => if trimmed(c@).len() == 0 {
                        name@ + " exists but is empty."@
                    } else {
                        "--- "@ + name@ + " ---\n"@ + trimmed(c@)
                    },
                    None => name@ + " not found at ~/.opencrabs/"@ + name@
                        + ". No content available."@,
                },
            ),
    {
        match content {
            Some(c) => {
                let t = trim(c.as_str());
                if t.is_empty() {
                    ToolResult::success(cat2(name, " exists but is empty."))
                } else {
                    let head = cat3("--- ", name, " ---\n");
                    ToolResult::success(cat2(head.as_str(), t))
                }
            },
            None => {
                let head = cat3(name, " not found at ~/.opencrabs/", name);
                ToolResult::success(cat2(head.as_str(), ". No content available."))
            },
        }
    }
}

/// A path outside the known list is never read: what is read is a listed name,
/// as it is listed.
pub proof fn law_only_listed_files_are_read(files: Seq<BrainFile>, given: Seq<char>)
    ensures
        match load_step(files, given) {
            LoadStepV::Read(n) => names(files).contains(n),
            _ => true,
        },
{
    lemma_known(files, trimmed(given));
}

proof fn lemma_known(v: Seq<BrainFile>, name: Seq<char>)
    ensures
        known(v, name) is Some ==> names(v).contains(known(v, name)->0),
    decreases v.len(),
{
    if v.len() > 0 {
        lemma_known(v.drop_first(), name);
        assert(names(v)[0] == v[0].name@);
        if ascii_lower(v[0].name@) != ascii_lower(name) && known(v, name) is Some {
            let t = v.drop_first();
            let k = choose|k: int| 0 <= k < names(t).len() && names(t)[k] == known(v, name)->0;
            assert(names(v)[k + 1] == names(t)[k]);
        }
    }
}

/// A listed file is found under its name in any case; of two that differ in
/// case alone the first is read. A name that is not listed is read nowhere.
pub proof fn law_listed_files_are_found(
    a: Seq<BrainFile>,
    f: BrainFile,
    b: Seq<BrainFile>,
    name: Seq<char>,
)
    requires
        forall|i: int|
            0 <= i < a.len() ==> ascii_lower((#[trigger] a[i]).name@) != ascii_lower(name),
    ensures
        ascii_lower(f.name@) == ascii_lower(name) ==> known(a.push(f) + b, name) == Some(f.name@),
        known(a, name) is None,
    decreases a.len(),
{
    let all = a.push(f) + b;
    if a.len() == 0 {
        assert(all[0] == f);
    } else {
        assert(all[0] == a[0]);
        assert(all.drop_first() =~= a.drop_first().push(f) + b);
        law_listed_files_are_found(a.drop_first(), f, b, name);
    }
}

/// A request names a file, or all of them; an unknown name is refused with the
/// names that are known.
pub proof fn law_requests_for_brain_files(files: Seq<BrainFile>, given: Seq<char>, i: int)
    ensures
        trimmed(given) == "all"@ ==> load_step(files, given) is ReadAll,
        trimmed(given).len() == 0 ==> load_step(files, given) == LoadStepV::Done(
            Reply::Error("name parameter is required"@),
        ),
        trimmed(given).len() > 0 && trimmed(given) != "all"@ && known(files, trimmed(given)) is Some
            ==> load_step(files, given) == LoadStepV::Read(known(files, trimmed(given))->0),
        trimmed(given).len() > 0 && trimmed(given) != "all"@ && known(files, trimmed(given)) is None
            ==> (load_step(files, given) matches LoadStepV::Done(Reply::Error(e)) && tells(
            e,
            "'"@ + trimmed(given) + "'"@,
        ) && (0 <= i < files.len() ==> tells(e, files[i].name@))),
{
    reveal_strlit("all");
    let name = trimmed(given);
    if name.len() > 0 && name != "all"@ && known(files, name) is None {
        let all = join(names(files), ", "@);
        let a = "Unknown brain file '"@;
        let b = "'. Valid options: "@;
        let c = " (or \"all\")"@;
        let e = a + name + b + all + c;
        reveal_strlit("Unknown brain file '");
        reveal_strlit("'. Valid options: ");
        reveal_strlit("'");
        let n = a.len() - 1;
        assert(a =~= a.take(n) + "'"@);
        assert(b =~= "'"@ + b.skip(1));
        assert(e =~= a.take(n) + ("'"@ + name + "'"@) + (b.skip(1) + all + c));
        lemma_tells(e, a.take(n), "'"@ + name + "'"@, b.skip(1) + all + c);
        if 0 <= i < files.len() {
            law_join_holds_each(names(files), ", "@, i);
            assert(names(files)[i] == files[i].name@);
            lemma_tells_more(e, a + name + b, all, c, files[i].name@);
        }
    }
}

/// All files together show each that has content, under its name and label.
pub proof fn law_every_file_is_shown(
    files: Seq<BrainFile>,
    contents: Seq<Option<String>>,
    n: nat,
    i: int,
)
    requires
        0 <= i < n <= files.len(),
        contents.len() == files.len(),
        contents[i] is Some,
        trimmed(contents[i]->0@).len() > 0,
    ensures
        tells(
            sections(files, contents, n),
            "--- "@ + files[i].name@ + " ("@ + files[i].label@ + ") ---\n"@ + trimmed(
                contents[i]->0@,
            ) + "\n\n"@,
        ),
    decreases n,
{
    let x = section(files[i], oview(contents[i]));
    let before = sections(files, contents, (n - 1) as nat);
    let last = section(files[n - 1], oview(contents[n - 1]));
    let t = sections(files, contents, n);
    let none = Seq::<char>::empty();
    if i == n - 1 {
        assert(t =~= before + x + none);
        lemma_tells(t, before, x, none);
    } else {
        law_every_file_is_shown(files, contents, (n - 1) as nat, i);
        assert(t =~= none + before + last);
        lemma_tells_more(t, none, before, last, x);
    }
}

/// A file that could not be read, or is blank, adds nothing.
pub proof fn law_blank_files_are_left_out(f: BrainFile, content: Seq<char>)
    ensures
        section(f, None).len() == 0,
        trimmed(content).len() == 0 ==> section(f, Some(content)).len() == 0,
{
}

} // verus!
