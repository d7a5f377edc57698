//! Tool errors, and the resolution and validation of paths a model supplies.
//! What the file system says of a path arrives as a [`Probe`].
use vstd::prelude::*;
use vstd::utf8::encode_utf8;

use crate::paths::{
    absolute, below, file_name, file_name_of, is_absolute, join_path, joined,
    law_rest_below_a_directory, parent, parent_of, path_below, skip_seps, trim_tail,
};
use crate::search::{
    dec_u64, decimal, ends_with, has_prefix, has_suffix, join, join_strs, law_join_holds_each,
    lemma_tells, lemma_tells_more, starts_with, strip_prefix, tells,
};
use crate::sort::{insert_by_rank, insert_ranked, Ranked};
use crate::text::{
    cat2, cat3, cat5, chars_of, is_space, law_trimming_leaves_the_text, law_white_space, lowercase,
    str_eq, to_lower, trim, trimmed, views,
};

verus! {

/// Why a tool call failed.
pub enum ToolError {
    NotFound(String),
    InvalidInput(String),
    Execution(String),
    PermissionDenied(String),
    ApprovalRequired(String),
    FileNotFound(String),
    Io(String),
    Json(String),
    /// Seconds after which the tool timed out.
    Timeout(u64),
    Internal(String),
}

/// An error as a sentence.
pub open spec fn error_text(e: ToolError) -> Seq<char> {
    match e {
        ToolError::NotFound(s) => "Tool not found: "@ + s@,
        ToolError::InvalidInput(s) => "Invalid input: "@ + s@,
        ToolError::Execution(s) => "Execution error: "@ + s@,
        ToolError::PermissionDenied(s) => "Permission denied: "@ + s@,
        ToolError::ApprovalRequired(s) => "Tool requires approval: "@ + s@,
        ToolError::FileNotFound(s) => "File not found: "@ + s@,
        ToolError::Io(s) => "I/O error: "@ + s@,
        ToolError::Json(s) => "JSON error: "@ + s@,
        ToolError::Timeout(n) => "Tool execution timed out after "@ + decimal(n as nat) + "s"@,
        ToolError::Internal(s) => "Internal error: "@ + s@,
    }
}

impl ToolError {
    /// Whether the call was rejected before the tool ran: its name did not
    /// resolve or its arguments failed validation.
    pub fn is_pre_execution_miss(&self) -> (r: bool)
        ensures
            r == (self is NotFound || self is InvalidInput),
    {
        match self {
            ToolError::NotFound(_) | ToolError::InvalidInput(_) => true,
            _ => false,
        }
    }

    /// The error as a sentence.
    pub fn message(&self) -> (r: String)
        ensures
            r@ == error_text(*self),
    {
        match self {
            ToolError::NotFound(s) => cat2("Tool not found: ", s.as_str()),
            ToolError::InvalidInput(s) => cat2("Invalid input: ", s.as_str()),
            ToolError::Execution(s) => cat2("Execution error: ", s.as_str()),
            ToolError::PermissionDenied(s) => cat2("Permission denied: ", s.as_str()),
            ToolError::ApprovalRequired(s) => cat2("Tool requires approval: ", s.as_str()),
            ToolError::FileNotFound(s) => cat2("File not found: ", s.as_str()),
            ToolError::Io(s) => cat2("I/O error: ", s.as_str()),
            ToolError::Json(s) => cat2("JSON error: ", s.as_str()),
            ToolError::Timeout(n) => cat3(
                "Tool execution timed out after ",
                dec_u64(*n).as_str(),
                "s",
            ),
            ToolError::Internal(s) => cat2("Internal error: ", s.as_str()),
        }
    }
}

// -------------------------------------------------------------- resolution
/// A path with a leading `~` replaced by the home directory, where there is
/// one.
pub open spec fn expanded(path: Seq<char>, home: Option<Seq<char>>) -> Seq<char> {
    match home {
        Some(h) => if has_prefix(path, "~/"@) || has_prefix(path, "~\\"@) {
            joined(h, path.skip(2))
        } else if path == "~"@ {
            h
        } else {
            path
        },
        None => path,
    }
}

/// Expands a leading `~` into the home directory.
pub fn expand_tilde(path: &str, home: Option<&str>) -> (r: String)
    ensures
        r@ == expanded(
            path@,
            match home {
                Some(h) => Some(h@),
                None => None,
            },
        ),
{
    proof {
        reveal_strlit("~/");
        reveal_strlit("~\\");
    }
    if let Some(h) = home {
        if let Some(rest) = strip_prefix(path, "~/") {
            return join_path(h, rest);
        }
        if let Some(rest) = strip_prefix(path, "~\\") {
            return join_path(h, rest);
        }
        if str_eq(path, "~") {
            return h.to_owned();
        }
    }
    path.to_owned()
}

/// A path with the home directory at its front replaced by `~`.
pub open spec fn collapsed(path: Seq<char>, home: Option<Seq<char>>) -> Seq<char> {
    if home is Some && absolute(home->0) && absolute(path) && below(path, home->0) is Some {
        let rest = below(path, home->0)->0;
        if rest.len() == 0 {
            "~"@
        } else {
            "~/"@ + rest
        }
    } else {
        path
    }
}

/// Replaces the home directory at the front of a path with `~`.
pub fn collapse_home(path: &str, home: Option<&str>) -> (r: String)
    ensures
        r@ == collapsed(
            path@,
            match home {
                Some(h) => Some(h@),
                None => None,
            },
        ),
{
    if let Some(h) = home {
        if is_absolute(h) && is_absolute(path) {
            if let Some(rest) = path_below(path, h) {
                if rest.as_str().is_empty() {
                    return "~".to_owned();
                }
                return cat2("~/", rest.as_str());
            }
        }
    }
    path.to_owned()
}

/// Where a requested path leads: home expanded, relative paths below the
/// working directory.
pub open spec fn resolved(path: Seq<char>, working: Seq<char>, home: Option<Seq<char>>) -> Seq<
    char,
> {
    joined(working, expanded(path, home))
}

/// Resolves a requested path.
pub fn resolve_tool_path(requested: &str, working_directory: &str, home: Option<&str>) -> (r:
    String)
    ensures
        r@ == resolved(
            requested@,
            working_directory@,
            match home {
                Some(h) => Some(h@),
                None => None,
            },
        ),
{
    let e = expand_tilde(requested, home);
    join_path(working_directory, e.as_str())
}

/// What the file system says of a path.
#[derive(Clone, Copy, PartialEq, Eq, Structural, Debug)]
pub struct Probe {
    pub exists: bool,
    pub parent_exists: bool,
    pub is_file: bool,
    pub is_dir: bool,
    pub kind: FileKind,
}

/// What a path that is not a regular file is.
#[derive(Clone, Copy, PartialEq, Eq, Structural, Debug)]
pub enum FileKind {
    Directory,
    CharacterDevice,
    BlockDevice,
    Fifo,
    Socket,
    Special,
}

pub open spec fn kind_text(k: FileKind) -> Seq<char> {
    match k {
        FileKind::Directory => "directory"@,
        FileKind::CharacterDevice => "character device"@,
        FileKind::BlockDevice => "block device"@,
        FileKind::Fifo => "FIFO (named pipe)"@,
        FileKind::Socket => "socket"@,
        FileKind::Special => "special file"@,
    }
}

/// The name of a file kind.
pub fn describe_file_type(k: FileKind) -> (r: &'static str)
    ensures
        r@ == kind_text(k),
{
    match k {
        FileKind::Directory => "directory",
        FileKind::CharacterDevice => "character device",
        FileKind::BlockDevice => "block device",
        FileKind::Fifo => "FIFO (named pipe)",
        FileKind::Socket => "socket",
        FileKind::Special => "special file",
    }
}

/// Why a resolved path is not acceptable: it does not exist, and neither does
/// the directory it would stand in.
pub open spec fn unsafe_reason(path: Seq<char>, probe: Probe) -> Option<Seq<char>> {
    if probe.exists {
        None
    } else {
        match parent(path) {
            None => Some("Invalid path: no parent directory"@),
            Some(p) => if probe.parent_exists {
                None
            } else {
                Some("Parent directory does not exist: "@ + p)
            },
        }
    }
}

/// Resolves a path; for one that does not exist, its directory must.
pub fn validate_path_safety(
    requested: &str,
    working_directory: &str,
    home: Option<&str>,
    probe: Probe,
) -> (r: Result<String, ToolError>)
    ensures
        ({
            let path = resolved(
                requested@,
                working_directory@,
                match home {
                    Some(h) => Some(h@),
                    None => None,
                },
            );
            match r {
                Ok(p) => unsafe_reason(path, probe) is None && p@ == path,
                Err(e) => e is InvalidInput && unsafe_reason(path, probe) == Some(
                    e->InvalidInput_0@,
                ),
            }
        }),
{
    let path = resolve_tool_path(requested, working_directory, home);
    if !probe.exists {
        match parent_of(path.as_str()) {
            None => {
                return Err(
                    ToolError::InvalidInput("Invalid path: no parent directory".to_owned()),
                );
            },
            Some(p) => {
                if !probe.parent_exists {
                    return Err(
                        ToolError::InvalidInput(
                            cat2("Parent directory does not exist: ", p.as_str()),
                        ),
                    );
                }
            },
        }
    }
    Ok(path)
}

// ---------------------------------------------------------------- wrappers
/// What stands between a pair of wrappers, where it is not empty.
pub open spec fn unwrapped(t: Seq<char>, w: Seq<char>) -> Option<Seq<char>> {
    if t.len() >= 2 * w.len() && has_prefix(t, w) && has_suffix(t, w) && t.len() > 2 * w.len() {
        Some(trimmed(t.subrange(w.len() as int, t.len() - w.len())))
    } else {
        None
    }
}

/// A path without markdown, backtick or quote wrappers around it.
pub open spec fn stripped(raw: Seq<char>) -> Seq<char> {
    let t = trimmed(raw);
    match unwrapped(t, "**"@) {
        Some(s) => s,
        None => match unwrapped(t, "`"@) {
            Some(s) => s,
            None => match unwrapped(t, "\""@) {
                Some(s) => s,
                None => match unwrapped(t, "'"@) {
                    Some(s) => s,
                    None => t,
                },
            },
        },
    }
}

fn unwrap_pair<'a>(t: &'a str, w: &str) -> (r: Option<&'a str>)
    ensures
        match r {
            Some(s) => unwrapped(t@, w@) == Some(s@),
            None => unwrapped(t@, w@) is None,
        },
{
    let n: usize = t.unicode_len();
    let k: usize = w.unicode_len();
    if n > k && n - k > k && starts_with(t, w) && ends_with(t, w) {
        Some(trim(t.substring_char(k, n - k)))
    } else {
        None
    }
}

/// Strips markdown, backtick or quote wrappers from a path.
pub fn strip_path_wrappers<'a>(raw: &'a str) -> (r: &'a str)
    ensures
        r@ == stripped(raw@),
{
    let t = trim(raw);
    if let Some(s) = unwrap_pair(t, "**") {
        return s;
    }
    if let Some(s) = unwrap_pair(t, "`") {
        return s;
    }
    if let Some(s) = unwrap_pair(t, "\"") {
        return s;
    }
    if let Some(s) = unwrap_pair(t, "'") {
        return s;
    }
    t
}

// ------------------------------------------------------------ edit distance
pub open spec fn min3(a: nat, b: nat, c: nat) -> nat {
    if a <= b && a <= c {
        a
    } else if b <= c {
        b
    } else {
        c
    }
}

/// The Levenshtein distance: the least number of insertions, deletions and
/// substitutions that turn `a` into `b`.
pub open spec fn levenshtein(a: Seq<char>, b: Seq<char>) -> nat
    decreases a.len() + b.len(),
{
    if a.len() == 0 {
        b.len()
    } else if b.len() == 0 {
        a.len()
    } else {
        min3(
            levenshtein(a.drop_last(), b) + 1,
            levenshtein(a, b.drop_last()) + 1,
            levenshtein(a.drop_last(), b.drop_last()) + if a.last() == b.last() {
                0nat
            } else {
                1nat
            },
        )
    }
}

/// The distance is at most the length of the longer text.
pub proof fn lemma_levenshtein_bound(a: Seq<char>, b: Seq<char>)
    ensures
        levenshtein(a, b) <= a.len() || levenshtein(a, b) <= b.len(),
    decreases a.len() + b.len(),
{
    if a.len() > 0 && b.len() > 0 {
        lemma_levenshtein_bound(a.drop_last(), b.drop_last());
    }
}

/// Texts at distance zero are equal, and equal texts are at distance zero.
pub proof fn law_distance_zero_is_equality(a: Seq<char>, b: Seq<char>)
    ensures
        levenshtein(a, b) == 0 <==> a == b,
    decreases a.len() + b.len(),
{
    if a.len() > 0 && b.len() > 0 {
        law_distance_zero_is_equality(a.drop_last(), b.drop_last());
        if a == b {
            assert(levenshtein(a.drop_last(), b.drop_last()) == 0);
        } else if levenshtein(a, b) == 0 {
            assert(a =~= a.drop_last().push(a.last()));
            assert(b =~= b.drop_last().push(b.last()));
        }
    } else if levenshtein(a, b) == 0 {
        assert(a =~= b);
    }
}

/// The distance does not depend on the direction.
pub proof fn law_distance_is_symmetric(a: Seq<char>, b: Seq<char>)
    ensures
        levenshtein(a, b) == levenshtein(b, a),
    decreases a.len() + b.len(),
{
    if a.len() > 0 && b.len() > 0 {
        law_distance_is_symmetric(a.drop_last(), b);
        law_distance_is_symmetric(a, b.drop_last());
        law_distance_is_symmetric(a.drop_last(), b.drop_last());
    }
}

/// The Levenshtein distance of two texts.
pub fn char_distance(a: &Vec<char>, b: &Vec<char>) -> (r: usize)
    ensures
        r == levenshtein(a@, b@),
{
    let n: usize = b.len();
    if n == 0 {
        return a.len();
    }
    // Row `i` holds the distances of `a[..i]` to `b[..1]`, `b[..2]` and so on.
    let mut prev: Vec<u128> = Vec::new();
    let mut j: usize = 0;
    while j < n
        invariant
            n == b.len(),
            j <= n,
            prev@.len() == j,
            forall|k: int|
                0 <= k < j ==> #[trigger] prev@[k] == levenshtein(a@.take(0), b@.take(k + 1)),
        decreases n - j,
    {
        prev.push(j as u128 + 1);
        assert(levenshtein(a@.take(0), b@.take(j + 1)) == j + 1);
        j = j + 1;
    }
    let mut i: usize = 0;
    while i < a.len()
        invariant
            i <= a.len(),
            n == b.len(),
            n > 0,
            prev@.len() == n,
            forall|k: int|
                0 <= k < n ==> #[trigger] prev@[k] == levenshtein(
                    a@.take(i as int),
                    b@.take(k + 1),
                ),
        decreases a.len() - i,
    {
        let mut cur: Vec<u128> = Vec::new();
        let ghost ai = a@.take(i + 1);
        assert(ai.drop_last() =~= a@.take(i as int));
        let mut j: usize = 0;
        while j < n
            invariant
                i < a.len(),
                n == b.len(),
                j <= n,
                ai == a@.take(i + 1),
                ai.drop_last() == a@.take(i as int),
                prev@.len() == n,
                cur@.len() == j,
                forall|k: int|
                    0 <= k < n ==> #[trigger] prev@[k] == levenshtein(
                        a@.take(i as int),
                        b@.take(k + 1),
                    ),
                forall|k: int|
                    0 <= k < j ==> #[trigger] cur@[k] == levenshtein(ai, b@.take(k + 1)),
            decreases n - j,
        {
            let ghost bj = b@.take(j + 1);
            assert(bj.drop_last() =~= b@.take(j as int));
            let left: u128 = if j == 0 {
                i as u128 + 1
            } else {
                cur[j - 1]
            };
            let diagonal: u128 = if j == 0 {
                i as u128
            } else {
                prev[j - 1]
            };
            proof {
                assert(left == levenshtein(ai, b@.take(j as int)));
                assert(diagonal == levenshtein(a@.take(i as int), b@.take(j as int)));
                assert(prev@[j as int] == levenshtein(a@.take(i as int), bj));
                lemma_levenshtein_bound(a@.take(i as int), bj);
                lemma_levenshtein_bound(ai, b@.take(j as int));
                lemma_levenshtein_bound(a@.take(i as int), b@.take(j as int));
            }
            let cost: u128 = if a[i] == b[j] {
                0
            } else {
                1
            };
            let x: u128 = prev[j] + 1;
            let y: u128 = left + 1;
            let z: u128 = diagonal + cost;
            let best: u128 = if x <= y && x <= z {
                x
            } else if y <= z {
                y
            } else {
                z
            };
            assert(best == levenshtein(ai, bj));
            cur.push(best);
            j = j + 1;
        }
        prev = cur;
        i = i + 1;
    }
    assert(a@.take(i as int) =~= a@);
    assert(b@.take(n as int) =~= b@);
    proof {
        lemma_levenshtein_bound(a@, b@);
    }
    assert(prev@[n - 1] == levenshtein(a@.take(i as int), b@.take(n as int)));
    prev[n - 1] as usize
}

/// The distance of two names, whatever their case.
pub open spec fn name_distance(a: Seq<char>, b: Seq<char>) -> nat {
    levenshtein(lowercase(a), lowercase(b))
}

/// Case-insensitive Levenshtein distance.
pub fn edit_distance(a: &str, b: &str) -> (r: usize)
    ensures
        r == name_distance(a@, b@),
{
    let x = chars_of(to_lower(a).as_str());
    let y = chars_of(to_lower(b).as_str());
    char_distance(&x, &y)
}

// -------------------------------------------------------------- suggestions
/// A name beside a missing file, with its distance to the name asked for.
pub struct Hint {
    pub name: String,
    pub distance: u64,
}

impl Ranked for Hint {
    open spec fn rank(&self) -> nat {
        self.distance as nat
    }

    fn get_rank(&self) -> u64 {
        self.distance
    }
}

/// How many siblings are looked at, and how many are suggested.
pub const HINT_SCAN: usize = 50;

pub const HINT_MAX: usize = 3;

/// The length of a text in bytes.
pub open spec fn byte_len(s: Seq<char>) -> nat {
    encode_utf8(s).len()
}

/// Whether a name is close enough to suggest: five eighths of the longer name
/// may differ.
pub open spec fn close(name: Seq<char>, target: Seq<char>, distance: nat) -> bool {
    let longer = if byte_len(name) > byte_len(target) {
        byte_len(name)
    } else {
        byte_len(target)
    };
    distance * 8 <= longer * 5
}

/// Names in order of distance; of names equally far the first comes first.
pub open spec fn ranked(names: Seq<Seq<char>>, distances: Seq<nat>) -> Seq<(Seq<char>, nat)>
    recommends
        names.len() == distances.len(),
    decreases names.len(),
{
    if names.len() == 0 {
        Seq::empty()
    } else {
        place(
            ranked(names.drop_last(), distances.drop_last()),
            (names.last(), distances.last()),
        )
    }
}

/// Puts a name behind the last one that is not farther.
pub open spec fn place(s: Seq<(Seq<char>, nat)>, x: (Seq<char>, nat)) -> Seq<(Seq<char>, nat)>
    decreases s.len(),
{
    if s.len() == 0 || s.last().1 <= x.1 {
        s.push(x)
    } else {
        place(s.drop_last(), x).push(s.last())
    }
}

/// The first names of an order that are close enough, at most `n` of them.
pub open spec fn picked(order: Seq<(Seq<char>, nat)>, target: Seq<char>, n: nat) -> Seq<Seq<char>>
    decreases order.len(),
{
    if order.len() == 0 {
        Seq::empty()
    } else {
        let init = picked(order.drop_last(), target, n);
        if init.len() < n && close(order.last().0, target, order.last().1) {
            init.push(order.last().0)
        } else {
            init
        }
    }
}

pub open spec fn hviews(s: Seq<Hint>) -> Seq<(Seq<char>, nat)> {
    s.map_values(|h: Hint| (h.name@, h.distance as nat))
}

proof fn lemma_place(s: Seq<Hint>, x: Hint)
    ensures
        hviews(insert_ranked(s, x)) == place(hviews(s), (x.name@, x.distance as nat)),
    decreases s.len(),
{
    if s.len() == 0 || s.last().rank() <= x.rank() {
        assert(hviews(s.push(x)) =~= hviews(s).push((x.name@, x.distance as nat)));
    } else {
        lemma_place(s.drop_last(), x);
        assert(hviews(s).drop_last() =~= hviews(s.drop_last()));
        let q = insert_ranked(s.drop_last(), x);
        assert(hviews(q.push(s.last())) =~= hviews(q).push(hviews(s).last()));
    }
}

/// The distances of names to a target.
pub open spec fn distances_to(names: Seq<Seq<char>>, target: Seq<char>) -> Seq<nat> {
    names.map_values(|n: Seq<char>| name_distance(n, target))
}

/// The suggestions for a target among names whose distances are given.
pub open spec fn suggestions(names: Seq<Seq<char>>, distances: Seq<nat>, target: Seq<char>) -> Seq<
    Seq<char>,
> {
    picked(ranked(names, distances), target, HINT_MAX as nat)
}

/// The suggestions for a target among names whose distances are given.
pub fn suggest(names: &Vec<String>, distances: &Vec<usize>, target: &str) -> (r: Vec<String>)
    requires
        names.len() == distances.len(),
    ensures
        views(r@) == suggestions(
            views(names@),
            distances@.map_values(|d: usize| d as nat),
            target@,
        ),
{
    let mut order: Vec<Hint> = Vec::new();
    let mut i: usize = 0;
    let ghost ds = distances@.map_values(|d: usize| d as nat);
    assert(views(names@).take(0) =~= Seq::empty());
    assert(hviews(order@) =~= Seq::empty());
    while i < names.len()
        invariant
            i <= names.len(),
            names.len() == distances.len(),
            ds == distances@.map_values(|d: usize| d as nat),
            hviews(order@) == ranked(views(names@).take(i as int), ds.take(i as int)),
        decreases names.len() - i,
    {
        assert(views(names@).take(i + 1).drop_last() =~= views(names@).take(i as int));
        assert(ds.take(i + 1).drop_last() =~= ds.take(i as int));
        let h = Hint { name: names[i].clone(), distance: distances[i] as u64 };
        proof {
            lemma_place(order@, h);
        }
        insert_by_rank(&mut order, h);
        i = i + 1;
    }
    assert(views(names@).take(i as int) =~= views(names@));
    assert(ds.take(i as int) =~= ds);
    let mut out: Vec<String> = Vec::new();
    let mut k: usize = 0;
    let target_bytes: usize = target.as_bytes().len();
    let ghost ord = hviews(order@);
    assert(ord.take(0) =~= Seq::empty());
    assert(views(out@) =~= Seq::empty());
    while k < order.len()
        invariant
            k <= order.len(),
            ord == hviews(order@),
            target_bytes == byte_len(target@),
            views(out@) == picked(ord.take(k as int), target@, HINT_MAX as nat),
        decreases order.len() - k,
    {
        assert(ord.take(k + 1).drop_last() =~= ord.take(k as int));
        assert(ord[k as int] == (order@[k as int].name@, order@[k as int].distance as nat));
        let bytes: usize = order[k].name.as_str().as_bytes().len();
        let longer: u128 = if bytes > target_bytes {
            bytes as u128
        } else {
            target_bytes as u128
        };
        if out.len() < HINT_MAX && order[k].distance as u128 * 8 <= longer * 5 {
            let ghost pre = views(out@);
            out.push(order[k].name.clone());
            assert(views(out@) =~= pre.push(order@[k as int].name@));
        }
        k = k + 1;
    }
    assert(ord.take(k as int) =~= ord);
    out
}

pub open spec fn quoted(names: Seq<Seq<char>>) -> Seq<Seq<char>> {
    names.map_values(|s: Seq<char>| "'"@ + s + "'"@)
}

/// A report on a missing file, with suggestions.
pub open spec fn missing_text(path: Seq<char>, suggested: Seq<Seq<char>>) -> Seq<char> {
    let base = "File not found: "@ + path;
    if suggested.len() == 0 {
        base
    } else {
        base + " — did you mean: "@ + join(quoted(suggested), ", "@) + "?"@
    }
}

/// A report on a missing file, with suggestions.
pub fn missing_report(path: &str, suggested: &Vec<String>) -> (r: String)
    ensures
        r@ == missing_text(path@, views(suggested@)),
{
    let base = cat2("File not found: ", path);
    if suggested.len() == 0 {
        return base;
    }
    let mut parts: Vec<String> = Vec::new();
    let mut i: usize = 0;
    let ghost all = quoted(views(suggested@));
    while i < suggested.len()
        invariant
            i <= suggested.len(),
            all == quoted(views(suggested@)),
            views(parts@) == all.take(i as int),
        decreases suggested.len() - i,
    {
        let q = cat3("'", suggested[i].as_str(), "'");
        let ghost pre = views(parts@);
        parts.push(q);
        assert(views(parts@) =~= pre.push(all[i as int]));
        assert(all.take(i + 1) =~= all.take(i as int).push(all[i as int]));
        i = i + 1;
    }
    assert(all.take(i as int) =~= all);
    let mut t = cat3(base.as_str(), " — did you mean: ", join_strs(&parts, ", ").as_str());
    t.append("?");
    t
}

/// The report on a missing file, given the names beside it (`None` where its
/// directory could not be read).
pub open spec fn hint(path: Seq<char>, siblings: Option<Seq<Seq<char>>>) -> Seq<char> {
    if siblings is Some && parent(path) is Some && file_name(path) is Some {
        let names = if siblings->0.len() > HINT_SCAN {
            siblings->0.take(HINT_SCAN as int)
        } else {
            siblings->0
        };
        let target = file_name(path)->0;
        missing_text(path, suggestions(names, distances_to(names, target), target))
    } else {
        missing_text(path, Seq::empty())
    }
}

pub open spec fn names_of(siblings: Option<Vec<String>>) -> Option<Seq<Seq<char>>> {
    match siblings {
        Some(v) => Some(views(v@)),
        None => None,
    }
}

/// A self-describing report on a missing file: the closest names beside it, so
/// that the caller can correct itself.
pub fn missing_file_hint(path: &str, siblings: &Option<Vec<String>>) -> (r: String)
    ensures
        r@ == hint(path@, names_of(*siblings)),
{
    let empty: Vec<String> = Vec::new();
    assert(views(empty@) =~= Seq::empty());
    match (siblings, parent_of(path), file_name_of(path)) {
        (Some(all), Some(_), Some(target)) => {
            let mut names: Vec<String> = Vec::new();
            let mut distances: Vec<usize> = Vec::new();
            let mut i: usize = 0;
            let ghost want = if views(all@).len() > HINT_SCAN {
                views(all@).take(HINT_SCAN as int)
            } else {
                views(all@)
            };
            let ghost dist = distances_to(want, target@);
            assert(views(names@) =~= want.take(0));
            assert(distances@.map_values(|d: usize| d as nat) =~= dist.take(0));
            while i < all.len() && i < HINT_SCAN
                invariant
                    i <= all.len(),
                    i <= HINT_SCAN,
                    want == (if views(all@).len() > HINT_SCAN {
                        views(all@).take(HINT_SCAN as int)
                    } else {
                        views(all@)
                    }),
                    dist == distances_to(want, target@),
                    names@.len() == i,
                    distances@.len() == i,
                    views(names@) == want.take(i as int),
                    distances@.map_values(|d: usize| d as nat) == dist.take(i as int),
                decreases all.len() - i,
            {
                assert(want[i as int] == all@[i as int]@);
                let d: usize = edit_distance(all[i].as_str(), target.as_str());
                let ghost pre = views(names@);
                let ghost dpre = distances@.map_values(|d: usize| d as nat);
                names.push(all[i].clone());
                distances.push(d);
                assert(views(names@) =~= pre.push(want[i as int]));
                assert(distances@.map_values(|d: usize| d as nat) =~= dpre.push(dist[i as int]));
                assert(want.take(i + 1) =~= want.take(i as int).push(want[i as int]));
                assert(dist.take(i + 1) =~= dist.take(i as int).push(dist[i as int]));
                i = i + 1;
            }
            assert(want.take(i as int) =~= want);
            assert(dist.take(i as int) =~= dist);
            let s = suggest(&names, &distances, target.as_str());
            missing_report(path, &s)
        },
        _ => missing_report(path, &empty),
    }
}

// --------------------------------------------------------------- validation
/// The home directory as a value.
pub open spec fn home_view(home: Option<&str>) -> Option<Seq<char>> {
    match home {
        Some(h) => Some(h@),
        None => None,
    }
}

pub open spec fn irregular_text(path: Seq<char>, kind: FileKind) -> Seq<char> {
    "Path is not a regular file: "@ + path + " ("@ + kind_text(kind)
        + ") — file tools read regular files only; devices, pipes and directories are not readable"@
}

/// What becomes of a request for a file, given what the file system says of
/// the path as written (`direct`) and of the path without wrappers (`bare`).
pub open spec fn file_verdict(
    requested: Seq<char>,
    working: Seq<char>,
    home: Option<Seq<char>>,
    bare: Probe,
    direct: Probe,
    siblings: Option<Seq<Seq<char>>>,
) -> Result<Seq<char>, Seq<char>> {
    let bare_path = resolved(stripped(requested), working, home);
    let path = resolved(requested, working, home);
    if stripped(requested) != trimmed(requested) && unsafe_reason(bare_path, bare) is None
        && bare.is_file {
        Ok(bare_path)
    } else if unsafe_reason(path, direct) is Some {
        if !bare.exists && parent(bare_path) is Some && !bare.parent_exists {
            Err(missing_text(bare_path, Seq::empty()))
        } else {
            Err("Invalid path: "@ + unsafe_reason(path, direct)->0)
        }
    } else if !direct.exists {
        Err(hint(path, siblings))
    } else if !direct.is_file {
        Err(irregular_text(path, direct.kind))
    } else {
        Ok(path)
    }
}

/// Resolves a path and confirms that it is a regular file.
pub fn validate_file_path(
    requested: &str,
    working_directory: &str,
    home: Option<&str>,
    bare: Probe,
    direct: Probe,
    siblings: &Option<Vec<String>>,
) -> (r: Result<String, String>)
    ensures
        match r {
            Ok(p) => file_verdict(
                requested@,
                working_directory@,
                home_view(home),
                bare,
                direct,
                names_of(*siblings),
            ) == Ok::<Seq<char>, Seq<char>>(p@),
            Err(e) => file_verdict(
                requested@,
                working_directory@,
                home_view(home),
                bare,
                direct,
                names_of(*siblings),
            ) == Err::<Seq<char>, Seq<char>>(e@),
        },
{
    let inner = strip_path_wrappers(requested);
    if !str_eq(inner, trim(requested)) {
        if let Ok(p) = validate_path_safety(inner, working_directory, home, bare) {
            if bare.is_file {
                return Ok(p);
            }
        }
    }
    match validate_path_safety(requested, working_directory, home, direct) {
        Ok(path) => {
            if !direct.exists {
                return Err(missing_file_hint(path.as_str(), siblings));
            }
            if !direct.is_file {
                return Err(
                    cat5(
                        "Path is not a regular file: ",
                        path.as_str(),
                        " (",
                        describe_file_type(direct.kind),
                        ") — file tools read regular files only; devices, pipes and directories are not readable",
                    ),
                );
            }
            Ok(path)
        },
        Err(ToolError::InvalidInput(msg)) => {
            let bare_path = resolve_tool_path(inner, working_directory, home);
            if !bare.exists && parent_of(bare_path.as_str()).is_some() && !bare.parent_exists {
                let empty: Vec<String> = Vec::new();
                assert(views(empty@) =~= Seq::empty());
                return Err(missing_report(bare_path.as_str(), &empty));
            }
            Err(cat2("Invalid path: ", msg.as_str()))
        },
        Err(e) => Err(cat2("Path validation failed: ", e.message().as_str())),
    }
}

/// What becomes of a request for a directory.
pub open spec fn directory_verdict(path: Seq<char>, probe: Probe) -> Result<Seq<char>, Seq<char>> {
    match unsafe_reason(path, probe) {
        Some(msg) => Err("Invalid path: "@ + msg),
        None => if !probe.exists {
            Err("Directory not found: "@ + path)
        } else if !probe.is_dir {
            Err("Path is not a directory: "@ + path)
        } else {
            Ok(path)
        },
    }
}

/// Resolves a path and confirms that it is a directory.
pub fn validate_directory_path(
    requested: &str,
    working_directory: &str,
    home: Option<&str>,
    probe: Probe,
) -> (r: Result<String, String>)
    ensures
        ({
            let path = resolved(requested@, working_directory@, home_view(home));
            match r {
                Ok(p) => directory_verdict(path, probe) == Ok::<Seq<char>, Seq<char>>(p@),
                Err(e) => directory_verdict(path, probe) == Err::<Seq<char>, Seq<char>>(e@),
            }
        }),
{
    match validate_path_safety(requested, working_directory, home, probe) {
        Ok(path) => {
            if !probe.exists {
                return Err(cat2("Directory not found: ", path.as_str()));
            }
            if !probe.is_dir {
                return Err(cat2("Path is not a directory: ", path.as_str()));
            }
            Ok(path)
        },
        Err(ToolError::InvalidInput(msg)) => Err(cat2("Invalid path: ", msg.as_str())),
        Err(e) => Err(cat2("Path validation failed: ", e.message().as_str())),
    }
}

// -------------------------------------------------------------------- laws
/// A request resolves to an absolute path below an absolute working directory.
pub proof fn law_resolved_is_absolute(path: Seq<char>, working: Seq<char>, home: Option<Seq<char>>)
    requires
        absolute(working),
    ensures
        absolute(resolved(path, working, home)),
{
}

/// An absolute path resolves to itself, whatever the working directory.
pub proof fn law_absolute_passes_through(
    path: Seq<char>,
    working: Seq<char>,
    home: Option<Seq<char>>,
)
    requires
        absolute(path),
    ensures
        resolved(path, working, home) == path,
{
    reveal_strlit("~/");
    reveal_strlit("~\\");
    reveal_strlit("~");
    assert(path[0] == '/');
    if has_prefix(path, "~/"@) {
        assert(path.subrange(0, 2)[0] == '~');
    }
    if has_prefix(path, "~\\"@) {
        assert(path.subrange(0, 2)[0] == '~');
    }
}

/// Collapsing the home directory is undone by expanding it, on every path
/// that is written as the home directory or as something joined below it.
pub proof fn law_expand_undoes_collapse(path: Seq<char>, home: Seq<char>)
    requires
        absolute(home),
        absolute(path),
        below(path, home) is Some,
        path == home || (below(path, home)->0.len() > 0 && path == joined(
            home,
            below(path, home)->0,
        )),
        path == home ==> below(path, home)->0.len() == 0,
    ensures
        expanded(collapsed(path, Some(home)), Some(home)) == path,
{
    reveal_strlit("~/");
    reveal_strlit("~\\");
    reveal_strlit("~");
    let rest = below(path, home)->0;
    let c = collapsed(path, Some(home));
    if rest.len() == 0 {
        assert(c == "~"@);
        assert(!has_prefix(c, "~/"@) && !has_prefix(c, "~\\"@));
    } else {
        assert(c == "~/"@ + rest);
        assert(c.subrange(0, 2) =~= "~/"@);
        assert(c.skip(2) =~= rest);
    }
}

/// An error says of what kind it is and gives its detail.
pub proof fn law_errors_give_their_detail(s: String, n: u64)
    ensures
        error_text(ToolError::NotFound(s)) == "Tool not found: "@ + s@,
        error_text(ToolError::InvalidInput(s)) == "Invalid input: "@ + s@,
        error_text(ToolError::Execution(s)) == "Execution error: "@ + s@,
        error_text(ToolError::PermissionDenied(s)) == "Permission denied: "@ + s@,
        error_text(ToolError::ApprovalRequired(s)) == "Tool requires approval: "@ + s@,
        error_text(ToolError::FileNotFound(s)) == "File not found: "@ + s@,
        error_text(ToolError::Io(s)) == "I/O error: "@ + s@,
        error_text(ToolError::Json(s)) == "JSON error: "@ + s@,
        error_text(ToolError::Internal(s)) == "Internal error: "@ + s@,
        tells(error_text(ToolError::Timeout(n)), decimal(n as nat) + "s"@),
{
    let t = error_text(ToolError::Timeout(n));
    let head = "Tool execution timed out after "@;
    let x = decimal(n as nat) + "s"@;
    assert(t =~= head + x + Seq::<char>::empty());
    lemma_tells(t, head, x, Seq::empty());
}

/// A tilde alone is the home directory, a tilde and a separator stand for a
/// path below it, and no other path changes; without a home directory none
/// does.
pub proof fn law_tilde_is_the_home(rest: Seq<char>, home: Seq<char>, path: Seq<char>)
    ensures
        expanded("~/"@ + rest, Some(home)) == joined(home, rest),
        expanded("~\\"@ + rest, Some(home)) == joined(home, rest),
        expanded("~"@, Some(home)) == home,
        path.len() > 0 && path[0] != '~' ==> expanded(path, Some(home)) == path,
        expanded(path, None) == path,
{
    reveal_strlit("~/");
    reveal_strlit("~\\");
    reveal_strlit("~");
    let a = "~/"@ + rest;
    let b = "~\\"@ + rest;
    assert(a.subrange(0, 2) =~= "~/"@ && a.skip(2) =~= rest);
    assert(b.subrange(0, 2) =~= "~\\"@ && b.skip(2) =~= rest);
    if has_prefix(path, "~/"@) {
        assert(path.subrange(0, 2)[0] == '~');
    }
    if has_prefix(path, "~\\"@) {
        assert(path.subrange(0, 2)[0] == '~');
    }
}

/// A path below the home directory is shown from a tilde on, and any other as
/// it is.
pub proof fn law_home_is_shown_as_a_tilde(home: Seq<char>, rest: Seq<char>, path: Seq<char>)
    requires
        absolute(home),
        skip_seps(rest) == rest,
        trim_tail(rest) == rest,
    ensures
        rest.len() > 0 ==> collapsed(home + (seq!['/'] + rest), Some(home)) == "~/"@ + rest,
        rest.len() == 0 ==> collapsed(home + (seq!['/'] + rest), Some(home)) == "~"@,
        !absolute(path) || below(path, home) is None ==> collapsed(path, Some(home)) == path,
        collapsed(path, None) == path,
{
    law_rest_below_a_directory(home, rest);
}

/// A path is accepted where it exists, or where the directory that it would
/// stand in does.
pub proof fn law_paths_need_their_directory(path: Seq<char>, probe: Probe)
    ensures
        unsafe_reason(path, probe) is None <==> probe.exists || (parent(path) is Some
            && probe.parent_exists),
        !probe.exists && parent(path) is Some && !probe.parent_exists ==> unsafe_reason(path, probe)
            == Some("Parent directory does not exist: "@ + parent(path)->0),
        !probe.exists && parent(path) is None ==> unsafe_reason(path, probe) == Some(
            "Invalid path: no parent directory"@,
        ),
{
}

/// The kinds of what is no regular file have names of their own.
pub proof fn law_file_kinds_are_named()
    ensures
        kind_text(FileKind::Directory) == "directory"@,
        kind_text(FileKind::CharacterDevice) == "character device"@,
        kind_text(FileKind::BlockDevice) == "block device"@,
        kind_text(FileKind::Fifo) == "FIFO (named pipe)"@,
        kind_text(FileKind::Socket) == "socket"@,
        kind_text(FileKind::Special) == "special file"@,
{
}

proof fn lemma_unwraps(w: Seq<char>, inner: Seq<char>)
    requires
        inner.len() > 0,
        !is_space(inner[0]) && !is_space(inner.last()),
    ensures
        unwrapped(w + inner + w, w) == Some(inner),
{
    let t = w + inner + w;
    let none = Seq::<char>::empty();
    assert(t.subrange(0, w.len() as int) =~= w);
    assert(t.subrange(t.len() - w.len(), t.len() as int) =~= w);
    assert(t.subrange(w.len() as int, t.len() - w.len()) =~= none + inner + none);
    law_trimming_leaves_the_text(none, inner, none);
}

proof fn lemma_wrapped_is_stripped(raw: Seq<char>, w: Seq<char>, inner: Seq<char>)
    requires
        raw == w + inner + w,
        w.len() > 0,
        !is_space(w[0]) && !is_space(w.last()),
    ensures
        trimmed(raw) == raw,
{
    let none = Seq::<char>::empty();
    assert(none + raw + none =~= raw);
    assert(raw[0] == w[0] && raw.last() == w.last());
    law_trimming_leaves_the_text(none, raw, none);
}

/// Wrappers around a path are taken off, and a path without any stays as it
/// is.
pub proof fn law_wrappers_are_taken_off(inner: Seq<char>)
    requires
        inner.len() > 0,
        !is_space(inner[0]) && !is_space(inner.last()),
    ensures
        stripped("**"@ + inner + "**"@) == inner,
        stripped("`"@ + inner + "`"@) == inner,
        stripped("\""@ + inner + "\""@) == inner,
        stripped("'"@ + inner + "'"@) == inner,
        inner[0] != '*' && inner[0] != '`' && inner[0] != '"' && inner[0] != '\'' ==> stripped(
            inner,
        ) == inner,
{
    reveal_strlit("**");
    reveal_strlit("`");
    reveal_strlit("\"");
    reveal_strlit("'");
    law_white_space('*');
    law_white_space('`');
    law_white_space('"');
    law_white_space('\'');
    let none = Seq::<char>::empty();
    assert("**"@[0] == '*' && "**"@.last() == '*');
    assert("`"@[0] == '`' && "`"@.last() == '`');
    assert("\""@[0] == '"' && "\""@.last() == '"');
    assert("'"@[0] == '\'' && "'"@.last() == '\'');
    let a = "**"@ + inner + "**"@;
    let b = "`"@ + inner + "`"@;
    let c = "\""@ + inner + "\""@;
    let d = "'"@ + inner + "'"@;
    lemma_wrapped_is_stripped(a, "**"@, inner);
    lemma_wrapped_is_stripped(b, "`"@, inner);
    lemma_wrapped_is_stripped(c, "\""@, inner);
    lemma_wrapped_is_stripped(d, "'"@, inner);
    lemma_unwraps("**"@, inner);
    lemma_unwraps("`"@, inner);
    lemma_unwraps("\""@, inner);
    lemma_unwraps("'"@, inner);
    lemma_no_wrapper(b, "**"@);
    lemma_no_wrapper(c, "**"@);
    lemma_no_wrapper(c, "`"@);
    lemma_no_wrapper(d, "**"@);
    lemma_no_wrapper(d, "`"@);
    lemma_no_wrapper(d, "\""@);
    assert(none + inner + none =~= inner);
    law_trimming_leaves_the_text(none, inner, none);
    lemma_no_wrapper(inner, "**"@);
    lemma_no_wrapper(inner, "`"@);
    lemma_no_wrapper(inner, "\""@);
    lemma_no_wrapper(inner, "'"@);
}

proof fn lemma_no_wrapper(t: Seq<char>, w: Seq<char>)
    ensures
        t.len() > 0 && w.len() > 0 && t[0] != w[0] ==> unwrapped(t, w) is None,
{
    if has_prefix(t, w) && w.len() > 0 {
        assert(t.subrange(0, w.len() as int)[0] == t[0]);
    }
}

/// One edit is one apart: a character more, one less, or one changed.
pub proof fn law_one_edit_is_one_apart(a: Seq<char>, x: char, y: char)
    ensures
        levenshtein(a.push(x), a) == 1,
        levenshtein(a, a.push(x)) == 1,
        x != y ==> levenshtein(a.push(x), a.push(y)) == 1,
        levenshtein(Seq::empty(), a) == a.len(),
        levenshtein(a, Seq::empty()) == a.len(),
{
    law_distance_zero_is_equality(a, a);
    law_distance_zero_is_equality(a.push(x), a);
    law_distance_zero_is_equality(a.push(x), a.push(y));
    law_distance_is_symmetric(a.push(x), a);
    assert(a.push(x).len() != a.len());
    assert(a.push(x).drop_last() =~= a);
    assert(a.push(y).drop_last() =~= a);
    assert(a.push(x).last() == x && a.push(y).last() == y);
    if a.len() > 0 {
        assert(levenshtein(a.push(x), a) <= levenshtein(a, a) + 1);
    }
}

/// A name is close where at most five eighths of the longer one differ: the
/// name itself always is, and one that differs throughout never is.
pub proof fn law_closeness(name: Seq<char>, target: Seq<char>, distance: nat)
    ensures
        close(name, target, 0),
        close(name, target, distance) ==> distance * 8 <= byte_len(name) * 5 || distance * 8
            <= byte_len(target) * 5,
        distance * 8 <= byte_len(name) * 5 || distance * 8 <= byte_len(target) * 5 ==> close(
            name,
            target,
            distance,
        ),
{
}

proof fn lemma_place_at(s: Seq<(Seq<char>, nat)>, x: (Seq<char>, nat)) -> (k: int)
    ensures
        0 <= k <= s.len(),
        place(s, x) == s.take(k).push(x) + s.skip(k),
        k > 0 ==> s[k - 1].1 <= x.1,
        forall|i: int| k <= i < s.len() ==> (#[trigger] s[i]).1 > x.1,
    decreases s.len(),
{
    if s.len() == 0 || s.last().1 <= x.1 {
        let k = s.len() as int;
        assert(s.take(k).push(x) + s.skip(k) =~= s.push(x));
        k
    } else {
        let k = lemma_place_at(s.drop_last(), x);
        assert(s.drop_last().take(k) =~= s.take(k));
        assert(place(s, x) =~= s.take(k).push(x) + s.skip(k));
        assert forall|i: int| k <= i < s.len() implies (#[trigger] s[i]).1 > x.1 by {
            if i < s.len() - 1 {
                assert(s.drop_last()[i].1 > x.1);
            }
        }
        k
    }
}

pub open spec fn nearer_first(order: Seq<(Seq<char>, nat)>) -> bool {
    forall|i: int, j: int|
        0 <= i < j < order.len() ==> (#[trigger] order[i]).1 <= (#[trigger] order[j]).1
}

/// Ranking puts the nearer names first and leaves none out.
pub proof fn law_nearer_names_come_first(names: Seq<Seq<char>>, distances: Seq<nat>)
    requires
        names.len() == distances.len(),
    ensures
        nearer_first(ranked(names, distances)),
        ranked(names, distances).len() == names.len(),
        forall|i: int|
            0 <= i < names.len() ==> ranked(names, distances).contains(
                (#[trigger] names[i], distances[i]),
            ),
    decreases names.len(),
{
    if names.len() > 0 {
        law_nearer_names_come_first(names.drop_last(), distances.drop_last());
        let s = ranked(names.drop_last(), distances.drop_last());
        let x = (names.last(), distances.last());
        let k = lemma_place_at(s, x);
        let r = ranked(names, distances);
        assert(r[k] == x);
        assert forall|i: int, j: int| 0 <= i < j < r.len() implies (#[trigger] r[i]).1 <= (
        #[trigger] r[j]).1 by {
            let a = if i <= k {
                i
            } else {
                i - 1
            };
            if i < k {
                assert(r[i] == s[i]);
                if j < k {
                    assert(r[j] == s[j]);
                } else if j == k {
                    assert(i == k - 1 || s[i].1 <= s[k - 1].1);
                } else {
                    assert(r[j] == s[j - 1]);
                }
            } else if i == k {
                assert(r[j] == s[j - 1]);
            } else {
                assert(r[i] == s[i - 1] && r[j] == s[j - 1]);
            }
        }
        assert forall|i: int| 0 <= i < names.len() implies r.contains(
            (#[trigger] names[i], distances[i]),
        ) by {
            if i < names.len() - 1 {
                assert(names.drop_last()[i] == names[i]);
                let p = (names[i], distances[i]);
                assert(s.contains(p));
                let m = choose|m: int| 0 <= m < s.len() && s[m] == p;
                if m < k {
                    assert(r[m] == p);
                } else {
                    assert(r[m + 1] == p);
                }
            }
        }
    }
}

/// Of the names in order the close ones are picked, the nearest first, and
/// no more than asked for; where fewer are picked, every close one is.
pub proof fn law_close_names_are_picked(
    order: Seq<(Seq<char>, nat)>,
    x: (Seq<char>, nat),
    target: Seq<char>,
    n: nat,
)
    ensures
        picked(order, target, n).len() <= n,
        close(x.0, target, x.1) && picked(order, target, n).len() < n ==> picked(
            order.push(x),
            target,
            n,
        ) == picked(order, target, n).push(x.0),
        !close(x.0, target, x.1) ==> picked(order.push(x), target, n) == picked(order, target, n),
        picked(order, target, n).len() == n ==> picked(order.push(x), target, n) == picked(
            order,
            target,
            n,
        ),
        HINT_MAX == 3,
        HINT_SCAN == 50,
    decreases order.len(),
{
    assert(order.push(x).drop_last() =~= order);
    if order.len() > 0 {
        law_close_names_are_picked(order.drop_last(), order.last(), target, n);
    }
}

/// A report on a missing file gives its path and every suggestion.
pub proof fn law_missing_file_is_reported(path: Seq<char>, suggested: Seq<Seq<char>>, i: int)
    ensures
        has_prefix(missing_text(path, suggested), "File not found: "@ + path),
        suggested.len() == 0 ==> missing_text(path, suggested) == "File not found: "@ + path,
        0 <= i < suggested.len() ==> tells(
            missing_text(path, suggested),
            "'"@ + suggested[i] + "'"@,
        ),
{
    let t = missing_text(path, suggested);
    let base = "File not found: "@ + path;
    assert(t.subrange(0, base.len() as int) =~= base);
    if 0 <= i < suggested.len() {
        let parts = quoted(suggested);
        law_join_holds_each(parts, ", "@, i);
        assert(parts[i] == "'"@ + suggested[i] + "'"@);
        lemma_tells_more(
            t,
            base + " — did you mean: "@,
            join(parts, ", "@),
            "?"@,
            "'"@ + suggested[i] + "'"@,
        );
    }
}

/// Suggestions are made among the first names beside the file, by their
/// distance to its name; without a listing none is made.
pub proof fn law_hints_come_from_the_siblings(path: Seq<char>, siblings: Seq<Seq<char>>)
    ensures
        hint(path, None) == "File not found: "@ + path,
        parent(path) is Some && file_name(path) is Some && siblings.len() <= 50 ==> hint(
            path,
            Some(siblings),
        ) == missing_text(
            path,
            suggestions(siblings, distances_to(siblings, file_name(path)->0), file_name(path)->0),
        ),
        siblings.len() > 50 ==> hint(path, Some(siblings)) == hint(path, Some(siblings.take(50))),
        distances_to(siblings, path).len() == siblings.len(),
        forall|i: int|
            0 <= i < siblings.len() ==> #[trigger] distances_to(siblings, path)[i] == levenshtein(
                lowercase(siblings[i]),
                lowercase(path),
            ),
{
    if siblings.len() > 50 {
        assert(siblings.take(50).len() == 50);
    }
}

/// A request for a file ends in a regular file or in an error. The path without
/// its wrappers comes first, then the path as written; an existing path that is
/// no regular file is named with its kind.
pub proof fn law_file_requests(
    requested: Seq<char>,
    working: Seq<char>,
    home: Option<Seq<char>>,
    bare: Probe,
    direct: Probe,
    siblings: Option<Seq<Seq<char>>>,
)
    ensures
        ({
            let verdict = file_verdict(requested, working, home, bare, direct, siblings);
            let path = resolved(requested, working, home);
            let bare_path = resolved(stripped(requested), working, home);
            let wrapped = stripped(requested) != trimmed(requested);
            &&& !wrapped && direct.exists && direct.is_file ==> verdict == Ok::<
                Seq<char>,
                Seq<char>,
            >(path)
            &&& wrapped && bare.exists && bare.is_file ==> verdict == Ok::<Seq<char>, Seq<char>>(
                bare_path,
            )
            &&& verdict is Ok && verdict->Ok_0 != bare_path ==> verdict->Ok_0 == path
                && direct.exists && direct.is_file
            &&& verdict is Ok ==> (wrapped && bare.is_file) || (direct.exists && direct.is_file)
            &&& !wrapped && direct.exists && !direct.is_file ==> verdict is Err && tells(
                verdict->Err_0,
                path,
            ) && tells(verdict->Err_0, " ("@ + kind_text(direct.kind) + ")"@)
            &&& !wrapped && !direct.exists && parent(path) is Some && direct.parent_exists
                ==> verdict == Err::<Seq<char>, Seq<char>>(hint(path, siblings))
        }),
{
    let path = resolved(requested, working, home);
    let t = irregular_text(path, direct.kind);
    let a = "Path is not a regular file: "@;
    let k = kind_text(direct.kind);
    let e = ") — file tools read regular files only; devices, pipes and directories are not readable"@;
    reveal_strlit(")");
    reveal_strlit(") — file tools read regular files only; devices, pipes and directories are not readable");
    assert(t =~= a + path + (" ("@ + k + e));
    lemma_tells(t, a, path, " ("@ + k + e);
    assert(e =~= ")"@ + e.skip(1));
    assert(t =~= (a + path) + (" ("@ + k + ")"@) + e.skip(1));
    lemma_tells(t, a + path, " ("@ + k + ")"@, e.skip(1));
}

/// A request for a directory ends in that directory where it is one, and
/// otherwise in an error that names the path.
pub proof fn law_directory_requests(path: Seq<char>, probe: Probe)
    ensures
        directory_verdict(path, probe) is Ok <==> probe.exists && probe.is_dir,
        directory_verdict(path, probe) is Ok ==> directory_verdict(path, probe)->Ok_0 == path,
        probe.exists && !probe.is_dir ==> directory_verdict(path, probe) == Err::<
            Seq<char>,
            Seq<char>,
        >("Path is not a directory: "@ + path),
        !probe.exists && parent(path) is Some && probe.parent_exists ==> directory_verdict(
            path,
            probe,
        ) == Err::<Seq<char>, Seq<char>>("Directory not found: "@ + path),
{
}

/// Wrappers around nothing are left as they are.
pub proof fn law_bare_wrappers_stay(w: Seq<char>)
    ensures
        unwrapped(w + w, w) is None,
{
}

/// A path that cannot be accepted is reported: as missing, under its name
/// without wrappers, where the directory of that name is missing too, and with
/// the reason otherwise.
pub proof fn law_unacceptable_paths_are_reported(
    requested: Seq<char>,
    working: Seq<char>,
    home: Option<Seq<char>>,
    bare: Probe,
    direct: Probe,
    siblings: Option<Seq<Seq<char>>>,
)
    requires
        stripped(requested) == trimmed(requested),
        !direct.exists && !direct.parent_exists,
    ensures
        ({
            let verdict = file_verdict(requested, working, home, bare, direct, siblings);
            let path = resolved(requested, working, home);
            let bare_path = resolved(stripped(requested), working, home);
            let missing = !bare.exists && parent(bare_path) is Some && !bare.parent_exists;
            &&& missing ==> verdict == Err::<Seq<char>, Seq<char>>("File not found: "@ + bare_path)
            &&& !missing && parent(path) is Some ==> verdict == Err::<Seq<char>, Seq<char>>(
                "Invalid path: "@ + ("Parent directory does not exist: "@ + parent(path)->0),
            )
        }),
{
}

} // verus!
