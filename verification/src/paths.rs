//! Paths as text, with `/` between the components.
use vstd::prelude::*;

use crate::search::{
    after_last, after_last_char, last_index_of, law_parts_around_a_character, lemma_last_index_of,
    rfind_char, split_char, split_on,
};
use crate::text::{cat2, cat3, chars_of, oview, str_eq, string_of, views};

verus! {

/// Whether a path starts at the root.
pub open spec fn absolute(s: Seq<char>) -> bool {
    s.len() > 0 && s[0] == '/'
}

/// Whether a path starts at the root.
pub fn is_absolute(s: &str) -> (r: bool)
    ensures
        r == absolute(s@),
{
    let v = chars_of(s);
    v.len() > 0 && v[0] == '/'
}

/// `rest` below `base`; an absolute `rest` stands for itself.
pub open spec fn joined(base: Seq<char>, rest: Seq<char>) -> Seq<char> {
    if absolute(rest) {
        rest
    } else if base.len() == 0 || base.last() == '/' {
        base + rest
    } else {
        base + "/"@ + rest
    }
}

/// `rest` below `base`; an absolute `rest` stands for itself.
pub fn join_path(base: &str, rest: &str) -> (r: String)
    ensures
        r@ == joined(base@, rest@),
{
    if is_absolute(rest) {
        return rest.to_owned();
    }
    let v = chars_of(base);
    if v.len() == 0 || v[v.len() - 1] == '/' {
        cat2(base, rest)
    } else {
        cat3(base, "/", rest)
    }
}

/// A path without the separators and `.` components at its end.
pub open spec fn trim_tail(s: Seq<char>) -> Seq<char>
    decreases s.len(),
{
    if s.len() > 1 && (s.last() == '/' || (s.last() == '.' && s[s.len() - 2] == '/')) {
        trim_tail(s.drop_last())
    } else {
        s
    }
}

/// Trimming keeps a front part of the path.
pub proof fn lemma_trim_tail(s: Seq<char>)
    ensures
        trim_tail(s).len() <= s.len(),
        trim_tail(s) == s.take(trim_tail(s).len() as int),
        s.len() > 0 ==> trim_tail(s).len() > 0,
    decreases s.len(),
{
    if s.len() > 1 && (s.last() == '/' || (s.last() == '.' && s[s.len() - 2] == '/')) {
        lemma_trim_tail(s.drop_last());
        let n = trim_tail(s).len() as int;
        assert(s.drop_last().take(n) =~= s.take(n));
    } else {
        assert(s.take(s.len() as int) =~= s);
    }
}

fn trimmed_len(v: &Vec<char>) -> (n: usize)
    ensures
        n <= v.len(),
        trim_tail(v@) == v@.take(n as int),
{
    let mut n: usize = v.len();
    assert(v@.take(n as int) =~= v@);
    while n > 1 && (v[n - 1] == '/' || (v[n - 1] == '.' && v[n - 2] == '/'))
        invariant
            n <= v.len(),
            trim_tail(v@) == trim_tail(v@.take(n as int)),
        decreases n,
    {
        assert(v@.take(n as int).drop_last() =~= v@.take(n - 1));
        n = n - 1;
    }
    n
}

/// The directory a path stands in; the root and the empty path have none.
pub open spec fn parent(s: Seq<char>) -> Option<Seq<char>> {
    let t = trim_tail(s);
    if t.len() == 0 || t == "/"@ {
        None
    } else {
        match last_index_of(t, '/') {
            None => Some(Seq::empty()),
            Some(k) => if k == 0 {
                Some("/"@)
            } else {
                Some(trim_tail(t.take(k)))
            },
        }
    }
}

/// The directory a path stands in.
pub fn parent_of(s: &str) -> (r: Option<String>)
    ensures
        oview(r) == parent(s@),
{
    let v = chars_of(s);
    let n: usize = trimmed_len(&v);
    let t = string_of(&v, 0, n);
    assert(t@ =~= trim_tail(s@));
    if n == 0 || str_eq(t.as_str(), "/") {
        return None;
    }
    let tv = chars_of(t.as_str());
    match rfind_char(&tv, '/') {
        None => Some(String::new()),
        Some(k) => if k == 0 {
            Some("/".to_owned())
        } else {
            let head = string_of(&tv, 0, k);
            let hv = chars_of(head.as_str());
            let m: usize = trimmed_len(&hv);
            let p = string_of(&hv, 0, m);
            assert(head@ =~= trim_tail(s@).take(k as int));
            assert(p@ =~= trim_tail(head@));
            Some(p)
        },
    }
}

/// The last component of a path, where it is a name.
pub open spec fn file_name(s: Seq<char>) -> Option<Seq<char>> {
    let n = after_last(trim_tail(s), '/');
    if n.len() == 0 || n == "."@ || n == ".."@ {
        None
    } else {
        Some(n)
    }
}

/// The last component of a path, where it is a name.
pub fn file_name_of(s: &str) -> (r: Option<String>)
    ensures
        oview(r) == file_name(s@),
{
    let v = chars_of(s);
    let n: usize = trimmed_len(&v);
    let t = string_of(&v, 0, n);
    assert(t@ =~= trim_tail(s@));
    let name = after_last_char(t.as_str(), '/');
    if name.is_empty() || str_eq(name, ".") || str_eq(name, "..") {
        None
    } else {
        Some(name.to_owned())
    }
}

/// The pieces that are components: not empty and not `.`.
pub open spec fn real_parts(parts: Seq<Seq<char>>) -> Seq<Seq<char>>
    decreases parts.len(),
{
    if parts.len() == 0 {
        Seq::empty()
    } else {
        let init = real_parts(parts.drop_last());
        if parts.last().len() == 0 || parts.last() == "."@ {
            init
        } else {
            init.push(parts.last())
        }
    }
}

/// What a path starts with: the root, the current directory, or neither.
pub open spec fn start(s: Seq<char>) -> Seq<Seq<char>> {
    if absolute(s) {
        seq!["/"@]
    } else if split_on(s, '/')[0] == "."@ {
        seq!["."@]
    } else {
        Seq::empty()
    }
}

/// The components of a path.
pub open spec fn components(s: Seq<char>) -> Seq<Seq<char>> {
    start(s) + real_parts(split_on(s, '/'))
}

/// The components of a path.
pub fn components_of(s: &str) -> (r: Vec<String>)
    ensures
        views(r@) == components(s@),
{
    let parts = split_char(s, '/');
    let mut out: Vec<String> = Vec::new();
    assert(parts@[0]@ == views(parts@)[0]);
    if is_absolute(s) {
        out.push("/".to_owned());
        assert(views(out@) =~= seq!["/"@]);
    } else if str_eq(parts[0].as_str(), ".") {
        out.push(".".to_owned());
        assert(views(out@) =~= seq!["."@]);
    } else {
        assert(views(out@) =~= Seq::empty());
    }
    let mut i: usize = 0;
    assert(views(parts@).take(0) =~= Seq::empty());
    assert(start(s@) + real_parts(Seq::empty()) =~= start(s@));
    while i < parts.len()
        invariant
            i <= parts.len(),
            views(parts@) == split_on(s@, '/'),
            views(out@) == start(s@) + real_parts(views(parts@).take(i as int)),
        decreases parts.len() - i,
    {
        assert(views(parts@).take(i + 1).drop_last() =~= views(parts@).take(i as int));
        let p = parts[i].as_str();
        if !p.is_empty() && !str_eq(p, ".") {
            let ghost pre = views(out@);
            out.push(p.to_owned());
            assert(views(out@) =~= pre.push(p@));
            assert(start(s@) + real_parts(views(parts@).take(i + 1)) =~= pre.push(p@));
        }
        i = i + 1;
    }
    assert(views(parts@).take(i as int) =~= views(parts@));
    out
}

// ---------------------------------------------------------- below a prefix
/// `s` without separators and `.` components at its front.
pub open spec fn skip_seps(s: Seq<char>) -> Seq<char>
    decreases s.len(),
{
    if s.len() > 0 && s[0] == '/' {
        skip_seps(s.drop_first())
    } else if s.len() > 1 && s[0] == '.' && s[1] == '/' {
        skip_seps(s.skip(2))
    } else if s == "."@ {
        Seq::empty()
    } else {
        s
    }
}

/// How long the first component of `s` is.
pub open spec fn first_len(s: Seq<char>) -> nat
    decreases s.len(),
{
    if s.len() == 0 || s[0] == '/' {
        0
    } else {
        1 + first_len(s.drop_first())
    }
}

proof fn lemma_skip_seps(s: Seq<char>)
    ensures
        skip_seps(s).len() <= s.len(),
        skip_seps(s) == s.skip(s.len() - skip_seps(s).len()),
        skip_seps(s).len() > 0 ==> first_len(skip_seps(s)) > 0,
    decreases s.len(),
{
    let n = skip_seps(s).len();
    if s.len() > 0 && s[0] == '/' {
        lemma_skip_seps(s.drop_first());
        assert(s.drop_first().skip(s.len() - 1 - n) =~= s.skip(s.len() - n));
    } else if s.len() > 1 && s[0] == '.' && s[1] == '/' {
        lemma_skip_seps(s.skip(2));
        assert(s.skip(2).skip(s.len() - 2 - n) =~= s.skip(s.len() - n));
    } else if s == "."@ {
        assert(s.skip(s.len() as int) =~= Seq::empty());
    } else {
        assert(s.skip(0) =~= s);
    }
}

proof fn lemma_first_len(s: Seq<char>)
    ensures
        first_len(s) <= s.len(),
    decreases s.len(),
{
    if s.len() > 0 && s[0] != '/' {
        lemma_first_len(s.drop_first());
    }
}

/// What is left of `p` after the components of `h`, where they are its first.
pub open spec fn below(p: Seq<char>, h: Seq<char>) -> Option<Seq<char>>
    decreases h.len(),
{
    let p1 = skip_seps(p);
    let h1 = skip_seps(h);
    let n = first_len(h1);
    if h1.len() == 0 {
        Some(trim_tail(p1))
    } else if h1.len() <= h.len() && 0 < n <= h1.len() && first_len(p1) == n && n <= p1.len()
        && p1.take(n as int) == h1.take(n as int) {
        below(p1.skip(n as int), h1.skip(n as int))
    } else {
        None
    }
}

fn seps_end(v: &Vec<char>, from: usize) -> (i: usize)
    requires
        from <= v.len(),
    ensures
        from <= i <= v.len(),
        skip_seps(v@.skip(from as int)) == v@.skip(i as int),
{
    let mut i: usize = from;
    proof {
        reveal_strlit(".");
    }
    loop
        invariant
            from <= i <= v.len(),
            skip_seps(v@.skip(from as int)) == skip_seps(v@.skip(i as int)),
        ensures
            from <= i <= v.len(),
            skip_seps(v@.skip(from as int)) == v@.skip(i as int),
        decreases v.len() - i,
    {
        let ghost s = v@.skip(i as int);
        if i < v.len() && v[i] == '/' {
            assert(s.drop_first() =~= v@.skip(i + 1));
            i = i + 1;
        } else if v.len() - i > 1 && v[i] == '.' && v[i + 1] == '/' {
            assert(s.skip(2) =~= v@.skip(i + 2));
            i = i + 2;
        } else if v.len() - i == 1 && v[i] == '.' {
            assert(s =~= "."@) by {
                reveal_strlit(".");
            }
            i = i + 1;
            assert(v@.skip(i as int) =~= Seq::empty());
            break;
        } else {
            assert(s != "."@) by {
                reveal_strlit(".");
                if s == "."@ {
                    assert(s.len() == 1);
                    assert(s[0] == '.');
                }
            }
            break;
        }
    }
    i
}

fn first_end(v: &Vec<char>, from: usize) -> (n: usize)
    requires
        from <= v.len(),
    ensures
        n <= v.len() - from,
        n == first_len(v@.skip(from as int)),
{
    let mut n: usize = 0;
    while from + n < v.len() && v[from + n] != '/'
        invariant
            from + n <= v.len(),
            first_len(v@.skip(from as int)) == n + first_len(v@.skip(from + n)),
        decreases v.len() - from - n,
    {
        assert(v@.skip(from + n).drop_first() =~= v@.skip(from + n + 1));
        n = n + 1;
    }
    n
}

fn same_part(a: &Vec<char>, i: usize, b: &Vec<char>, j: usize, n: usize) -> (r: bool)
    requires
        i + n <= a.len(),
        j + n <= b.len(),
    ensures
        r == (a@.skip(i as int).take(n as int) == b@.skip(j as int).take(n as int)),
{
    let mut k: usize = 0;
    while k < n
        invariant
            k <= n,
            i + n <= a.len(),
            j + n <= b.len(),
            forall|x: int|
                0 <= x < k ==> #[trigger] a@.skip(i as int)[x] == b@.skip(j as int)[x],
        decreases n - k,
    {
        assert(a@.skip(i as int)[k as int] == a@[i + k]);
        assert(b@.skip(j as int)[k as int] == b@[j + k]);
        if a[i + k] != b[j + k] {
            assert(a@.skip(i as int).take(n as int)[k as int] != b@.skip(j as int).take(
                n as int,
            )[k as int]);
            return false;
        }
        k = k + 1;
    }
    assert(a@.skip(i as int).take(n as int) =~= b@.skip(j as int).take(n as int));
    true
}

/// What is left of `path` after the components of `home`, where they are its
/// first.
pub fn path_below(path: &str, home: &str) -> (r: Option<String>)
    ensures
        oview(r) == below(path@, home@),
{
    let p = chars_of(path);
    let h = chars_of(home);
    let mut i: usize = 0;
    let mut j: usize = 0;
    assert(p@.skip(0) =~= p@);
    assert(h@.skip(0) =~= h@);
    loop
        invariant
            i <= p.len(),
            j <= h.len(),
            below(path@, home@) == below(p@.skip(i as int), h@.skip(j as int)),
        decreases h.len() - j,
    {
        let i1: usize = seps_end(&p, i);
        let j1: usize = seps_end(&h, j);
        if j1 == h.len() {
            let rest = string_of(&p, i1, p.len());
            let rv = chars_of(rest.as_str());
            let m: usize = trimmed_len(&rv);
            assert(rest@ =~= p@.skip(i1 as int));
            let out = string_of(&rv, 0, m);
            assert(out@ =~= trim_tail(rest@));
            return Some(out);
        }
        let n: usize = first_end(&h, j1);
        let np: usize = first_end(&p, i1);
        proof {
            lemma_skip_seps(h@.skip(j as int));
        }
        if np == n && same_part(&p, i1, &h, j1, n) {
            assert(p@.skip(i1 as int).skip(n as int) =~= p@.skip(i1 + n));
            assert(h@.skip(j1 as int).skip(n as int) =~= h@.skip(j1 + n));
            i = i1 + n;
            j = j1 + n;
        } else {
            return None;
        }
    }
}

/// Joining below an absolute directory gives an absolute path.
pub proof fn law_join_is_absolute(base: Seq<char>, rest: Seq<char>)
    requires
        absolute(base),
    ensures
        absolute(joined(base, rest)),
{
}

/// A relative path is joined below its directory with one separator between
/// the two; an absolute one stands for itself.
pub proof fn law_join_puts_one_separator(base: Seq<char>, rest: Seq<char>)
    ensures
        rest.len() > 0 && rest[0] == '/' ==> joined(base, rest) == rest,
        rest.len() > 0 && rest[0] != '/' && base.len() > 0 && base.last() != '/' ==> joined(
            base,
            rest,
        ) == base + "/"@ + rest,
        rest.len() > 0 && rest[0] != '/' ==> joined(base + "/"@, rest) == base + "/"@ + rest,
        joined(Seq::empty(), rest) == rest,
{
    reveal_strlit("/");
    assert((base + "/"@).last() == '/');
    assert(Seq::<char>::empty() + rest =~= rest);
}

/// Separators and dots at the end of a path do not count, and nothing else is
/// taken from it.
pub proof fn law_tail_does_not_count(s: Seq<char>)
    requires
        s.len() > 0,
    ensures
        trim_tail(s.push('/')) == trim_tail(s),
        trim_tail(s.push('/').push('.')) == trim_tail(s),
        s.last() != '/' && (s.last() != '.' || s.len() == 1 || s[s.len() - 2] != '/') ==> trim_tail(
            s,
        ) == s,
{
    assert(s.push('/').drop_last() =~= s);
    assert(s.push('/').push('.').drop_last() =~= s.push('/'));
    let t = s.push('/').push('.');
    assert(t[t.len() - 2] == '/');
    assert(trim_tail(s.push('/')) == trim_tail(s.push('/').drop_last()));
    assert(trim_tail(t) == trim_tail(t.drop_last()));
}

/// A name below a directory stands in that directory and is the path's last
/// component; below the root it stands in the root, and alone it stands in the
/// current directory.
pub proof fn law_parent_and_name(dir: Seq<char>, name: Seq<char>)
    requires
        name.len() > 0,
        !name.contains('/'),
        name != "."@,
    ensures
        dir.len() > 0 ==> parent(dir + seq!['/'] + name) == Some(trim_tail(dir)),
        parent(seq!['/'] + name) == Some("/"@),
        parent(name) == Some(Seq::<char>::empty()),
        name != ".."@ ==> file_name(dir + seq!['/'] + name) == Some(name) && file_name(name)
            == Some(name),
        name == ".."@ ==> file_name(dir + seq!['/'] + name) is None,
        parent("/"@) is None,
        parent(Seq::empty()) is None,
{
    reveal_strlit("/");
    reveal_strlit(".");
    assert(name.contains(name[0]) && name.contains(name.last()));
    let path = dir + seq!['/'] + name;
    let top = seq!['/'] + name;
    if name.len() == 1 {
        assert(name =~= seq![name[0]]);
        assert("."@ =~= seq!['.']);
    } else {
        assert(name.contains(name[name.len() - 2]));
    }
    assert(path.last() == name.last() && top.last() == name.last());
    assert(trim_tail(path) == path);
    assert(trim_tail(top) == top);
    assert(trim_tail(name) == name);
    law_parts_around_a_character(dir, '/', name);
    lemma_last_index_of(path, '/');
    lemma_last_index_of(top, '/');
    lemma_last_index_of(name, '/');
    assert(path[dir.len() as int] == '/');
    assert(top[0] == '/');
    assert forall|i: int| dir.len() < i < path.len() implies #[trigger] path[i] != '/' by {
        assert(path[i] == name[i - dir.len() - 1]);
        assert(name.contains(name[i - dir.len() - 1]));
    }
    assert forall|i: int| 0 < i < top.len() implies #[trigger] top[i] != '/' by {
        assert(top[i] == name[i - 1]);
        assert(name.contains(name[i - 1]));
    }
    assert(last_index_of(path, '/') == Some(dir.len() as int));
    assert(path.take(dir.len() as int) =~= dir);
    assert(last_index_of(top, '/') == Some(0int));
    assert(top.len() == name.len() + 1);
    if let Some(k) = last_index_of(name, '/') {
        assert(name.contains(name[k]));
    }
    assert(last_index_of(name, '/') is None);
    assert("/"@ =~= seq!['/']);
    assert(path.len() > 1 && name[0] != '/');
}

proof fn lemma_parts_add(a: Seq<Seq<char>>, b: Seq<Seq<char>>)
    ensures
        real_parts(a + b) == real_parts(a) + real_parts(b),
    decreases b.len(),
{
    if b.len() == 0 {
        assert(a + b =~= a);
        assert(real_parts(a) + real_parts(b) =~= real_parts(a));
    } else {
        assert((a + b).drop_last() =~= a + b.drop_last());
        lemma_parts_add(a, b.drop_last());
        assert(real_parts(a + b) =~= real_parts(a) + real_parts(b));
    }
}

/// Every named piece is a component, in order; empty pieces and dots are none.
/// The root comes first in an absolute path.
pub proof fn law_named_pieces_are_components(
    a: Seq<Seq<char>>,
    x: Seq<char>,
    b: Seq<Seq<char>>,
    path: Seq<char>,
)
    ensures
        x.len() > 0 && x != "."@ ==> real_parts(a.push(x) + b) == real_parts(a).push(x)
            + real_parts(b),
        x.len() == 0 || x == "."@ ==> real_parts(a.push(x) + b) == real_parts(a) + real_parts(b),
        absolute(path) ==> components(path) == seq!["/"@] + real_parts(split_on(path, '/')),
        !absolute(path) && split_on(path, '/')[0] != "."@ ==> components(path) == real_parts(
            split_on(path, '/'),
        ),
{
    lemma_parts_add(a.push(x), b);
    assert(a.push(x).drop_last() =~= a);
    if !absolute(path) && split_on(path, '/')[0] != "."@ {
        assert(components(path) =~= real_parts(split_on(path, '/')));
    }
}

proof fn lemma_skip_keeps(a: Seq<char>, b: Seq<char>)
    requires
        skip_seps(a).len() > 0,
    ensures
        skip_seps(a + b) == skip_seps(a) + b,
    decreases a.len(),
{
    reveal_strlit(".");
    let t = a + b;
    if a.len() > 0 && a[0] == '/' {
        assert(t.drop_first() =~= a.drop_first() + b);
        lemma_skip_keeps(a.drop_first(), b);
    } else if a.len() > 1 && a[0] == '.' && a[1] == '/' {
        assert(t.skip(2) =~= a.skip(2) + b);
        lemma_skip_keeps(a.skip(2), b);
    } else {
        assert(a.len() > 0 && t[0] == a[0]);
        if a.len() == 1 && a[0] == '.' {
            assert(a =~= "."@);
        }
        assert(t.len() > 1 ==> t[0] != '.' || t[1] != '/');
    }
}

proof fn lemma_skip_over(a: Seq<char>, rest: Seq<char>)
    requires
        skip_seps(a).len() == 0,
    ensures
        skip_seps(a + (seq!['/'] + rest)) == skip_seps(rest),
    decreases a.len(),
{
    reveal_strlit(".");
    let b = seq!['/'] + rest;
    let t = a + b;
    assert(b.drop_first() =~= rest);
    if a.len() == 0 {
        assert(t =~= b);
    } else if a[0] == '/' {
        assert(t.drop_first() =~= a.drop_first() + b);
        lemma_skip_over(a.drop_first(), rest);
    } else if a.len() > 1 && a[0] == '.' && a[1] == '/' {
        assert(t.skip(2) =~= a.skip(2) + b);
        lemma_skip_over(a.skip(2), rest);
    } else {
        assert(a == "."@);
        assert(t.skip(2) =~= rest);
    }
}

proof fn lemma_first_len_keeps(a: Seq<char>, b: Seq<char>)
    ensures
        b.len() == 0 || b[0] == '/' ==> first_len(a + b) == first_len(a),
        first_len(a) < a.len() ==> first_len(a + b) == first_len(a),
        first_len(a) == a.len() && b.len() > 0 && b[0] != '/' ==> first_len(a + b) > a.len(),
    decreases a.len(),
{
    let t = a + b;
    if a.len() == 0 {
        assert(t =~= b);
    } else if a[0] != '/' {
        assert(t.drop_first() =~= a.drop_first() + b);
        lemma_first_len_keeps(a.drop_first(), b);
    }
}

/// What stands below a directory is found there: the rest behind the directory
/// and a separator, however the directory is written.
pub proof fn law_rest_below_a_directory(h: Seq<char>, rest: Seq<char>)
    requires
        skip_seps(rest) == rest,
        trim_tail(rest) == rest,
    ensures
        below(h + (seq!['/'] + rest), h) == Some(rest),
    decreases h.len(),
{
    let b = seq!['/'] + rest;
    let h1 = skip_seps(h);
    lemma_skip_seps(h);
    if h1.len() == 0 {
        lemma_skip_over(h, rest);
    } else {
        lemma_skip_keeps(h, b);
        let p1 = h1 + b;
        let n = first_len(h1);
        lemma_first_len(h1);
        lemma_first_len_keeps(h1, b);
        assert(p1.take(n as int) =~= h1.take(n as int));
        assert(p1.skip(n as int) =~= h1.skip(n as int) + b);
        law_rest_below_a_directory(h1.skip(n as int), rest);
    }
}

/// A path that merely begins with a directory's text, without a separator
/// behind it, is not below that directory.
pub proof fn law_longer_name_is_not_below(h: Seq<char>, more: Seq<char>)
    requires
        h.len() > 0,
        h.last() != '/' && h.last() != '.',
        more.len() > 0,
        more[0] != '/',
    ensures
        below(h + more, h) is None,
    decreases h.len(),
{
    let h1 = skip_seps(h);
    lemma_skip_seps(h);
    lemma_skip_ends(h);
    lemma_skip_keeps(h, more);
    let p1 = h1 + more;
    let n = first_len(h1);
    lemma_first_len(h1);
    lemma_first_len_keeps(h1, more);
    if n < h1.len() {
        assert(p1.take(n as int) =~= h1.take(n as int));
        assert(p1.skip(n as int) =~= h1.skip(n as int) + more);
        law_longer_name_is_not_below(h1.skip(n as int), more);
    }
}

proof fn lemma_skip_ends(h: Seq<char>)
    requires
        h.len() > 0,
        h.last() != '/' && h.last() != '.',
    ensures
        skip_seps(h).len() > 0,
        skip_seps(h).last() == h.last(),
    decreases h.len(),
{
    reveal_strlit(".");
    if h[0] == '/' {
        lemma_skip_ends(h.drop_first());
    } else if h.len() > 1 && h[0] == '.' && h[1] == '/' {
        assert(h.len() > 2);
        lemma_skip_ends(h.skip(2));
    }
}

} // verus!
