//! What a new channel session takes over: provider and model from the most
//! recent session anywhere, the working directory only from the same chat.
use vstd::prelude::*;

use crate::search::matches_at;
use crate::text::{chars_of, oview, string_of};

verus! {

/// A provider and a model, where they are set.
pub struct Choice {
    pub provider: Option<String>,
    pub model: Option<String>,
}

/// What a new session starts with.
pub struct Inherited {
    pub provider: Option<String>,
    pub model: Option<String>,
    pub working_directory: Option<String>,
}

/// What a new session starts with, as values.
pub struct InheritedV {
    pub provider: Option<Seq<char>>,
    pub model: Option<Seq<char>>,
    pub working_directory: Option<Seq<char>>,
}

impl View for Inherited {
    type V = InheritedV;

    open spec fn view(&self) -> InheritedV {
        InheritedV {
            provider: oview(self.provider),
            model: oview(self.model),
            working_directory: oview(self.working_directory),
        }
    }
}

pub open spec fn choice_view(c: Option<Choice>) -> (Option<Seq<char>>, Option<Seq<char>>) {
    match c {
        Some(c) => (oview(c.provider), oview(c.model)),
        None => (None, None),
    }
}

/// The provider and model of a new session: those of the most recent session;
/// where that names no provider, the configured defaults, if those name one.
pub open spec fn inherited_choice(recent: Option<Choice>, defaults: Option<Choice>) -> (
    Option<Seq<char>>,
    Option<Seq<char>>,
) {
    let own = choice_view(recent);
    let other = choice_view(defaults);
    if own.0 is None && other.0 is Some {
        other
    } else {
        own
    }
}

/// What a new session takes over.
pub open spec fn inherited(
    recent: Option<Choice>,
    defaults: Option<Choice>,
    same_chat: Option<Seq<char>>,
) -> InheritedV {
    let (provider, model) = inherited_choice(recent, defaults);
    InheritedV { provider, model, working_directory: same_chat }
}

fn copy_opt(s: &Option<String>) -> (r: Option<String>)
    ensures
        oview(r) == oview(*s),
{
    match s {
        Some(t) => Some(t.clone()),
        None => None,
    }
}

/// What a new session takes over. `recent` is the most recent session of any
/// kind, `defaults` the configuration's, `same_chat` the working directory of
/// the session that the new one replaces in the same chat.
pub fn inherit(
    recent: &Option<Choice>,
    defaults: &Option<Choice>,
    same_chat: &Option<String>,
) -> (r: Inherited)
    ensures
        r@ == inherited(*recent, *defaults, oview(*same_chat)),
{
    let (mut provider, mut model) = match recent {
        Some(c) => (copy_opt(&c.provider), copy_opt(&c.model)),
        None => (None, None),
    };
    if provider.is_none() {
        if let Some(d) = defaults {
            if d.provider.is_some() {
                provider = copy_opt(&d.provider);
                model = copy_opt(&d.model);
            }
        }
    }
    Inherited { provider, model, working_directory: copy_opt(same_chat) }
}

/// The greatest index up to `i` at which `p` stands in `s`.
pub open spec fn last_find(s: Seq<char>, p: Seq<char>, i: int) -> Option<int>
    decreases i + 1,
{
    if i < 0 {
        None
    } else if matches_at(s, p, i) {
        Some(i)
    } else {
        last_find(s, p, i - 1)
    }
}

/// The stable identity of a chat that a title ends in.
pub open spec fn title_key(title: Seq<char>) -> Option<Seq<char>> {
    match last_find(title, "[chat:"@, title.len() as int) {
        Some(i) => Some(title.skip(i)),
        None => None,
    }
}

/// The stable identity of a chat that a title ends in. A session with one is
/// inserted or joined under it, so that two processes on one database end up
/// in the same session.
pub fn chat_key(title: &Option<String>) -> (r: Option<String>)
    ensures
        oview(r) == match *title {
            Some(t) => title_key(t@),
            None => None,
        },
{
    let t = match title {
        Some(t) => t,
        None => return None,
    };
    let v = chars_of(t.as_str());
    let p = chars_of("[chat:");
    let mut i: usize = v.len();
    loop
        invariant
            i <= v.len(),
            v@ == t@,
            p@ == "[chat:"@,
            *title == Some(*t),
            last_find(t@, "[chat:"@, t@.len() as int) == last_find(t@, "[chat:"@, i as int),
        decreases i,
    {
        if p.len() <= v.len() - i && stands_at(&v, &p, i) {
            let n = v.len();
            let key = string_of(&v, i, n);
            assert(key@ =~= t@.skip(i as int));
            return Some(key);
        }
        if i == 0 {
            assert(last_find(t@, "[chat:"@, -1) is None);
            return None;
        }
        i = i - 1;
    }
}

fn stands_at(v: &Vec<char>, p: &Vec<char>, at: usize) -> (r: bool)
    requires
        at + p.len() <= v.len(),
    ensures
        r == matches_at(v@, p@, at as int),
{
    let mut k: usize = 0;
    while k < p.len()
        invariant
            k <= p.len(),
            at + p.len() <= v.len(),
            forall|x: int| 0 <= x < k ==> #[trigger] v@[at + x] == p@[x],
        decreases p.len() - k,
    {
        if v[at + k] != p[k] {
            assert(v@.subrange(at as int, at + p@.len())[k as int] == v@[at + k]);
            return false;
        }
        k = k + 1;
    }
    assert forall|x: int| 0 <= x < p@.len() implies #[trigger] v@.subrange(
        at as int,
        at + p@.len(),
    )[x] == p@[x] by {
        assert(v@[at + x] == p@[x]);
    }
    assert(v@.subrange(at as int, at + p@.len()) =~= p@);
    true
}

/// A channel never takes over a directory from another chat: the directory is
/// the same whatever the most recent session and the defaults are, and without
/// a session in the same chat there is none.
pub proof fn law_directory_stays_in_the_chat(
    recent: Option<Choice>,
    other_recent: Option<Choice>,
    defaults: Option<Choice>,
    other_defaults: Option<Choice>,
    same_chat: Option<Seq<char>>,
)
    ensures
        inherited(recent, defaults, same_chat).working_directory == inherited(
            other_recent,
            other_defaults,
            same_chat,
        ).working_directory,
        inherited(recent, defaults, None).working_directory is None,
{
}

/// A new session takes provider and model from the most recent session; where
/// that names no provider both come from the defaults, if those name one.
pub proof fn law_recent_choice_comes_first(recent: Choice, defaults: Choice)
    ensures
        ({
            let own = (oview(recent.provider), oview(recent.model));
            let other = (oview(defaults.provider), oview(defaults.model));
            &&& recent.provider is Some ==> inherited_choice(Some(recent), Some(defaults)) == own
            &&& recent.provider is None && defaults.provider is Some ==> inherited_choice(
                Some(recent),
                Some(defaults),
            ) == other
            &&& recent.provider is None && defaults.provider is None ==> inherited_choice(
                Some(recent),
                Some(defaults),
            ) == own
            &&& defaults.provider is Some ==> inherited_choice(None, Some(defaults)) == other
            &&& inherited_choice(Some(recent), None) == own
            &&& inherited_choice(None, None) == (None::<Seq<char>>, None::<Seq<char>>)
        }),
{
}

/// What a session takes over is the choice, and the directory of its chat.
pub proof fn law_everything_is_taken_over(
    recent: Option<Choice>,
    defaults: Option<Choice>,
    directory: Option<Seq<char>>,
)
    ensures
        inherited(recent, defaults, directory).provider == inherited_choice(recent, defaults).0,
        inherited(recent, defaults, directory).model == inherited_choice(recent, defaults).1,
        inherited(recent, defaults, directory).working_directory == directory,
{
}

proof fn lemma_mark_begins(s: Seq<char>, j: int)
    requires
        matches_at(s, "[chat:"@, j),
    ensures
        0 <= j < s.len() && s[j] == '[',
{
    reveal_strlit("[chat:");
    let w = s.subrange(j, j + "[chat:"@.len());
    assert(w[0] == s[j]);
    assert(w == "[chat:"@);
}

proof fn lemma_mark_at(t: Seq<char>, n: int, i: int)
    requires
        0 <= n <= i,
        matches_at(t, "[chat:"@, n),
        forall|j: int| n < j < t.len() ==> t[j] != '[',
    ensures
        last_find(t, "[chat:"@, i) == Some(n),
    decreases i - n,
{
    if i > n {
        if matches_at(t, "[chat:"@, i) {
            lemma_mark_begins(t, i);
        }
        lemma_mark_at(t, n, i - 1);
    }
}

proof fn lemma_no_mark(t: Seq<char>, i: int)
    requires
        forall|j: int| 0 <= j < t.len() ==> t[j] != '[',
    ensures
        last_find(t, "[chat:"@, i) is None,
    decreases i + 1,
{
    if i >= 0 {
        if matches_at(t, "[chat:"@, i) {
            lemma_mark_begins(t, i);
        }
        lemma_no_mark(t, i - 1);
    }
}

/// A title's key is what it says from its last mark on, whatever stands before
/// it; a title without a mark has none.
pub proof fn law_key_begins_at_the_last_mark(name: Seq<char>, id: Seq<char>, title: Seq<char>)
    requires
        forall|i: int| 0 <= i < id.len() ==> id[i] != '[',
    ensures
        title_key(name + ("[chat:"@ + id)) == Some("[chat:"@ + id),
        (forall|i: int| 0 <= i < title.len() ==> title[i] != '[') ==> title_key(title) is None,
{
    let mark = "[chat:"@;
    let key = mark + id;
    let t = name + key;
    let n = name.len() as int;
    assert(matches_at(t, mark, n)) by {
        assert(t.subrange(n, n + mark.len()) =~= mark);
    }
    assert forall|j: int| n < j < t.len() implies t[j] != '[' by {
        if j - n < mark.len() {
            reveal_strlit("[chat:");
            assert(t[j] == mark[j - n]);
        } else {
            assert(t[j] == id[j - n - mark.len()]);
        }
    }
    lemma_mark_at(t, n, t.len() as int);
    assert(t.skip(n) =~= key);
    if forall|i: int| 0 <= i < title.len() ==> title[i] != '[' {
        lemma_no_mark(title, title.len() as int);
    }
}

} // verus!
