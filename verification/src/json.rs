//! JSON values, and how they render.
use vstd::prelude::*;

use crate::search::{
    decimal_int, is_int_text, join, join_strs, law_join_holds_each, law_signed_decimal_reads_back,
    lemma_join_push, lemma_tells_more, parse_int, tells,
};
use crate::text::{cat3, oview, str_eq, views};

verus! {

/// A JSON value. A number is kept as its text.
pub enum Json {
    Null,
    Bool(bool),
    Number(String),
    Str(String),
    Array(Vec<Json>),
    Object(Vec<(String, Json)>),
}

/// A text as a JSON string, quoted and escaped by `serde_json`.
pub uninterp spec fn literal(s: Seq<char>) -> Seq<char>;

/// `serde_json::to_string` of a text, which cannot fail. The result depends on
/// the text alone and is named.
#[verifier::external_body]
pub(crate) fn to_literal(s: &str) -> (r: String)
    ensures
        r@ == literal(s@),
{
    match serde_json::to_string(s) {
        Ok(t) => t,
        Err(_) => String::new(),
    }
}

/// A JSON text on indented lines, as `serde_json` prints it; `None` where it
/// is not JSON.
pub uninterp spec fn pretty(text: Seq<char>) -> Option<Seq<char>>;

/// `serde_json::from_str` into a value, then `serde_json::to_string_pretty`.
/// The result depends on the text alone and is named.
#[verifier::external_body]
pub(crate) fn to_pretty(text: &str) -> (r: Option<String>)
    ensures
        match r {
            Some(t) => pretty(text@) == Some(t@),
            None => pretty(text@) is None,
        },
{
    match serde_json::from_str::<serde_json::Value>(text) {
        Ok(v) => serde_json::to_string_pretty(&v).ok(),
        Err(_) => None,
    }
}

/// A JSON text rendered again without spaces, as `serde_json` does it; `None`
/// where it is not JSON.
pub uninterp spec fn normal(text: Seq<char>) -> Option<Seq<char>>;

/// `serde_json::from_str` into a value, then its `Display`. The result depends
/// on the text alone and is named.
#[verifier::external_body]
pub(crate) fn to_normal(text: &str) -> (r: Option<String>)
    ensures
        match r {
            Some(t) => normal(text@) == Some(t@),
            None => normal(text@) is None,
        },
{
    match serde_json::from_str::<serde_json::Value>(text) {
        Ok(v) => Some(v.to_string()),
        Err(_) => None,
    }
}

/// Two texts, each of which may be missing.
pub open spec fn text_pairs(v: Seq<(Option<String>, Option<String>)>) -> Seq<
    (Option<Seq<char>>, Option<Seq<char>>),
> {
    v.map_values(|p: (Option<String>, Option<String>)| (oview(p.0), oview(p.1)))
}

/// The items of a JSON list, each as the texts of two of its members, `None`
/// where an item has no such member or it is no text; `None` where the text is
/// no list. As `serde_json` reads it.
pub uninterp spec fn listed_texts(text: Seq<char>, first: Seq<char>, second: Seq<char>) -> Option<
    Seq<(Option<Seq<char>>, Option<Seq<char>>)>,
>;

/// `serde_json::from_str` into a list of values, each by `Value::get` and
/// `Value::as_str` under two keys. The result depends on the three texts alone
/// and is named.
#[verifier::external_body]
pub(crate) fn read_listed(text: &str, first: &str, second: &str) -> (r: Option<
    Vec<(Option<String>, Option<String>)>,
>)
    ensures
        match r {
            Some(v) => listed_texts(text@, first@, second@) == Some(text_pairs(v@)),
            None => listed_texts(text@, first@, second@) is None,
        },
{
    match serde_json::from_str::<Vec<serde_json::Value>>(text) {
        Ok(items) => Some(
            items.iter()
                .map(|i| (i.get(first).and_then(|v| v.as_str()).map(|s| s.to_string()),
                    i.get(second).and_then(|v| v.as_str()).map(|s| s.to_string())))
                .collect(),
        ),
        Err(_) => None,
    }
}

// ---------------------------------------------------------------- rendering
/// A member of an object, its value already rendered.
pub open spec fn rendered_member(m: (Seq<char>, Seq<char>)) -> Seq<char> {
    literal(m.0) + ":"@ + m.1
}

/// An object of rendered members, in their order.
pub open spec fn rendered_object(ms: Seq<(Seq<char>, Seq<char>)>) -> Seq<char> {
    "{"@ + join(ms.map_values(|m: (Seq<char>, Seq<char>)| rendered_member(m)), ","@) + "}"@
}

pub open spec fn member_views(v: Seq<(String, String)>) -> Seq<(Seq<char>, Seq<char>)> {
    v.map_values(|m: (String, String)| (m.0@, m.1@))
}

/// An object of rendered members, in their order.
pub fn render_object(v: &Vec<(String, String)>) -> (r: String)
    ensures
        r@ == rendered_object(member_views(v@)),
{
    let mut parts: Vec<String> = Vec::new();
    let mut i: usize = 0;
    let ghost all = member_views(v@).map_values(
        |m: (Seq<char>, Seq<char>)| rendered_member(m),
    );
    while i < v.len()
        invariant
            i <= v.len(),
            all == member_views(v@).map_values(|m: (Seq<char>, Seq<char>)| rendered_member(m)),
            views(parts@) == all.take(i as int),
        decreases v.len() - i,
    {
        let p = cat3(to_literal(v[i].0.as_str()).as_str(), ":", v[i].1.as_str());
        let ghost pre = views(parts@);
        parts.push(p);
        assert(views(parts@) =~= pre.push(all[i as int]));
        assert(all.take(i + 1) =~= all.take(i as int).push(all[i as int]));
        i = i + 1;
    }
    assert(all.take(i as int) =~= all);
    cat3("{", join_strs(&parts, ",").as_str(), "}")
}

/// A value without spaces between its parts.
pub open spec fn compact(j: Json) -> Seq<char>
    decreases j, 0nat,
{
    match j {
        Json::Null => "null"@,
        Json::Bool(b) => if b {
            "true"@
        } else {
            "false"@
        },
        Json::Number(n) => n@,
        Json::Str(s) => literal(s@),
        Json::Array(v) => "["@ + compact_items(v, v@.len()) + "]"@,
        Json::Object(v) => "{"@ + compact_members(v, v@.len()) + "}"@,
    }
}

/// The first `n` items of an array.
pub open spec fn compact_items(v: Vec<Json>, n: nat) -> Seq<char>
    decreases v, n,
{
    if n == 0 || n > v@.len() {
        Seq::empty()
    } else {
        compact_items(v, (n - 1) as nat) + (if n == 1 {
            Seq::empty()
        } else {
            ","@
        }) + compact(v@[n - 1])
    }
}

/// The first `n` members of an object.
pub open spec fn compact_members(v: Vec<(String, Json)>, n: nat) -> Seq<char>
    decreases v, n,
{
    if n == 0 || n > v@.len() {
        Seq::empty()
    } else {
        compact_members(v, (n - 1) as nat) + (if n == 1 {
            Seq::empty()
        } else {
            ","@
        }) + literal(v@[n - 1].0@) + ":"@ + compact(v@[n - 1].1)
    }
}

/// A value without spaces between its parts.
pub fn to_compact(j: &Json) -> (r: String)
    ensures
        r@ == compact(*j),
    decreases j, 0nat,
{
    match j {
        Json::Null => "null".to_owned(),
        Json::Bool(b) => if *b {
            "true".to_owned()
        } else {
            "false".to_owned()
        },
        Json::Number(n) => n.clone(),
        Json::Str(s) => to_literal(s.as_str()),
        Json::Array(v) => {
            let mut out = String::new();
            let mut i: usize = 0;
            while i < v.len()
                invariant
                    i <= v.len(),
                    j is Array && j->Array_0 == *v,
                    out@ == compact_items(*v, i as nat),
                decreases v.len() - i,
            {
                if i > 0 {
                    out.append(",");
                } else {
                    assert(out@ + Seq::<char>::empty() =~= out@);
                }
                assert(decreases_to!(*v => v[i as int]));
                out.append(to_compact(&v[i]).as_str());
                i = i + 1;
            }
            cat3("[", out.as_str(), "]")
        },
        Json::Object(v) => {
            let mut out = String::new();
            let mut i: usize = 0;
            while i < v.len()
                invariant
                    i <= v.len(),
                    j is Object && j->Object_0 == *v,
                    out@ == compact_members(*v, i as nat),
                decreases v.len() - i,
            {
                if i > 0 {
                    out.append(",");
                } else {
                    assert(out@ + Seq::<char>::empty() =~= out@);
                }
                out.append(to_literal(v[i].0.as_str()).as_str());
                out.append(":");
                assert(decreases_to!(*v => v[i as int]));
                out.append(to_compact(&v[i].1).as_str());
                i = i + 1;
            }
            cat3("{", out.as_str(), "}")
        },
    }
}

// ------------------------------------------------------------------- access
/// Where a member stands.
pub open spec fn member_at(v: Seq<(String, Json)>, key: Seq<char>) -> Option<int>
    decreases v.len(),
{
    if v.len() == 0 {
        None
    } else if v.last().0@ == key {
        Some(v.len() - 1)
    } else {
        member_at(v.drop_last(), key)
    }
}

/// What the index of a member means.
pub proof fn lemma_member_at(v: Seq<(String, Json)>, key: Seq<char>)
    ensures
        match member_at(v, key) {
            Some(i) => 0 <= i < v.len() && v[i].0@ == key,
            None => forall|i: int| 0 <= i < v.len() ==> (#[trigger] v[i]).0@ != key,
        },
    decreases v.len(),
{
    if v.len() > 0 {
        lemma_member_at(v.drop_last(), key);
        assert forall|i: int| 0 <= i < v.len() - 1 implies v.drop_last()[i] == #[trigger] v[i] by {}
    }
}

/// The member of an object.
pub open spec fn member(j: Json, key: Seq<char>) -> Option<Json> {
    match j {
        Json::Object(v) => match member_at(v@, key) {
            Some(i) => Some(v@[i].1),
            None => None,
        },
        _ => None,
    }
}

/// Where a member stands.
pub fn find_member(v: &Vec<(String, Json)>, key: &str) -> (r: Option<usize>)
    ensures
        match r {
            Some(i) => member_at(v@, key@) == Some(i as int) && i < v@.len(),
            None => member_at(v@, key@) is None,
        },
{
    let mut i: usize = v.len();
    assert(v@.take(i as int) =~= v@);
    while i > 0
        invariant
            i <= v.len(),
            member_at(v@, key@) == member_at(v@.take(i as int), key@),
        decreases i,
    {
        assert(v@.take(i as int).drop_last() =~= v@.take(i - 1));
        if str_eq(v[i - 1].0.as_str(), key) {
            return Some(i - 1);
        }
        i = i - 1;
    }
    None
}

pub open spec fn deref_json(j: Option<&Json>) -> Option<Json> {
    match j {
        Some(v) => Some(*v),
        None => None,
    }
}

/// The text of a string value.
pub open spec fn text(j: Option<Json>) -> Option<Seq<char>> {
    match j {
        Some(Json::Str(s)) => Some(s@),
        _ => None,
    }
}

/// The integer of a number value that is written as one.
pub open spec fn integer(j: Option<Json>) -> Option<int> {
    match j {
        Some(Json::Number(n)) => match is_int_text(n@) {
            Some(i) => if i64::MIN <= i <= i64::MAX {
                Some(i)
            } else {
                None
            },
            None => None,
        },
        _ => None,
    }
}

/// The truth value.
pub open spec fn truth(j: Option<Json>) -> Option<bool> {
    match j {
        Some(Json::Bool(b)) => Some(b),
        _ => None,
    }
}

impl Json {
    /// The member of an object.
    pub fn get(&self, key: &str) -> (r: Option<&Json>)
        ensures
            deref_json(r) == member(*self, key@),
    {
        match self {
            Json::Object(v) => match find_member(v, key) {
                Some(i) => Some(&v[i].1),
                None => None,
            },
            _ => None,
        }
    }

    /// The text of a string value.
    pub fn as_str(&self) -> (r: Option<&str>)
        ensures
            match r {
                Some(s) => text(Some(*self)) == Some(s@),
                None => text(Some(*self)) is None,
            },
    {
        match self {
            Json::Str(s) => Some(s.as_str()),
            _ => None,
        }
    }

    /// The truth value.
    pub fn as_bool(&self) -> (r: Option<bool>)
        ensures
            r == truth(Some(*self)),
    {
        match self {
            Json::Bool(b) => Some(*b),
            _ => None,
        }
    }

    /// The integer of a number value that is written as one.
    pub fn as_i64(&self) -> (r: Option<i64>)
        ensures
            match r {
                Some(n) => integer(Some(*self)) == Some(n as int),
                None => integer(Some(*self)) is None,
            },
    {
        match self {
            Json::Number(n) => parse_int(n.as_str()),
            _ => None,
        }
    }
}

/// A text parameter; empty where it is absent.
pub open spec fn param(input: Json, key: Seq<char>) -> Seq<char> {
    match text(member(input, key)) {
        Some(t) => t,
        None => Seq::empty(),
    }
}

/// A text parameter; empty where it is absent.
pub fn param_of(input: &Json, key: &str) -> (r: String)
    ensures
        r@ == param(*input, key@),
{
    match input.get(key) {
        Some(v) => match v.as_str() {
            Some(t) => t.to_owned(),
            None => String::new(),
        },
        None => String::new(),
    }
}

// -------------------------------------------------------------------- laws
/// The member of an object is found by its key; of two under one key, the
/// later one. Another value than an object has no members.
pub proof fn law_member_is_found(v: Vec<(String, Json)>, i: int, key: Seq<char>)
    ensures
        0 <= i < v@.len() && (forall|j: int| i < j < v@.len() ==> (#[trigger] v@[j]).0@ != v@[i].0@)
            ==> member(Json::Object(v), v@[i].0@) == Some(v@[i].1),
        (forall|j: int| 0 <= j < v@.len() ==> (#[trigger] v@[j]).0@ != key) ==> member(
            Json::Object(v),
            key,
        ) is None,
{
    if 0 <= i < v@.len() {
        lemma_member_at_last(v@, v@[i].0@);
        lemma_member_at(v@, v@[i].0@);
    }
    lemma_member_at(v@, key);
}

proof fn lemma_member_at_last(v: Seq<(String, Json)>, key: Seq<char>)
    ensures
        match member_at(v, key) {
            Some(i) => forall|j: int| i < j < v.len() ==> (#[trigger] v[j]).0@ != key,
            None => true,
        },
    decreases v.len(),
{
    if v.len() > 0 && v.last().0@ != key {
        lemma_member_at_last(v.drop_last(), key);
        lemma_member_at(v.drop_last(), key);
        assert forall|j: int| 0 <= j < v.len() - 1 implies v.drop_last()[j] == #[trigger] v[j] by {}
    }
}

/// A text parameter is the text of the member under its key; one that is
/// absent or no text is empty.
pub proof fn law_param_is_the_member(input: Json, key: Seq<char>, s: String)
    ensures
        member(input, key) == Some(Json::Str(s)) ==> param(input, key) == s@,
        member(input, key) is None ==> param(input, key).len() == 0,
        member(input, key) is Some && !(member(input, key)->0 is Str) ==> param(input, key).len()
            == 0,
{
}

/// What a value reads as: a text, a truth value or an integer in the range of
/// 64 bits, and nothing that it is not.
pub proof fn law_values_read_as_what_they_are(s: String, b: bool, n: i64, t: String)
    ensures
        text(Some(Json::Str(s))) == Some(s@),
        truth(Some(Json::Bool(b))) == Some(b),
        t@ == decimal_int(n as int) ==> integer(Some(Json::Number(t))) == Some(n as int),
        text(Some(Json::Number(t))) is None && text(Some(Json::Bool(b))) is None && text(
            Some(Json::Null),
        ) is None,
        truth(Some(Json::Str(s))) is None && truth(Some(Json::Null)) is None,
        integer(Some(Json::Str(s))) is None && integer(Some(Json::Null)) is None,
{
    law_signed_decimal_reads_back(n as int);
}

/// The texts of the items of an array.
pub open spec fn item_texts(v: Seq<Json>) -> Seq<Seq<char>> {
    v.map_values(|j: Json| compact(j))
}

/// The members of an object with their texts.
pub open spec fn compact_pairs(v: Seq<(String, Json)>) -> Seq<(Seq<char>, Seq<char>)> {
    v.map_values(|m: (String, Json)| (m.0@, compact(m.1)))
}

proof fn lemma_items_joined(v: Vec<Json>, n: nat)
    requires
        n <= v@.len(),
    ensures
        compact_items(v, n) == join(item_texts(v@).take(n as int), ","@),
    decreases n,
{
    let all = item_texts(v@);
    if n == 0 {
        assert(all.take(0) =~= Seq::empty());
    } else {
        lemma_items_joined(v, (n - 1) as nat);
        assert(all.take(n as int) =~= all.take(n - 1).push(all[n - 1]));
        lemma_join_push(all.take(n - 1), ","@, all[n - 1]);
        assert(compact_items(v, n) =~= join(all.take(n as int), ","@));
    }
}

proof fn lemma_members_joined(v: Vec<(String, Json)>, n: nat)
    requires
        n <= v@.len(),
    ensures
        compact_members(v, n) == join(
            compact_pairs(v@).map_values(|m: (Seq<char>, Seq<char>)| rendered_member(m)).take(
                n as int,
            ),
            ","@,
        ),
    decreases n,
{
    let all = compact_pairs(v@).map_values(|m: (Seq<char>, Seq<char>)| rendered_member(m));
    if n == 0 {
        assert(all.take(0) =~= Seq::empty());
    } else {
        lemma_members_joined(v, (n - 1) as nat);
        assert(all.take(n as int) =~= all.take(n - 1).push(all[n - 1]));
        lemma_join_push(all.take(n - 1), ","@, all[n - 1]);
        assert(compact_members(v, n) =~= join(all.take(n as int), ","@));
    }
}

/// A value renders without loss: each plain value has a text of its own, an
/// array is its items between commas, in order, and an object its members.
pub proof fn law_compact_renders_every_part(
    b: bool,
    n: String,
    s: String,
    v: Vec<Json>,
    w: Vec<(String, Json)>,
)
    ensures
        compact(Json::Null) == "null"@,
        compact(Json::Bool(true)) == "true"@,
        compact(Json::Bool(false)) == "false"@,
        compact(Json::Bool(b)) != compact(Json::Bool(!b)),
        compact(Json::Bool(b)) != compact(Json::Null),
        compact(Json::Number(n)) == n@,
        compact(Json::Str(s)) == literal(s@),
        compact(Json::Array(v)) == "["@ + join(item_texts(v@), ","@) + "]"@,
        compact(Json::Object(w)) == rendered_object(compact_pairs(w@)),
{
    reveal_strlit("true");
    reveal_strlit("false");
    reveal_strlit("null");
    assert("true"@.len() == 4 && "false"@.len() == 5 && "null"@[0] == 'n' && "true"@[0] == 't');
    lemma_items_joined(v, v@.len());
    assert(item_texts(v@).take(v@.len() as int) =~= item_texts(v@));
    lemma_members_joined(w, w@.len());
    let all = compact_pairs(w@).map_values(|m: (Seq<char>, Seq<char>)| rendered_member(m));
    assert(all.take(w@.len() as int) =~= all);
}

/// A member renders as its quoted key, a colon and its value; an object is
/// braces around its members.
pub proof fn law_objects_render_their_members(key: Seq<char>, value: Seq<char>)
    ensures
        rendered_object(Seq::empty()) == "{}"@,
        rendered_object(seq![(key, value)]) == "{"@ + (literal(key) + ":"@ + value) + "}"@,
{
    reveal_strlit("{");
    reveal_strlit("}");
    reveal_strlit("{}");
    let none = Seq::<(Seq<char>, Seq<char>)>::empty();
    assert(none.map_values(|m: (Seq<char>, Seq<char>)| rendered_member(m)) =~= Seq::empty());
    assert(rendered_object(none) =~= "{}"@);
    let one = seq![(key, value)];
    assert(one.map_values(|m: (Seq<char>, Seq<char>)| rendered_member(m)) =~= seq![
        rendered_member((key, value)),
    ]);
}

/// An object shows each of its members.
pub proof fn law_object_shows_each_member(ms: Seq<(Seq<char>, Seq<char>)>, i: int)
    requires
        0 <= i < ms.len(),
    ensures
        tells(rendered_object(ms), literal(ms[i].0) + ":"@ + ms[i].1),
{
    let parts = ms.map_values(|m: (Seq<char>, Seq<char>)| rendered_member(m));
    law_join_holds_each(parts, ","@, i);
    let inner = join(parts, ","@);
    lemma_tells_more(rendered_object(ms), "{"@, inner, "}"@, parts[i]);
}

} // verus!
