//! Recall from memory at the start of a turn. Which sections match a message
//! is decided by a ranker; here stand what is asked of it and what becomes of
//! its answer.
use vstd::prelude::*;

use crate::search::{
    has_prefix, join, join_strs, law_join_holds_each, lemma_tells_more, starts_with, tells,
};
use crate::text::{
    cat2, cat3, is_space, law_leading_run_is_dropped, law_trimming_leaves_the_text, law_white_space,
    oview, strip_leading, trim, trim_start_of, trimmed, views,
};

verus! {

/// At most this many sections ride along with a message.
pub const RECALL_MAX_SECTIONS: usize = 2;

/// The characters that recall may take.
pub const RECALL_MAX_CHARS: usize = 1200;

/// A section that matched.
pub struct Section {
    pub heading: String,
    /// The section as it is shown.
    pub rendered: String,
}

/// Whether a message can lead to a recall at all: it is not the harness
/// talking to itself, and there is something to search for.
pub open spec fn worth_reading(message: Seq<char>, terms: Seq<Seq<char>>) -> bool {
    !has_prefix(message, "[System:"@) && terms.len() > 0
}

/// Whether a message can lead to a recall at all, given its search terms.
pub fn worth_reading_for(message: &str, terms: &Vec<String>) -> (r: bool)
    ensures
        r == worth_reading(message@, views(terms@)),
{
    assert(views(terms@).len() == terms.len());
    !starts_with(message, "[System:") && terms.len() > 0
}

pub open spec fn rendered_texts(v: Seq<Section>) -> Seq<Seq<char>> {
    v.map_values(|s: Section| s.rendered@)
}

/// The recall of some sections; `None` where nothing matched.
pub open spec fn recall_text(v: Seq<Section>) -> Option<Seq<char>> {
    if v.len() == 0 {
        None
    } else {
        Some(
            "─── from your MEMORY.md, possibly relevant ───\n"@ + join(
                rendered_texts(v),
                "\n\n"@,
            ) + "\n[Recalled automatically. Load MEMORY.md with a query for more.]"@,
        )
    }
}

/// The recall of some sections, labelled so that it is not taken for part of
/// the request.
pub fn render(sections: &Vec<Section>) -> (r: Option<String>)
    ensures
        oview(r) == recall_text(sections@),
{
    if sections.len() == 0 {
        return None;
    }
    let mut parts: Vec<String> = Vec::new();
    let mut i: usize = 0;
    assert(views(parts@) =~= rendered_texts(sections@).take(0));
    while i < sections.len()
        invariant
            i <= sections.len(),
            views(parts@) == rendered_texts(sections@).take(i as int),
        decreases sections.len() - i,
    {
        let ghost pre = views(parts@);
        parts.push(sections[i].rendered.clone());
        assert(views(parts@) =~= pre.push(sections@[i as int].rendered@));
        assert(rendered_texts(sections@).take(i + 1) =~= rendered_texts(sections@).take(
            i as int,
        ).push(sections@[i as int].rendered@));
        i = i + 1;
    }
    assert(rendered_texts(sections@).take(i as int) =~= rendered_texts(sections@));
    Some(
        cat3(
            "─── from your MEMORY.md, possibly relevant ───\n",
            join_strs(&parts, "\n\n").as_str(),
            "\n[Recalled automatically. Load MEMORY.md with a query for more.]",
        ),
    )
}

/// The recall for a message, given its search terms and the sections that the
/// ranker found for it.
pub fn recall_from(message: &str, terms: &Vec<String>, sections: &Vec<Section>) -> (r: Option<
    String,
>)
    ensures
        oview(r) == if worth_reading(message@, views(terms@)) {
            recall_text(sections@)
        } else {
            None
        },
{
    if !worth_reading_for(message, terms) {
        return None;
    }
    render(sections)
}

/// The belief behind a section; `None` where its heading is empty.
pub open spec fn belief_key(heading: Seq<char>) -> Option<Seq<char>> {
    let h = trimmed(trim_start_of(trimmed(heading), '#'));
    if h.len() == 0 {
        None
    } else {
        Some("MEMORY.md##"@ + h)
    }
}

/// The belief that a recalled section touches.
pub fn touched_belief(heading: &str) -> (r: Option<String>)
    ensures
        oview(r) == belief_key(heading@),
{
    let h = trim(strip_leading(trim(heading), '#'));
    if h.is_empty() {
        None
    } else {
        Some(cat2("MEMORY.md##", h))
    }
}

/// The beliefs that some sections touch, in order.
pub open spec fn belief_keys(v: Seq<Section>) -> Seq<Seq<char>>
    decreases v.len(),
{
    if v.len() == 0 {
        Seq::empty()
    } else {
        match belief_key(v.last().heading@) {
            Some(k) => belief_keys(v.drop_last()).push(k),
            None => belief_keys(v.drop_last()),
        }
    }
}

/// The beliefs that recalled sections touch.
pub fn touch_recalled(sections: &Vec<Section>) -> (r: Vec<String>)
    ensures
        views(r@) == belief_keys(sections@),
{
    let mut out: Vec<String> = Vec::new();
    let mut i: usize = 0;
    assert(sections@.take(0) =~= Seq::empty());
    assert(views(out@) =~= Seq::empty());
    while i < sections.len()
        invariant
            i <= sections.len(),
            views(out@) == belief_keys(sections@.take(i as int)),
        decreases sections.len() - i,
    {
        assert(sections@.take(i + 1).drop_last() =~= sections@.take(i as int));
        let ghost pre = views(out@);
        if let Some(k) = touched_belief(sections[i].heading.as_str()) {
            let ghost key = k@;
            out.push(k);
            assert(views(out@) =~= pre.push(key));
        }
        i = i + 1;
    }
    assert(sections@.take(i as int) =~= sections@);
    out
}

/// The identity of the file that a parse was made from. The length is part of
/// it because two writes can fall into one tick of the clock.
#[derive(Clone, Copy, PartialEq, Eq, Structural)]
pub struct Stamp {
    /// Nanoseconds since the epoch at the last change.
    pub modified: u128,
    pub len: u64,
}

/// Whether a cached parse still stands for the file.
pub fn cache_holds(cached: &Option<Stamp>, file: Stamp) -> (r: bool)
    ensures
        r == (*cached == Some(file)),
{
    match cached {
        Some(s) => s.modified == file.modified && s.len == file.len,
        None => false,
    }
}

/// A message is read where it has something to search for and does not come
/// from the harness.
pub proof fn law_messages_worth_reading(rest: Seq<char>, message: Seq<char>, terms: Seq<Seq<char>>)
    ensures
        !worth_reading("[System:"@ + rest, terms),
        terms.len() == 0 ==> !worth_reading(message, terms),
        terms.len() > 0 && message.len() > 0 && message[0] != '[' ==> worth_reading(message, terms),
        RECALL_MAX_SECTIONS == 2,
        RECALL_MAX_CHARS == 1200,
{
    reveal_strlit("[System:");
    let m = "[System:"@ + rest;
    assert(m.subrange(0, 8) =~= "[System:"@);
    if has_prefix(message, "[System:"@) {
        assert(message.subrange(0, 8)[0] == '[');
    }
}

/// A recall shows every section that matched, and there is none without a
/// match.
pub proof fn law_recall_shows_every_section(v: Seq<Section>, i: int)
    ensures
        recall_text(v) is Some <==> v.len() > 0,
        0 <= i < v.len() ==> tells(recall_text(v)->0, v[i].rendered@),
        v.len() > 0 ==> has_prefix(
            recall_text(v)->0,
            "─── from your MEMORY.md, possibly relevant ───\n"@,
        ),
{
    if v.len() > 0 {
        let t = recall_text(v)->0;
        let head = "─── from your MEMORY.md, possibly relevant ───\n"@;
        let tail = "\n[Recalled automatically. Load MEMORY.md with a query for more.]"@;
        assert(t.subrange(0, head.len() as int) =~= head);
        if 0 <= i < v.len() {
            let parts = rendered_texts(v);
            law_join_holds_each(parts, "\n\n"@, i);
            assert(parts[i] == v[i].rendered@);
            lemma_tells_more(t, head, join(parts, "\n\n"@), tail, v[i].rendered@);
        }
    }
}

/// A heading stands for one belief, whatever its depth and the white space
/// around it.
pub proof fn law_headings_name_beliefs(n: nat, w: Seq<char>, s: Seq<char>)
    requires
        forall|i: int| 0 <= i < w.len() ==> is_space(w[i]),
        s.len() > 0,
        s[0] != '#',
        !is_space(s[0]) && !is_space(s.last()),
    ensures
        belief_key(Seq::new(n, |i: int| '#') + (w + s)) == Some("MEMORY.md##"@ + s),
        belief_key(w) is None,
{
    let hashes = Seq::new(n, |i: int| '#');
    let rest = w + s;
    let t = hashes + rest;
    let none = Seq::<char>::empty();
    law_white_space('#');
    law_trimming_leaves_the_text(w, s, none);
    assert(w + s + none =~= rest);
    if n > 0 {
        assert(t[0] == '#' && t.last() == s.last());
        assert(none + t + none =~= t);
        law_trimming_leaves_the_text(none, t, none);
        assert(rest[0] != '#');
        law_leading_run_is_dropped(n, rest, '#');
    } else {
        assert(t =~= rest);
        assert(Seq::new(0, |i: int| '#') + s =~= s);
        law_leading_run_is_dropped(0, s, '#');
        assert(none + s + none =~= s);
        law_trimming_leaves_the_text(none, s, none);
    }
    law_trimming_leaves_the_text(w, none, none);
    assert(w + none + none =~= w);
    law_leading_run_is_dropped(0, none, '#');
    assert(Seq::new(0, |i: int| '#') + none =~= none);
    law_trimming_leaves_the_text(none, none, none);
    assert(none + none + none =~= none);
}

proof fn lemma_keys_add(a: Seq<Section>, b: Seq<Section>)
    ensures
        belief_keys(a + b) == belief_keys(a) + belief_keys(b),
    decreases b.len(),
{
    if b.len() == 0 {
        assert(a + b =~= a);
        assert(belief_keys(a) + belief_keys(b) =~= belief_keys(a));
    } else {
        assert((a + b).drop_last() =~= a + b.drop_last());
        lemma_keys_add(a, b.drop_last());
        assert(belief_keys(a + b) =~= belief_keys(a) + belief_keys(b));
    }
}

/// Every recalled section with a heading touches its belief, in order.
pub proof fn law_every_recalled_belief_is_touched(a: Seq<Section>, s: Section, b: Seq<Section>)
    ensures
        belief_key(s.heading@) is Some ==> belief_keys(a.push(s) + b) == belief_keys(a).push(
            belief_key(s.heading@)->0,
        ) + belief_keys(b),
        belief_key(s.heading@) is None ==> belief_keys(a.push(s) + b) == belief_keys(a)
            + belief_keys(b),
{
    lemma_keys_add(a.push(s), b);
    assert(a.push(s).drop_last() =~= a);
}

} // verus!
