//! Trello card comments: which session answers one, and how a long reply is
//! split.
use vstd::prelude::*;

use crate::search::{last_index_of, lemma_last_index_of, rfind_char};
use crate::text::{
    cat2, cat4, chars_of, is_space, law_trimming_leaves_the_text, oview, str_eq, string_of, trim,
    trimmed, views,
};

verus! {

/// A card.
pub struct Card {
    pub id: String,
    pub name: String,
}

/// A comment on a card.
pub struct Comment {
    pub card: Option<Card>,
    pub member_id: String,
    pub member_name: String,
    pub text: String,
}

/// A comment that is answered.
pub struct Routed {
    pub card_id: String,
    /// What the agent is given.
    pub message: String,
    /// Whether the commenter is the owner.
    pub is_owner: bool,
}

/// A comment that is answered, as values.
pub struct RoutedV {
    pub card_id: Seq<char>,
    pub message: Seq<char>,
    pub is_owner: bool,
}

impl View for Routed {
    type V = RoutedV;

    open spec fn view(&self) -> RoutedV {
        RoutedV { card_id: self.card_id@, message: self.message@, is_owner: self.is_owner }
    }
}

/// What becomes of a comment: one without a card or without text is skipped.
pub open spec fn routing(c: Comment, owner: Option<Seq<char>>) -> Option<RoutedV> {
    match c.card {
        Some(card) => if trimmed(c.text@).len() == 0 {
            None
        } else {
            Some(
                RoutedV {
                    card_id: card.id@,
                    message: "[Trello card: "@ + card.name@ + "]\n"@ + trimmed(c.text@),
                    is_owner: owner == Some(c.member_id@),
                },
            )
        },
        None => None,
    }
}

/// What becomes of a comment; `owner` is the owner's member id.
pub fn process_comment(c: &Comment, owner: &Option<String>) -> (r: Option<Routed>)
    ensures
        match r {
            Some(x) => routing(*c, oview(*owner)) == Some(x@),
            None => routing(*c, oview(*owner)) is None,
        },
{
    let card = match &c.card {
        Some(card) => card,
        None => return None,
    };
    let text = trim(c.text.as_str());
    if text.is_empty() {
        return None;
    }
    let is_owner = match owner {
        Some(id) => str_eq(id.as_str(), c.member_id.as_str()),
        None => false,
    };
    Some(
        Routed {
            card_id: card.id.clone(),
            message: cat4("[Trello card: ", card.name.as_str(), "]\n", text),
            is_owner,
        },
    )
}

/// Which session answers a comment.
pub enum SessionPlan {
    Use(u128),
    /// Create one under this title; it becomes the shared session where the
    /// commenter is the owner, and the commenter's own otherwise.
    Create { title: String },
}

/// Which session answers: the owner shares the active one, every other member
/// has one of their own. `shared` is the active session, `own` the member's.
pub fn session_for(is_owner: bool, member_name: &str, shared: Option<u128>, own: Option<u128>) -> (r:
    SessionPlan)
    ensures
        match (if is_owner {
            shared
        } else {
            own
        }) {
            Some(id) => r == SessionPlan::Use(id),
            None => r is Create && r->title@ == if is_owner {
                "Trello"@
            } else {
                "Trello: "@ + member_name@
            },
        },
{
    if is_owner {
        match shared {
            Some(id) => SessionPlan::Use(id),
            None => SessionPlan::Create { title: "Trello".to_owned() },
        }
    } else {
        match own {
            Some(id) => SessionPlan::Use(id),
            None => SessionPlan::Create { title: cat2("Trello: ", member_name) },
        }
    }
}

/// How many characters a comment of the agent holds.
pub const REPLY_CHUNK: usize = 4000;

/// The comments that carry a reply; none where it is blank.
pub fn reply_comments(content: &str) -> (r: Vec<String>)
    ensures
        views(r@) == if trimmed(content@).len() == 0 {
            Seq::empty()
        } else {
            chunks(trimmed(content@), REPLY_CHUNK as int)
        },
{
    let reply = trim(content);
    if reply.is_empty() {
        let none: Vec<String> = Vec::new();
        assert(views(none@) =~= Seq::empty());
        return none;
    }
    split_comment(reply, REPLY_CHUNK)
}

/// Where a text that is too long is cut: behind the last newline within the
/// limit, else at the limit.
pub open spec fn cut(s: Seq<char>, max_len: int) -> int {
    match last_index_of(s.take(max_len), '\n') {
        Some(i) => i + 1,
        None => max_len,
    }
}

/// The pieces of a text, none longer than the limit.
pub open spec fn chunks(s: Seq<char>, max_len: int) -> Seq<Seq<char>>
    decreases s.len(),
{
    if max_len <= 0 || s.len() <= max_len {
        seq![s]
    } else {
        let k = cut(s, max_len);
        if 0 < k <= s.len() {
            seq![s.take(k)] + chunks(s.skip(k), max_len)
        } else {
            seq![s]
        }
    }
}

proof fn lemma_cut(s: Seq<char>, max_len: int)
    requires
        0 < max_len < s.len(),
    ensures
        0 < cut(s, max_len) <= max_len,
        cut(s, max_len) < max_len ==> s[cut(s, max_len) - 1] == '\n',
{
    lemma_last_index_of(s.take(max_len), '\n');
}

/// Splits a long comment into pieces of at most `max_len` characters,
/// preferably behind a newline.
pub fn split_comment(text: &str, max_len: usize) -> (r: Vec<String>)
    requires
        max_len > 0 || text@.len() == 0,
    ensures
        views(r@) == chunks(text@, max_len as int),
{
    let v = chars_of(text);
    let mut out: Vec<String> = Vec::new();
    let mut start: usize = 0;
    assert(v@.skip(0) =~= v@);
    assert(views(out@) + chunks(v@, max_len as int) =~= chunks(v@, max_len as int));
    while v.len() - start > max_len
        invariant
            start <= v.len(),
            max_len > 0 || v@.len() == 0,
            v@ == text@,
            views(out@) + chunks(v@.skip(start as int), max_len as int) == chunks(
                text@,
                max_len as int,
            ),
        decreases v.len() - start,
    {
        let ghost rest = v@.skip(start as int);
        proof {
            lemma_cut(rest, max_len as int);
        }
        let mut head: Vec<char> = Vec::new();
        let mut i: usize = 0;
        while i < max_len
            invariant
                i <= max_len,
                start + max_len < v.len(),
                head@ == v@.skip(start as int).take(i as int),
            decreases max_len - i,
        {
            head.push(v[start + i]);
            assert(head@ =~= v@.skip(start as int).take(i + 1));
            i = i + 1;
        }
        let k: usize = match rfind_char(&head, '\n') {
            Some(at) => at + 1,
            None => max_len,
        };
        let piece = string_of(&v, start, start + k);
        assert(piece@ =~= rest.take(k as int));
        assert(rest.skip(k as int) =~= v@.skip(start + k));
        let ghost pre = views(out@);
        let ghost p = piece@;
        out.push(piece);
        assert(views(out@) =~= pre.push(p));
        assert(pre + (seq![p] + chunks(v@.skip(start + k), max_len as int)) =~= views(out@)
            + chunks(v@.skip(start + k), max_len as int));
        start = start + k;
    }
    let n = v.len();
    let piece = string_of(&v, start, n);
    assert(piece@ =~= v@.skip(start as int));
    let ghost pre = views(out@);
    let ghost p = piece@;
    out.push(piece);
    assert(views(out@) =~= pre + seq![p]);
    out
}

// -------------------------------------------------------------------- laws
/// The pieces one after the other.
pub open spec fn concat(parts: Seq<Seq<char>>) -> Seq<char>
    decreases parts.len(),
{
    if parts.len() == 0 {
        Seq::empty()
    } else {
        parts[0] + concat(parts.drop_first())
    }
}

/// Splitting loses nothing: the pieces in order are the text, and each is
/// within the limit.
pub proof fn law_split_keeps_the_text(s: Seq<char>, max_len: int)
    requires
        max_len > 0,
    ensures
        concat(chunks(s, max_len)) == s,
        forall|i: int|
            0 <= i < chunks(s, max_len).len() ==> #[trigger] chunks(s, max_len)[i].len()
                <= max_len,
    decreases s.len(),
{
    let c = chunks(s, max_len);
    if s.len() <= max_len {
        reveal_with_fuel(concat, 2);
        assert(c.drop_first() =~= Seq::empty());
        assert(s + Seq::<char>::empty() =~= s);
    } else {
        lemma_cut(s, max_len);
        let k = cut(s, max_len);
        law_split_keeps_the_text(s.skip(k), max_len);
        let rest = chunks(s.skip(k), max_len);
        assert(c.drop_first() =~= rest);
        assert(s.take(k) + s.skip(k) =~= s);
        assert forall|i: int| 0 <= i < c.len() implies #[trigger] c[i].len() <= max_len by {
            if i > 0 {
                assert(c[i] == rest[i - 1]);
            }
        }
    }
}

/// A piece that is cut short of the limit ends at a newline.
pub proof fn law_split_prefers_newlines(s: Seq<char>, max_len: int, i: int)
    requires
        max_len > 0,
        0 <= i < chunks(s, max_len).len() - 1,
    ensures
        chunks(s, max_len)[i].len() == max_len || (chunks(s, max_len)[i].len() > 0 && chunks(
            s,
            max_len,
        )[i].last() == '\n'),
    decreases s.len(),
{
    let c = chunks(s, max_len);
    if s.len() > max_len {
        lemma_cut(s, max_len);
        let k = cut(s, max_len);
        let rest = chunks(s.skip(k), max_len);
        if i > 0 {
            assert(c[i] == rest[i - 1]);
            law_split_prefers_newlines(s.skip(k), max_len, i - 1);
        }
    }
}

/// A comment is answered where it is on a card and says something: its card's
/// name and its whole text reach the agent, and whoever wrote it counts as the
/// owner where the ids agree.
pub proof fn law_comments_with_text_are_routed(
    c: Comment,
    card: Card,
    owner: Option<Seq<char>>,
    a: Seq<char>,
    s: Seq<char>,
    b: Seq<char>,
)
    requires
        c.card == Some(card),
        c.text@ == a + s + b,
        forall|i: int| 0 <= i < a.len() ==> is_space(a[i]),
        forall|i: int| 0 <= i < b.len() ==> is_space(b[i]),
        s.len() > 0 ==> !is_space(s[0]) && !is_space(s.last()),
    ensures
        s.len() > 0 ==> routing(c, owner) == Some(
            RoutedV {
                card_id: card.id@,
                message: "[Trello card: "@ + card.name@ + "]\n"@ + s,
                is_owner: owner is Some && owner->0 == c.member_id@,
            },
        ),
        s.len() == 0 ==> routing(c, owner) is None,
{
    law_trimming_leaves_the_text(a, s, b);
}

/// A comment without a card is skipped.
pub proof fn law_comments_need_a_card(c: Comment, owner: Option<Seq<char>>)
    requires
        c.card is None,
    ensures
        routing(c, owner) is None,
{
}

/// A text within the limit stays whole; a longer one is cut behind the last
/// newline that the limit leaves, and at the limit where there is none.
pub proof fn law_first_piece_is_the_longest_that_fits(
    head: Seq<char>,
    tail: Seq<char>,
    rest: Seq<char>,
    max_len: int,
)
    requires
        max_len > 0,
        tail.len() <= max_len,
        !tail.contains('\n'),
    ensures
        tail.len() == max_len && rest.len() > 0 ==> chunks(tail + rest, max_len) == seq![tail]
            + chunks(rest, max_len),
        head.len() + 1 + tail.len() == max_len && rest.len() > 0 ==> chunks(
            head.push('\n') + tail + rest,
            max_len,
        ) == seq![head.push('\n')] + chunks(tail + rest, max_len),
        chunks(tail, max_len) == seq![tail],
        REPLY_CHUNK == 4000,
{
    if tail.len() == max_len && rest.len() > 0 {
        let s = tail + rest;
        assert(s.take(max_len) =~= tail);
        lemma_last_index_of(tail, '\n');
        assert(s.skip(max_len) =~= rest);
    }
    if head.len() + 1 + tail.len() == max_len && rest.len() > 0 {
        let s = head.push('\n') + tail + rest;
        let w = head.push('\n') + tail;
        assert(s.take(max_len) =~= w);
        lemma_last_index_of(w, '\n');
        assert(w[head.len() as int] == '\n');
        assert forall|i: int| head.len() < i < w.len() implies #[trigger] w[i] != '\n' by {
            assert(tail[i - head.len() - 1] == w[i]);
            assert(tail.contains(tail[i - head.len() - 1]));
        }
        assert(last_index_of(w, '\n') == Some(head.len() as int));
        let k = cut(s, max_len);
        assert(s.take(k) =~= head.push('\n'));
        assert(s.skip(k) =~= tail + rest);
    }
}

} // verus!
