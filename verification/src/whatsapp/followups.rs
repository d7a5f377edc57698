//! Optional follow-up suggestions, selected by number or by label.
use std::collections::HashMap;
use vstd::prelude::*;
use vstd::std_specs::hash::*;

use crate::search::{decimal, law_decimal_reads_back, parse_u64, parsed_nat};
use crate::text::{lowercase, str_eq, to_lower, trim, trimmed, views};

verus! {

broadcast use vstd::std_specs::hash::group_hash_axioms;

/// The pending suggestions of each session.
pub struct Followups {
    pub pending: HashMap<u128, Vec<String>>,
}

/// The option that a reply selects by its number, counted from one.
pub open spec fn by_number(options: Seq<Seq<char>>, reply: Seq<char>) -> Option<Seq<char>> {
    match parsed_nat(trimmed(reply)) {
        Some(n) => if 1 <= n <= options.len() {
            Some(options[n - 1])
        } else {
            None
        },
        None => None,
    }
}

/// How labels compare: trimmed and in lower case.
pub open spec fn folded(label: Seq<char>) -> Seq<char> {
    lowercase(trimmed(label))
}

/// The first option whose folded form is `needle`.
pub open spec fn first_folded(options: Seq<Seq<char>>, needle: Seq<char>) -> Option<Seq<char>>
    decreases options.len(),
{
    if options.len() == 0 {
        None
    } else if folded(options[0]) == needle {
        Some(options[0])
    } else {
        first_folded(options.drop_first(), needle)
    }
}

/// The option that a label selects.
pub open spec fn by_label(options: Seq<Seq<char>>, label: Seq<char>) -> Option<Seq<char>> {
    if folded(label).len() == 0 {
        None
    } else {
        first_folded(options, folded(label))
    }
}

/// The suggestions pending for a session.
pub open spec fn options_of(pending: Map<u128, Vec<String>>, session: u128) -> Seq<Seq<char>> {
    if pending.dom().contains(session) {
        views(pending[session]@)
    } else {
        Seq::empty()
    }
}

fn find_folded(options: &Vec<String>, needle: &str) -> (r: Option<String>)
    ensures
        match r {
            Some(s) => first_folded(views(options@), needle@) == Some(s@),
            None => first_folded(views(options@), needle@) is None,
        },
{
    let mut i: usize = 0;
    assert(views(options@).skip(0) =~= views(options@));
    while i < options.len()
        invariant
            i <= options.len(),
            first_folded(views(options@), needle@) == first_folded(
                views(options@).skip(i as int),
                needle@,
            ),
        decreases options.len() - i,
    {
        assert(views(options@).skip(i as int)[0] == options@[i as int]@);
        if str_eq(to_lower(trim(options[i].as_str())).as_str(), needle) {
            return Some(options[i].clone());
        }
        assert(views(options@).skip(i as int).drop_first() =~= views(options@).skip(i + 1));
        i = i + 1;
    }
    None
}

impl Followups {
    pub fn new() -> (r: Self)
        ensures
            r.pending@ == Map::<u128, Vec<String>>::empty(),
    {
        Followups { pending: HashMap::new() }
    }

    /// Stashes a session's suggestions.
    pub fn set_pending_followups(&mut self, session: u128, options: Vec<String>)
        ensures
            final(self).pending@ == old(self).pending@.insert(session, options),
    {
        self.pending.insert(session, options);
    }

    /// If `reply` is the number of a pending suggestion, consumes the set and
    /// returns the suggestion.
    pub fn take_followup_by_reply(&mut self, session: u128, reply: &str) -> (r: Option<String>)
        ensures
            ({
                let chosen = by_number(options_of(old(self).pending@, session), reply@);
                &&& r is Some <==> chosen is Some
                &&& r is Some ==> r->0@ == chosen->0 && final(self).pending@ == old(
                    self).pending@.remove(session)
                &&& r is None ==> final(self).pending@ == old(self).pending@
            }),
    {
        let chosen: Option<String> = match self.pending.get(&session) {
            Some(options) => {
                let count: u64 = options.len() as u64;
                match parse_u64(trim(reply)) {
                    Some(n) => if n >= 1 && n <= count {
                        Some(options[(n - 1) as usize].clone())
                    } else {
                        None
                    },
                    None => None,
                }
            },
            None => None,
        };
        if chosen.is_some() {
            self.pending.remove(&session);
        }
        chosen
    }

    /// If `label` is one of the pending suggestions, consumes the set and
    /// returns the suggestion.
    pub fn take_followup_by_label(&mut self, session: u128, label: &str) -> (r: Option<String>)
        ensures
            ({
                let chosen = by_label(options_of(old(self).pending@, session), label@);
                &&& r is Some <==> chosen is Some
                &&& r is Some ==> r->0@ == chosen->0 && final(self).pending@ == old(
                    self).pending@.remove(session)
                &&& r is None ==> final(self).pending@ == old(self).pending@
            }),
    {
        let needle = to_lower(trim(label));
        if needle.as_str().is_empty() {
            return None;
        }
        let chosen: Option<String> = match self.pending.get(&session) {
            Some(options) => find_folded(options, needle.as_str()),
            None => None,
        };
        if chosen.is_some() {
            self.pending.remove(&session);
        }
        chosen
    }

    /// Drops a session's suggestions.
    pub fn clear_pending_followups(&mut self, session: u128)
        ensures
            final(self).pending@ == old(self).pending@.remove(session),
    {
        self.pending.remove(&session);
    }
}

// -------------------------------------------------------------------- laws
/// A selection is consumed: the same reply selects nothing a second time.
pub proof fn law_selection_is_consumed(
    pending: Map<u128, Vec<String>>,
    session: u128,
    reply: Seq<char>,
)
    ensures
        by_number(options_of(pending.remove(session), session), reply) is None,
        by_label(options_of(pending.remove(session), session), reply) is None,
{
}

/// A number selects the suggestion it counts to, from one; white space and a
/// plus sign do not matter. Any other number selects none.
pub proof fn law_number_selects(options: Seq<Seq<char>>, n: nat, reply: Seq<char>)
    ensures
        trimmed(reply) == decimal(n) && 1 <= n <= options.len() ==> by_number(options, reply)
            == Some(options[n - 1]),
        trimmed(reply) == decimal(n) && (n == 0 || n > options.len()) ==> by_number(options, reply)
            is None,
        parsed_nat(trimmed(reply)) is None ==> by_number(options, reply) is None,
{
    law_decimal_reads_back(n);
}

/// A label selects the first suggestion that reads the same but for case and
/// outer white space; one that is blank, or reads like none, selects none.
pub proof fn law_label_selects(options: Seq<Seq<char>>, i: int, label: Seq<char>)
    ensures
        0 <= i < options.len() && lowercase(trimmed(label)).len() > 0 && lowercase(
            trimmed(options[i]),
        ) == lowercase(trimmed(label)) && (forall|j: int|
            0 <= j < i ==> lowercase(trimmed(#[trigger] options[j])) != lowercase(trimmed(label)))
            ==> by_label(options, label) == Some(options[i]),
        (forall|j: int|
            0 <= j < options.len() ==> lowercase(trimmed(#[trigger] options[j])) != lowercase(
                trimmed(label),
            )) ==> by_label(options, label) is None,
        lowercase(trimmed(label)).len() == 0 ==> by_label(options, label) is None,
{
    lemma_first_folded(options, i, folded(label));
}

proof fn lemma_first_folded(options: Seq<Seq<char>>, i: int, needle: Seq<char>)
    ensures
        0 <= i < options.len() && folded(options[i]) == needle && (forall|j: int|
            0 <= j < i ==> folded(#[trigger] options[j]) != needle) ==> first_folded(
            options,
            needle,
        ) == Some(options[i]),
        (forall|j: int| 0 <= j < options.len() ==> folded(#[trigger] options[j]) != needle)
            ==> first_folded(options, needle) is None,
    decreases options.len(),
{
    if options.len() > 0 {
        let rest = options.drop_first();
        lemma_first_folded(rest, i - 1, needle);
        assert forall|j: int| 0 <= j < rest.len() implies #[trigger] rest[j] == options[j + 1] by {}
        if folded(options[0]) != needle && 0 <= i < options.len() && folded(options[i]) == needle {
            assert(rest[i - 1] == options[i]);
        }
    }
}

/// Suggestions are those of the session they were made for.
pub proof fn law_sessions_have_their_own_suggestions(
    pending: Map<u128, Vec<String>>,
    session: u128,
    other: u128,
    options: Vec<String>,
)
    requires
        other != session,
    ensures
        options_of(pending.insert(session, options), session) == options@.map_values(
            |s: String| s@,
        ),
        options_of(pending.insert(session, options), other) == options_of(pending, other),
        options_of(pending.remove(session), other) == options_of(pending, other),
        options_of(pending.remove(session), session).len() == 0,
{
}

} // verus!
