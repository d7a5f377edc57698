//! Safety rails for the broadcast surfaces: pacing and opt-in.
use vstd::prelude::*;

use super::jid::{pn_address, pn_suffix, read_jid};
use crate::search::{before, before_char, law_parts_around_a_character};
use crate::text::{
    digits_of, digits_only, is_digit, law_digits_are_kept_in_order, lemma_digits_only, str_eq, views,
};

verus! {

/// Deliberately slow default between two broadcast sends.
pub const DEFAULT_DELAY_SECONDS: u64 = 5;

/// The client's own default status background, as 0xAARRGGBB.
pub const STATUS_BACKGROUND_ARGB: u32 = 0xFF1E6E4F;

/// The digits of a phone number, whatever its formatting.
pub open spec fn number(target: Seq<char>) -> Seq<char> {
    digits_only(before(target, '@'))
}

/// Strips a phone number down to its digits, so that every way of writing it
/// compares equal.
pub fn normalize(target: &str) -> (r: String)
    ensures
        r@ == number(target@),
{
    digits_of(before_char(target, '@'))
}

/// Minimum wait between two broadcast sends, in seconds. A configured `0`
/// does not disable pacing; it falls back to the default.
pub fn delay(configured: Option<u64>) -> (r: u64)
    ensures
        r == pace(configured),
        r > 0,
{
    match configured {
        Some(seconds) => if seconds > 0 {
            seconds
        } else {
            DEFAULT_DELAY_SECONDS
        },
        None => DEFAULT_DELAY_SECONDS,
    }
}

pub open spec fn pace(configured: Option<u64>) -> u64 {
    if configured is Some && configured->0 > 0 {
        configured->0
    } else {
        DEFAULT_DELAY_SECONDS
    }
}

/// Whether a target may receive a broadcast: its number is that of an entry
/// of the allowlist. A target without digits may not, and an empty allowlist
/// allows nobody.
pub open spec fn allowed(target: Seq<char>, allowlist: Seq<Seq<char>>) -> bool {
    number(target).len() > 0 && exists|k: int|
        0 <= k < allowlist.len() && number(#[trigger] allowlist[k]) == number(target)
}

/// Whether this target may receive a broadcast.
pub fn is_allowed(target: &str, allowlist: &Vec<String>) -> (r: bool)
    ensures
        r == allowed(target@, views(allowlist@)),
{
    let n = normalize(target);
    if n.as_str().is_empty() {
        return false;
    }
    let mut i: usize = 0;
    while i < allowlist.len()
        invariant
            i <= allowlist.len(),
            n@ == number(target@),
            n@.len() > 0,
            forall|k: int| 0 <= k < i ==> number(#[trigger] views(allowlist@)[k]) != n@,
        decreases allowlist.len() - i,
    {
        assert(views(allowlist@)[i as int] == allowlist@[i as int]@);
        if str_eq(normalize(allowlist[i].as_str()).as_str(), n.as_str()) {
            return true;
        }
        i = i + 1;
    }
    false
}

/// Wall-clock floor, in seconds, for a burst of `count` sends.
pub open spec fn floor_seconds(count: nat, delay: nat) -> nat {
    if count == 0 {
        0
    } else {
        (delay * (count - 1)) as nat
    }
}

/// Wall-clock floor, in seconds, for a burst of `count` sends.
pub fn burst_floor(count: usize, delay: u64) -> (r: u64)
    requires
        floor_seconds(count as nat, delay as nat) <= u64::MAX,
    ensures
        r == floor_seconds(count as nat, delay as nat),
{
    if count == 0 {
        0
    } else {
        delay * (count - 1) as u64
    }
}

/// The targets of a list that may be messaged, or those that may not.
pub open spec fn selected(targets: Seq<Seq<char>>, allowlist: Seq<Seq<char>>, may: bool) -> Seq<
    Seq<char>,
>
    decreases targets.len(),
{
    if targets.len() == 0 {
        Seq::empty()
    } else {
        let init = selected(targets.drop_last(), allowlist, may);
        if allowed(targets.last(), allowlist) == may {
            init.push(targets.last())
        } else {
            init
        }
    }
}

/// Splits a target list into those that may be messaged and those that may
/// not, each in order.
pub fn partition(targets: &Vec<String>, allowlist: &Vec<String>) -> (r: (Vec<String>, Vec<String>))
    ensures
        views(r.0@) == selected(views(targets@), views(allowlist@), true),
        views(r.1@) == selected(views(targets@), views(allowlist@), false),
{
    let mut yes: Vec<String> = Vec::new();
    let mut no: Vec<String> = Vec::new();
    let mut i: usize = 0;
    assert(views(targets@).take(0) =~= Seq::empty());
    assert(views(yes@) =~= Seq::empty());
    while i < targets.len()
        invariant
            i <= targets.len(),
            views(yes@) == selected(views(targets@).take(i as int), views(allowlist@), true),
            views(no@) == selected(views(targets@).take(i as int), views(allowlist@), false),
        decreases targets.len() - i,
    {
        assert(views(targets@).take(i + 1).drop_last() =~= views(targets@).take(i as int));
        let ghost y = views(yes@);
        let ghost n = views(no@);
        if is_allowed(targets[i].as_str(), allowlist) {
            yes.push(targets[i].clone());
            assert(views(yes@) =~= y.push(targets@[i as int]@));
        } else {
            no.push(targets[i].clone());
            assert(views(no@) =~= n.push(targets@[i as int]@));
        }
        i = i + 1;
    }
    assert(views(targets@).take(i as int) =~= views(targets@));
    (yes, no)
}

/// The address of an allowlist entry; `None` where the entry holds no digits.
pub fn target_jid(target: &str) -> (r: Option<String>)
    ensures
        match r {
            Some(jid) => number(target@).len() > 0 && jid@ == number(target@) + pn_suffix(),
            None => number(target@).len() == 0,
        },
{
    let digits = normalize(target);
    if digits.as_str().is_empty() {
        return None;
    }
    let text = pn_address(digits.as_str());
    proof {
        lemma_digits_only(before(target@, '@'));
    }
    match read_jid(text.as_str()) {
        Ok(jid) => Some(jid),
        Err(_) => None,
    }
}

// -------------------------------------------------------------------- laws
/// Broadcast is opt-in: an empty allowlist allows nobody.
pub proof fn law_empty_allowlist_allows_nobody(target: Seq<char>)
    ensures
        !allowed(target, Seq::empty()),
{
}

/// Every way of writing one number is allowed or refused alike.
pub proof fn law_formatting_does_not_matter(a: Seq<char>, b: Seq<char>, allowlist: Seq<Seq<char>>)
    requires
        number(a) == number(b),
    ensures
        allowed(a, allowlist) == allowed(b, allowlist),
{
}

/// A partition loses no target and invents none.
pub proof fn law_partition_is_complete(targets: Seq<Seq<char>>, allowlist: Seq<Seq<char>>)
    ensures
        selected(targets, allowlist, true).len() + selected(targets, allowlist, false).len()
            == targets.len(),
        forall|t: Seq<char>|
            #[trigger] targets.contains(t) ==> selected(
                targets,
                allowlist,
                allowed(t, allowlist),
            ).contains(t),
        forall|k: int, may: bool|
            0 <= k < selected(targets, allowlist, may).len() ==> allowed(
                #[trigger] selected(targets, allowlist, may)[k],
                allowlist,
            ) == may,
    decreases targets.len(),
{
    if targets.len() > 0 {
        let rest = targets.drop_last();
        law_partition_is_complete(rest, allowlist);
        assert forall|t: Seq<char>| #[trigger] targets.contains(t) implies selected(
            targets,
            allowlist,
            allowed(t, allowlist),
        ).contains(t) by {
            let may = allowed(t, allowlist);
            let init = selected(rest, allowlist, may);
            let s = selected(targets, allowlist, may);
            if t == targets.last() {
                assert(s[s.len() - 1] == t);
            } else {
                let k = choose|k: int| 0 <= k < targets.len() && targets[k] == t;
                assert(rest[k] == t);
                assert(rest.contains(t));
                let j = choose|j: int| 0 <= j < init.len() && init[j] == t;
                assert(s[j] == t);
            }
        }
        assert forall|k: int, may: bool|
            0 <= k < selected(targets, allowlist, may).len() implies allowed(
            #[trigger] selected(targets, allowlist, may)[k],
            allowlist,
        ) == may by {
            let init = selected(rest, allowlist, may);
            if k < init.len() {
                assert(allowed(init[k], allowlist) == may);
            }
        }
    }
}

/// Whoever is on the allowlist may receive a broadcast, wherever the entry
/// stands and however it is written; whoever is not may not.
pub proof fn law_listed_numbers_are_allowed(target: Seq<char>, allowlist: Seq<Seq<char>>, k: int)
    ensures
        0 <= k < allowlist.len() && number(allowlist[k]).len() > 0 ==> allowed(
            allowlist[k],
            allowlist,
        ),
        0 <= k < allowlist.len() && number(target).len() > 0 && number(allowlist[k]) == number(
            target,
        ) ==> allowed(target, allowlist),
        (forall|j: int| 0 <= j < allowlist.len() ==> number(#[trigger] allowlist[j]) != number(
            target,
        )) ==> !allowed(target, allowlist),
        number(target).len() == 0 ==> !allowed(target, allowlist),
{
}

/// A number is the digits before the server of an address; a number of digits
/// alone is itself.
pub proof fn law_number_is_the_digits(digits: Seq<char>, rest: Seq<char>)
    requires
        forall|i: int| 0 <= i < digits.len() ==> '0' <= #[trigger] digits[i] <= '9',
    ensures
        number(digits) == digits,
        number(seq!['+'] + digits) == digits,
        number(digits + seq!['@'] + rest) == digits,
{
    assert forall|i: int| 0 <= i < digits.len() implies is_digit(#[trigger] digits[i]) by {}
    lemma_digits_only(digits);
    assert(!digits.contains('@')) by {
        if digits.contains('@') {
            let i = choose|i: int| 0 <= i < digits.len() && digits[i] == '@';
            assert('0' <= digits[i] <= '9');
        }
    }
    law_parts_around_a_character(digits, '@', rest);
    let plus = seq!['+'] + digits;
    assert(!plus.contains('@')) by {
        if plus.contains('@') {
            let i = choose|i: int| 0 <= i < plus.len() && plus[i] == '@';
            if i > 0 {
                assert(digits[i - 1] == '@');
            }
        }
    }
    law_parts_around_a_character(plus, '@', rest);
    let none = Seq::<char>::empty();
    law_digits_are_kept_in_order(none, '+', digits);
    assert(none.push('+') + digits =~= plus);
    assert(digits_only(none) + digits_only(digits) =~= digits);
}

proof fn lemma_selected_add(
    a: Seq<Seq<char>>,
    b: Seq<Seq<char>>,
    allowlist: Seq<Seq<char>>,
    may: bool,
)
    ensures
        selected(a + b, allowlist, may) == selected(a, allowlist, may) + selected(
            b,
            allowlist,
            may,
        ),
    decreases b.len(),
{
    if b.len() == 0 {
        assert(a + b =~= a);
        assert(selected(a, allowlist, may) + selected(b, allowlist, may) =~= selected(
            a,
            allowlist,
            may,
        ));
    } else {
        assert((a + b).drop_last() =~= a + b.drop_last());
        lemma_selected_add(a, b.drop_last(), allowlist, may);
        assert(selected(a + b, allowlist, may) =~= selected(a, allowlist, may) + selected(
            b,
            allowlist,
            may,
        ));
    }
}

/// A partition keeps the order of the targets.
pub proof fn law_partition_keeps_the_order(
    a: Seq<Seq<char>>,
    t: Seq<char>,
    b: Seq<Seq<char>>,
    allowlist: Seq<Seq<char>>,
    may: bool,
)
    ensures
        selected(a.push(t) + b, allowlist, may) == if allowed(t, allowlist) == may {
            selected(a, allowlist, may).push(t) + selected(b, allowlist, may)
        } else {
            selected(a, allowlist, may) + selected(b, allowlist, may)
        },
{
    lemma_selected_add(a.push(t), b, allowlist, may);
    assert(a.push(t).drop_last() =~= a);
}

/// Pacing cannot be switched off: what is configured counts where it is more
/// than nothing, else five seconds; and every send but the first waits.
pub proof fn law_pacing_is_always_on(configured: Option<u64>, count: nat, delay: nat)
    ensures
        pace(configured) > 0,
        configured is Some && configured->0 > 0 ==> pace(configured) == configured->0,
        configured is None || configured->0 == 0 ==> pace(configured) == 5,
        floor_seconds(0, delay) == 0,
        floor_seconds(1, delay) == 0,
        count > 0 ==> floor_seconds(count + 1, delay) == floor_seconds(count, delay) + delay,
{
    assert(delay * 0 == 0) by (nonlinear_arith);
    if count > 0 {
        assert(delay * count == delay * (count - 1) + delay) by (nonlinear_arith);
    }
}

} // verus!
