//! The channel's event loop, reduced to its decisions: who owns a freshly
//! paired account, whom to greet, and which receipts count as delivered.
use vstd::prelude::*;

use super::jid::{pn_address, pn_suffix};
use crate::search::{
    before, before_char, join, join_strs, law_join_holds_each, law_parts_around_a_character,
    lemma_tells_more, tells,
};
use crate::text::{
    cat3, copy_strs, law_leading_run_is_dropped, oview, str_eq, strip_leading, trim_start_of, views,
};

verus! {

/// The owner's address: that of the first allowed phone.
pub open spec fn startup_owner(allowed_phones: Seq<Seq<char>>) -> Option<Seq<char>> {
    if allowed_phones.len() == 0 {
        None
    } else {
        Some(trim_start_of(allowed_phones[0], '+') + pn_suffix())
    }
}

/// The owner's address: that of the first allowed phone.
pub fn owner_from_config(allowed_phones: &Vec<String>) -> (r: Option<String>)
    ensures
        oview(r) == startup_owner(views(allowed_phones@)),
{
    if allowed_phones.len() == 0 {
        None
    } else {
        assert(views(allowed_phones@)[0] == allowed_phones@[0]@);
        Some(pn_address(strip_leading(allowed_phones[0].as_str(), '+')))
    }
}

/// The number of a paired account: the user part of its address, without
/// device and leading plus.
pub open spec fn paired_number(jid: Seq<char>) -> Seq<char> {
    trim_start_of(before(before(jid, '@'), ':'), '+')
}

/// Whether a number is on a list of phones, whatever plus they carry.
pub open spec fn listed(phones: Seq<Seq<char>>, num: Seq<char>) -> bool {
    exists|k: int| 0 <= k < phones.len() && trim_start_of(#[trigger] phones[k], '+') == num
}

/// A list of strings as a quoted list: `["a","b"]`.
pub open spec fn quoted_list(items: Seq<Seq<char>>) -> Seq<char> {
    "["@ + join(items.map_values(|s: Seq<char>| "\""@ + s + "\""@), ","@) + "]"@
}

/// A list of strings as a quoted list.
pub fn quote_list(items: &Vec<String>) -> (r: String)
    ensures
        r@ == quoted_list(views(items@)),
{
    let mut quoted: Vec<String> = Vec::new();
    let mut i: usize = 0;
    let ghost all = views(items@).map_values(|s: Seq<char>| "\""@ + s + "\""@);
    while i < items.len()
        invariant
            i <= items.len(),
            all == views(items@).map_values(|s: Seq<char>| "\""@ + s + "\""@),
            views(quoted@) == all.take(i as int),
        decreases items.len() - i,
    {
        let q = cat3("\"", items[i].as_str(), "\"");
        let ghost pre = views(quoted@);
        quoted.push(q);
        assert(views(quoted@) =~= pre.push(all[i as int]));
        assert(all.take(i + 1) =~= all.take(i as int).push(all[i as int]));
        i = i + 1;
    }
    assert(all.take(i as int) =~= all);
    cat3("[", join_strs(&quoted, ",").as_str(), "]")
}

/// What a successful pairing writes.
pub struct PairPlan {
    /// The owner's number.
    pub number: String,
    /// Value of the `bot_owner` setting.
    pub bot_owner: String,
    /// Value of the `allowed_phones` setting, where the owner was not on it.
    pub allowed_phones: Option<String>,
    /// The owner's address.
    pub owner_jid: String,
}

/// What a connection does about greeting the owner.
pub enum Greeting {
    /// A reconnect: the greeting would be a duplicate.
    Suppress,
    /// A fresh pairing: greet this number.
    Greet(String),
    /// A fresh pairing, but no owner is known.
    NoOwner,
    /// A restart: stay silent.
    Silent,
}

/// Whether a connection greets: the first one after a pairing, on a channel
/// that was not connected.
pub open spec fn may_greet(connected: bool, pending: bool) -> bool {
    !connected && pending
}

/// Whether the pairing still waits for its greeting after a connection.
pub open spec fn still_pending(connected: bool, pending: bool) -> bool {
    connected && pending
}

/// One pairing is greeted once: a connection after the greeting does not greet
/// again, be it a reconnect or a restart.
pub proof fn law_greets_once(pending: bool)
    requires
        may_greet(false, pending),
    ensures
        !may_greet(true, still_pending(false, pending)),
        !may_greet(false, still_pending(false, pending)),
{
}

/// The connection state of the channel.
pub struct Connection {
    pub owner_jid: Option<String>,
    /// Set by a pairing, consumed by the first connection after it.
    pub first_pair_pending: bool,
    pub connected: bool,
}

impl Connection {
    pub fn new() -> (r: Self)
        ensures
            r.owner_jid is None,
            !r.first_pair_pending,
            !r.connected,
    {
        Connection { owner_jid: None, first_pair_pending: false, connected: false }
    }

    /// A pairing succeeded: the paired account is the owner. An address
    /// without a number changes nothing.
    pub fn paired(&mut self, jid: &str, allowed_phones: &Vec<String>) -> (r: Option<PairPlan>)
        ensures
            final(self).connected == old(self).connected,
            match r {
                None => paired_number(jid@).len() == 0 && *final(self) == *old(self),
                Some(plan) => {
                    let num = paired_number(jid@);
                    let phones = views(allowed_phones@);
                    &&& num.len() > 0
                    &&& final(self).first_pair_pending
                    &&& oview(final(self).owner_jid) == Some(num + pn_suffix())
                    &&& plan.number@ == num
                    &&& plan.bot_owner@ == "[\""@ + num + "\"]"@
                    &&& plan.owner_jid@ == num + pn_suffix()
                    &&& oview(plan.allowed_phones) == if listed(phones, num) {
                        None
                    } else {
                        Some(quoted_list(phones.push(num)))
                    }
                },
            },
    {
        let num = strip_leading(before_char(before_char(jid, '@'), ':'), '+');
        if num.is_empty() {
            return None;
        }
        let mut present = false;
        let mut i: usize = 0;
        while i < allowed_phones.len()
            invariant
                i <= allowed_phones.len(),
                present == (exists|k: int|
                    0 <= k < i && trim_start_of(#[trigger] views(allowed_phones@)[k], '+')
                        == num@),
            decreases allowed_phones.len() - i,
        {
            assert(views(allowed_phones@)[i as int] == allowed_phones@[i as int]@);
            if str_eq(strip_leading(allowed_phones[i].as_str(), '+'), num) {
                present = true;
            }
            i = i + 1;
        }
        let allowed = if present {
            None
        } else {
            let mut phones = copy_strs(allowed_phones);
            let ghost pre = views(phones@);
            phones.push(num.to_owned());
            assert(views(phones@) =~= pre.push(num@));
            Some(quote_list(&phones))
        };
        let owner_jid = pn_address(num);
        self.owner_jid = Some(owner_jid.clone());
        self.first_pair_pending = true;
        Some(
            PairPlan {
                number: num.to_owned(),
                bot_owner: cat3("[\"", num, "\"]"),
                allowed_phones: allowed,
                owner_jid,
            },
        )
    }

    /// The socket is up. The owner is the freshly paired one, or the one known
    /// at startup; a greeting is sent once per pairing and never on a
    /// reconnect or a restart.
    pub fn connect(&mut self, startup: &Option<String>) -> (r: Greeting)
        ensures
            final(self).connected,
            oview(final(self).owner_jid) == match old(self).owner_jid {
                Some(j) => Some(j@),
                None => oview(*startup),
            },
            final(self).first_pair_pending == still_pending(
                old(self).connected,
                old(self).first_pair_pending,
            ),
            old(self).connected ==> r is Suppress,
            !old(self).connected && !old(self).first_pair_pending ==> r is Silent,
            may_greet(old(self).connected, old(self).first_pair_pending) ==> match oview(
                final(self).owner_jid,
            ) {
                Some(j) => r is Greet && r->Greet_0@ == before(j, '@'),
                None => r is NoOwner,
            },
    {
        if self.owner_jid.is_none() {
            self.owner_jid = startup.clone();
        }
        let was_connected = self.connected;
        self.connected = true;
        if was_connected {
            return Greeting::Suppress;
        }
        if !self.first_pair_pending {
            return Greeting::Silent;
        }
        self.first_pair_pending = false;
        match &self.owner_jid {
            Some(jid) => Greeting::Greet(before_char(jid.as_str(), '@').to_owned()),
            None => Greeting::NoOwner,
        }
    }
}

/// The kinds of receipt that matter here.
#[derive(Clone, Copy, PartialEq, Eq, Structural, Debug)]
pub enum ReceiptType {
    Delivered,
    Sender,
    Other,
}

/// Whether a receipt means that a message we sent has landed: the recipient's
/// delivery receipt, or the sender receipt of a chat with oneself.
pub fn counts_as_delivered(kind: ReceiptType) -> (r: bool)
    ensures
        r == (kind == ReceiptType::Delivered || kind == ReceiptType::Sender),
{
    kind == ReceiptType::Delivered || kind == ReceiptType::Sender
}

/// The first allowed phone is the owner's, whatever pluses it carries.
pub proof fn law_first_phone_owns(n: nat, digits: Seq<char>, more: Seq<Seq<char>>)
    requires
        digits.len() > 0 ==> digits[0] != '+',
    ensures
        startup_owner(seq![Seq::new(n, |i: int| '+') + digits] + more) == Some(
            digits + pn_suffix(),
        ),
        startup_owner(Seq::empty()) is None,
{
    law_leading_run_is_dropped(n, digits, '+');
    let phones = seq![Seq::new(n, |i: int| '+') + digits] + more;
    assert(phones[0] == Seq::new(n, |i: int| '+') + digits);
}

/// The number of a paired account is its user part, without device and server.
pub proof fn law_paired_number_is_the_user(
    digits: Seq<char>,
    device: Seq<char>,
    server: Seq<char>,
)
    requires
        !digits.contains('@') && !digits.contains(':'),
        digits.len() > 0 && digits[0] != '+',
        !device.contains('@'),
    ensures
        paired_number(digits + seq!['@'] + server) == digits,
        paired_number(digits + seq![':'] + device + seq!['@'] + server) == digits,
        paired_number(digits) == digits,
{
    law_parts_around_a_character(digits, '@', server);
    law_parts_around_a_character(digits, ':', device);
    let both = digits + seq![':'] + device;
    assert(!both.contains('@')) by {
        if both.contains('@') {
            let i = choose|i: int| 0 <= i < both.len() && both[i] == '@';
            if i < digits.len() {
                assert(digits[i] == '@');
            } else if i > digits.len() {
                assert(device[i - digits.len() - 1] == '@');
            }
        }
    }
    law_parts_around_a_character(both, '@', server);
    law_leading_run_is_dropped(0, digits, '+');
    assert(Seq::new(0, |i: int| '+') + digits =~= digits);
}

/// A number is on the list wherever a phone of the list has its digits.
pub proof fn law_listed_phones(phones: Seq<Seq<char>>, k: int, n: nat, num: Seq<char>)
    requires
        0 <= k < phones.len(),
        num.len() > 0 ==> num[0] != '+',
    ensures
        phones[k] == Seq::new(n, |i: int| '+') + num ==> listed(phones, num),
        (forall|j: int| 0 <= j < phones.len() ==> trim_start_of(#[trigger] phones[j], '+') != num)
            ==> !listed(phones, num),
{
    law_leading_run_is_dropped(n, num, '+');
}

/// A written list holds each of its items in quotes.
pub proof fn law_written_list_holds_each(items: Seq<Seq<char>>, i: int)
    requires
        0 <= i < items.len(),
    ensures
        tells(quoted_list(items), "\""@ + items[i] + "\""@),
        quoted_list(seq![items[i]]) == "["@ + ("\""@ + items[i] + "\""@) + "]"@,
{
    let parts = items.map_values(|s: Seq<char>| "\""@ + s + "\""@);
    law_join_holds_each(parts, ","@, i);
    lemma_tells_more(quoted_list(items), "["@, join(parts, ","@), "]"@, parts[i]);
    let one = seq![items[i]];
    assert(one.map_values(|s: Seq<char>| "\""@ + s + "\""@) =~= seq!["\""@ + items[i] + "\""@]);
    reveal_with_fuel(join, 2);
    assert(join(seq!["\""@ + items[i] + "\""@], ","@) =~= "\""@ + items[i] + "\""@);
}

/// A connection greets only where a pairing waits for it and the channel was
/// not connected; a reconnect leaves the pairing waiting.
pub proof fn law_when_the_owner_is_greeted()
    ensures
        may_greet(false, true),
        !may_greet(true, true),
        !may_greet(false, false),
        !may_greet(true, false),
        still_pending(true, true),
        !still_pending(false, true),
        !still_pending(true, false),
{
}

} // verus!
