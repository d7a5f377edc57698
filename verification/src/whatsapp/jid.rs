//! WhatsApp addresses.
use vstd::prelude::*;

use crate::search::{all_digits, before, before_char, law_parts_around_a_character};
use crate::text::cat2;

verus! {

/// What the JID parser of `wacore_binary` makes of a text: the address as it
/// renders it again, or the text of its error.
pub uninterp spec fn jid_reading(s: Seq<char>) -> Result<Seq<char>, Seq<char>>;

/// The domain of phone-number addresses.
pub open spec fn pn_suffix() -> Seq<char> {
    "@s.whatsapp.net"@
}

/// `<wacore_binary::jid::Jid as FromStr>::from_str`, with the address or the
/// error rendered by its `Display`. The result depends on the text alone and
/// is named; beside the name the contract claims one fact: a number of digits
/// in the phone-number domain is an address and renders as it was written.
#[verifier::external_body]
pub(crate) fn read_jid(s: &str) -> (r: Result<String, String>)
    ensures
        match r {
            Ok(t) => jid_reading(s@) == Ok::<Seq<char>, Seq<char>>(t@),
            Err(e) => jid_reading(s@) == Err::<Seq<char>, Seq<char>>(e@),
        },
        forall|user: Seq<char>|
            user.len() > 0 && all_digits(user) && s@ == #[trigger] (user + pn_suffix()) ==> r is Ok
                && r->Ok_0@ == s@,
{
    match s.parse::<wacore_binary::jid::Jid>() {
        Ok(jid) => Ok(jid.to_string()),
        Err(e) => Err(e.to_string()),
    }
}

/// The phone-number address of a user part.
pub fn pn_address(user: &str) -> (r: String)
    ensures
        r@ == user@ + pn_suffix(),
{
    cat2(user, "@s.whatsapp.net")
}

/// The servers an address can name.
#[derive(Clone, Copy, PartialEq, Eq, Structural, Debug)]
pub enum Server {
    Pn,
    Lid,
    Group,
    Broadcast,
    Newsletter,
    Hosted,
    HostedLid,
    Messenger,
    Interop,
    Bot,
    Legacy,
    Call,
}

impl Server {
    /// Phone-number-namespaced servers.
    pub open spec fn pn_family(self) -> bool {
        self == Server::Pn || self == Server::Hosted
    }

    /// Servers of the opaque privacy ids.
    pub open spec fn lid_family(self) -> bool {
        self == Server::Lid || self == Server::HostedLid
    }

    pub fn is_pn_family(self) -> (r: bool)
        ensures
            r == self.pn_family(),
    {
        self == Server::Pn || self == Server::Hosted
    }

    pub fn is_lid_family(self) -> (r: bool)
        ensures
            r == self.lid_family(),
    {
        self == Server::Lid || self == Server::HostedLid
    }
}

/// An address: the user part, without the device, and the server.
pub struct Jid {
    pub user: String,
    pub server: Server,
}

/// Which of a sender's two user parts to key on: the phone number where the
/// pair has one, else the sender's own.
pub open spec fn canonical(sender: Jid, alt: Option<Jid>) -> Seq<char> {
    if sender.server.lid_family() && alt is Some && alt->0.server.pn_family()
        && alt->0.user@.len() > 0 {
        alt->0.user@
    } else {
        sender.user@
    }
}

/// The sender's phone-number identity when the pair has one, else the sender.
/// Anything used as a key has to pick the same one of the pair every time,
/// whichever field it arrived in.
pub fn canonical_user(sender: &Jid, sender_alt: Option<&Jid>) -> (r: String)
    ensures
        r@ == canonical(
            *sender,
            match sender_alt {
                Some(a) => Some(*a),
                None => None,
            },
        ),
{
    if sender.server.is_pn_family() {
        return sender.user.clone();
    }
    if sender.server.is_lid_family() {
        if let Some(alt) = sender_alt {
            if alt.server.is_pn_family() && !alt.user.as_str().is_empty() {
                return alt.user.clone();
            }
        }
    }
    sender.user.clone()
}

/// The part of an address a block applies to: the account, without server and
/// device.
pub open spec fn account(jid: Seq<char>) -> Seq<char> {
    before(before(jid, '/'), '@')
}

/// The user part of an address.
pub fn user_part<'a>(jid: &'a str) -> (r: &'a str)
    ensures
        r@ == account(jid@),
{
    before_char(before_char(jid, '/'), '@')
}

/// What stands before the server of an address; owners are told by it.
pub fn before_server<'a>(jid: &'a str) -> (r: &'a str)
    ensures
        r@ == before(jid@, '@'),
{
    before_char(jid, '@')
}

// -------------------------------------------------------------------- laws
/// The two addresses of one person key the same way, whichever of them the
/// message was sent from.
pub proof fn law_canonical_is_symmetric(pn: Jid, lid: Jid)
    requires
        pn.server.pn_family(),
        lid.server.lid_family(),
        pn.user@.len() > 0,
    ensures
        canonical(pn, Some(lid)) == pn.user@,
        canonical(lid, Some(pn)) == pn.user@,
{
}

/// The account of an address is what stands before its server and before its
/// device; two devices of one account are the same account, two users are not.
pub proof fn law_account_is_the_user(user: Seq<char>, server: Seq<char>, device: Seq<char>)
    requires
        !user.contains('@'),
        !user.contains('/'),
        !server.contains('/'),
    ensures
        account(user) == user,
        account(user + seq!['@'] + server) == user,
        account(user + seq!['@'] + server + seq!['/'] + device) == user,
        account(user + seq!['/'] + device) == user,
{
    let full = user + seq!['@'] + server;
    assert(!full.contains('/')) by {
        if full.contains('/') {
            let i = choose|i: int| 0 <= i < full.len() && full[i] == '/';
            if i < user.len() {
                assert(user[i] == '/');
            } else if i > user.len() {
                assert(server[i - user.len() - 1] == '/');
            }
        }
    }
    law_parts_around_a_character(full, '/', device);
    law_parts_around_a_character(user, '/', device);
    law_parts_around_a_character(user, '@', server);
}

/// A sender with a phone number is told by it, under whichever of the two
/// addresses it writes; a sender without one by its own user part.
pub proof fn law_sender_is_told_by_its_number(sender: Jid, alt: Jid)
    ensures
        sender.server.pn_family() ==> canonical(sender, Some(alt)) == sender.user@,
        canonical(sender, None) == sender.user@,
        sender.server.lid_family() && !alt.server.pn_family() ==> canonical(sender, Some(alt))
            == sender.user@,
        alt.user@.len() == 0 ==> canonical(sender, Some(alt)) == sender.user@,
        sender.server.pn_family() <==> sender.server == Server::Pn || sender.server
            == Server::Hosted,
        sender.server.lid_family() <==> sender.server == Server::Lid || sender.server
            == Server::HostedLid,
        pn_suffix() == "@s.whatsapp.net"@,
{
}

} // verus!
