//! Short descriptions of inbound message types.
use vstd::prelude::*;

use crate::search::{
    after_last, after_last_char, has_prefix, lemma_tells, lines, lines_of, starts_with, tells,
};
use crate::text::{
    ascii_lower, cat2, cat3, cat4, is_blank, is_space, law_trimming_leaves_the_text, to_ascii_lower,
    trim, trimmed, views,
};

verus! {

/// The optional text, trimmed, where it is not blank.
pub open spec fn label(s: Option<Seq<char>>) -> Option<Seq<char>> {
    if s is Some && !is_blank(s->0) {
        Some(trimmed(s->0))
    } else {
        None
    }
}

pub open spec fn text_of(s: Option<&str>) -> Option<Seq<char>> {
    match s {
        Some(t) => Some(t@),
        None => None,
    }
}

fn label_of<'a>(s: Option<&'a str>) -> (r: Option<&'a str>)
    ensures
        text_of(r) == label(text_of(s)),
{
    match s {
        Some(t) => {
            let u = trim(t);
            if u.is_empty() {
                None
            } else {
                Some(u)
            }
        },
        None => None,
    }
}

/// A location pin: coordinates, then the labels that came with it.
pub open spec fn location_line(
    lat: Seq<char>,
    lng: Seq<char>,
    name: Option<Seq<char>>,
    address: Option<Seq<char>>,
) -> Seq<char> {
    "[location] "@ + lat + ", "@ + lng + (match label(name) {
        Some(n) => " ("@ + n + ")"@,
        None => Seq::empty(),
    }) + (match label(address) {
        Some(a) => " - "@ + a,
        None => Seq::empty(),
    })
}

/// Describes a location pin. Latitude and longitude arrive rendered with six
/// decimals.
pub fn describe_location(lat: &str, lng: &str, name: Option<&str>, address: Option<&str>) -> (r:
    String)
    ensures
        r@ == location_line(lat@, lng@, text_of(name), text_of(address)),
{
    let mut out = cat4("[location] ", lat, ", ", lng);
    match label_of(name) {
        Some(n) => {
            out.append(cat3(" (", n, ")").as_str());
        },
        None => {
            assert(out@ + Seq::<char>::empty() =~= out@);
        },
    }
    match label_of(address) {
        Some(a) => {
            out.append(cat2(" - ", a).as_str());
        },
        None => {
            assert(out@ + Seq::<char>::empty() =~= out@);
        },
    }
    out
}

/// A live-location share.
pub open spec fn live_location_line(lat: Seq<char>, lng: Seq<char>, caption: Option<Seq<char>>) -> Seq<
    char,
> {
    "[live location] "@ + lat + ", "@ + lng + (match label(caption) {
        Some(c) => " - "@ + c,
        None => Seq::empty(),
    })
}

/// Describes a live-location share, flagged as live because the coordinates
/// keep moving.
pub fn describe_live_location(lat: &str, lng: &str, caption: Option<&str>) -> (r: String)
    ensures
        r@ == live_location_line(lat@, lng@, text_of(caption)),
{
    let mut out = cat4("[live location] ", lat, ", ", lng);
    match label_of(caption) {
        Some(c) => {
            out.append(cat2(" - ", c).as_str());
        },
        None => {
            assert(out@ + Seq::<char>::empty() =~= out@);
        },
    }
    out
}

/// Whether a line of a vCard holds a telephone number.
pub open spec fn is_tel(line: Seq<char>) -> bool {
    has_prefix(ascii_lower(trimmed(line)), "tel"@)
}

/// What follows the last colon of the first telephone line.
pub open spec fn tel_of(lines: Seq<Seq<char>>) -> Option<Seq<char>>
    decreases lines.len(),
{
    if lines.len() == 0 {
        None
    } else if is_tel(lines[0]) {
        let phone = trimmed(after_last(trimmed(lines[0]), ':'));
        if phone.len() > 0 {
            Some(phone)
        } else {
            None
        }
    } else {
        tel_of(lines.drop_first())
    }
}

/// The first phone number of a vCard.
pub fn phone_from_vcard(vcard: &str) -> (r: Option<String>)
    ensures
        match r {
            Some(p) => tel_of(lines(vcard@)) == Some(p@),
            None => tel_of(lines(vcard@)) is None,
        },
{
    let all = lines_of(vcard);
    let mut i: usize = 0;
    assert(views(all@).skip(0) =~= views(all@));
    while i < all.len()
        invariant
            i <= all.len(),
            views(all@) == lines(vcard@),
            tel_of(lines(vcard@)) == tel_of(views(all@).skip(i as int)),
        decreases all.len() - i,
    {
        let line = trim(all[i].as_str());
        assert(views(all@).skip(i as int)[0] == all@[i as int]@);
        if starts_with(to_ascii_lower(line).as_str(), "tel") {
            let phone = trim(after_last_char(line, ':'));
            if phone.is_empty() {
                return None;
            }
            return Some(phone.to_owned());
        }
        assert(views(all@).skip(i as int).drop_first() =~= views(all@).skip(i + 1));
        i = i + 1;
    }
    None
}

/// A shared contact card.
pub open spec fn contact_line(name: Option<Seq<char>>, vcard: Option<Seq<char>>) -> Seq<char> {
    let shown = match label(name) {
        Some(n) => n,
        None => "unnamed"@,
    };
    let phone = match vcard {
        Some(v) => tel_of(lines(v)),
        None => None,
    };
    match phone {
        Some(p) => "[contact] "@ + shown + " - "@ + p,
        None => "[contact] "@ + shown,
    }
}

/// Describes a shared contact: a name, and a number when one is present.
pub fn describe_contact(display_name: Option<&str>, vcard: Option<&str>) -> (r: String)
    ensures
        r@ == contact_line(text_of(display_name), text_of(vcard)),
{
    let name = match label_of(display_name) {
        Some(n) => n,
        None => "unnamed",
    };
    let phone = match vcard {
        Some(v) => phone_from_vcard(v),
        None => None,
    };
    match phone {
        Some(p) => cat4("[contact] ", name, " - ", p.as_str()),
        None => cat2("[contact] ", name),
    }
}

/// A reaction; an empty emoji is a reaction being removed and says nothing.
pub open spec fn reaction_line(emoji: Option<Seq<char>>, target: Option<Seq<char>>) -> Option<
    Seq<char>,
> {
    match label(emoji) {
        Some(e) => Some(
            "[reaction] "@ + e + " on message "@ + (match target {
                Some(t) => t,
                None => "unknown message"@,
            }),
        ),
        None => None,
    }
}

/// Describes an inbound reaction on one of our messages.
pub fn describe_reaction(emoji: Option<&str>, target: Option<&str>) -> (r: Option<String>)
    ensures
        match r {
            Some(s) => reaction_line(text_of(emoji), text_of(target)) == Some(s@),
            None => reaction_line(text_of(emoji), text_of(target)) is None,
        },
{
    match label_of(emoji) {
        Some(e) => {
            let t = match target {
                Some(t) => t,
                None => "unknown message",
            };
            Some(cat4("[reaction] ", e, " on message ", t))
        },
        None => None,
    }
}

/// A label is what stands between white space, and a blank one is none.
pub proof fn law_labels(a: Seq<char>, s: Seq<char>, b: Seq<char>)
    requires
        forall|i: int| 0 <= i < a.len() ==> is_space(a[i]),
        forall|i: int| 0 <= i < b.len() ==> is_space(b[i]),
        s.len() > 0 ==> !is_space(s[0]) && !is_space(s.last()),
    ensures
        s.len() > 0 ==> label(Some(a + s + b)) == Some(s),
        s.len() == 0 ==> label(Some(a + s + b)) is None,
        label(None) is None,
{
    law_trimming_leaves_the_text(a, s, b);
}

/// A location tells its coordinates in order, and each label that came with
/// it.
pub proof fn law_locations_are_told(
    lat: Seq<char>,
    lng: Seq<char>,
    name: Option<Seq<char>>,
    address: Option<Seq<char>>,
)
    ensures
        has_prefix(location_line(lat, lng, name, address), "[location] "@ + lat + ", "@ + lng),
        label(name) is Some ==> tells(
            location_line(lat, lng, name, address),
            " ("@ + label(name)->0 + ")"@,
        ),
        label(address) is Some ==> tells(
            location_line(lat, lng, name, address),
            " - "@ + label(address)->0,
        ),
        has_prefix(live_location_line(lat, lng, name), "[live location] "@ + lat + ", "@ + lng),
        label(name) is Some ==> tells(
            live_location_line(lat, lng, name),
            " - "@ + label(name)->0,
        ),
{
    let head = "[location] "@ + lat + ", "@ + lng;
    let n = match label(name) {
        Some(n) => " ("@ + n + ")"@,
        None => Seq::empty(),
    };
    let a = match label(address) {
        Some(a) => " - "@ + a,
        None => Seq::empty(),
    };
    let t = location_line(lat, lng, name, address);
    let none = Seq::<char>::empty();
    assert(t == head + n + a);
    assert(t.subrange(0, head.len() as int) =~= head);
    lemma_tells(t, head, n, a);
    assert(t =~= (head + n) + a + none);
    lemma_tells(t, head + n, a, none);
    let live = live_location_line(lat, lng, name);
    let h = "[live location] "@ + lat + ", "@ + lng;
    assert(live.subrange(0, h.len() as int) =~= h);
    if label(name) is Some {
        let c = " - "@ + label(name)->0;
        assert(live =~= h + c + none);
        lemma_tells(live, h, c, none);
    }
}

/// A card's number is that of its first telephone line, behind the last colon;
/// a card without such a line has none.
pub proof fn law_first_telephone_counts(a: Seq<Seq<char>>, l: Seq<char>, b: Seq<Seq<char>>)
    requires
        forall|i: int| 0 <= i < a.len() ==> !is_tel(#[trigger] a[i]),
    ensures
        is_tel(l) && trimmed(after_last(trimmed(l), ':')).len() > 0 ==> tel_of(a.push(l) + b)
            == Some(trimmed(after_last(trimmed(l), ':'))),
        is_tel(l) && trimmed(after_last(trimmed(l), ':')).len() == 0 ==> tel_of(a.push(l) + b)
            is None,
        tel_of(a) is None,
        is_tel(l) <==> has_prefix(ascii_lower(trimmed(l)), "tel"@),
    decreases a.len(),
{
    let all = a.push(l) + b;
    if a.len() == 0 {
        assert(all[0] == l);
    } else {
        assert(all[0] == a[0]);
        assert(all.drop_first() =~= a.drop_first().push(l) + b);
        law_first_telephone_counts(a.drop_first(), l, b);
    }
}

/// A contact is told by its name and, where its card has one, its number.
pub proof fn law_contacts_are_told(name: Option<Seq<char>>, vcard: Option<Seq<char>>)
    ensures
        label(name) is Some ==> has_prefix(
            contact_line(name, vcard),
            "[contact] "@ + label(name)->0,
        ),
        label(name) is None ==> has_prefix(contact_line(name, vcard), "[contact] "@ + "unnamed"@),
        vcard is Some && tel_of(lines(vcard->0)) is Some ==> tells(
            contact_line(name, vcard),
            " - "@ + tel_of(lines(vcard->0))->0,
        ),
        vcard is None && label(name) is Some ==> contact_line(name, vcard) == "[contact] "@ + label(
            name,
        )->0,
{
    let shown = match label(name) {
        Some(n) => n,
        None => "unnamed"@,
    };
    let t = contact_line(name, vcard);
    let head = "[contact] "@ + shown;
    assert(t.subrange(0, head.len() as int) =~= head);
    if vcard is Some && tel_of(lines(vcard->0)) is Some {
        let p = " - "@ + tel_of(lines(vcard->0))->0;
        assert(t =~= head + p + Seq::<char>::empty());
        lemma_tells(t, head, p, Seq::empty());
    }
}

/// A reaction tells its emoji and the message; one that is being removed tells
/// nothing.
pub proof fn law_reactions_are_told(emoji: Option<Seq<char>>, target: Option<Seq<char>>)
    ensures
        reaction_line(emoji, target) is Some <==> label(emoji) is Some,
        label(emoji) is Some && target is Some ==> reaction_line(emoji, target) == Some(
            "[reaction] "@ + label(emoji)->0 + " on message "@ + target->0,
        ),
        label(emoji) is Some && target is None ==> reaction_line(emoji, target) == Some(
            "[reaction] "@ + label(emoji)->0 + " on message "@ + "unknown message"@,
        ),
{
}

} // verus!
