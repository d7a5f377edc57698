//! Canonical inputs and the keys derived from them.
//!
//! Two inputs are the same decision when they have the same canonical text and
//! share tier, policy version and normalizer version.
use vstd::prelude::*;
use vstd::utf8::{encode_utf8, encode_utf8_decode_utf8};

use crate::json::{
    literal, member_views, render_object, rendered_member, rendered_object, to_literal, Json,
};
use crate::search::{join, law_join_from_the_front, lemma_join_push};
use crate::regexes::{replace_all, replaced};
use crate::sort::{lemma_lex_total, lemma_lex_trans, lex_le, str_le};
use crate::text::cat3;

verus! {

/// Version of the masking rules.
pub const NORMALIZER_VERSION: &'static str = "v1";

// ------------------------------------------------------------------ masking
/// One masking rule.
pub open spec fn masked_by(pattern: Seq<char>, s: Seq<char>, by: Seq<char>) -> Seq<char> {
    match replaced(pattern, s, by) {
        Some(t) => t,
        None => s,
    }
}

/// A text leaf with its volatile parts masked: date-times first, so that the
/// rule for bare dates cannot eat their date half, then dates, UUIDs, IPv4
/// addresses and home or temporary paths. Numbers are not masked.
pub open spec fn masked(s: Seq<char>) -> Seq<char> {
    let s = masked_by(
        r"\d{4}-\d{2}-\d{2}[T ]\d{2}:\d{2}(:\d{2})?(\.\d+)?(Z|[+-]\d{2}:?\d{2})?"@,
        s,
        "<ts>"@,
    );
    let s = masked_by(r"\d{4}-\d{2}-\d{2}"@, s, "<date>"@);
    let s = masked_by(
        r"[0-9a-fA-F]{8}-[0-9a-fA-F]{4}-[0-9a-fA-F]{4}-[0-9a-fA-F]{4}-[0-9a-fA-F]{12}"@,
        s,
        "<uuid>"@,
    );
    let s = masked_by(r"\b\d{1,3}\.\d{1,3}\.\d{1,3}\.\d{1,3}(:\d{1,5})?\b"@, s, "<ip>"@);
    masked_by("(?:/Users|/home|/root|/private/tmp|/tmp|/var/folders)/[^\\s\"']+"@, s, "<path>"@)
}

fn mask_with(pattern: &str, s: String, by: &str) -> (r: String)
    ensures
        r@ == masked_by(pattern@, s@, by@),
{
    match replace_all(pattern, s.as_str(), by) {
        Some(t) => t,
        None => s,
    }
}

/// Masks the volatile parts of one text leaf.
pub fn mask_volatile(s: &str) -> (r: String)
    ensures
        r@ == masked(s@),
{
    let s = mask_with(
        r"\d{4}-\d{2}-\d{2}[T ]\d{2}:\d{2}(:\d{2})?(\.\d+)?(Z|[+-]\d{2}:?\d{2})?",
        s.to_owned(),
        "<ts>",
    );
    let s = mask_with(r"\d{4}-\d{2}-\d{2}", s, "<date>");
    let s = mask_with(
        r"[0-9a-fA-F]{8}-[0-9a-fA-F]{4}-[0-9a-fA-F]{4}-[0-9a-fA-F]{4}-[0-9a-fA-F]{12}",
        s,
        "<uuid>",
    );
    let s = mask_with(r"\b\d{1,3}\.\d{1,3}\.\d{1,3}\.\d{1,3}(:\d{1,5})?\b", s, "<ip>");
    mask_with("(?:/Users|/home|/root|/private/tmp|/tmp|/var/folders)/[^\\s\"']+", s, "<path>")
}

// ------------------------------------------------------------ canonical text
/// A member placed among members in the order of their keys.
pub open spec fn place(s: Seq<(Seq<char>, Seq<char>)>, x: (Seq<char>, Seq<char>)) -> Seq<
    (Seq<char>, Seq<char>),
>
    decreases s.len(),
{
    if s.len() == 0 || lex_le(s.last().0, x.0) {
        s.push(x)
    } else {
        place(s.drop_last(), x).push(s.last())
    }
}

/// The canonical text of a value: keys sorted at every level, text leaves
/// masked, array order kept.
pub open spec fn canonical(j: Json) -> Seq<char>
    decreases j, 0nat,
{
    match j {
        Json::Null => "null"@,
        Json::Bool(b) => if b {
            "true"@
        } else {
            "false"@
        },
        Json::Number(n) => n@,
        Json::Str(s) => literal(masked(s@)),
        Json::Array(v) => "["@ + canonical_items(v, v@.len()) + "]"@,
        Json::Object(v) => rendered_object(canonical_members(v, v@.len())),
    }
}

/// The canonical texts of the first `n` items of an array.
pub open spec fn canonical_items(v: Vec<Json>, n: nat) -> Seq<char>
    decreases v, n,
{
    if n == 0 || n > v@.len() {
        Seq::empty()
    } else {
        canonical_items(v, (n - 1) as nat) + (if n == 1 {
            Seq::empty()
        } else {
            ","@
        }) + canonical(v@[n - 1])
    }
}

/// The first `n` members of an object, canonical and in the order of their
/// keys.
pub open spec fn canonical_members(v: Vec<(String, Json)>, n: nat) -> Seq<(Seq<char>, Seq<char>)>
    decreases v, n,
{
    if n == 0 || n > v@.len() {
        Seq::empty()
    } else {
        place(canonical_members(v, (n - 1) as nat), (v@[n - 1].0@, canonical(v@[n - 1].1)))
    }
}

proof fn lemma_place_at(s: Seq<(Seq<char>, Seq<char>)>, x: (Seq<char>, Seq<char>), n: int)
    requires
        0 <= n <= s.len(),
        forall|i: int| n <= i < s.len() ==> !lex_le((#[trigger] s[i]).0, x.0),
        n > 0 ==> lex_le(s[n - 1].0, x.0),
    ensures
        place(s, x) == s.insert(n, x),
    decreases s.len(),
{
    if n == s.len() {
        assert(s.insert(n, x) =~= s.push(x));
    } else {
        assert(!lex_le(s[s.len() - 1].0, x.0));
        let t = s.drop_last();
        assert forall|i: int| n <= i < t.len() implies !lex_le((#[trigger] t[i]).0, x.0) by {
            assert(!lex_le(s[i].0, x.0));
        }
        lemma_place_at(t, x, n);
        assert(t.insert(n, x).push(s.last()) =~= s.insert(n, x));
    }
}

fn place_member(v: &mut Vec<(String, String)>, key: String, text: String)
    ensures
        member_views(final(v)@) == place(member_views(old(v)@), (key@, text@)),
{
    let mut n: usize = v.len();
    while n > 0 && !str_le(v[n - 1].0.as_str(), key.as_str())
        invariant
            n <= v.len(),
            v@ == old(v)@,
            forall|i: int|
                n <= i < v.len() ==> !lex_le((#[trigger] member_views(v@)[i]).0, key@),
        decreases n,
    {
        assert(member_views(v@)[n - 1].0 == v@[n - 1].0@);
        n = n - 1;
    }
    proof {
        if n > 0 {
            assert(member_views(v@)[n - 1].0 == v@[n - 1].0@);
        }
        lemma_place_at(member_views(v@), (key@, text@), n as int);
    }
    let ghost x = (key@, text@);
    v.insert(n, (key, text));
    assert(member_views(v@) =~= member_views(old(v)@).insert(n as int, x));
}

/// The canonical text of a value.
pub fn canonical_json(value: &Json) -> (r: String)
    ensures
        r@ == canonical(*value),
    decreases value, 0nat,
{
    match value {
        Json::Null => "null".to_owned(),
        Json::Bool(b) => if *b {
            "true".to_owned()
        } else {
            "false".to_owned()
        },
        Json::Number(n) => n.clone(),
        Json::Str(s) => to_literal(mask_volatile(s.as_str()).as_str()),
        Json::Array(v) => {
            let mut out = String::new();
            let mut i: usize = 0;
            while i < v.len()
                invariant
                    i <= v.len(),
                    value is Array && value->Array_0 == *v,
                    out@ == canonical_items(*v, i as nat),
                decreases v.len() - i,
            {
                if i > 0 {
                    out.append(",");
                } else {
                    assert(out@ + Seq::<char>::empty() =~= out@);
                }
                assert(decreases_to!(*v => v[i as int]));
                out.append(canonical_json(&v[i]).as_str());
                i = i + 1;
            }
            cat3("[", out.as_str(), "]")
        },
        Json::Object(v) => {
            let mut members: Vec<(String, String)> = Vec::new();
            let mut i: usize = 0;
            assert(member_views(members@) =~= Seq::empty());
            while i < v.len()
                invariant
                    i <= v.len(),
                    value is Object && value->Object_0 == *v,
                    member_views(members@) == canonical_members(*v, i as nat),
                decreases v.len() - i,
            {
                assert(decreases_to!(*v => v[i as int]));
                let text = canonical_json(&v[i].1);
                place_member(&mut members, v[i].0.clone(), text);
                i = i + 1;
            }
            render_object(&members)
        },
    }
}

// ---------------------------------------------------------------------- keys
/// Domain separation of the keys.
pub open spec fn key_domain() -> Seq<u8> {
    encode_utf8("oc-decision-cache-v1"@)
}

/// Separates the parts of a key.
pub const FIELD_SEP: u8 = 0x1f;

/// The SHA-256 digest of bytes in lower-case hexadecimal, as `sha2` computes it.
pub uninterp spec fn sha256_hex(bytes: Seq<u8>) -> Seq<char>;

/// `sha2::Sha256::digest`, rendered in lower-case hexadecimal. The digest
/// depends on the bytes alone and is named; beside the name the contract
/// claims its length.
#[verifier::external_body]
pub(crate) fn digest_hex(bytes: &Vec<u8>) -> (r: String)
    ensures
        r@ == sha256_hex(bytes@),
        r@.len() == 64,
{
    format!("{:x}", <sha2::Sha256 as sha2::Digest>::digest(bytes.as_slice()))
}

/// The bytes whose digest is a decision's key: the domain, then each part
/// behind a separator.
pub open spec fn preimage(
    tier: Seq<u8>,
    policy: Seq<u8>,
    normalizer: Seq<u8>,
    canonical: Seq<u8>,
) -> Seq<u8> {
    key_domain() + seq![FIELD_SEP] + tier + seq![FIELD_SEP] + policy + seq![FIELD_SEP] + normalizer
        + seq![FIELD_SEP] + canonical
}

/// The key of a decision.
pub open spec fn key_of(
    tier: Seq<char>,
    policy: Seq<char>,
    normalizer: Seq<char>,
    canonical: Seq<char>,
) -> Seq<char> {
    sha256_hex(
        preimage(
            encode_utf8(tier),
            encode_utf8(policy),
            encode_utf8(normalizer),
            encode_utf8(canonical),
        ),
    )
}

fn push_bytes(v: &mut Vec<u8>, s: &str)
    ensures
        final(v)@ == old(v)@ + encode_utf8(s@),
{
    let b = s.as_bytes();
    let mut i: usize = 0;
    assert(v@ =~= old(v)@ + encode_utf8(s@).take(0));
    while i < b.len()
        invariant
            i <= b@.len(),
            b@ == encode_utf8(s@),
            v@ == old(v)@ + encode_utf8(s@).take(i as int),
        decreases b@.len() - i,
    {
        v.push(b[i]);
        assert(v@ =~= old(v)@ + encode_utf8(s@).take(i + 1));
        i = i + 1;
    }
    assert(encode_utf8(s@).take(i as int) =~= encode_utf8(s@));
}

fn push_sep(v: &mut Vec<u8>)
    ensures
        final(v)@ == old(v)@ + seq![FIELD_SEP],
{
    v.push(FIELD_SEP);
    assert(v@ =~= old(v)@ + seq![FIELD_SEP]);
}

/// The bytes whose digest is a decision's key.
pub fn key_bytes(
    tier_id: &str,
    policy_version: &str,
    normalizer_version: &str,
    canonical_text: &str,
) -> (r: Vec<u8>)
    ensures
        r@ == preimage(
            encode_utf8(tier_id@),
            encode_utf8(policy_version@),
            encode_utf8(normalizer_version@),
            encode_utf8(canonical_text@),
        ),
{
    let mut v: Vec<u8> = Vec::new();
    push_bytes(&mut v, "oc-decision-cache-v1");
    assert(v@ =~= key_domain());
    push_sep(&mut v);
    push_bytes(&mut v, tier_id);
    push_sep(&mut v);
    push_bytes(&mut v, policy_version);
    push_sep(&mut v);
    push_bytes(&mut v, normalizer_version);
    push_sep(&mut v);
    push_bytes(&mut v, canonical_text);
    v
}

/// The key of a decision: the digest of the domain and the four identity
/// parts.
pub fn decision_key(
    tier_id: &str,
    policy_version: &str,
    normalizer_version: &str,
    canonical_text: &str,
) -> (r: String)
    ensures
        r@ == key_of(tier_id@, policy_version@, normalizer_version@, canonical_text@),
        r@.len() == 64,
{
    digest_hex(&key_bytes(tier_id, policy_version, normalizer_version, canonical_text))
}

// -------------------------------------------------------------------- laws
proof fn lemma_split_at_sep(a: Seq<u8>, x: Seq<u8>, b: Seq<u8>, y: Seq<u8>)
    requires
        !a.contains(FIELD_SEP),
        !b.contains(FIELD_SEP),
        a + seq![FIELD_SEP] + x == b + seq![FIELD_SEP] + y,
    ensures
        a == b,
        x == y,
{
    let l = a + seq![FIELD_SEP] + x;
    let r = b + seq![FIELD_SEP] + y;
    if a.len() < b.len() {
        assert(l[a.len() as int] == FIELD_SEP);
        assert(r[a.len() as int] == b[a.len() as int]);
        assert(b.contains(FIELD_SEP));
    } else if b.len() < a.len() {
        assert(r[b.len() as int] == FIELD_SEP);
        assert(l[b.len() as int] == a[b.len() as int]);
        assert(a.contains(FIELD_SEP));
    }
    assert(a =~= b) by {
        assert forall|i: int| 0 <= i < a.len() implies a[i] == b[i] by {
            assert(l[i] == a[i] && r[i] == b[i]);
        }
    }
    assert(x =~= y) by {
        assert(l.len() == r.len());
        assert forall|i: int| 0 <= i < x.len() implies x[i] == y[i] by {
            assert(l[a.len() + 1 + i] == x[i] && r[b.len() + 1 + i] == y[i]);
        }
    }
}

/// The parts of a key cannot run into each other: two decisions with the same
/// bytes under the digest agree in every part, as long as tier and versions
/// hold no separator.
pub proof fn law_parts_cannot_forge(
    a: (Seq<char>, Seq<char>, Seq<char>, Seq<char>),
    b: (Seq<char>, Seq<char>, Seq<char>, Seq<char>),
)
    requires
        !encode_utf8(a.0).contains(FIELD_SEP),
        !encode_utf8(a.1).contains(FIELD_SEP),
        !encode_utf8(a.2).contains(FIELD_SEP),
        !encode_utf8(b.0).contains(FIELD_SEP),
        !encode_utf8(b.1).contains(FIELD_SEP),
        !encode_utf8(b.2).contains(FIELD_SEP),
        preimage(encode_utf8(a.0), encode_utf8(a.1), encode_utf8(a.2), encode_utf8(a.3))
            == preimage(encode_utf8(b.0), encode_utf8(b.1), encode_utf8(b.2), encode_utf8(b.3)),
    ensures
        a == b,
{
    let sep = seq![FIELD_SEP];
    let (a0, a1, a2, a3) = (
        encode_utf8(a.0),
        encode_utf8(a.1),
        encode_utf8(a.2),
        encode_utf8(a.3),
    );
    let (b0, b1, b2, b3) = (
        encode_utf8(b.0),
        encode_utf8(b.1),
        encode_utf8(b.2),
        encode_utf8(b.3),
    );
    let d = key_domain() + sep;
    let ta = a0 + sep + (a1 + sep + (a2 + sep + a3));
    let tb = b0 + sep + (b1 + sep + (b2 + sep + b3));
    assert(preimage(a0, a1, a2, a3) =~= d + ta);
    assert(preimage(b0, b1, b2, b3) =~= d + tb);
    assert(ta =~= (d + ta).skip(d.len() as int));
    assert(tb =~= (d + tb).skip(d.len() as int));
    lemma_split_at_sep(a0, a1 + sep + (a2 + sep + a3), b0, b1 + sep + (b2 + sep + b3));
    lemma_split_at_sep(a1, a2 + sep + a3, b1, b2 + sep + b3);
    lemma_split_at_sep(a2, a3, b2, b3);
    lemma_utf8_injective(a.0, b.0);
    lemma_utf8_injective(a.1, b.1);
    lemma_utf8_injective(a.2, b.2);
    lemma_utf8_injective(a.3, b.3);
}

proof fn lemma_utf8_injective(a: Seq<char>, b: Seq<char>)
    requires
        encode_utf8(a) == encode_utf8(b),
    ensures
        a == b,
{
    encode_utf8_decode_utf8(a);
    encode_utf8_decode_utf8(b);
}

/// The members of an object with their canonical texts, as they are written.
pub open spec fn member_texts(v: Vec<(String, Json)>) -> Seq<(Seq<char>, Seq<char>)> {
    v@.map_values(|m: (String, Json)| (m.0@, canonical(m.1)))
}

/// No key occurs twice.
pub open spec fn distinct_keys(s: Seq<(Seq<char>, Seq<char>)>) -> bool {
    forall|i: int, j: int| #![trigger s[i], s[j]] 0 <= i < j < s.len() ==> s[i].0 != s[j].0
}

/// The order of members: by key, then by text.
pub open spec fn member_le(a: (Seq<char>, Seq<char>), b: (Seq<char>, Seq<char>)) -> bool {
    if a.0 == b.0 {
        lex_le(a.1, b.1)
    } else {
        lex_le(a.0, b.0)
    }
}

proof fn lemma_member_order()
    ensures
        vstd::relations::total_ordering(
            |a: (Seq<char>, Seq<char>), b: (Seq<char>, Seq<char>)| member_le(a, b),
        ),
{
    let le = |a: (Seq<char>, Seq<char>), b: (Seq<char>, Seq<char>)| member_le(a, b);
    assert forall|a: (Seq<char>, Seq<char>)| #[trigger] le(a, a) by {
        lemma_lex_total(a.1, a.1);
    }
    assert forall|a: (Seq<char>, Seq<char>), b: (Seq<char>, Seq<char>)|
        #[trigger] le(a, b) && #[trigger] le(b, a) implies a == b by {
        lemma_lex_total(a.0, b.0);
        lemma_lex_total(a.1, b.1);
    }
    assert forall|
        a: (Seq<char>, Seq<char>),
        b: (Seq<char>, Seq<char>),
        c: (Seq<char>, Seq<char>),
    | #[trigger] le(a, b) && #[trigger] le(b, c) implies le(a, c) by {
        if a.0 == b.0 && b.0 == c.0 {
            lemma_lex_trans(a.1, b.1, c.1);
        } else if a.0 != b.0 && b.0 != c.0 {
            lemma_lex_trans(a.0, b.0, c.0);
            lemma_lex_total(a.0, b.0);
        }
    }
    assert forall|a: (Seq<char>, Seq<char>), b: (Seq<char>, Seq<char>)|
        #[trigger] le(a, b) || #[trigger] le(b, a) by {
        lemma_lex_total(a.0, b.0);
        lemma_lex_total(a.1, b.1);
    }
}

spec fn ordered(s: Seq<(Seq<char>, Seq<char>)>) -> bool {
    vstd::relations::sorted_by(
        s,
        |a: (Seq<char>, Seq<char>), b: (Seq<char>, Seq<char>)| member_le(a, b),
    )
}

proof fn lemma_place_sorted(s: Seq<(Seq<char>, Seq<char>)>, x: (Seq<char>, Seq<char>))
    requires
        ordered(s),
        forall|i: int| 0 <= i < s.len() ==> (#[trigger] s[i]).0 != x.0,
    ensures
        ordered(place(s, x)),
        place(s, x).to_multiset() == s.to_multiset().insert(x),
        place(s, x).len() == s.len() + 1,
        place(s, x).last() == x || (s.len() > 0 && place(s, x).last() == s.last()),
    decreases s.len(),
{
    broadcast use vstd::seq_lib::group_to_multiset_ensures;

    let le = |a: (Seq<char>, Seq<char>), b: (Seq<char>, Seq<char>)| member_le(a, b);
    lemma_member_order();
    let r = place(s, x);
    if s.len() == 0 || lex_le(s.last().0, x.0) {
        assert forall|i: int, j: int| 0 <= i < j < r.len() implies #[trigger] le(r[i], r[j]) by {
            if j == s.len() {
                assert(s[s.len() - 1].0 != x.0);
                assert(le(s.last(), x));
                if i < s.len() - 1 {
                    assert(le(s[i], s[s.len() - 1]));
                    assert(le(s[i], x));
                }
            } else {
                assert(le(s[i], s[j]));
            }
        }
    } else {
        let t = s.drop_last();
        let top = s.last();
        assert(s[s.len() - 1].0 != x.0);
        lemma_lex_total(top.0, x.0);
        assert(le(x, top));
        assert(ordered(t)) by {
            assert forall|i: int, j: int| 0 <= i < j < t.len() implies #[trigger] le(
                t[i],
                t[j],
            ) by {
                assert(le(s[i], s[j]));
            }
        }
        assert forall|i: int| 0 <= i < t.len() implies (#[trigger] t[i]).0 != x.0 by {
            assert(s[i].0 != x.0);
        }
        lemma_place_sorted(t, x);
        let q = place(t, x);
        assert(le(q.last(), top)) by {
            if q.last() != x {
                assert(le(s[t.len() - 1], s[s.len() - 1]));
            }
        }
        assert forall|i: int, j: int| 0 <= i < j < r.len() implies #[trigger] le(r[i], r[j]) by {
            if j == q.len() {
                if i < q.len() - 1 {
                    assert(le(q[i], q[q.len() - 1]));
                }
            } else {
                assert(le(q[i], q[j]));
            }
        }
        assert(s =~= t.push(top));
        assert(t.to_multiset().insert(x).insert(top) =~= t.to_multiset().insert(top).insert(x));
    }
}

proof fn lemma_members_sorted(v: Vec<(String, Json)>, n: nat)
    requires
        n <= v@.len(),
        distinct_keys(member_texts(v)),
    ensures
        ordered(canonical_members(v, n)),
        canonical_members(v, n).to_multiset() == member_texts(v).take(n as int).to_multiset(),
    decreases n,
{
    broadcast use vstd::seq_lib::group_to_multiset_ensures;

    let all = member_texts(v);
    if n == 0 {
        assert(all.take(0) =~= Seq::empty());
        assert(canonical_members(v, 0) =~= Seq::empty());
    } else {
        let m = (n - 1) as nat;
        lemma_members_sorted(v, m);
        let s = canonical_members(v, m);
        let x = all[n - 1];
        assert forall|i: int| 0 <= i < s.len() implies (#[trigger] s[i]).0 != x.0 by {
            assert(s.to_multiset().contains(s[i])) by {
                assert(s.contains(s[i]));
            }
            let t = all.take(m as int);
            assert(t.to_multiset().contains(s[i]));
            assert(t.contains(s[i]));
            let k = choose|k: int| 0 <= k < t.len() && t[k] == s[i];
            assert(all[k] == s[i]);
            assert(all[k].0 != all[n - 1].0);
        }
        lemma_place_sorted(s, x);
        assert(all.take(n as int) =~= all.take(m as int).push(x));
    }
}

/// The order in which an object's members are written does not matter: the
/// same members give the same canonical text, and so the same key.
pub proof fn law_member_order_does_not_matter(v: Vec<(String, Json)>, w: Vec<(String, Json)>)
    requires
        distinct_keys(member_texts(v)),
        distinct_keys(member_texts(w)),
        member_texts(v).to_multiset() == member_texts(w).to_multiset(),
    ensures
        canonical(Json::Object(v)) == canonical(Json::Object(w)),
{
    lemma_members_sorted(v, v@.len());
    lemma_members_sorted(w, w@.len());
    assert(member_texts(v).take(v@.len() as int) =~= member_texts(v));
    assert(member_texts(w).take(w@.len() as int) =~= member_texts(w));
    lemma_member_order();
    vstd::seq_lib::lemma_sorted_unique(
        canonical_members(v, v@.len()),
        canonical_members(w, w@.len()),
        |a: (Seq<char>, Seq<char>), b: (Seq<char>, Seq<char>)| member_le(a, b),
    );
}

// ------------------------------------------------- telling values apart
/// The texts of the items of an array.
pub open spec fn canonical_texts(v: Seq<Json>) -> Seq<Seq<char>> {
    v.map_values(|j: Json| canonical(j))
}

proof fn lemma_items_joined(v: Vec<Json>, n: nat)
    requires
        n <= v@.len(),
    ensures
        canonical_items(v, n) == join(canonical_texts(v@).take(n as int), ","@),
    decreases n,
{
    let all = canonical_texts(v@);
    if n == 0 {
        assert(all.take(0) =~= Seq::empty());
    } else {
        lemma_items_joined(v, (n - 1) as nat);
        assert(all.take(n as int) =~= all.take(n - 1).push(all[n - 1]));
        lemma_join_push(all.take(n - 1), ","@, all[n - 1]);
        assert(canonical_items(v, n) =~= join(all.take(n as int), ","@));
    }
}

/// Each plain value has a canonical text of its own: a truth value is not the
/// other one, a number is its digits, a text its masked form, quoted. An array
/// is its items' canonical texts, in order.
pub proof fn law_plain_values_are_told_apart(b: bool, n: String, s: String, v: Vec<Json>)
    ensures
        canonical(Json::Bool(b)) != canonical(Json::Bool(!b)),
        canonical(Json::Bool(b)) != canonical(Json::Null),
        canonical(Json::Bool(true)) == "true"@,
        canonical(Json::Bool(false)) == "false"@,
        canonical(Json::Null) == "null"@,
        canonical(Json::Number(n)) == n@,
        canonical(Json::Str(s)) == literal(masked(s@)),
        canonical(Json::Array(v)) == "["@ + join(canonical_texts(v@), ","@) + "]"@,
{
    reveal_strlit("true");
    reveal_strlit("false");
    reveal_strlit("null");
    assert("true"@.len() == 4 && "false"@.len() == 5 && "null"@[0] == 'n' && "true"@[0] == 't');
    lemma_items_joined(v, v@.len());
    assert(canonical_texts(v@).take(v@.len() as int) =~= canonical_texts(v@));
}

/// Whether quoted texts can be told where they end: a quoted text opens with a
/// quotation mark, and two of them with anything behind are the same only
/// where they quote the same text.
#[verifier::opaque]
pub open spec fn quotes_delimit() -> bool {
    &&& forall|a: Seq<char>| (#[trigger] literal(a)).len() > 0 && literal(a)[0] == '"'
    &&& forall|a: Seq<char>, b: Seq<char>, x: Seq<char>, y: Seq<char>|
        #[trigger] (literal(a) + x) == #[trigger] (literal(b) + y) ==> a == b
}

/// The characters that numbers are written with.
pub open spec fn number_char(c: char) -> bool {
    '0' <= c <= '9' || c == '-' || c == '+' || c == '.' || c == 'e' || c == 'E'
}

/// A text that can be a number.
pub open spec fn number_text(n: Seq<char>) -> bool {
    n.len() > 0 && n[0] != 'e' && forall|i: int| 0 <= i < n.len() ==> number_char(#[trigger] n[i])
}

/// Whether the numbers in a value are written as numbers.
pub open spec fn numbers_ok(j: Json) -> bool
    decreases j,
{
    match j {
        Json::Number(n) => number_text(n@),
        Json::Array(v) => forall|i: int| 0 <= i < v@.len() ==> numbers_ok(#[trigger] v@[i]),
        Json::Object(v) => forall|i: int| 0 <= i < v@.len() ==> numbers_ok((#[trigger] v@[i]).1),
        _ => true,
    }
}

/// What can stand behind a value.
spec fn stop(x: Seq<char>) -> bool {
    x.len() == 0 || x[0] == ',' || x[0] == ']' || x[0] == '}'
}

/// Neither text is the other with more behind it.
#[verifier::opaque]
spec fn apart(t: Seq<char>, u: Seq<char>) -> bool {
    forall|x: Seq<char>, y: Seq<char>|
        stop(x) && stop(y) && #[trigger] (t + x) == #[trigger] (u + y) ==> t == u
}

/// A text that opens like a value.
spec fn opens(t: Seq<char>) -> bool {
    t.len() > 0 && t[0] != ',' && t[0] != ']' && t[0] != '}'
}

proof fn lemma_apart(t: Seq<char>, u: Seq<char>, x: Seq<char>, y: Seq<char>)
    requires
        apart(t, u),
        stop(x),
        stop(y),
        t + x == u + y,
    ensures
        t == u,
{
    reveal(apart);
}

proof fn lemma_quotes(a: Seq<char>, b: Seq<char>, x: Seq<char>, y: Seq<char>)
    requires
        quotes_delimit(),
    ensures
        literal(a).len() > 0,
        literal(a)[0] == '"',
        literal(a) + x == literal(b) + y ==> a == b,
{
    reveal(quotes_delimit);
}

proof fn lemma_cancel(t: Seq<char>, x: Seq<char>, y: Seq<char>)
    requires
        t + x == t + y,
    ensures
        x == y,
{
    assert((t + x).skip(t.len() as int) =~= x);
    assert((t + y).skip(t.len() as int) =~= y);
}

/// What stands behind the first entry of a joined list.
spec fn behind(p: Seq<Seq<char>>, end: Seq<char>, x: Seq<char>) -> Seq<char> {
    if p.len() == 1 {
        end + x
    } else {
        ","@ + (join(p.drop_first(), ","@) + (end + x))
    }
}

proof fn lemma_behind(p: Seq<Seq<char>>, end: Seq<char>, x: Seq<char>)
    requires
        p.len() > 0,
        end == "]"@ || end == "}"@,
    ensures
        join(p, ","@) + (end + x) == p[0] + behind(p, end, x),
        stop(behind(p, end, x)),
        behind(p, end, x).len() > 0,
        (behind(p, end, x)[0] == ',') == (p.len() > 1),
{
    reveal_strlit(",");
    reveal_strlit("]");
    reveal_strlit("}");
    law_join_from_the_front(p, ","@);
    assert(join(p, ","@) + (end + x) =~= p[0] + behind(p, end, x));
    assert(","@[0] == ',' && "]"@[0] == ']' && "}"@[0] == '}');
}

proof fn lemma_lists_apart(
    p: Seq<Seq<char>>,
    q: Seq<Seq<char>>,
    end: Seq<char>,
    x: Seq<char>,
    y: Seq<char>,
)
    requires
        end == "]"@ || end == "}"@,
        forall|i: int, j: int|
            0 <= i < p.len() && 0 <= j < q.len() ==> apart(#[trigger] p[i], #[trigger] q[j]),
        forall|i: int| 0 <= i < p.len() ==> opens(#[trigger] p[i]),
        forall|i: int| 0 <= i < q.len() ==> opens(#[trigger] q[i]),
        join(p, ","@) + (end + x) == join(q, ","@) + (end + y),
    ensures
        p == q,
        x == y,
    decreases p.len(),
{
    reveal_strlit("]");
    reveal_strlit("}");
    assert("]"@[0] == ']' && "}"@[0] == '}' && "]"@.len() == 1 && "}"@.len() == 1);
    if p.len() == 0 || q.len() == 0 {
        if p.len() > 0 {
            lemma_behind(p, end, x);
            assert(opens(p[0]));
            assert((join(q, ","@) + (end + y))[0] == end[0]);
            assert((p[0] + behind(p, end, x))[0] == p[0][0]);
        }
        if q.len() > 0 {
            lemma_behind(q, end, y);
            assert(opens(q[0]));
            assert((join(p, ","@) + (end + x))[0] == end[0]);
            assert((q[0] + behind(q, end, y))[0] == q[0][0]);
        }
        assert(p =~= q);
        assert(join(p, ","@) + (end + x) =~= end + x);
        assert(join(q, ","@) + (end + y) =~= end + y);
        lemma_cancel(end, x, y);
    } else {
        lemma_behind(p, end, x);
        lemma_behind(q, end, y);
        assert(apart(p[0], q[0]));
        lemma_apart(p[0], q[0], behind(p, end, x), behind(q, end, y));
        let bp = behind(p, end, x);
        let bq = behind(q, end, y);
        assert(p[0] + bp == q[0] + bq);
        assert(p[0] == q[0]);
        lemma_cancel(p[0], bp, bq);
        assert((bp[0] == ',') == (bq[0] == ','));
        if p.len() == 1 {
            lemma_cancel(end, x, y);
            assert(p =~= q);
        } else {
            let p1 = p.drop_first();
            let q1 = q.drop_first();
            lemma_cancel(
                ","@,
                join(p1, ","@) + (end + x),
                join(q1, ","@) + (end + y),
            );
            assert forall|i: int, j: int| 0 <= i < p1.len() && 0 <= j < q1.len() implies apart(
                #[trigger] p1[i],
                #[trigger] q1[j],
            ) by {
                assert(apart(p[i + 1], q[j + 1]));
            }
            assert forall|i: int| 0 <= i < p1.len() implies opens(#[trigger] p1[i]) by {
                assert(opens(p[i + 1]));
            }
            assert forall|i: int| 0 <= i < q1.len() implies opens(#[trigger] q1[i]) by {
                assert(opens(q[i + 1]));
            }
            lemma_lists_apart(p1, q1, end, x, y);
            assert(p =~= seq![p[0]] + p1);
            assert(q =~= seq![q[0]] + q1);
        }
    }
}

/// Every member stands among the canonical members, and nothing else does.
proof fn lemma_members_hold(v: Vec<(String, Json)>, n: nat)
    requires
        n <= v@.len(),
    ensures
        canonical_members(v, n).len() == n,
        forall|i: int|
            0 <= i < n ==> canonical_members(v, n).contains(
                ((#[trigger] v@[i]).0@, canonical(v@[i].1)),
            ),
        forall|k: int|
            0 <= k < n ==> exists|i: int|
                0 <= i < n && #[trigger] canonical_members(v, n)[k] == (
                    (#[trigger] v@[i]).0@,
                    canonical(v@[i].1),
                ),
    decreases n,
{
    if n > 0 {
        let m = (n - 1) as nat;
        lemma_members_hold(v, m);
        let s = canonical_members(v, m);
        let x = (v@[n - 1].0@, canonical(v@[n - 1].1));
        lemma_place_holds(s, x);
        let r = canonical_members(v, n);
        assert forall|i: int| 0 <= i < n implies r.contains(
            ((#[trigger] v@[i]).0@, canonical(v@[i].1)),
        ) by {
            if i < m {
                assert(s.contains((v@[i].0@, canonical(v@[i].1))));
            }
        }
        assert forall|k: int| 0 <= k < n implies exists|i: int|
            0 <= i < n && #[trigger] r[k] == ((#[trigger] v@[i]).0@, canonical(v@[i].1)) by {
            assert(r.contains(r[k]));
            if r[k] != x {
                let h = choose|h: int| 0 <= h < s.len() && s[h] == r[k];
                let i = choose|i: int|
                    0 <= i < m && s[h] == ((#[trigger] v@[i]).0@, canonical(v@[i].1));
                assert(r[k] == (v@[i].0@, canonical(v@[i].1)));
            } else {
                assert(r[k] == (v@[n - 1].0@, canonical(v@[n - 1].1)));
            }
        }
    }
}

proof fn lemma_place_holds(s: Seq<(Seq<char>, Seq<char>)>, x: (Seq<char>, Seq<char>))
    ensures
        place(s, x).len() == s.len() + 1,
        place(s, x).contains(x),
        forall|y: (Seq<char>, Seq<char>)|
            #[trigger] place(s, x).contains(y) <==> y == x || s.contains(y),
    decreases s.len(),
{
    let r = place(s, x);
    if s.len() == 0 || lex_le(s.last().0, x.0) {
        assert forall|y: (Seq<char>, Seq<char>)| #[trigger] r.contains(y) <==> y == x || s.contains(
            y,
        ) by {
            if s.contains(y) {
                let i = choose|i: int| 0 <= i < s.len() && s[i] == y;
                assert(r[i] == y);
            }
            if r.contains(y) {
                let i = choose|i: int| 0 <= i < r.len() && r[i] == y;
                if i < s.len() {
                    assert(s[i] == y);
                }
            }
            assert(r[s.len() as int] == x);
        }
        assert(r[s.len() as int] == x);
    } else {
        let t = s.drop_last();
        lemma_place_holds(t, x);
        let q = place(t, x);
        assert forall|y: (Seq<char>, Seq<char>)| #[trigger] r.contains(y) <==> y == x || s.contains(
            y,
        ) by {
            assert(q.contains(y) <==> y == x || t.contains(y));
            if r.contains(y) {
                let i = choose|i: int| 0 <= i < r.len() && r[i] == y;
                if i < q.len() {
                    assert(q[i] == y);
                    assert(q.contains(y));
                    if y != x {
                        let k = choose|k: int| 0 <= k < t.len() && t[k] == y;
                        assert(s[k] == y);
                    }
                } else {
                    assert(s[s.len() - 1] == y);
                }
            }
            if y == x || s.contains(y) {
                if y != x && y != s.last() {
                    let k = choose|k: int| 0 <= k < s.len() && s[k] == y;
                    assert(t[k] == y);
                }
                if y == x || y != s.last() {
                    assert(q.contains(y));
                    let i = choose|i: int| 0 <= i < q.len() && q[i] == y;
                    assert(r[i] == y);
                } else {
                    assert(r[r.len() - 1] == y);
                }
            }
        }
        assert(r.contains(x));
    }
}

proof fn lemma_opens(j: Json)
    requires
        quotes_delimit(),
        numbers_ok(j),
    ensures
        opens(canonical(j)),
        canonical(j)[0] == match j {
            Json::Null => 'n',
            Json::Bool(b) => if b {
                't'
            } else {
                'f'
            },
            Json::Number(n) => n@[0],
            Json::Str(s) => '"',
            Json::Array(v) => '[',
            Json::Object(v) => '{',
        },
{
    reveal_strlit("null");
    reveal_strlit("true");
    reveal_strlit("false");
    reveal_strlit("[");
    reveal_strlit("{");
    assert("null"@[0] == 'n' && "true"@[0] == 't' && "false"@[0] == 'f' && "["@[0] == '['
        && "{"@[0] == '{');
    match j {
        Json::Number(n) => {
            assert(number_char(n@[0]));
        },
        Json::Str(s) => {
            lemma_quotes(masked(s@), masked(s@), Seq::empty(), Seq::empty());
        },
        _ => {},
    }
}

/// The rendered members of an object.
spec fn member_parts(v: Vec<(String, Json)>) -> Seq<Seq<char>> {
    canonical_members(v, v@.len()).map_values(|m: (Seq<char>, Seq<char>)| rendered_member(m))
}

proof fn lemma_members_apart(
    m: (Seq<char>, Seq<char>),
    n: (Seq<char>, Seq<char>),
)
    requires
        quotes_delimit(),
        apart(m.1, n.1),
    ensures
        apart(rendered_member(m), rendered_member(n)),
        rendered_member(m) == rendered_member(n) ==> m.0 == n.0 && m.1 == n.1,
{
    assert(rendered_member(m) == rendered_member(n) ==> m.0 == n.0 && m.1 == n.1) by {
        if rendered_member(m) == rendered_member(n) {
            let e = Seq::<char>::empty();
            lemma_member_apart(m, n, e, e);
        }
    }
    assert(apart(rendered_member(m), rendered_member(n))) by {
        reveal(apart);
        assert forall|x: Seq<char>, y: Seq<char>|
            stop(x) && stop(y) && #[trigger] (rendered_member(m) + x) == #[trigger] (
            rendered_member(n) + y) implies rendered_member(m) == rendered_member(n) by {
            lemma_member_apart(m, n, x, y);
        }
    }
}

proof fn lemma_member_apart(
    m: (Seq<char>, Seq<char>),
    n: (Seq<char>, Seq<char>),
    x: Seq<char>,
    y: Seq<char>,
)
    requires
        quotes_delimit(),
        apart(m.1, n.1),
        stop(x),
        stop(y),
        rendered_member(m) + x == rendered_member(n) + y,
    ensures
        m.0 == n.0,
        m.1 == n.1,
{
    assert(rendered_member(m) + x =~= literal(m.0) + (":"@ + (m.1 + x)));
    assert(rendered_member(n) + y =~= literal(n.0) + (":"@ + (n.1 + y)));
    lemma_quotes(m.0, n.0, ":"@ + (m.1 + x), ":"@ + (n.1 + y));
    lemma_cancel(literal(m.0), ":"@ + (m.1 + x), ":"@ + (n.1 + y));
    lemma_cancel(":"@, m.1 + x, n.1 + y);
    lemma_apart(m.1, n.1, x, y);
}

proof fn lemma_arrays_agree(v: Vec<Json>, w: Vec<Json>, x: Seq<char>, y: Seq<char>)
    requires
        quotes_delimit(),
        numbers_ok(Json::Array(v)),
        numbers_ok(Json::Array(w)),
        forall|i: int, j: int|
            0 <= i < v@.len() && 0 <= j < w@.len() ==> apart(
                canonical(#[trigger] v@[i]),
                canonical(#[trigger] w@[j]),
            ),
        canonical(Json::Array(v)) + x == canonical(Json::Array(w)) + y,
    ensures
        canonical_texts(v@) == canonical_texts(w@),
        canonical(Json::Array(v)) == canonical(Json::Array(w)),
{
    lemma_items_joined(v, v@.len());
    lemma_items_joined(w, w@.len());
    let p = canonical_texts(v@);
    let q = canonical_texts(w@);
    assert(p.take(v@.len() as int) =~= p);
    assert(q.take(w@.len() as int) =~= q);
    assert forall|i: int, j: int| 0 <= i < p.len() && 0 <= j < q.len() implies apart(
        #[trigger] p[i],
        #[trigger] q[j],
    ) by {
        assert(apart(canonical(v@[i]), canonical(w@[j])));
    }
    assert forall|i: int| 0 <= i < p.len() implies opens(#[trigger] p[i]) by {
        assert(numbers_ok(v@[i]));
        lemma_opens(v@[i]);
    }
    assert forall|i: int| 0 <= i < q.len() implies opens(#[trigger] q[i]) by {
        assert(numbers_ok(w@[i]));
        lemma_opens(w@[i]);
    }
    assert(canonical(Json::Array(v)) + x =~= "["@ + (join(p, ","@) + ("]"@ + x)));
    assert(canonical(Json::Array(w)) + y =~= "["@ + (join(q, ","@) + ("]"@ + y)));
    lemma_cancel("["@, join(p, ","@) + ("]"@ + x), join(q, ","@) + ("]"@ + y));
    lemma_lists_apart(p, q, "]"@, x, y);
}

proof fn lemma_objects_agree(
    v: Vec<(String, Json)>,
    w: Vec<(String, Json)>,
    x: Seq<char>,
    y: Seq<char>,
)
    requires
        quotes_delimit(),
        forall|i: int, j: int|
            0 <= i < v@.len() && 0 <= j < w@.len() ==> apart(
                canonical((#[trigger] v@[i]).1),
                canonical((#[trigger] w@[j]).1),
            ),
        canonical(Json::Object(v)) + x == canonical(Json::Object(w)) + y,
    ensures
        canonical_members(v, v@.len()) == canonical_members(w, w@.len()),
{
    let p = member_parts(v);
    let q = member_parts(w);
    lemma_object_parts(v);
    lemma_object_parts(w);
    let sv = canonical_members(v, v@.len());
    let sw = canonical_members(w, w@.len());
    assert forall|i: int, j: int| 0 <= i < sv.len() && 0 <= j < sw.len() implies apart(
        (#[trigger] sv[i]).1,
        (#[trigger] sw[j]).1,
    ) by {
        let h = lemma_member_of(v, i);
        let k = lemma_member_of(w, j);
        assert(apart(canonical(v@[h].1), canonical(w@[k].1)));
    }
    assert forall|i: int, j: int| 0 <= i < p.len() && 0 <= j < q.len() implies apart(
        #[trigger] p[i],
        #[trigger] q[j],
    ) by {
        assert(apart(sv[i].1, sw[j].1));
        lemma_members_apart(sv[i], sw[j]);
    }
    assert(canonical(Json::Object(v)) + x =~= "{"@ + (join(p, ","@) + ("}"@ + x)));
    assert(canonical(Json::Object(w)) + y =~= "{"@ + (join(q, ","@) + ("}"@ + y)));
    lemma_cancel("{"@, join(p, ","@) + ("}"@ + x), join(q, ","@) + ("}"@ + y));
    lemma_lists_apart(p, q, "}"@, x, y);
    assert(sv.len() == p.len() && sw.len() == q.len());
    assert forall|i: int| 0 <= i < sv.len() implies #[trigger] sv[i] == sw[i] by {
        assert(p[i] == q[i]);
        assert(p[i] == rendered_member(sv[i]) && q[i] == rendered_member(sw[i]));
        assert(apart(sv[i].1, sw[i].1));
        lemma_members_apart(sv[i], sw[i]);
    }
    assert(sv =~= sw);
}

/// The member that a canonical member comes from.
proof fn lemma_member_of(v: Vec<(String, Json)>, i: int) -> (h: int)
    requires
        0 <= i < canonical_members(v, v@.len()).len(),
    ensures
        0 <= h < v@.len(),
        canonical_members(v, v@.len())[i] == (v@[h].0@, canonical(v@[h].1)),
{
    lemma_members_hold(v, v@.len());
    let s = canonical_members(v, v@.len());
    assert(s[i] == s[i]);
    choose|h: int| 0 <= h < v@.len() && s[i] == ((#[trigger] v@[h]).0@, canonical(v@[h].1))
}

proof fn lemma_values_apart(a: Json, b: Json)
    requires
        quotes_delimit(),
        numbers_ok(a),
        numbers_ok(b),
    ensures
        apart(canonical(a), canonical(b)),
    decreases a,
{
    match (a, b) {
        (Json::Array(v), Json::Array(w)) => {
            assert forall|i: int, j: int| 0 <= i < v@.len() && 0 <= j < w@.len() implies apart(
                canonical(#[trigger] v@[i]),
                canonical(#[trigger] w@[j]),
            ) by {
                lemma_values_apart(v@[i], w@[j]);
            }
        },
        (Json::Object(v), Json::Object(w)) => {
            assert forall|i: int, j: int| 0 <= i < v@.len() && 0 <= j < w@.len() implies apart(
                canonical((#[trigger] v@[i]).1),
                canonical((#[trigger] w@[j]).1),
            ) by {
                lemma_values_apart(v@[i].1, w@[j].1);
            }
        },
        _ => {},
    }
    assert(apart(canonical(a), canonical(b))) by {
        reveal(apart);
        assert forall|x: Seq<char>, y: Seq<char>|
            stop(x) && stop(y) && #[trigger] (canonical(a) + x) == #[trigger] (canonical(b)
                + y) implies canonical(a) == canonical(b) by {
            lemma_value_apart(a, b, x, y);
        }
    }
}

/// Two values with something behind: the texts agree where all parts that are
/// values themselves are told apart.
proof fn lemma_value_apart(a: Json, b: Json, x: Seq<char>, y: Seq<char>)
    requires
        quotes_delimit(),
        numbers_ok(a),
        numbers_ok(b),
        stop(x),
        stop(y),
        canonical(a) + x == canonical(b) + y,
        a is Array && b is Array ==> forall|i: int, j: int|
            0 <= i < a->Array_0@.len() && 0 <= j < b->Array_0@.len() ==> apart(
                canonical(#[trigger] a->Array_0@[i]),
                canonical(#[trigger] b->Array_0@[j]),
            ),
        a is Object && b is Object ==> forall|i: int, j: int|
            0 <= i < a->Object_0@.len() && 0 <= j < b->Object_0@.len() ==> apart(
                canonical((#[trigger] a->Object_0@[i]).1),
                canonical((#[trigger] b->Object_0@[j]).1),
            ),
    ensures
        canonical(a) == canonical(b),
{
    lemma_opens(a);
    lemma_opens(b);
    assert((canonical(a) + x)[0] == canonical(a)[0]);
    assert((canonical(b) + y)[0] == canonical(b)[0]);
    match (a, b) {
        (Json::Number(n), Json::Number(m)) => {
            lemma_numbers_apart(n@, m@, x, y);
        },
        (Json::Number(n), _) => {
            assert(number_char(n@[0]));
        },
        (_, Json::Number(m)) => {
            assert(number_char(m@[0]));
        },
        (Json::Array(v), Json::Array(w)) => {
            lemma_arrays_agree(v, w, x, y);
        },
        (Json::Object(v), Json::Object(w)) => {
            lemma_objects_agree(v, w, x, y);
        },
        (Json::Str(s), Json::Str(t)) => {
            lemma_quotes(masked(s@), masked(t@), x, y);
        },
        _ => {},
    }
}

proof fn lemma_object_parts(v: Vec<(String, Json)>)
    requires
        quotes_delimit(),
    ensures
        forall|i: int| 0 <= i < member_parts(v).len() ==> opens(#[trigger] member_parts(v)[i]),
{
    let sv = canonical_members(v, v@.len());
    assert forall|i: int| 0 <= i < member_parts(v).len() implies opens(
        #[trigger] member_parts(v)[i],
    ) by {
        assert(member_parts(v)[i] == rendered_member(sv[i]));
        lemma_quotes(sv[i].0, sv[i].0, Seq::empty(), Seq::empty());
        assert(rendered_member(sv[i])[0] == literal(sv[i].0)[0]);
    }
}

proof fn lemma_numbers_apart(n: Seq<char>, m: Seq<char>, x: Seq<char>, y: Seq<char>)
    requires
        number_text(n),
        number_text(m),
        stop(x),
        stop(y),
        n + x == m + y,
    ensures
        n == m,
{
    if n.len() < m.len() {
        assert((n + x)[n.len() as int] == (m + y)[n.len() as int]);
        assert(number_char(m[n.len() as int]));
        assert(x.len() > 0);
        assert((n + x)[n.len() as int] == x[0]);
    } else if m.len() < n.len() {
        assert((n + x)[m.len() as int] == (m + y)[m.len() as int]);
        assert(number_char(n[m.len() as int]));
        assert(y.len() > 0);
        assert((m + y)[m.len() as int] == y[0]);
    } else {
        assert forall|i: int| 0 <= i < n.len() implies n[i] == m[i] by {
            assert((n + x)[i] == n[i] && (m + y)[i] == m[i]);
        }
        assert(n =~= m);
    }
}

/// Canonical texts tell inputs apart, as far as quoted texts do: two values
/// have the same text only where they are of one kind and equal, but for the
/// order of members and for what masking takes out of texts. Numbers and truth
/// values have to agree; so do arrays, item by item, and objects, member by
/// member.
pub proof fn law_canonical_text_tells_values_apart(a: Json, b: Json)
    requires
        numbers_ok(a),
        numbers_ok(b),
    ensures
        quotes_delimit() && canonical(a) == canonical(b) ==> match (a, b) {
            (Json::Null, Json::Null) => true,
            (Json::Bool(p), Json::Bool(q)) => p == q,
            (Json::Number(m), Json::Number(n)) => m@ == n@,
            (Json::Str(s), Json::Str(t)) => masked(s@) == masked(t@),
            (Json::Array(v), Json::Array(w)) => v@.len() == w@.len() && forall|i: int|
                0 <= i < v@.len() ==> canonical(#[trigger] v@[i]) == canonical(w@[i]),
            (Json::Object(v), Json::Object(w)) => v@.len() == w@.len() && (forall|i: int|
                0 <= i < v@.len() ==> exists|j: int|
                    0 <= j < w@.len() && (#[trigger] w@[j]).0@ == (#[trigger] v@[i]).0@
                        && canonical(w@[j].1) == canonical(v@[i].1)) && (forall|j: int|
                0 <= j < w@.len() ==> exists|i: int|
                    0 <= i < v@.len() && (#[trigger] v@[i]).0@ == (#[trigger] w@[j]).0@
                        && canonical(v@[i].1) == canonical(w@[j].1)),
            _ => false,
        },
{
    if quotes_delimit() && canonical(a) == canonical(b) {
        lemma_opens(a);
        lemma_opens(b);
        let e = Seq::<char>::empty();
        match (a, b) {
            (Json::Number(n), Json::Number(m)) => {},
            (Json::Number(n), _) => {
                assert(number_char(n@[0]));
            },
            (_, Json::Number(m)) => {
                assert(number_char(m@[0]));
            },
            (Json::Str(s), Json::Str(t)) => {
                lemma_quotes(masked(s@), masked(t@), e, e);
            },
            (Json::Array(v), Json::Array(w)) => {
                assert forall|i: int, j: int| 0 <= i < v@.len() && 0 <= j < w@.len() implies apart(
                    canonical(#[trigger] v@[i]),
                    canonical(#[trigger] w@[j]),
                ) by {
                    lemma_values_apart(v@[i], w@[j]);
                }
                lemma_arrays_agree(v, w, e, e);
                let p = canonical_texts(v@);
                let q = canonical_texts(w@);
                assert(p.len() == v@.len() && q.len() == w@.len());
                assert forall|i: int| 0 <= i < v@.len() implies canonical(#[trigger] v@[i])
                    == canonical(w@[i]) by {
                    assert(p[i] == q[i]);
                }
            },
            (Json::Object(v), Json::Object(w)) => {
                assert forall|i: int, j: int| 0 <= i < v@.len() && 0 <= j < w@.len() implies apart(
                    canonical((#[trigger] v@[i]).1),
                    canonical((#[trigger] w@[j]).1),
                ) by {
                    lemma_values_apart(v@[i].1, w@[j].1);
                }
                lemma_objects_agree(v, w, e, e);
                lemma_same_members(v, w);
                lemma_same_members(w, v);
            },
            _ => {},
        }
    }
}

proof fn lemma_same_members(v: Vec<(String, Json)>, w: Vec<(String, Json)>)
    requires
        canonical_members(v, v@.len()) == canonical_members(w, w@.len()),
    ensures
        v@.len() == w@.len(),
        forall|i: int|
            0 <= i < v@.len() ==> exists|j: int|
                0 <= j < w@.len() && (#[trigger] w@[j]).0@ == (#[trigger] v@[i]).0@ && canonical(
                    w@[j].1,
                ) == canonical(v@[i].1),
{
    lemma_members_hold(v, v@.len());
    lemma_members_hold(w, w@.len());
    let s = canonical_members(v, v@.len());
    assert forall|i: int| 0 <= i < v@.len() implies exists|j: int|
        0 <= j < w@.len() && (#[trigger] w@[j]).0@ == (#[trigger] v@[i]).0@ && canonical(w@[j].1)
            == canonical(v@[i].1) by {
        let x = (v@[i].0@, canonical(v@[i].1));
        assert(s.contains(x));
        let k = choose|k: int| 0 <= k < s.len() && s[k] == x;
        let j = lemma_member_of(w, k);
        assert(w@[j].0@ == v@[i].0@);
    }
}

/// Whether one rule leaves a text alone.
pub open spec fn leaves(pattern: Seq<char>, s: Seq<char>, by: Seq<char>) -> bool {
    replaced(pattern, s, by) is None || replaced(pattern, s, by) == Some(s)
}

/// Each kind of volatile part is masked, by its own word: where only
/// date-times, only dates, only UUIDs, only addresses or only paths are found
/// in a text, the masked text is the one with just those replaced. A text in
/// which none is found stays as it is.
pub proof fn law_each_volatile_part_is_masked(s: Seq<char>, t: Seq<char>)
    ensures
        ({
            let ts = r"\d{4}-\d{2}-\d{2}[T ]\d{2}:\d{2}(:\d{2})?(\.\d+)?(Z|[+-]\d{2}:?\d{2})?"@;
            let date = r"\d{4}-\d{2}-\d{2}"@;
            let uuid =
                r"[0-9a-fA-F]{8}-[0-9a-fA-F]{4}-[0-9a-fA-F]{4}-[0-9a-fA-F]{4}-[0-9a-fA-F]{12}"@;
            let ip = r"\b\d{1,3}\.\d{1,3}\.\d{1,3}\.\d{1,3}(:\d{1,5})?\b"@;
            let path = "(?:/Users|/home|/root|/private/tmp|/tmp|/var/folders)/[^\\s\"']+"@;
            &&& leaves(ts, s, "<ts>"@) && leaves(date, s, "<date>"@) && leaves(uuid, s, "<uuid>"@)
                && leaves(ip, s, "<ip>"@) && leaves(path, s, "<path>"@) ==> masked(s) == s
            &&& replaced(ts, s, "<ts>"@) == Some(t) && leaves(date, t, "<date>"@) && leaves(
                uuid,
                t,
                "<uuid>"@,
            ) && leaves(ip, t, "<ip>"@) && leaves(path, t, "<path>"@) ==> masked(s) == t
            &&& leaves(ts, s, "<ts>"@) && replaced(date, s, "<date>"@) == Some(t) && leaves(
                uuid,
                t,
                "<uuid>"@,
            ) && leaves(ip, t, "<ip>"@) && leaves(path, t, "<path>"@) ==> masked(s) == t
            &&& leaves(ts, s, "<ts>"@) && leaves(date, s, "<date>"@) && replaced(
                uuid,
                s,
                "<uuid>"@,
            ) == Some(t) && leaves(ip, t, "<ip>"@) && leaves(path, t, "<path>"@) ==> masked(s) == t
            &&& leaves(ts, s, "<ts>"@) && leaves(date, s, "<date>"@) && leaves(uuid, s, "<uuid>"@)
                && replaced(ip, s, "<ip>"@) == Some(t) && leaves(path, t, "<path>"@) ==> masked(s)
                == t
            &&& leaves(ts, s, "<ts>"@) && leaves(date, s, "<date>"@) && leaves(uuid, s, "<uuid>"@)
                && leaves(ip, s, "<ip>"@) && replaced(path, s, "<path>"@) == Some(t) ==> masked(s)
                == t
        }),
{
}

/// The key of a decision is the digest of all four parts: with the same
/// digest's input, each part is the same. See [`law_parts_cannot_forge`]. The
/// domain stands in front.
pub proof fn law_key_covers_every_part(
    tier: Seq<char>,
    policy: Seq<char>,
    normalizer: Seq<char>,
    text: Seq<char>,
)
    ensures
        exists|input: Seq<u8>|
            key_of(tier, policy, normalizer, text) == #[trigger] sha256_hex(input) && input
                == encode_utf8("oc-decision-cache-v1"@) + seq![0x1fu8] + encode_utf8(tier)
                + seq![0x1fu8] + encode_utf8(policy) + seq![0x1fu8] + encode_utf8(normalizer)
                + seq![0x1fu8] + encode_utf8(text),
{
    let input = preimage(
        encode_utf8(tier),
        encode_utf8(policy),
        encode_utf8(normalizer),
        encode_utf8(text),
    );
    assert(key_of(tier, policy, normalizer, text) == sha256_hex(input));
}

/// An object of one member says what the member says: under the same key, two
/// values with different canonical texts make different objects.
pub proof fn law_member_value_matters(v: Vec<(String, Json)>, w: Vec<(String, Json)>)
    requires
        v@.len() == 1,
        w@.len() == 1,
        v@[0].0@ == w@[0].0@,
    ensures
        canonical(Json::Object(v)) == canonical(Json::Object(w)) <==> canonical(v@[0].1)
            == canonical(w@[0].1),
{
    lemma_one_member(v);
    lemma_one_member(w);
    let head = "{"@ + literal(v@[0].0@) + ":"@;
    if canonical(Json::Object(v)) == canonical(Json::Object(w)) {
        lemma_cancel(head, canonical(v@[0].1) + "}"@, canonical(w@[0].1) + "}"@);
        reveal_strlit("}");
        let a = canonical(v@[0].1) + "}"@;
        let b = canonical(w@[0].1) + "}"@;
        assert(a.take(a.len() - 1) =~= canonical(v@[0].1));
        assert(b.take(b.len() - 1) =~= canonical(w@[0].1));
    }
}

proof fn lemma_one_member(v: Vec<(String, Json)>)
    requires
        v@.len() == 1,
    ensures
        canonical(Json::Object(v)) == "{"@ + literal(v@[0].0@) + ":"@ + (canonical(v@[0].1) + "}"@),
{
    reveal_with_fuel(canonical_members, 2);
    reveal_with_fuel(join, 2);
    let s = canonical_members(v, 1);
    let x = (v@[0].0@, canonical(v@[0].1));
    assert(s =~= seq![x]);
    let parts = s.map_values(|m: (Seq<char>, Seq<char>)| rendered_member(m));
    assert(parts =~= seq![rendered_member(x)]);
    assert(canonical(Json::Object(v)) =~= "{"@ + literal(v@[0].0@) + ":"@ + (canonical(v@[0].1)
        + "}"@));
}

} // verus!
