//! The durable store of inbound attachments.
use vstd::prelude::*;

use crate::paths::{join_path, joined};
use crate::search::{dec_u64, decimal, law_decimals_differ};
use crate::text::{
    cat3, char_is_ascii_alnum, chars_of, is_ascii_alnum, strip_leading, trim_start_of,
};

verus! {

/// Whether a character may stand in a stored name.
pub open spec fn is_safe(c: char) -> bool {
    is_ascii_alnum(c) || c == '.' || c == '-' || c == '_'
}

/// A name with an underscore for everything that may not stand in one.
pub open spec fn flattened(s: Seq<char>) -> Seq<char> {
    s.map_values(
        |c: char|
            if is_safe(c) {
                c
            } else {
                '_'
            },
    )
}

/// A sender's name for an attachment as one safe path component.
pub open spec fn safe_name(s: Seq<char>) -> Seq<char> {
    let t = trim_start_of(flattened(s), '.');
    if t.len() == 0 {
        "attachment.bin"@
    } else {
        t
    }
}

/// A sender's name for an attachment as one safe path component.
pub fn sanitize_attachment_name(s: &str) -> (r: String)
    ensures
        r@ == safe_name(s@),
{
    let v = chars_of(s);
    let mut clean = String::new();
    let mut i: usize = 0;
    assert(clean@ =~= flattened(s@).take(0));
    while i < v.len()
        invariant
            i <= v.len(),
            v@ == s@,
            clean@ == flattened(s@).take(i as int),
        decreases v.len() - i,
    {
        let c = v[i];
        if char_is_ascii_alnum(c) || c == '.' || c == '-' || c == '_' {
            clean.push(c);
        } else {
            clean.push('_');
        }
        assert(flattened(s@).take(i + 1) =~= flattened(s@).take(i as int).push(
            flattened(s@)[i as int],
        ));
        i = i + 1;
    }
    assert(flattened(s@).take(i as int) =~= flattened(s@));
    let t = strip_leading(clean.as_str(), '.');
    if t.is_empty() {
        "attachment.bin".to_owned()
    } else {
        t.to_owned()
    }
}

/// The root of the store under the home directory.
pub fn channel_attachments_dir(home: &str) -> (r: String)
    ensures
        r@ == joined(home@, "channel_attachments"@),
{
    join_path(home, "channel_attachments")
}

/// The directory of a platform under the store's root.
pub fn platform_dir(base: &str, platform: &str) -> (r: String)
    ensures
        r@ == joined(base@, platform@),
{
    join_path(base, platform)
}

/// Where an attachment is written: the milliseconds since the epoch keep two
/// of the same name apart.
pub open spec fn attachment_place(
    base: Seq<char>,
    platform: Seq<char>,
    millis: u64,
    name: Seq<char>,
) -> Seq<char> {
    joined(joined(base, platform), decimal(millis as nat) + "-"@ + safe_name(name))
}

/// Where an attachment is written.
pub fn attachment_path(base: &str, platform: &str, millis: u64, name: &str) -> (r: String)
    ensures
        r@ == attachment_place(base@, platform@, millis, name@),
{
    let dir = platform_dir(base, platform);
    let file = cat3(dec_u64(millis).as_str(), "-", sanitize_attachment_name(name).as_str());
    join_path(dir.as_str(), file.as_str())
}

/// A sender's name cannot leave the platform's directory: what is stored is
/// one component that is not empty, holds no separator and begins with no dot.
pub proof fn law_name_is_inert(s: Seq<char>)
    ensures
        safe_name(s).len() > 0,
        safe_name(s)[0] != '.',
        forall|i: int| 0 <= i < safe_name(s).len() ==> is_safe(#[trigger] safe_name(s)[i]),
        !safe_name(s).contains('/'),
{
    reveal_strlit("attachment.bin");
    let f = flattened(s);
    let t = trim_start_of(f, '.');
    lemma_leading(f, '.');
    if t.len() > 0 {
        let d = f.len() - t.len();
        assert forall|i: int| 0 <= i < t.len() implies is_safe(#[trigger] t[i]) by {
            assert(t[i] == f[i + d]);
        }
    }
    assert forall|i: int| 0 <= i < safe_name(s).len() implies is_safe(
        #[trigger] safe_name(s)[i],
    ) by {}
    assert(!is_safe('/'));
}

proof fn lemma_leading(s: Seq<char>, c: char)
    ensures
        trim_start_of(s, c).len() <= s.len(),
        trim_start_of(s, c) == s.skip(s.len() - trim_start_of(s, c).len()),
        trim_start_of(s, c).len() > 0 ==> trim_start_of(s, c)[0] != c,
    decreases s.len(),
{
    if s.len() > 0 && s[0] == c {
        lemma_leading(s.drop_first(), c);
        let t = trim_start_of(s, c);
        assert(s.drop_first().skip(s.drop_first().len() - t.len()) =~= s.skip(s.len() - t.len()));
    } else {
        assert(s.skip(0) =~= s);
    }
}

/// Letters, digits, dots, hyphens and underscores stay; every other character
/// becomes an underscore, one for one. A name that is safe already, and does not
/// begin with a dot, is kept as it is.
pub proof fn law_safe_names_are_kept(s: Seq<char>, i: int)
    ensures
        flattened(s).len() == s.len(),
        0 <= i < s.len() && (is_ascii_alnum(s[i]) || s[i] == '.' || s[i] == '-' || s[i] == '_')
            ==> flattened(s)[i] == s[i],
        0 <= i < s.len() && !(is_ascii_alnum(s[i]) || s[i] == '.' || s[i] == '-' || s[i] == '_')
            ==> flattened(s)[i] == '_',
        s.len() > 0 && s[0] != '.' && (forall|k: int| 0 <= k < s.len() ==> is_safe(#[trigger] s[k]))
            ==> safe_name(s) == s,
        s.len() > 0 && s[0] != '.' ==> safe_name(s).len() == s.len(),
        safe_name(Seq::empty()) == "attachment.bin"@,
{
    let f = flattened(s);
    if s.len() > 0 && s[0] != '.' {
        assert(f[0] != '.');
        if forall|k: int| 0 <= k < s.len() ==> is_safe(#[trigger] s[k]) {
            assert(f =~= s);
        }
    }
    assert(flattened(Seq::empty()) =~= Seq::<char>::empty());
}

/// Two attachments that arrive at different times, or under different safe
/// names, are written to different places.
pub proof fn law_attachments_do_not_collide(
    base: Seq<char>,
    platform: Seq<char>,
    a: u64,
    b: u64,
    name: Seq<char>,
    other: Seq<char>,
)
    ensures
        a != b ==> decimal(a as nat) != decimal(b as nat),
        safe_name(name) != safe_name(other) ==> attachment_place(base, platform, a, name)
            != attachment_place(base, platform, a, other),
{
    if a != b {
        law_decimals_differ(a as int, b as int);
    }
    let x = decimal(a as nat) + "-"@;
    let n = safe_name(name);
    let m = safe_name(other);
    let p = attachment_place(base, platform, a, name);
    let q = attachment_place(base, platform, a, other);
    let dir = joined(base, platform);
    if n != m && p == q {
        assert(p.len() >= n.len() && q.len() >= m.len());
        assert((x + n)[0] == (x + m)[0]);
        if x.len() + n.len() == x.len() + m.len() {
            assert(n =~= p.skip(p.len() - n.len()));
            assert(m =~= q.skip(q.len() - m.len()));
        }
    }
}

} // verus!
