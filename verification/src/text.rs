//! Text as sequences of characters.
//!
//! Every contract of the library that speaks of a string speaks of its
//! characters. This module holds the small vocabulary they share: trimming,
//! searching, splitting, joining and decimal rendering, each as a spec
//! function and as an executable function proved equal to it.
use vstd::prelude::*;

verus! {

/// `String::push` of std appends one character to the string.
pub assume_specification[ String::push ](s: &mut String, c: char)
    ensures
        final(s)@ == old(s)@.push(c),
;

/// The lower-case form of `s`, as std's `str::to_lowercase` computes it from
/// the Unicode tables.
pub uninterp spec fn lowercase(s: Seq<char>) -> Seq<char>;

/// `str::to_lowercase` of std. The contract only names its result, which
/// depends on the characters of `s` alone.
#[verifier::external_body]
pub(crate) fn to_lower(s: &str) -> (r: String)
    ensures
        r@ == lowercase(s@),
{
    s.to_lowercase()
}

// ---------------------------------------------------------------- equality
/// Whether two strings hold the same characters.
pub fn str_eq(a: &str, b: &str) -> (r: bool)
    ensures
        r == (a@ == b@),
{
    a.to_owned() == b.to_owned()
}

/// The characters of each string of a list.
pub open spec fn views(v: Seq<String>) -> Seq<Seq<char>> {
    v.map_values(|s: String| s@)
}

/// The characters of an optional string.
pub open spec fn oview(s: Option<String>) -> Option<Seq<char>> {
    match s {
        Some(t) => Some(t@),
        None => None,
    }
}

/// Position of the first entry of `list` that equals `s`, if there is one.
pub open spec fn position(list: Seq<Seq<char>>, s: Seq<char>) -> Option<int>
    decreases list.len(),
{
    if list.len() == 0 {
        None
    } else {
        match position(list.drop_last(), s) {
            Some(i) => Some(i),
            None => if list.last() == s {
                Some(list.len() - 1)
            } else {
                None
            },
        }
    }
}

/// What `position` means: the least index that holds the entry.
pub proof fn lemma_position(list: Seq<Seq<char>>, s: Seq<char>)
    ensures
        match position(list, s) {
            Some(i) => 0 <= i < list.len() && list[i] == s && forall|j: int|
                0 <= j < i ==> list[j] != s,
            None => forall|j: int| 0 <= j < list.len() ==> list[j] != s,
        },
        position(list, s) is Some <==> list.contains(s),
    decreases list.len(),
{
    if list.len() > 0 {
        lemma_position(list.drop_last(), s);
        assert forall|j: int| 0 <= j < list.len() - 1 implies list[j] == list.drop_last()[j] by {}
        match position(list.drop_last(), s) {
            Some(i) => {
                assert(list[i] == s);
            },
            None => {
                if list.last() == s {
                    assert(list[list.len() - 1] == s);
                }
            },
        }
    }
}

/// The first index at which `list` holds `s`.
pub fn find_str(list: &Vec<String>, s: &str) -> (r: Option<usize>)
    ensures
        match r {
            Some(i) => position(views(list@), s@) == Some(i as int) && i < list.len(),
            None => position(views(list@), s@) is None,
        },
{
    let mut i: usize = 0;
    assert(views(list@).take(0) =~= Seq::empty());
    while i < list.len()
        invariant
            i <= list.len(),
            position(views(list@).take(i as int), s@) is None,
        decreases list.len() - i,
    {
        assert(views(list@).take(i + 1).drop_last() =~= views(list@).take(i as int));
        if str_eq(list[i].as_str(), s) {
            proof {
                lemma_position_prefix(views(list@), s@, i + 1);
            }
            return Some(i);
        }
        i = i + 1;
    }
    assert(views(list@).take(i as int) =~= views(list@));
    None
}

/// A hit inside a prefix is the hit of the whole list.
pub proof fn lemma_position_prefix(list: Seq<Seq<char>>, s: Seq<char>, n: int)
    requires
        0 <= n <= list.len(),
        position(list.take(n), s) is Some,
    ensures
        position(list, s) == position(list.take(n), s),
    decreases list.len() - n,
{
    if n < list.len() {
        assert(list.take(n + 1).drop_last() =~= list.take(n));
        lemma_position_prefix(list, s, n + 1);
    } else {
        assert(list.take(n) =~= list);
    }
}

/// Whether `list` holds `s`.
pub fn list_contains(list: &Vec<String>, s: &str) -> (r: bool)
    ensures
        r == views(list@).contains(s@),
{
    proof {
        lemma_position(views(list@), s@);
    }
    find_str(list, s).is_some()
}

// -------------------------------------------------------------- characters
/// The characters with the Unicode property White_Space.
pub open spec fn is_space(c: char) -> bool {
    let n = c as u32;
    ||| 0x9 <= n <= 0xd
    ||| n == 0x20
    ||| n == 0x85
    ||| n == 0xa0
    ||| n == 0x1680
    ||| 0x2000 <= n <= 0x200a
    ||| n == 0x2028
    ||| n == 0x2029
    ||| n == 0x202f
    ||| n == 0x205f
    ||| n == 0x3000
}

/// Whether `c` is white space.
pub fn char_is_space(c: char) -> (r: bool)
    ensures
        r == is_space(c),
{
    let n: u32 = c as u32;
    (0x9 <= n && n <= 0xd) || n == 0x20 || n == 0x85 || n == 0xa0 || n == 0x1680 || (0x2000 <= n
        && n <= 0x200a) || n == 0x2028 || n == 0x2029 || n == 0x202f || n == 0x205f || n == 0x3000
}

pub open spec fn is_digit(c: char) -> bool {
    '0' <= c <= '9'
}

pub fn char_is_digit(c: char) -> (r: bool)
    ensures
        r == is_digit(c),
{
    '0' <= c && c <= '9'
}

/// ASCII letters and digits.
pub open spec fn is_ascii_alnum(c: char) -> bool {
    ('0' <= c <= '9') || ('a' <= c <= 'z') || ('A' <= c <= 'Z')
}

pub fn char_is_ascii_alnum(c: char) -> (r: bool)
    ensures
        r == is_ascii_alnum(c),
{
    ('0' <= c && c <= '9') || ('a' <= c && c <= 'z') || ('A' <= c && c <= 'Z')
}

// ------------------------------------------------------------- conversions
/// The characters of a string.
pub fn chars_of(s: &str) -> (v: Vec<char>)
    ensures
        v@ == s@,
{
    let mut v: Vec<char> = Vec::new();
    for c in it: s.chars()
        invariant
            v@ == it.seq().take(it.index()),
            it.seq() == s@,
    {
        v.push(c);
    }
    v
}

/// The string of the characters `v[lo..hi]`.
pub fn string_of(v: &Vec<char>, lo: usize, hi: usize) -> (r: String)
    requires
        lo <= hi <= v.len(),
    ensures
        r@ == v@.subrange(lo as int, hi as int),
{
    let mut r = String::new();
    let mut i: usize = lo;
    while i < hi
        invariant
            lo <= i <= hi <= v.len(),
            r@ == v@.subrange(lo as int, i as int),
        decreases hi - i,
    {
        r.push(v[i]);
        i = i + 1;
    }
    r
}

/// Concatenation of two strings.
pub fn cat2(a: &str, b: &str) -> (r: String)
    ensures
        r@ == a@ + b@,
{
    let mut r = a.to_owned();
    r.append(b);
    r
}

/// Concatenation of three strings.
pub fn cat3(a: &str, b: &str, c: &str) -> (r: String)
    ensures
        r@ == a@ + b@ + c@,
{
    let mut r = a.to_owned();
    r.append(b);
    r.append(c);
    r
}

/// Concatenation of four strings.
pub fn cat4(a: &str, b: &str, c: &str, d: &str) -> (r: String)
    ensures
        r@ == a@ + b@ + c@ + d@,
{
    let mut r = cat3(a, b, c);
    r.append(d);
    r
}

/// Concatenation of five strings.
pub fn cat5(a: &str, b: &str, c: &str, d: &str, e: &str) -> (r: String)
    ensures
        r@ == a@ + b@ + c@ + d@ + e@,
{
    let mut r = cat4(a, b, c, d);
    r.append(e);
    r
}

// ---------------------------------------------------------------- trimming
/// `s` without its leading white space.
pub open spec fn trim_start(s: Seq<char>) -> Seq<char>
    decreases s.len(),
{
    if s.len() > 0 && is_space(s[0]) {
        trim_start(s.drop_first())
    } else {
        s
    }
}

/// `s` without its trailing white space.
pub open spec fn trim_end(s: Seq<char>) -> Seq<char>
    decreases s.len(),
{
    if s.len() > 0 && is_space(s.last()) {
        trim_end(s.drop_last())
    } else {
        s
    }
}

/// `s` without white space at either end.
pub open spec fn trimmed(s: Seq<char>) -> Seq<char> {
    trim_end(trim_start(s))
}

/// Whether `s` holds nothing but white space.
pub open spec fn is_blank(s: Seq<char>) -> bool {
    trimmed(s).len() == 0
}

proof fn lemma_trim_start_at(s: Seq<char>, n: int)
    requires
        0 <= n <= s.len(),
        forall|i: int| 0 <= i < n ==> is_space(s[i]),
        n < s.len() ==> !is_space(s[n]),
    ensures
        trim_start(s) == s.subrange(n, s.len() as int),
    decreases n,
{
    if n == 0 {
        assert(s.subrange(0, s.len() as int) =~= s);
    } else {
        assert(is_space(s[0]));
        let t = s.drop_first();
        assert forall|i: int| 0 <= i < n - 1 implies is_space(t[i]) by {
            assert(t[i] == s[i + 1]);
        }
        lemma_trim_start_at(t, n - 1);
        assert(t.subrange(n - 1, t.len() as int) =~= s.subrange(n, s.len() as int));
    }
}

proof fn lemma_trim_end_at(s: Seq<char>, n: int)
    requires
        0 <= n <= s.len(),
        forall|i: int| n <= i < s.len() ==> is_space(s[i]),
        n > 0 ==> !is_space(s[n - 1]),
    ensures
        trim_end(s) == s.subrange(0, n),
    decreases s.len() - n,
{
    if n == s.len() {
        assert(s.subrange(0, n) =~= s);
    } else {
        let t = s.drop_last();
        assert forall|i: int| n <= i < t.len() implies is_space(t[i]) by {
            assert(t[i] == s[i]);
        }
        lemma_trim_end_at(t, n);
        assert(t.subrange(0, n) =~= s.subrange(0, n));
    }
}

/// What trimming leaves: a piece of `s` whose ends are not white space.
pub proof fn lemma_trimmed_ends(s: Seq<char>)
    ensures
        trimmed(s).len() <= s.len(),
        trimmed(s).len() > 0 ==> !is_space(trimmed(s)[0]) && !is_space(trimmed(s).last()),
{
    lemma_trim_start_shape(s);
    lemma_trim_end_shape(trim_start(s));
}

proof fn lemma_trim_start_shape(s: Seq<char>)
    ensures
        trim_start(s).len() <= s.len(),
        trim_start(s).len() > 0 ==> !is_space(trim_start(s)[0]),
    decreases s.len(),
{
    if s.len() > 0 && is_space(s[0]) {
        lemma_trim_start_shape(s.drop_first());
    }
}

proof fn lemma_trim_end_shape(s: Seq<char>)
    ensures
        trim_end(s).len() <= s.len(),
        trim_end(s) == s.take(trim_end(s).len() as int),
        trim_end(s).len() > 0 ==> !is_space(trim_end(s).last()) && trim_end(s)[0] == s[0],
    decreases s.len(),
{
    if s.len() > 0 && is_space(s.last()) {
        lemma_trim_end_shape(s.drop_last());
        let n = trim_end(s).len() as int;
        assert(s.drop_last().take(n) =~= s.take(n));
    } else {
        assert(s.take(s.len() as int) =~= s);
    }
}

/// Trimming twice is trimming once.
pub proof fn lemma_trimmed_idempotent(s: Seq<char>)
    ensures
        trimmed(trimmed(s)) == trimmed(s),
{
    lemma_trimmed_ends(s);
}

/// The string without leading and trailing white space.
pub fn trim<'a>(s: &'a str) -> (r: &'a str)
    ensures
        r@ == trimmed(s@),
{
    let v = chars_of(s);
    let mut lo: usize = 0;
    while lo < v.len() && char_is_space(v[lo])
        invariant
            lo <= v.len(),
            forall|i: int| 0 <= i < lo ==> is_space(v@[i]),
        decreases v.len() - lo,
    {
        lo = lo + 1;
    }
    let mut hi: usize = v.len();
    while hi > lo && char_is_space(v[hi - 1])
        invariant
            lo <= hi <= v.len(),
            forall|i: int| hi <= i < v.len() ==> is_space(v@[i]),
        decreases hi,
    {
        hi = hi - 1;
    }
    proof {
        lemma_trim_start_at(s@, lo as int);
        let t = trim_start(s@);
        assert forall|i: int| hi - lo <= i < t.len() implies is_space(t[i]) by {
            assert(t[i] == s@[i + lo]);
        }
        if hi > lo {
            assert(t[hi - lo - 1] == s@[hi - 1]);
        }
        lemma_trim_end_at(t, hi - lo);
        assert(t.subrange(0, hi - lo) =~= s@.subrange(lo as int, hi as int));
    }
    s.substring_char(lo, hi)
}

/// The string without leading white space.
pub fn trim_start_str<'a>(s: &'a str) -> (r: &'a str)
    ensures
        r@ == trim_start(s@),
{
    let v = chars_of(s);
    let mut lo: usize = 0;
    while lo < v.len() && char_is_space(v[lo])
        invariant
            lo <= v.len(),
            forall|i: int| 0 <= i < lo ==> is_space(v@[i]),
        decreases v.len() - lo,
    {
        lo = lo + 1;
    }
    proof {
        lemma_trim_start_at(s@, lo as int);
    }
    s.substring_char(lo, v.len())
}

/// Whether nothing is left of `s` after trimming.
pub fn blank(s: &str) -> (r: bool)
    ensures
        r == is_blank(s@),
{
    trim(s).is_empty()
}

/// `s` without the leading run of `c`.
pub open spec fn trim_start_of(s: Seq<char>, c: char) -> Seq<char>
    decreases s.len(),
{
    if s.len() > 0 && s[0] == c {
        trim_start_of(s.drop_first(), c)
    } else {
        s
    }
}

/// `s` without the trailing run of `c`.
pub open spec fn trim_end_of_char(s: Seq<char>, c: char) -> Seq<char>
    decreases s.len(),
{
    if s.len() > 0 && s.last() == c {
        trim_end_of_char(s.drop_last(), c)
    } else {
        s
    }
}

/// Dropping the leading run of `c` leaves a suffix that does not start with it.
pub proof fn lemma_trim_start_of(s: Seq<char>, c: char)
    ensures
        trim_start_of(s, c).len() <= s.len(),
        trim_start_of(s, c) == s.skip(s.len() - trim_start_of(s, c).len()),
        trim_start_of(s, c).len() > 0 ==> trim_start_of(s, c)[0] != c,
    decreases s.len(),
{
    if s.len() > 0 && s[0] == c {
        lemma_trim_start_of(s.drop_first(), c);
        let n = trim_start_of(s, c).len();
        assert(s.drop_first().skip(s.len() - 1 - n) =~= s.skip(s.len() - n));
    } else {
        assert(s.skip(0) =~= s);
    }
}

/// The string without its leading run of `c`.
pub fn strip_leading<'a>(s: &'a str, c: char) -> (r: &'a str)
    ensures
        r@ == trim_start_of(s@, c),
{
    let n: usize = s.unicode_len();
    let v = chars_of(s);
    let mut i: usize = 0;
    assert(s@.subrange(0, s@.len() as int) =~= s@);
    while i < n && v[i] == c
        invariant
            i <= n,
            n == v@.len(),
            v@ == s@,
            trim_start_of(s@, c) == trim_start_of(s@.subrange(i as int, s@.len() as int), c),
        decreases n - i,
    {
        assert(s@.subrange(i as int, s@.len() as int).drop_first() =~= s@.subrange(
            i + 1,
            s@.len() as int,
        ));
        i = i + 1;
    }
    s.substring_char(i, n)
}

/// The string without its trailing run of `c`.
pub fn strip_trailing<'a>(s: &'a str, c: char) -> (r: &'a str)
    ensures
        r@ == trim_end_of_char(s@, c),
{
    let v = chars_of(s);
    let mut hi: usize = v.len();
    assert(s@.subrange(0, s@.len() as int) =~= s@);
    while hi > 0 && v[hi - 1] == c
        invariant
            hi <= v.len(),
            v@ == s@,
            trim_end_of_char(s@, c) == trim_end_of_char(s@.subrange(0, hi as int), c),
        decreases hi,
    {
        assert(s@.subrange(0, hi as int).drop_last() =~= s@.subrange(0, hi - 1));
        hi = hi - 1;
    }
    s.substring_char(0, hi)
}

// ------------------------------------------------------------- ASCII case
/// The lower-case form of an ASCII capital; any other character as it is.
pub open spec fn ascii_lower_char(c: char) -> char {
    if 'A' <= c <= 'Z' {
        ((c as u32 + 32) as u8) as char
    } else {
        c
    }
}

/// `s` with its ASCII capitals in lower case.
pub open spec fn ascii_lower(s: Seq<char>) -> Seq<char> {
    s.map_values(|c: char| ascii_lower_char(c))
}

/// The string with its ASCII capitals in lower case.
pub fn to_ascii_lower(s: &str) -> (r: String)
    ensures
        r@ == ascii_lower(s@),
{
    let v = chars_of(s);
    let mut r = String::new();
    let mut i: usize = 0;
    while i < v.len()
        invariant
            i <= v.len(),
            v@ == s@,
            r@ == ascii_lower(s@.take(i as int)),
        decreases v.len() - i,
    {
        let c = v[i];
        let d: char = if 'A' <= c && c <= 'Z' {
            (c as u8 + 32) as char
        } else {
            c
        };
        r.push(d);
        assert(s@.take(i + 1) =~= s@.take(i as int).push(c));
        assert(ascii_lower(s@.take(i + 1)) =~= ascii_lower(s@.take(i as int)).push(
            ascii_lower_char(c),
        ));
        i = i + 1;
    }
    assert(s@.take(i as int) =~= s@);
    r
}

/// The decimal digits of `s`, in order.
pub open spec fn digits_only(s: Seq<char>) -> Seq<char>
    decreases s.len(),
{
    if s.len() == 0 {
        Seq::empty()
    } else if is_digit(s.last()) {
        digits_only(s.drop_last()).push(s.last())
    } else {
        digits_only(s.drop_last())
    }
}

/// What is left are digits.
pub proof fn lemma_digits_only(s: Seq<char>)
    ensures
        forall|i: int| 0 <= i < digits_only(s).len() ==> is_digit(#[trigger] digits_only(s)[i]),
        (forall|i: int| 0 <= i < s.len() ==> is_digit(#[trigger] s[i])) ==> digits_only(s) == s,
    decreases s.len(),
{
    if s.len() > 0 {
        lemma_digits_only(s.drop_last());
        let d = digits_only(s.drop_last());
        assert forall|i: int| 0 <= i < digits_only(s).len() implies is_digit(
            #[trigger] digits_only(s)[i],
        ) by {
            if i < d.len() {
                assert(is_digit(d[i]));
            }
        }
        if forall|i: int| 0 <= i < s.len() ==> is_digit(#[trigger] s[i]) {
            assert forall|i: int| 0 <= i < s.len() - 1 implies is_digit(
                #[trigger] s.drop_last()[i],
            ) by {
                assert(is_digit(s[i]));
            }
            assert(is_digit(s[s.len() - 1]));
            assert(s.drop_last().push(s.last()) =~= s);
        }
    }
}

/// The decimal digits of the string, in order.
pub fn digits_of(s: &str) -> (r: String)
    ensures
        r@ == digits_only(s@),
{
    let v = chars_of(s);
    let mut r = String::new();
    let mut i: usize = 0;
    assert(s@.take(0) =~= Seq::empty());
    while i < v.len()
        invariant
            i <= v.len(),
            v@ == s@,
            r@ == digits_only(s@.take(i as int)),
        decreases v.len() - i,
    {
        assert(s@.take(i + 1).drop_last() =~= s@.take(i as int));
        if char_is_digit(v[i]) {
            r.push(v[i]);
        }
        i = i + 1;
    }
    assert(s@.take(i as int) =~= s@);
    r
}

/// A copy of a list of strings.
pub fn copy_strs(v: &Vec<String>) -> (r: Vec<String>)
    ensures
        views(r@) == views(v@),
        r@ == v@,
{
    let mut r: Vec<String> = Vec::new();
    let mut i: usize = 0;
    while i < v.len()
        invariant
            i <= v.len(),
            r@ == v@.take(i as int),
        decreases v.len() - i,
    {
        r.push(v[i].clone());
        i = i + 1;
    }
    assert(v@.take(i as int) =~= v@);
    r
}

// --------------------------------------------------------------- truncation
/// The first character that takes two bytes in UTF-8.
pub const TWO_BYTES: char = '\u{80}';

/// The first character that takes three bytes in UTF-8.
pub const THREE_BYTES: char = '\u{800}';

/// The first character that takes four bytes in UTF-8.
pub const FOUR_BYTES: char = '\u{10000}';

/// How many bytes a character takes in UTF-8.
pub open spec fn char_bytes(c: char) -> int {
    if TWO_BYTES > c {
        1
    } else if THREE_BYTES > c {
        2
    } else if FOUR_BYTES > c {
        3
    } else {
        4
    }
}

/// The longest piece from the front that takes at most `max` bytes in UTF-8.
pub open spec fn within_bytes(s: Seq<char>, max: int) -> Seq<char>
    decreases s.len(),
{
    if s.len() == 0 || char_bytes(s[0]) > max {
        Seq::empty()
    } else {
        seq![s[0]] + within_bytes(s.drop_first(), max - char_bytes(s[0]))
    }
}

/// The longest piece from the front that takes at most `max` bytes.
pub fn truncate_str<'a>(s: &'a str, max: usize) -> (r: &'a str)
    ensures
        r@ == within_bytes(s@, max as int),
{
    let v = chars_of(s);
    let mut left: usize = max;
    let mut i: usize = 0;
    assert(s@.skip(0) =~= s@);
    assert(s@.take(0) + within_bytes(s@, max as int) =~= within_bytes(s@, max as int));
    while i < v.len()
        invariant
            i <= v.len(),
            v@ == s@,
            s@.take(i as int) + within_bytes(s@.skip(i as int), left as int) == within_bytes(
                s@,
                max as int,
            ),
        decreases v.len() - i,
    {
        let c = v[i];
        let n: usize = if TWO_BYTES > c {
            1
        } else if THREE_BYTES > c {
            2
        } else if FOUR_BYTES > c {
            3
        } else {
            4
        };
        if n > left {
            assert(within_bytes(s@, max as int) =~= s@.take(i as int));
            return s.substring_char(0, i);
        }
        assert(s@.skip(i as int).drop_first() =~= s@.skip(i + 1));
        assert(s@.take(i as int) + (seq![c] + within_bytes(s@.skip(i + 1), left - n)) =~= s@.take(
            i + 1,
        ) + within_bytes(s@.skip(i + 1), left - n));
        left = left - n;
        i = i + 1;
    }
    assert(within_bytes(s@, max as int) =~= s@);
    s
}

/// The longest piece at the end that takes at most `max` bytes in UTF-8.
pub open spec fn tail_within_bytes(s: Seq<char>, max: int) -> Seq<char>
    decreases s.len(),
{
    if s.len() == 0 || char_bytes(s.last()) > max {
        Seq::empty()
    } else {
        tail_within_bytes(s.drop_last(), max - char_bytes(s.last())).push(s.last())
    }
}

/// The longest piece at the end that takes at most `max` bytes.
pub fn tail_of<'a>(s: &'a str, max: usize) -> (r: &'a str)
    ensures
        r@ == tail_within_bytes(s@, max as int),
{
    let v = chars_of(s);
    let mut left: usize = max;
    let mut i: usize = v.len();
    assert(s@.take(i as int) =~= s@);
    assert(tail_within_bytes(s@, max as int) + s@.skip(i as int) =~= tail_within_bytes(
        s@,
        max as int,
    ));
    while i > 0
        invariant
            i <= v.len(),
            v@ == s@,
            tail_within_bytes(s@.take(i as int), left as int) + s@.skip(i as int)
                == tail_within_bytes(s@, max as int),
        decreases i,
    {
        let c = v[i - 1];
        let n: usize = if TWO_BYTES > c {
            1
        } else if THREE_BYTES > c {
            2
        } else if FOUR_BYTES > c {
            3
        } else {
            4
        };
        if n > left {
            assert(tail_within_bytes(s@, max as int) =~= s@.skip(i as int));
            return s.substring_char(i, v.len());
        }
        assert(s@.take(i as int).drop_last() =~= s@.take(i - 1));
        assert(tail_within_bytes(s@.take(i - 1), left - n).push(c) + s@.skip(i as int)
            =~= tail_within_bytes(s@.take(i - 1), left - n) + s@.skip(i - 1));
        left = left - n;
        i = i - 1;
    }
    assert(tail_within_bytes(s@, max as int) =~= s@);
    s
}

/// Whether the list holds the string.
pub fn list_has(list: &Vec<String>, s: &str) -> (r: bool)
    ensures
        r == views(list@).contains(s@),
{
    proof {
        lemma_position(views(list@), s@);
    }
    list_contains(list, s)
}

/// The contents of borrowed strings.
pub open spec fn str_views(v: Seq<&'static str>) -> Seq<Seq<char>> {
    v.map_values(|s: &'static str| s@)
}

/// Whether one of the borrowed strings is `s`.
pub fn any_is(list: &Vec<&'static str>, s: &str) -> (r: bool)
    ensures
        r == str_views(list@).contains(s@),
{
    let mut i: usize = 0;
    while i < list.len()
        invariant
            i <= list.len(),
            forall|k: int| 0 <= k < i ==> #[trigger] str_views(list@)[k] != s@,
        decreases list.len() - i,
    {
        assert(str_views(list@)[i as int] == list@[i as int]@);
        if str_eq(list[i], s) {
            return true;
        }
        i = i + 1;
    }
    false
}

// -------------------------------------------------------------------- laws
/// Trimming takes white space off both ends, all of it, and nothing else: text
/// between white space is what is left, as it is.
pub proof fn law_trimming_leaves_the_text(a: Seq<char>, s: Seq<char>, b: Seq<char>)
    requires
        forall|i: int| 0 <= i < a.len() ==> is_space(a[i]),
        forall|i: int| 0 <= i < b.len() ==> is_space(b[i]),
        s.len() > 0 ==> !is_space(s[0]) && !is_space(s.last()),
    ensures
        trimmed(a + s + b) == s,
        is_blank(a + s + b) <==> s.len() == 0,
        s.len() > 0 ==> trim_start(a + s + b) == s + b,
{
    let t = a + s + b;
    if s.len() > 0 {
        lemma_trim_start_at(t, a.len() as int);
        assert(trim_start(t) =~= s + b);
        lemma_trim_end_at(s + b, s.len() as int);
        assert(trim_end(s + b) =~= s);
    } else {
        assert forall|i: int| 0 <= i < t.len() implies is_space(t[i]) by {
            if i < a.len() {
                assert(t[i] == a[i]);
            } else {
                assert(t[i] == b[i - a.len()]);
            }
        }
        lemma_trim_start_at(t, t.len() as int);
        assert(trim_start(t) =~= Seq::empty());
        assert(trimmed(t) =~= s);
    }
}

/// What counts as white space: the space, the tab and the line ends, but no
/// visible character of ASCII.
pub proof fn law_white_space(c: char)
    ensures
        c == ' ' || c == '\t' || c == '\n' || c == '\r' ==> is_space(c),
        33 <= c as u32 <= 126 ==> !is_space(c),
        is_digit(c) ==> !is_space(c) && is_ascii_alnum(c),
        is_digit(c) <==> 48 <= c as u32 <= 57,
{
}

/// A leading run of a character is dropped whole, and nothing else.
pub proof fn law_leading_run_is_dropped(n: nat, s: Seq<char>, c: char)
    requires
        s.len() > 0 ==> s[0] != c,
    ensures
        trim_start_of(Seq::new(n, |i: int| c) + s, c) == s,
    decreases n,
{
    let t = Seq::new(n, |i: int| c) + s;
    if n > 0 {
        assert(t.drop_first() =~= Seq::new((n - 1) as nat, |i: int| c) + s);
        law_leading_run_is_dropped((n - 1) as nat, s, c);
    } else {
        assert(t =~= s);
    }
}

/// A trailing run of a character is dropped whole, and nothing else.
pub proof fn law_trailing_run_is_dropped(n: nat, s: Seq<char>, c: char)
    requires
        s.len() > 0 ==> s.last() != c,
    ensures
        trim_end_of_char(s + Seq::new(n, |i: int| c), c) == s,
    decreases n,
{
    let t = s + Seq::new(n, |i: int| c);
    if n > 0 {
        assert(t.drop_last() =~= s + Seq::new((n - 1) as nat, |i: int| c));
        law_trailing_run_is_dropped((n - 1) as nat, s, c);
    } else {
        assert(t =~= s);
    }
}

proof fn lemma_digits_add(a: Seq<char>, b: Seq<char>)
    ensures
        digits_only(a + b) == digits_only(a) + digits_only(b),
    decreases b.len(),
{
    if b.len() == 0 {
        assert(a + b =~= a);
        assert(digits_only(a) + digits_only(b) =~= digits_only(a));
    } else {
        assert((a + b).drop_last() =~= a + b.drop_last());
        lemma_digits_add(a, b.drop_last());
        assert(digits_only(a + b) =~= digits_only(a) + digits_only(b));
    }
}

/// The digits of a text are all of its digits, in order, and nothing else.
pub proof fn law_digits_are_kept_in_order(a: Seq<char>, c: char, b: Seq<char>)
    ensures
        digits_only(a.push(c) + b) == if '0' <= c <= '9' {
            digits_only(a).push(c) + digits_only(b)
        } else {
            digits_only(a) + digits_only(b)
        },
        digits_only(Seq::empty()).len() == 0,
{
    lemma_digits_add(a.push(c), b);
    assert(a.push(c).drop_last() =~= a);
}

/// Lower case by ASCII: capitals become small letters, and whatever is no
/// capital stays, in its place.
pub proof fn law_ascii_lower_case(s: Seq<char>, i: int)
    requires
        0 <= i < s.len(),
    ensures
        ascii_lower(s).len() == s.len(),
        'A' <= s[i] <= 'Z' ==> ascii_lower(s)[i] as u32 == s[i] as u32 + 32,
        !('A' <= s[i] <= 'Z') ==> ascii_lower(s)[i] == s[i],
{
    let c = s[i];
    if 'A' <= c <= 'Z' {
        let n = (c as u32 + 32) as u8;
        assert(97 <= n <= 122);
        assert(n as char as u32 == n as u32);
    }
}

/// How many bytes a text takes in UTF-8.
pub open spec fn total_bytes(s: Seq<char>) -> int
    decreases s.len(),
{
    if s.len() == 0 {
        0
    } else {
        char_bytes(s[0]) + total_bytes(s.drop_first())
    }
}

/// A text cut to a number of bytes is its start, takes no more than that, and
/// is the longest such start: the next character would not have fitted.
pub proof fn law_cut_is_the_longest_start(s: Seq<char>, max: int)
    requires
        max >= 0,
    ensures
        ({
            let t = within_bytes(s, max);
            &&& t.len() <= s.len()
            &&& t == s.take(t.len() as int)
            &&& total_bytes(t) <= max
            &&& t.len() < s.len() ==> total_bytes(t) + char_bytes(s[t.len() as int]) > max
            &&& total_bytes(s) <= max ==> t == s
        }),
    decreases s.len(),
{
    let t = within_bytes(s, max);
    if s.len() == 0 || char_bytes(s[0]) > max {
        assert(s.take(0) =~= Seq::empty());
        if s.len() > 0 {
            lemma_bytes_positive(s.drop_first());
        } else {
            assert(t =~= s);
        }
    } else {
        let rest = within_bytes(s.drop_first(), max - char_bytes(s[0]));
        law_cut_is_the_longest_start(s.drop_first(), max - char_bytes(s[0]));
        assert(t.drop_first() =~= rest);
        assert(t =~= s.take(t.len() as int));
        if rest == s.drop_first() {
            assert(t =~= s);
        }
    }
}

proof fn lemma_bytes_positive(s: Seq<char>)
    ensures
        total_bytes(s) >= 0,
    decreases s.len(),
{
    if s.len() > 0 {
        lemma_bytes_positive(s.drop_first());
    }
}

/// How many bytes a text takes in UTF-8, counted from its end.
pub open spec fn total_bytes_back(s: Seq<char>) -> int
    decreases s.len(),
{
    if s.len() == 0 {
        0
    } else {
        char_bytes(s.last()) + total_bytes_back(s.drop_last())
    }
}

/// The end of a text cut to a number of bytes is its longest end that takes no
/// more than that.
pub proof fn law_cut_is_the_longest_end(s: Seq<char>, max: int)
    requires
        max >= 0,
    ensures
        ({
            let t = tail_within_bytes(s, max);
            &&& t.len() <= s.len()
            &&& t == s.skip(s.len() - t.len())
            &&& total_bytes_back(t) <= max
            &&& t.len() < s.len() ==> total_bytes_back(t) + char_bytes(s[s.len() - t.len() - 1])
                > max
        }),
    decreases s.len(),
{
    let t = tail_within_bytes(s, max);
    if s.len() == 0 || char_bytes(s.last()) > max {
        assert(s.skip(s.len() as int) =~= Seq::empty());
    } else {
        let rest = tail_within_bytes(s.drop_last(), max - char_bytes(s.last()));
        law_cut_is_the_longest_end(s.drop_last(), max - char_bytes(s.last()));
        assert(t.drop_last() =~= rest);
        assert(t =~= s.skip(s.len() - t.len()));
    }
}

/// The bytes of a character: one for ASCII, four at most.
pub proof fn law_bytes_of_a_character(c: char)
    ensures
        char_bytes(c) == if (c as u32) < 0x80 {
            1int
        } else if (c as u32) < 0x800 {
            2
        } else if (c as u32) < 0x1_0000 {
            3
        } else {
            4
        },
{
}

} // verus!
