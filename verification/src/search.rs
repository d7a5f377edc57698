//! Searching, splitting and joining text, and decimal numbers.
use vstd::prelude::*;

use crate::text::{
    char_is_space, chars_of, is_digit, is_space, string_of, trim_start, trim_start_str, views,
};

verus! {

// --------------------------------------------------------------- searching
/// Whether `p` stands in `s` at index `i`.
pub open spec fn matches_at(s: Seq<char>, p: Seq<char>, i: int) -> bool {
    0 <= i && i + p.len() <= s.len() && s.subrange(i, i + p.len()) == p
}

/// The least index from `i` on at which `p` stands in `s`.
pub open spec fn find_from(s: Seq<char>, p: Seq<char>, i: int) -> Option<int>
    decreases s.len() - i,
{
    if i < 0 || i + p.len() > s.len() {
        None
    } else if s.subrange(i, i + p.len()) == p {
        Some(i)
    } else if i < s.len() {
        find_from(s, p, i + 1)
    } else {
        None
    }
}

/// The first index at which `p` stands in `s`.
pub open spec fn find(s: Seq<char>, p: Seq<char>) -> Option<int> {
    find_from(s, p, 0)
}

/// Whether `p` stands anywhere in `s`.
pub open spec fn has(s: Seq<char>, p: Seq<char>) -> bool {
    find(s, p) is Some
}

/// Whether `s` starts with `p`.
pub open spec fn has_prefix(s: Seq<char>, p: Seq<char>) -> bool {
    p.len() <= s.len() && s.subrange(0, p.len() as int) == p
}

/// Whether `s` ends with `p`.
pub open spec fn has_suffix(s: Seq<char>, p: Seq<char>) -> bool {
    p.len() <= s.len() && s.subrange(s.len() - p.len(), s.len() as int) == p
}

/// What a search means: the least index from `i` on that holds `p`.
pub proof fn lemma_find_from(s: Seq<char>, p: Seq<char>, i: int)
    requires
        0 <= i,
    ensures
        match find_from(s, p, i) {
            Some(k) => i <= k && matches_at(s, p, k) && forall|j: int|
                i <= j < k ==> !matches_at(s, p, j),
            None => forall|j: int| i <= j ==> !matches_at(s, p, j),
        },
    decreases s.len() - i,
{
    if i + p.len() <= s.len() && s.subrange(i, i + p.len()) != p && i < s.len() {
        lemma_find_from(s, p, i + 1);
    }
}

fn same_at(s: &Vec<char>, p: &Vec<char>, i: usize) -> (r: bool)
    requires
        i + p.len() <= s.len(),
    ensures
        r == (s@.subrange(i as int, i + p@.len()) == p@),
{
    let mut k: usize = 0;
    while k < p.len()
        invariant
            k <= p.len(),
            i + p.len() <= s.len(),
            forall|j: int| 0 <= j < k ==> s@[i + j] == p@[j],
        decreases p.len() - k,
    {
        if s[i + k] != p[k] {
            assert(s@.subrange(i as int, i + p@.len())[k as int] != p@[k as int]);
            return false;
        }
        k = k + 1;
    }
    assert(s@.subrange(i as int, i + p@.len()) =~= p@);
    true
}

/// The first character index from `from` on at which `p` stands in `s`.
pub fn find_chars(s: &Vec<char>, p: &Vec<char>, from: usize) -> (r: Option<usize>)
    ensures
        match r {
            Some(i) => find_from(s@, p@, from as int) == Some(i as int) && from <= i && i + p.len()
                <= s.len(),
            None => find_from(s@, p@, from as int) is None,
        },
{
    let mut i: usize = from;
    while i <= s.len() && p.len() <= s.len() - i
        invariant
            from <= i,
            i <= s.len() + 1 || i == from,
            find_from(s@, p@, from as int) == find_from(s@, p@, i as int),
        decreases s.len() + 1 - i,
    {
        if same_at(s, p, i) {
            return Some(i);
        }
        if i == s.len() {
            return None;
        }
        i = i + 1;
    }
    None
}

/// The first character index at which `p` stands in `s`.
pub fn find_in(s: &str, p: &str) -> (r: Option<usize>)
    ensures
        match r {
            Some(i) => find(s@, p@) == Some(i as int) && i + p@.len() <= s@.len(),
            None => find(s@, p@) is None,
        },
{
    let a = chars_of(s);
    let b = chars_of(p);
    find_chars(&a, &b, 0)
}

/// Whether `p` stands anywhere in `s`.
pub fn contains(s: &str, p: &str) -> (r: bool)
    ensures
        r == has(s@, p@),
{
    find_in(s, p).is_some()
}

/// Whether `s` starts with `p`.
pub fn starts_with(s: &str, p: &str) -> (r: bool)
    ensures
        r == has_prefix(s@, p@),
{
    let a = chars_of(s);
    let b = chars_of(p);
    b.len() <= a.len() && same_at(&a, &b, 0)
}

/// Whether `s` ends with `p`.
pub fn ends_with(s: &str, p: &str) -> (r: bool)
    ensures
        r == has_suffix(s@, p@),
{
    let a = chars_of(s);
    let b = chars_of(p);
    b.len() <= a.len() && same_at(&a, &b, a.len() - b.len())
}

/// What follows the prefix `p` of `s`, where `s` starts with it.
pub fn strip_prefix<'a>(s: &'a str, p: &str) -> (r: Option<&'a str>)
    ensures
        match r {
            Some(t) => has_prefix(s@, p@) && t@ == s@.skip(p@.len() as int),
            None => !has_prefix(s@, p@),
        },
{
    if starts_with(s, p) {
        let n: usize = p.unicode_len();
        let m: usize = s.unicode_len();
        Some(s.substring_char(n, m))
    } else {
        None
    }
}

/// The first index at which `s` holds `c`.
pub open spec fn index_of(s: Seq<char>, c: char) -> Option<int>
    decreases s.len(),
{
    if s.len() == 0 {
        None
    } else {
        match index_of(s.drop_last(), c) {
            Some(i) => Some(i),
            None => if s.last() == c {
                Some(s.len() - 1)
            } else {
                None
            },
        }
    }
}

/// The last index at which `s` holds `c`.
pub open spec fn last_index_of(s: Seq<char>, c: char) -> Option<int>
    decreases s.len(),
{
    if s.len() == 0 {
        None
    } else if s.last() == c {
        Some(s.len() - 1)
    } else {
        last_index_of(s.drop_last(), c)
    }
}

/// What the first index means.
pub proof fn lemma_index_of(s: Seq<char>, c: char)
    ensures
        match index_of(s, c) {
            Some(i) => 0 <= i < s.len() && s[i] == c && forall|j: int| 0 <= j < i ==> s[j] != c,
            None => forall|j: int| 0 <= j < s.len() ==> s[j] != c,
        },
    decreases s.len(),
{
    if s.len() > 0 {
        lemma_index_of(s.drop_last(), c);
        assert forall|j: int| 0 <= j < s.len() - 1 implies s[j] == s.drop_last()[j] by {}
    }
}

/// What the last index means.
pub proof fn lemma_last_index_of(s: Seq<char>, c: char)
    ensures
        match last_index_of(s, c) {
            Some(i) => 0 <= i < s.len() && s[i] == c && forall|j: int|
                i < j < s.len() ==> s[j] != c,
            None => forall|j: int| 0 <= j < s.len() ==> s[j] != c,
        },
    decreases s.len(),
{
    if s.len() > 0 {
        lemma_last_index_of(s.drop_last(), c);
        assert forall|j: int| 0 <= j < s.len() - 1 implies s[j] == s.drop_last()[j] by {}
    }
}

/// An index inside a prefix that already holds `c`.
pub proof fn lemma_index_of_prefix(s: Seq<char>, c: char, n: int)
    requires
        0 <= n <= s.len(),
        index_of(s.take(n), c) is Some,
    ensures
        index_of(s, c) == index_of(s.take(n), c),
    decreases s.len() - n,
{
    if n < s.len() {
        assert(s.take(n + 1).drop_last() =~= s.take(n));
        lemma_index_of_prefix(s, c, n + 1);
    } else {
        assert(s.take(n) =~= s);
    }
}

/// The first index at which the characters hold `c`.
pub fn find_char(v: &Vec<char>, c: char) -> (r: Option<usize>)
    ensures
        match r {
            Some(i) => index_of(v@, c) == Some(i as int) && i < v.len(),
            None => index_of(v@, c) is None,
        },
{
    let mut i: usize = 0;
    assert(v@.take(0) =~= Seq::empty());
    while i < v.len()
        invariant
            i <= v.len(),
            index_of(v@.take(i as int), c) is None,
        decreases v.len() - i,
    {
        assert(v@.take(i + 1).drop_last() =~= v@.take(i as int));
        if v[i] == c {
            proof {
                lemma_index_of_prefix(v@, c, i + 1);
            }
            return Some(i);
        }
        i = i + 1;
    }
    assert(v@.take(i as int) =~= v@);
    None
}

/// The last index at which the characters hold `c`.
pub fn rfind_char(v: &Vec<char>, c: char) -> (r: Option<usize>)
    ensures
        match r {
            Some(i) => last_index_of(v@, c) == Some(i as int) && i < v.len(),
            None => last_index_of(v@, c) is None,
        },
{
    let mut i: usize = v.len();
    assert(v@.take(i as int) =~= v@);
    while i > 0
        invariant
            i <= v.len(),
            last_index_of(v@, c) == last_index_of(v@.take(i as int), c),
        decreases i,
    {
        assert(v@.take(i as int).drop_last() =~= v@.take(i - 1));
        if v[i - 1] == c {
            return Some(i - 1);
        }
        i = i - 1;
    }
    None
}

/// What stands in `s` before the first `c`; all of `s` where there is none.
pub open spec fn before(s: Seq<char>, c: char) -> Seq<char> {
    match index_of(s, c) {
        Some(i) => s.take(i),
        None => s,
    }
}

/// What stands in the string before the first `c`.
pub fn before_char<'a>(s: &'a str, c: char) -> (r: &'a str)
    ensures
        r@ == before(s@, c),
{
    let v = chars_of(s);
    match find_char(&v, c) {
        Some(i) => s.substring_char(0, i),
        None => s,
    }
}

/// What stands in `s` after the last `c`; all of `s` where there is none.
pub open spec fn after_last(s: Seq<char>, c: char) -> Seq<char> {
    match last_index_of(s, c) {
        Some(i) => s.skip(i + 1),
        None => s,
    }
}

/// What stands in the string after the last `c`.
pub fn after_last_char<'a>(s: &'a str, c: char) -> (r: &'a str)
    ensures
        r@ == after_last(s@, c),
{
    let v = chars_of(s);
    match rfind_char(&v, c) {
        Some(i) => s.substring_char(i + 1, v.len()),
        None => s,
    }
}

// ------------------------------------------------------ splitting, joining
/// The pieces of `s` between the occurrences of `c`.
pub open spec fn split_on(s: Seq<char>, c: char) -> Seq<Seq<char>>
    decreases s.len(),
{
    if s.len() == 0 {
        seq![Seq::<char>::empty()]
    } else {
        let init = split_on(s.drop_last(), c);
        if s.last() == c {
            init.push(Seq::<char>::empty())
        } else {
            init.drop_last().push(init.last().push(s.last()))
        }
    }
}

/// A split always has a last piece.
pub proof fn lemma_split_nonempty(s: Seq<char>, c: char)
    ensures
        split_on(s, c).len() >= 1,
    decreases s.len(),
{
    if s.len() > 0 {
        lemma_split_nonempty(s.drop_last(), c);
    }
}

/// The pieces of the string between the occurrences of `c`.
pub fn split_char(s: &str, c: char) -> (r: Vec<String>)
    ensures
        views(r@) == split_on(s@, c),
        r.len() >= 1,
{
    let v = chars_of(s);
    let mut done: Vec<String> = Vec::new();
    let mut cur = String::new();
    let mut i: usize = 0;
    assert(v@.take(0) =~= Seq::empty());
    assert(views(done@).push(cur@) =~= seq![Seq::<char>::empty()]);
    while i < v.len()
        invariant
            i <= v.len(),
            v@ == s@,
            views(done@).push(cur@) == split_on(v@.take(i as int), c),
        decreases v.len() - i,
    {
        let ghost pre = views(done@);
        let ghost pre_cur = cur@;
        assert(v@.take(i + 1).drop_last() =~= v@.take(i as int));
        if v[i] == c {
            done.push(cur);
            cur = String::new();
            assert(views(done@) =~= pre.push(pre_cur));
            assert(views(done@).push(cur@) =~= pre.push(pre_cur).push(Seq::<char>::empty()));
        } else {
            cur.push(v[i]);
            assert(pre.push(pre_cur).drop_last() =~= pre);
        }
        i = i + 1;
    }
    let ghost pre = views(done@);
    let ghost last = cur@;
    done.push(cur);
    assert(v@.take(i as int) =~= s@);
    assert(views(done@) =~= pre.push(last));
    done
}

/// `line` without one trailing carriage return.
pub open spec fn without_cr(line: Seq<char>) -> Seq<char> {
    if line.len() > 0 && line.last() == '\r' {
        line.drop_last()
    } else {
        line
    }
}

/// The lines of `s`: a line ends at `\n` or `\r\n`, and a last line that is
/// empty does not count.
pub open spec fn lines(s: Seq<char>) -> Seq<Seq<char>> {
    let parts = split_on(s, '\n');
    let full = parts.drop_last().map_values(|l: Seq<char>| without_cr(l));
    if parts.last().len() == 0 {
        full
    } else {
        full.push(parts.last())
    }
}

/// The lines of the string.
pub fn lines_of(s: &str) -> (r: Vec<String>)
    ensures
        views(r@) == lines(s@),
{
    let parts = split_char(s, '\n');
    let mut out: Vec<String> = Vec::new();
    let mut i: usize = 0;
    let ghost full = split_on(s@, '\n').drop_last().map_values(|l: Seq<char>| without_cr(l));
    while i < parts.len() - 1
        invariant
            parts.len() >= 1,
            i <= parts.len() - 1,
            views(parts@) == split_on(s@, '\n'),
            full == split_on(s@, '\n').drop_last().map_values(|l: Seq<char>| without_cr(l)),
            views(out@) == full.take(i as int),
        decreases parts.len() - i,
    {
        let v = chars_of(parts[i].as_str());
        let hi: usize = if v.len() > 0 && v[v.len() - 1] == '\r' {
            v.len() - 1
        } else {
            v.len()
        };
        let line = string_of(&v, 0, hi);
        let ghost pre = views(out@);
        assert(parts@[i as int]@ == views(parts@)[i as int]);
        assert(line@ =~= without_cr(parts@[i as int]@));
        out.push(line);
        assert(views(out@) =~= pre.push(line@));
        assert(full.take(i + 1) =~= full.take(i as int).push(full[i as int]));
        i = i + 1;
    }
    assert(full.take(i as int) =~= full);
    let last = &parts[parts.len() - 1];
    assert(last@ == views(parts@).last());
    if !last.as_str().is_empty() {
        let ghost pre = views(out@);
        out.push(last.clone());
        assert(views(out@) =~= pre.push(last@));
    }
    out
}

/// The entries of `parts`, with `sep` between each two.
pub open spec fn join(parts: Seq<Seq<char>>, sep: Seq<char>) -> Seq<char>
    decreases parts.len(),
{
    if parts.len() == 0 {
        Seq::empty()
    } else if parts.len() == 1 {
        parts[0]
    } else {
        join(parts.drop_last(), sep) + sep + parts.last()
    }
}

/// One more entry behind a non-empty list.
pub proof fn lemma_join_push(parts: Seq<Seq<char>>, sep: Seq<char>, p: Seq<char>)
    ensures
        join(parts.push(p), sep) == if parts.len() == 0 {
            p
        } else {
            join(parts, sep) + sep + p
        },
{
    assert(parts.push(p).drop_last() =~= parts);
}

/// The strings of the list with `sep` between each two.
pub fn join_strs(parts: &Vec<String>, sep: &str) -> (r: String)
    ensures
        r@ == join(views(parts@), sep@),
{
    let mut r = String::new();
    let mut i: usize = 0;
    assert(views(parts@).take(0) =~= Seq::empty());
    while i < parts.len()
        invariant
            i <= parts.len(),
            r@ == join(views(parts@).take(i as int), sep@),
        decreases parts.len() - i,
    {
        proof {
            lemma_join_push(views(parts@).take(i as int), sep@, parts@[i as int]@);
            assert(views(parts@).take(i + 1) =~= views(parts@).take(i as int).push(
                parts@[i as int]@,
            ));
        }
        if i > 0 {
            r.append(sep);
        }
        r.append(parts[i].as_str());
        assert(i == 0 ==> r@ =~= parts@[i as int]@);
        i = i + 1;
    }
    assert(views(parts@).take(i as int) =~= views(parts@));
    r
}

// ----------------------------------------------------------------- numbers
/// The character of a decimal digit.
pub open spec fn digit(d: nat) -> char {
    if d == 0 { '0' } else if d == 1 { '1' } else if d == 2 { '2' } else if d == 3 { '3' }
    else if d == 4 { '4' } else if d == 5 { '5' } else if d == 6 { '6' } else if d == 7 { '7' }
    else if d == 8 { '8' } else { '9' }
}

/// `n` in decimal, without leading zeros.
pub open spec fn decimal(n: nat) -> Seq<char>
    decreases n,
{
    if n < 10 {
        seq![digit(n)]
    } else {
        decimal(n / 10).push(digit(n % 10))
    }
}

/// `n` in decimal, with a minus sign where it is negative.
pub open spec fn decimal_int(n: int) -> Seq<char> {
    if n < 0 {
        seq!['-'] + decimal((-n) as nat)
    } else {
        decimal(n as nat)
    }
}

fn digit_char(d: u64) -> (c: char)
    requires
        d < 10,
    ensures
        c == digit(d as nat),
{
    if d == 0 { '0' } else if d == 1 { '1' } else if d == 2 { '2' } else if d == 3 { '3' }
    else if d == 4 { '4' } else if d == 5 { '5' } else if d == 6 { '6' } else if d == 7 { '7' }
    else if d == 8 { '8' } else { '9' }
}

/// `n` in decimal.
pub fn dec_u64(n: u64) -> (r: String)
    ensures
        r@ == decimal(n as nat),
    decreases n,
{
    if n < 10 {
        let mut s = String::new();
        s.push(digit_char(n));
        assert(s@ =~= seq![digit(n as nat)]);
        s
    } else {
        let mut s = dec_u64(n / 10);
        s.push(digit_char(n % 10));
        s
    }
}

/// `n` in decimal.
pub fn dec_usize(n: usize) -> (r: String)
    ensures
        r@ == decimal(n as nat),
{
    dec_u64(n as u64)
}

/// `n` in decimal.
pub fn dec_i64(n: i64) -> (r: String)
    ensures
        r@ == decimal_int(n as int),
{
    if n < 0 {
        let m: u64 = if n == i64::MIN {
            0x8000_0000_0000_0000
        } else {
            (-n) as u64
        };
        let d = dec_u64(m);
        let mut s = String::new();
        s.push('-');
        s.append(d.as_str());
        assert(s@ =~= seq!['-'] + d@);
        s
    } else {
        dec_u64(n as u64)
    }
}

/// The value of a run of decimal digits.
pub open spec fn digits_value(s: Seq<char>) -> nat
    decreases s.len(),
{
    if s.len() == 0 {
        0
    } else {
        digits_value(s.drop_last()) * 10 + (s.last() as u32 - '0' as u32) as nat
    }
}

/// The unsigned number that `s` spells: decimal digits, at least one, with an
/// optional plus sign in front.
pub open spec fn parsed_nat(s: Seq<char>) -> Option<nat> {
    let body = unsigned_body(s);
    if body.len() > 0 && all_digits(body) {
        Some(digits_value(body))
    } else {
        None
    }
}

/// `s` without one leading plus sign.
pub open spec fn unsigned_body(s: Seq<char>) -> Seq<char> {
    if s.len() > 0 && s[0] == '+' {
        s.drop_first()
    } else {
        s
    }
}

/// Whether every character is a decimal digit.
pub open spec fn all_digits(s: Seq<char>) -> bool {
    forall|i: int| 0 <= i < s.len() ==> is_digit(s[i])
}

proof fn lemma_digits_value_grows(s: Seq<char>, n: int)
    requires
        0 <= n <= s.len(),
        forall|i: int| 0 <= i < s.len() ==> is_digit(s[i]),
    ensures
        digits_value(s.take(n)) <= digits_value(s),
    decreases s.len() - n,
{
    if n < s.len() {
        assert(s.take(n + 1).drop_last() =~= s.take(n));
        lemma_digits_value_grows(s, n + 1);
    } else {
        assert(s.take(n) =~= s);
    }
}

/// The unsigned number that the string spells, where it spells one that fits.
pub fn parse_u64(s: &str) -> (r: Option<u64>)
    ensures
        match r {
            Some(n) => parsed_nat(s@) == Some(n as nat),
            None => parsed_nat(s@) is None || parsed_nat(s@)->0 > u64::MAX,
        },
{
    let v = chars_of(s);
    let lo: usize = if v.len() > 0 && v[0] == '+' {
        1
    } else {
        0
    };
    let ghost body = unsigned_body(s@);
    assert(body =~= v@.subrange(lo as int, v@.len() as int));
    if lo == v.len() {
        return None;
    }
    let mut i: usize = lo;
    while i < v.len()
        invariant
            lo <= i <= v.len(),
            body == unsigned_body(s@),
            body == v@.subrange(lo as int, v@.len() as int),
            forall|j: int| 0 <= j < i - lo ==> is_digit(body[j]),
        decreases v.len() - i,
    {
        if !('0' <= v[i] && v[i] <= '9') {
            assert(body[i - lo] == v@[i as int]);
            return None;
        }
        i = i + 1;
    }
    let mut n: u64 = 0;
    let mut k: usize = lo;
    assert(body.take(0) =~= Seq::empty());
    while k < v.len()
        invariant
            lo <= k <= v.len(),
            body == v@.subrange(lo as int, v@.len() as int),
            all_digits(body),
            n == digits_value(body.take(k - lo)),
            parsed_nat(s@) == Some(digits_value(body)),
        decreases v.len() - k,
    {
        assert(body[k - lo] == v@[k as int]);
        let d: u64 = (v[k] as u32 - '0' as u32) as u64;
        proof {
            assert(body.take(k + 1 - lo).drop_last() =~= body.take(k - lo));
            lemma_digits_value_grows(body, k + 1 - lo);
        }
        if n > u64::MAX / 10 || n * 10 > u64::MAX - d {
            return None;
        }
        n = n * 10 + d;
        k = k + 1;
    }
    assert(body.take(k - lo) =~= body);
    Some(n)
}

/// The integer that `s` spells: decimal digits, at least one, with an optional
/// minus sign in front.
pub open spec fn is_int_text(s: Seq<char>) -> Option<int> {
    if s.len() > 0 && s[0] == '-' {
        if s.len() > 1 && all_digits(s.drop_first()) {
            Some(-(digits_value(s.drop_first()) as int))
        } else {
            None
        }
    } else if s.len() > 0 && all_digits(s) {
        Some(digits_value(s) as int)
    } else {
        None
    }
}

/// The integer that the string spells, where it spells one that fits.
pub fn parse_int(s: &str) -> (r: Option<i64>)
    ensures
        match r {
            Some(n) => is_int_text(s@) == Some(n as int),
            None => is_int_text(s@) is None || is_int_text(s@)->0 > i64::MAX || is_int_text(s@)->0
                < i64::MIN,
        },
{
    let v = chars_of(s);
    if v.len() == 0 {
        return None;
    }
    let negative = v[0] == '-';
    let lo: usize = if negative {
        1
    } else {
        0
    };
    if lo == v.len() || v[lo] == '+' {
        proof {
            if lo < v.len() {
                assert(!is_digit('+'));
                if negative {
                    assert(s@.drop_first()[0] == v@[1]);
                } else {
                    assert(s@[0] == '+');
                }
            }
        }
        return None;
    }
    let body = string_of(&v, lo, v.len());
    assert(body@ =~= if negative {
        s@.drop_first()
    } else {
        s@
    });
    assert(unsigned_body(body@) == body@) by {
        assert(body@[0] == v@[lo as int]);
    }
    match parse_u64(body.as_str()) {
        None => None,
        Some(n) => {
            if negative {
                if n <= 0x7fff_ffff_ffff_ffff {
                    Some(-(n as i64))
                } else if n == 0x8000_0000_0000_0000 {
                    Some(i64::MIN)
                } else {
                    None
                }
            } else if n <= 0x7fff_ffff_ffff_ffff {
                Some(n as i64)
            } else {
                None
            }
        },
    }
}

// -------------------------------------------------------- repeated stripping
/// `s` without leading copies of `p`.
pub open spec fn past_prefixes(s: Seq<char>, p: Seq<char>) -> Seq<char>
    decreases s.len(),
{
    if p.len() > 0 && has_prefix(s, p) {
        past_prefixes(s.skip(p.len() as int), p)
    } else {
        s
    }
}

/// `s` without trailing copies of `p`.
pub open spec fn before_suffixes(s: Seq<char>, p: Seq<char>) -> Seq<char>
    decreases s.len(),
{
    if p.len() > 0 && has_suffix(s, p) {
        before_suffixes(s.take(s.len() - p.len()), p)
    } else {
        s
    }
}

/// The string without leading copies of `p`.
pub fn strip_prefixes<'a>(s: &'a str, p: &str) -> (r: &'a str)
    ensures
        r@ == past_prefixes(s@, p@),
    decreases s@.len(),
{
    if p.is_empty() {
        return s;
    }
    match strip_prefix(s, p) {
        Some(t) => strip_prefixes(t, p),
        None => s,
    }
}

/// The string without trailing copies of `p`.
pub fn strip_suffixes<'a>(s: &'a str, p: &str) -> (r: &'a str)
    ensures
        r@ == before_suffixes(s@, p@),
    decreases s@.len(),
{
    if p.is_empty() || !ends_with(s, p) {
        return s;
    }
    let n = chars_of(s).len() - chars_of(p).len();
    let t = s.substring_char(0, n);
    assert(t@ =~= s@.take(s@.len() - p@.len()));
    strip_suffixes(t, p)
}

/// What stands before the first white space.
pub open spec fn to_space(s: Seq<char>) -> Seq<char>
    decreases s.len(),
{
    if s.len() == 0 || is_space(s[0]) {
        Seq::empty()
    } else {
        seq![s[0]] + to_space(s.drop_first())
    }
}

/// The first word; empty where there is none.
pub open spec fn first_word(s: Seq<char>) -> Seq<char> {
    to_space(trim_start(s))
}

/// The first word; empty where there is none.
pub fn first_word_of(s: &str) -> (r: String)
    ensures
        r@ == first_word(s@),
{
    let t = trim_start_str(s);
    let v = chars_of(t);
    let mut i: usize = 0;
    assert(v@.skip(0) =~= v@);
    assert(v@.take(0) + to_space(v@) =~= to_space(v@));
    while i < v.len() && !char_is_space(v[i])
        invariant
            i <= v.len(),
            to_space(v@) == v@.take(i as int) + to_space(v@.skip(i as int)),
        decreases v.len() - i,
    {
        assert(v@.skip(i as int).drop_first() =~= v@.skip(i + 1));
        assert(v@.take(i as int) + (seq![v@[i as int]] + to_space(v@.skip(i + 1))) =~= v@.take(
            i + 1,
        ) + to_space(v@.skip(i + 1)));
        i = i + 1;
    }
    let r = string_of(&v, 0, i);
    assert(r@ =~= to_space(v@));
    r
}

// -------------------------------------------------------------------- laws
/// A list joined is its first entry, the separator, and the rest joined.
pub proof fn law_join_from_the_front(parts: Seq<Seq<char>>, sep: Seq<char>)
    ensures
        parts.len() == 0 ==> join(parts, sep).len() == 0,
        parts.len() == 1 ==> join(parts, sep) == parts[0],
        parts.len() > 1 ==> join(parts, sep) == parts[0] + sep + join(parts.drop_first(), sep),
    decreases parts.len(),
{
    if parts.len() == 2 {
        assert(parts.drop_last() =~= seq![parts[0]]);
        assert(parts.drop_first() =~= seq![parts[1]]);
        assert(join(parts.drop_last(), sep) == parts[0]);
        assert(join(parts.drop_first(), sep) == parts[1]);
        assert(join(parts, sep) == join(parts.drop_last(), sep) + sep + parts.last());
    } else if parts.len() > 2 {
        let init = parts.drop_last();
        law_join_from_the_front(init, sep);
        let tail = parts.drop_first();
        assert(init.drop_first() =~= tail.drop_last());
        assert(tail.last() == parts.last());
        assert(join(parts, sep) == join(init, sep) + sep + parts.last());
        assert(join(tail, sep) == join(tail.drop_last(), sep) + sep + tail.last());
        assert(join(parts, sep) =~= parts[0] + sep + join(parts.drop_first(), sep));
    }
}

proof fn lemma_digit(d: nat)
    requires
        d < 10,
    ensures
        digit(d) as u32 - '0' as u32 == d,
        is_digit(digit(d)),
{
}

/// A number written in decimal reads back as itself; it has no leading zero.
pub proof fn law_decimal_reads_back(n: nat)
    ensures
        digits_value(decimal(n)) == n,
        decimal(n).len() > 0,
        all_digits(decimal(n)),
        n > 0 ==> decimal(n)[0] != '0',
        parsed_nat(decimal(n)) == Some(n),
    decreases n,
{
    if n < 10 {
        lemma_digit(n);
        reveal_with_fuel(digits_value, 2);
        assert(seq![digit(n)].drop_last() =~= Seq::empty());
    } else {
        law_decimal_reads_back(n / 10);
        lemma_digit(n % 10);
        assert(decimal(n).drop_last() =~= decimal(n / 10));
    }
}

/// A signed number in decimal reads back as itself.
pub proof fn law_signed_decimal_reads_back(n: int)
    ensures
        is_int_text(decimal_int(n)) == Some(n),
        n < 0 ==> decimal_int(n)[0] == '-',
        n >= 0 ==> decimal_int(n) == decimal(n as nat),
{
    if n < 0 {
        law_decimal_reads_back((-n) as nat);
        assert(decimal_int(n).drop_first() =~= decimal((-n) as nat));
    } else {
        law_decimal_reads_back(n as nat);
    }
}

/// Two numbers have two texts.
pub proof fn law_decimals_differ(a: int, b: int)
    ensures
        decimal_int(a) == decimal_int(b) ==> a == b,
        a >= 0 && b >= 0 && decimal(a as nat) == decimal(b as nat) ==> a == b,
{
    law_signed_decimal_reads_back(a);
    law_signed_decimal_reads_back(b);
}

/// Whether one text stands somewhere in another.
pub open spec fn tells(t: Seq<char>, x: Seq<char>) -> bool {
    exists|i: int| #[trigger] matches_at(t, x, i)
}

/// A text between two others stands in their concatenation.
pub proof fn lemma_tells(t: Seq<char>, before: Seq<char>, x: Seq<char>, after: Seq<char>)
    requires
        t == before + x + after,
    ensures
        tells(t, x),
{
    assert(t.subrange(before.len() as int, (before.len() + x.len()) as int) =~= x);
    assert(matches_at(t, x, before.len() as int));
}

/// What a part of a text tells, the text tells.
pub proof fn lemma_tells_more(t: Seq<char>, before: Seq<char>, part: Seq<char>, after: Seq<char>, x: Seq<char>)
    requires
        t == before + part + after,
        tells(part, x),
    ensures
        tells(t, x),
{
    let i = choose|i: int| #[trigger] matches_at(part, x, i);
    let k = before.len() + i;
    assert(t.subrange(k, k + x.len()) =~= part.subrange(i, i + x.len()));
    assert(matches_at(t, x, k));
}

/// Every entry stands in the joined text.
pub proof fn law_join_holds_each(parts: Seq<Seq<char>>, sep: Seq<char>, i: int)
    requires
        0 <= i < parts.len(),
    ensures
        tells(join(parts, sep), parts[i]),
    decreases parts.len(),
{
    let t = join(parts, sep);
    if parts.len() == 1 {
        assert(t =~= Seq::<char>::empty() + parts[0] + Seq::<char>::empty());
        lemma_tells(t, Seq::empty(), parts[0], Seq::empty());
    } else if i == parts.len() - 1 {
        assert(t =~= join(parts.drop_last(), sep) + sep + parts.last() + Seq::<char>::empty());
        lemma_tells(t, join(parts.drop_last(), sep) + sep, parts.last(), Seq::empty());
    } else {
        law_join_holds_each(parts.drop_last(), sep, i);
        let part = join(parts.drop_last(), sep);
        assert(t =~= Seq::<char>::empty() + part + (sep + parts.last()));
        lemma_tells_more(t, Seq::empty(), part, sep + parts.last(), parts[i]);
    }
}

/// A search finds a text wherever it stands.
pub proof fn law_search_finds(s: Seq<char>, p: Seq<char>)
    ensures
        has(s, p) <==> tells(s, p),
        has_prefix(s, p) ==> has(s, p),
        has_suffix(s, p) ==> has(s, p),
        has(s, Seq::empty()),
{
    lemma_find_from(s, p, 0);
    lemma_find_from(s, Seq::empty(), 0);
    assert(s.subrange(0, 0) =~= Seq::<char>::empty());
    assert(matches_at(s, Seq::empty(), 0));
    if has_prefix(s, p) {
        assert(matches_at(s, p, 0));
    }
    if has_suffix(s, p) {
        assert(matches_at(s, p, s.len() - p.len()));
    }
    if tells(s, p) {
        let i = choose|i: int| #[trigger] matches_at(s, p, i);
        assert(0 <= i);
    }
}

/// What stands before the first, or after the last, of a character.
pub proof fn law_parts_around_a_character(p: Seq<char>, c: char, q: Seq<char>)
    ensures
        !p.contains(c) ==> before(p + seq![c] + q, c) == p && before(p, c) == p,
        !q.contains(c) ==> after_last(p + seq![c] + q, c) == q && after_last(q, c) == q,
{
    let t = p + seq![c] + q;
    assert(t[p.len() as int] == c);
    lemma_index_of(t, c);
    lemma_last_index_of(t, c);
    lemma_index_of(p, c);
    lemma_last_index_of(q, c);
    if !p.contains(c) {
        let i = index_of(t, c)->0;
        if i < p.len() {
            assert(p[i] == t[i]);
        }
        assert(t.take(i) =~= p);
    }
    if !q.contains(c) {
        let i = last_index_of(t, c)->0;
        if i > p.len() {
            assert(q[i - p.len() - 1] == t[i]);
        }
        assert(t.skip(i + 1) =~= q);
    }
}

/// Splitting loses nothing: the pieces, joined by the character, are the text
/// again, and none of them holds it.
pub proof fn law_split_joins_back(s: Seq<char>, c: char)
    ensures
        split_on(s, c).len() >= 1,
        join(split_on(s, c), seq![c]) == s,
        forall|i: int| 0 <= i < split_on(s, c).len() ==> !(#[trigger] split_on(s, c)[i]).contains(c),
    decreases s.len(),
{
    let all = split_on(s, c);
    if s.len() == 0 {
        assert(join(all, seq![c]) =~= s);
    } else {
        let t = s.drop_last();
        law_split_joins_back(t, c);
        let init = split_on(t, c);
        if s.last() == c {
            lemma_join_push(init, seq![c], Seq::empty());
            assert(join(all, seq![c]) =~= s);
            assert forall|i: int| 0 <= i < all.len() implies !(#[trigger] all[i]).contains(c) by {
                if i < init.len() {
                    assert(all[i] == init[i]);
                }
            }
        } else {
            let head = init.drop_last();
            let grown = init.last().push(s.last());
            lemma_join_push(head, seq![c], grown);
            lemma_join_push(head, seq![c], init.last());
            assert(head.push(init.last()) =~= init);
            assert(all == head.push(grown));
            assert(s =~= t.push(s.last()));
            if head.len() == 0 {
                assert(join(all, seq![c]) =~= s);
            } else {
                assert(join(all, seq![c]) == join(head, seq![c]) + seq![c] + grown);
                assert(t == join(head, seq![c]) + seq![c] + init.last());
                assert(join(all, seq![c]) =~= s);
            }
            assert forall|i: int| 0 <= i < all.len() implies !(#[trigger] all[i]).contains(c) by {
                if i < head.len() {
                    assert(all[i] == init[i]);
                } else {
                    assert(!init[init.len() - 1].contains(c));
                    if grown.contains(c) {
                        let k = choose|k: int| 0 <= k < grown.len() && grown[k] == c;
                        assert(init.last()[k] == c);
                    }
                }
            }
        }
    }
}

/// Lines are the pieces between line feeds, without a carriage return at their
/// end; an empty last piece is no line.
pub proof fn law_lines(s: Seq<char>, i: int)
    ensures
        ({
            let parts = split_on(s, '\n');
            let l = lines(s);
            &&& parts.last().len() == 0 ==> l.len() == parts.len() - 1
            &&& parts.last().len() > 0 ==> l.len() == parts.len() && l.last() == parts.last()
            &&& 0 <= i < parts.len() - 1 && parts[i].len() > 0 && parts[i].last() == '\r' ==> l[i]
                == parts[i].drop_last()
            &&& 0 <= i < parts.len() - 1 && (parts[i].len() == 0 || parts[i].last() != '\r')
                ==> l[i] == parts[i]
        }),
{
    lemma_split_nonempty(s, '\n');
}

/// Repeated prefixes and suffixes are dropped, all of them, and nothing else.
pub proof fn law_copies_are_dropped(s: Seq<char>, p: Seq<char>)
    requires
        p.len() > 0,
    ensures
        !has_prefix(past_prefixes(s, p), p),
        past_prefixes(p + s, p) == past_prefixes(s, p),
        !has_prefix(s, p) ==> past_prefixes(s, p) == s,
        !has_suffix(before_suffixes(s, p), p),
        before_suffixes(s + p, p) == before_suffixes(s, p),
        !has_suffix(s, p) ==> before_suffixes(s, p) == s,
{
    lemma_no_prefix(s, p);
    lemma_no_suffix(s, p);
    assert((p + s).subrange(0, p.len() as int) =~= p);
    assert((p + s).skip(p.len() as int) =~= s);
    let t = s + p;
    assert(t.subrange(t.len() - p.len(), t.len() as int) =~= p);
    assert(t.take(t.len() - p.len()) =~= s);
}

proof fn lemma_no_prefix(s: Seq<char>, p: Seq<char>)
    requires
        p.len() > 0,
    ensures
        !has_prefix(past_prefixes(s, p), p),
    decreases s.len(),
{
    if has_prefix(s, p) {
        lemma_no_prefix(s.skip(p.len() as int), p);
    }
}

proof fn lemma_no_suffix(s: Seq<char>, p: Seq<char>)
    requires
        p.len() > 0,
    ensures
        !has_suffix(before_suffixes(s, p), p),
    decreases s.len(),
{
    if has_suffix(s, p) {
        lemma_no_suffix(s.take(s.len() - p.len()), p);
    }
}

/// The first word of a text stands between white space.
pub proof fn law_first_word(a: Seq<char>, w: Seq<char>, b: Seq<char>)
    requires
        forall|i: int| 0 <= i < a.len() ==> is_space(a[i]),
        forall|i: int| 0 <= i < w.len() ==> !is_space(w[i]),
        w.len() > 0,
        b.len() > 0 ==> is_space(b[0]),
    ensures
        first_word(a + w + b) == w,
    decreases a.len(),
{
    let t = a + w + b;
    if a.len() > 0 {
        assert(t.drop_first() =~= a.drop_first() + w + b);
        assert(is_space(t[0]));
        law_first_word(a.drop_first(), w, b);
    } else {
        assert(t =~= w + b);
        assert(t[0] == w[0]);
        lemma_to_space(w, b);
    }
}

proof fn lemma_to_space(w: Seq<char>, b: Seq<char>)
    requires
        forall|i: int| 0 <= i < w.len() ==> !is_space(w[i]),
        b.len() > 0 ==> is_space(b[0]),
    ensures
        to_space(w + b) == w,
    decreases w.len(),
{
    if w.len() > 0 {
        let t = w + b;
        assert(t[0] == w[0]);
        assert(t.drop_first() =~= w.drop_first() + b);
        lemma_to_space(w.drop_first(), b);
        assert(to_space(t) =~= w);
    } else {
        assert(w + b =~= b);
        assert(to_space(b) =~= w);
    }
}

} // verus!
