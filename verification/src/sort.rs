//! Stable sorting.
use vstd::prelude::*;

use crate::text::{chars_of, views};

verus! {

/// A value with a rank to sort by.
pub trait Ranked: Sized {
    spec fn rank(&self) -> nat;

    fn get_rank(&self) -> (r: u64)
        ensures
            r == self.rank(),
    ;
}

/// `s` with `x` behind the last entry that does not rank above it.
pub open spec fn insert_ranked<T: Ranked>(s: Seq<T>, x: T) -> Seq<T>
    decreases s.len(),
{
    if s.len() == 0 || s.last().rank() <= x.rank() {
        s.push(x)
    } else {
        insert_ranked(s.drop_last(), x).push(s.last())
    }
}

/// The stable sort of `s` by rank: each entry goes behind those before it
/// that do not rank above it.
pub open spec fn sorted<T: Ranked>(s: Seq<T>) -> Seq<T>
    decreases s.len(),
{
    if s.len() == 0 {
        s
    } else {
        insert_ranked(sorted(s.drop_last()), s.last())
    }
}

pub open spec fn is_sorted<T: Ranked>(s: Seq<T>) -> bool {
    forall|i: int, j: int|
        #![trigger s[i], s[j]]
        0 <= i <= j < s.len() ==> s[i].rank() <= s[j].rank()
}

proof fn lemma_insert_ranked<T: Ranked>(s: Seq<T>, x: T)
    requires
        is_sorted(s),
    ensures
        is_sorted(insert_ranked(s, x)),
        insert_ranked(s, x).to_multiset() == s.to_multiset().insert(x),
        insert_ranked(s, x).len() == s.len() + 1,
        insert_ranked(s, x).last() == x || (s.len() > 0 && insert_ranked(s, x).last() == s.last()),
    decreases s.len(),
{
    broadcast use vstd::seq_lib::group_to_multiset_ensures;

    let r = insert_ranked(s, x);
    if s.len() == 0 || s.last().rank() <= x.rank() {
        assert forall|i: int, j: int|
            #![trigger r[i], r[j]]
            0 <= i <= j < r.len() implies r[i].rank() <= r[j].rank() by {
            if j == s.len() && i < s.len() {
                assert(s[i].rank() <= s[s.len() - 1].rank());
            }
        }
    } else {
        let t = s.drop_last();
        let top = s.last();
        lemma_insert_ranked(t, x);
        let q = insert_ranked(t, x);
        assert(q.last().rank() <= top.rank()) by {
            if q.last() != x {
                assert(s[t.len() - 1].rank() <= s[s.len() - 1].rank());
            }
        }
        assert forall|i: int, j: int|
            #![trigger r[i], r[j]]
            0 <= i <= j < r.len() implies r[i].rank() <= r[j].rank() by {
            if j < q.len() {
                assert(q[i].rank() <= q[j].rank());
            } else if i < q.len() {
                assert(q[i].rank() <= q[q.len() - 1].rank());
            }
        }
        assert(s =~= t.push(top));
        assert(t.to_multiset().insert(x).insert(top) =~= t.to_multiset().insert(top).insert(x));
    }
}

/// Sorting orders by rank and keeps every entry exactly as often as it was.
pub proof fn lemma_sorted<T: Ranked>(s: Seq<T>)
    ensures
        is_sorted(sorted(s)),
        sorted(s).to_multiset() == s.to_multiset(),
        sorted(s).len() == s.len(),
    decreases s.len(),
{
    broadcast use vstd::seq_lib::group_to_multiset_ensures;

    if s.len() > 0 {
        lemma_sorted(s.drop_last());
        lemma_insert_ranked(sorted(s.drop_last()), s.last());
        assert(s =~= s.drop_last().push(s.last()));
    }
}

proof fn lemma_insert_at<T: Ranked>(s: Seq<T>, x: T, n: int)
    requires
        0 <= n <= s.len(),
        forall|i: int| n <= i < s.len() ==> (#[trigger] s[i]).rank() > x.rank(),
        n > 0 ==> s[n - 1].rank() <= x.rank(),
    ensures
        insert_ranked(s, x) == s.insert(n, x),
    decreases s.len(),
{
    if n == s.len() {
        assert(s.insert(n, x) =~= s.push(x));
    } else {
        assert(s[s.len() - 1].rank() > x.rank());
        let t = s.drop_last();
        assert forall|i: int| n <= i < t.len() implies (#[trigger] t[i]).rank() > x.rank() by {
            assert(s[i].rank() > x.rank());
        }
        lemma_insert_at(t, x, n);
        assert(t.insert(n, x).push(s.last()) =~= s.insert(n, x));
    }
}

/// Puts `x` into `v` behind the last entry that does not rank above it.
pub fn insert_by_rank<T: Ranked>(v: &mut Vec<T>, x: T)
    ensures
        final(v)@ == insert_ranked(old(v)@, x),
{
    let rank: u64 = x.get_rank();
    let mut n: usize = v.len();
    while n > 0 && v[n - 1].get_rank() > rank
        invariant
            n <= v.len(),
            v@ == old(v)@,
            rank == x.rank(),
            forall|i: int| n <= i < v.len() ==> (#[trigger] v@[i]).rank() > x.rank(),
        decreases n,
    {
        n = n - 1;
    }
    proof {
        lemma_insert_at(v@, x, n as int);
    }
    v.insert(n, x);
}

// ------------------------------------------------------------------ strings
/// The lexicographic order of strings by character.
pub open spec fn lex_le(a: Seq<char>, b: Seq<char>) -> bool
    decreases a.len(),
{
    if a.len() == 0 {
        true
    } else if b.len() == 0 {
        false
    } else if a[0] == b[0] {
        lex_le(a.drop_first(), b.drop_first())
    } else {
        a[0] < b[0]
    }
}

/// The order is total.
pub proof fn lemma_lex_total(a: Seq<char>, b: Seq<char>)
    ensures
        lex_le(a, b) || lex_le(b, a),
        lex_le(a, b) && lex_le(b, a) ==> a == b,
    decreases a.len(),
{
    if a.len() > 0 && b.len() > 0 && a[0] == b[0] {
        lemma_lex_total(a.drop_first(), b.drop_first());
        if lex_le(a, b) && lex_le(b, a) {
            assert(a =~= seq![a[0]] + a.drop_first());
            assert(b =~= seq![b[0]] + b.drop_first());
        }
    } else if lex_le(a, b) && lex_le(b, a) {
        assert(a =~= b);
    }
}

/// The order is transitive.
pub proof fn lemma_lex_trans(a: Seq<char>, b: Seq<char>, c: Seq<char>)
    requires
        lex_le(a, b),
        lex_le(b, c),
    ensures
        lex_le(a, c),
    decreases a.len(),
{
    if a.len() > 0 && b.len() > 0 && c.len() > 0 && a[0] == b[0] && b[0] == c[0] {
        lemma_lex_trans(a.drop_first(), b.drop_first(), c.drop_first());
    }
}

/// Whether `a` stands before `b` or equals it.
pub fn str_le(a: &str, b: &str) -> (r: bool)
    ensures
        r == lex_le(a@, b@),
{
    let x = chars_of(a);
    let y = chars_of(b);
    let mut i: usize = 0;
    assert(a@.skip(0) =~= a@);
    assert(b@.skip(0) =~= b@);
    while i < x.len() && i < y.len()
        invariant
            i <= x.len(),
            i <= y.len(),
            x@ == a@,
            y@ == b@,
            lex_le(a@, b@) == lex_le(a@.skip(i as int), b@.skip(i as int)),
        decreases x.len() - i,
    {
        if x[i] != y[i] {
            return x[i] < y[i];
        }
        assert(a@.skip(i as int).drop_first() =~= a@.skip(i + 1));
        assert(b@.skip(i as int).drop_first() =~= b@.skip(i + 1));
        i = i + 1;
    }
    i == x.len()
}

/// `s` with `x` behind the last string that is not greater.
pub open spec fn insert_lex(s: Seq<Seq<char>>, x: Seq<char>) -> Seq<Seq<char>>
    decreases s.len(),
{
    if s.len() == 0 || lex_le(s.last(), x) {
        s.push(x)
    } else {
        insert_lex(s.drop_last(), x).push(s.last())
    }
}

/// The strings in lexicographic order.
pub open spec fn sorted_lex(s: Seq<Seq<char>>) -> Seq<Seq<char>>
    decreases s.len(),
{
    if s.len() == 0 {
        s
    } else {
        insert_lex(sorted_lex(s.drop_last()), s.last())
    }
}

pub open spec fn is_sorted_lex(s: Seq<Seq<char>>) -> bool {
    forall|i: int, j: int| #![trigger s[i], s[j]] 0 <= i <= j < s.len() ==> lex_le(s[i], s[j])
}

proof fn lemma_insert_lex(s: Seq<Seq<char>>, x: Seq<char>)
    requires
        is_sorted_lex(s),
    ensures
        is_sorted_lex(insert_lex(s, x)),
        insert_lex(s, x).to_multiset() == s.to_multiset().insert(x),
        insert_lex(s, x).len() == s.len() + 1,
        insert_lex(s, x).last() == x || (s.len() > 0 && insert_lex(s, x).last() == s.last()),
        s.len() > 0 ==> lex_le(s.last(), insert_lex(s, x).last()),
        lex_le(x, insert_lex(s, x).last()),
    decreases s.len(),
{
    broadcast use vstd::seq_lib::group_to_multiset_ensures;

    let r = insert_lex(s, x);
    lemma_lex_total(x, x);
    if s.len() == 0 || lex_le(s.last(), x) {
        assert forall|i: int, j: int|
            #![trigger r[i], r[j]]
            0 <= i <= j < r.len() implies lex_le(r[i], r[j]) by {
            if j == s.len() && i < s.len() {
                assert(lex_le(s[i], s[s.len() - 1]));
                lemma_lex_trans(s[i], s.last(), x);
            }
        }
    } else {
        let t = s.drop_last();
        let top = s.last();
        lemma_lex_total(top, x);
        lemma_lex_total(top, top);
        lemma_insert_lex(t, x);
        let q = insert_lex(t, x);
        assert(lex_le(q.last(), top)) by {
            if q.last() != x {
                assert(lex_le(s[t.len() - 1], s[s.len() - 1]));
            }
        }
        assert forall|i: int, j: int|
            #![trigger r[i], r[j]]
            0 <= i <= j < r.len() implies lex_le(r[i], r[j]) by {
            if j < q.len() {
                assert(lex_le(q[i], q[j]));
            } else if i < q.len() {
                assert(lex_le(q[i], q[q.len() - 1]));
                lemma_lex_trans(q[i], q.last(), top);
            }
        }
        assert(s =~= t.push(top));
        assert(t.to_multiset().insert(x).insert(top) =~= t.to_multiset().insert(top).insert(x));
    }
}

/// Sorting orders the strings and keeps each as often as it was.
pub proof fn lemma_sorted_lex(s: Seq<Seq<char>>)
    ensures
        is_sorted_lex(sorted_lex(s)),
        sorted_lex(s).to_multiset() == s.to_multiset(),
        sorted_lex(s).len() == s.len(),
    decreases s.len(),
{
    broadcast use vstd::seq_lib::group_to_multiset_ensures;

    if s.len() > 0 {
        lemma_sorted_lex(s.drop_last());
        lemma_insert_lex(sorted_lex(s.drop_last()), s.last());
        assert(s =~= s.drop_last().push(s.last()));
    }
}

proof fn lemma_insert_lex_at(s: Seq<Seq<char>>, x: Seq<char>, n: int)
    requires
        0 <= n <= s.len(),
        forall|i: int| n <= i < s.len() ==> !lex_le(#[trigger] s[i], x),
        n > 0 ==> lex_le(s[n - 1], x),
    ensures
        insert_lex(s, x) == s.insert(n, x),
    decreases s.len(),
{
    if n == s.len() {
        assert(s.insert(n, x) =~= s.push(x));
    } else {
        assert(!lex_le(s[s.len() - 1], x));
        let t = s.drop_last();
        assert forall|i: int| n <= i < t.len() implies !lex_le(#[trigger] t[i], x) by {
            assert(!lex_le(s[i], x));
        }
        lemma_insert_lex_at(t, x, n);
        assert(t.insert(n, x).push(s.last()) =~= s.insert(n, x));
    }
}

/// Puts `x` into `v` behind the last string that is not greater.
pub fn insert_str(v: &mut Vec<String>, x: String)
    ensures
        views(final(v)@) == insert_lex(views(old(v)@), x@),
{
    let mut n: usize = v.len();
    while n > 0 && !str_le(v[n - 1].as_str(), x.as_str())
        invariant
            n <= v.len(),
            v@ == old(v)@,
            forall|i: int| n <= i < v.len() ==> !lex_le(#[trigger] views(v@)[i], x@),
        decreases n,
    {
        n = n - 1;
    }
    proof {
        lemma_insert_lex_at(views(v@), x@, n as int);
    }
    let ghost xs = x@;
    v.insert(n, x);
    assert(views(v@) =~= views(old(v)@).insert(n as int, xs));
}

/// Strings are ordered by their first characters, then by what follows; a
/// string comes before all that it begins.
pub proof fn law_order_of_strings(a: Seq<char>, b: Seq<char>, c: char, d: char)
    ensures
        c < d ==> lex_le(seq![c] + a, seq![d] + b) && !lex_le(seq![d] + b, seq![c] + a),
        lex_le(seq![c] + a, seq![c] + b) <==> lex_le(a, b),
        lex_le(a, a + b),
        !lex_le(a.push(c), a),
    decreases a.len(),
{
    let x = seq![c] + a;
    let y = seq![c] + b;
    assert(x.drop_first() =~= a && y.drop_first() =~= b);
    let z = seq![d] + b;
    assert(z[0] == d && x[0] == c);
    if a.len() > 0 {
        assert((a + b).drop_first() =~= a.drop_first() + b);
        assert(a.push(c).drop_first() =~= a.drop_first().push(c));
        law_order_of_strings(a.drop_first(), b, c, d);
    }
}

} // verus!
