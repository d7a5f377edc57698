//! A bounded memory of keyed values: the newest entries survive.
use vstd::prelude::*;

use crate::text::str_eq;

verus! {

/// The last `capacity` values remembered, oldest first, each under its id.
pub struct Window<T> {
    pub entries: Vec<(String, T)>,
    pub capacity: usize,
}

/// The ids of a run of entries.
pub open spec fn ids<T>(s: Seq<(String, T)>) -> Seq<Seq<char>> {
    s.map_values(|e: (String, T)| e.0@)
}

/// The entries without those under `id`.
pub open spec fn without<T>(s: Seq<(String, T)>, id: Seq<char>) -> Seq<(String, T)>
    decreases s.len(),
{
    if s.len() == 0 {
        s
    } else if s.last().0@ == id {
        without(s.drop_last(), id)
    } else {
        without(s.drop_last(), id).push(s.last())
    }
}

/// The newest `n` entries.
pub open spec fn newest<T>(s: Seq<(String, T)>, n: int) -> Seq<(String, T)> {
    if s.len() > n {
        s.skip(s.len() - n)
    } else {
        s
    }
}

/// The index of the last entry under `id`.
pub open spec fn entry_of<T>(s: Seq<(String, T)>, id: Seq<char>) -> Option<int>
    decreases s.len(),
{
    if s.len() == 0 {
        None
    } else if s.last().0@ == id {
        Some(s.len() - 1)
    } else {
        entry_of(s.drop_last(), id)
    }
}

/// What is left holds nothing under `id` and all else, in order.
pub proof fn lemma_without<T>(s: Seq<(String, T)>, id: Seq<char>)
    ensures
        without(s, id).len() <= s.len(),
        forall|i: int| 0 <= i < without(s, id).len() ==> (#[trigger] without(s, id)[i]).0@ != id,
        forall|i: int|
            0 <= i < s.len() && (#[trigger] s[i]).0@ != id ==> without(s, id).contains(s[i]),
        forall|i: int|
            0 <= i < without(s, id).len() ==> s.contains(#[trigger] without(s, id)[i]),
        ids(s).no_duplicates() ==> ids(without(s, id)).no_duplicates() && without(s, id).len()
            >= s.len() - 1,
        (forall|i: int| 0 <= i < s.len() ==> (#[trigger] s[i]).0@ != id) ==> without(s, id) == s,
    decreases s.len(),
{
    if s.len() > 0 {
        let t = s.drop_last();
        lemma_without(t, id);
        let w = without(s, id);
        let wt = without(t, id);
        assert forall|i: int| 0 <= i < s.len() && (#[trigger] s[i]).0@ != id implies w.contains(
            s[i],
        ) by {
            if i < s.len() - 1 {
                assert(t[i] == s[i]);
                let k = choose|k: int| 0 <= k < wt.len() && wt[k] == s[i];
                assert(w[k] == s[i]);
            } else {
                assert(w[w.len() - 1] == s[i]);
            }
        }
        assert forall|i: int| 0 <= i < w.len() implies s.contains(#[trigger] w[i]) by {
            if i < wt.len() {
                assert(t.contains(wt[i]));
                let k = choose|k: int| 0 <= k < t.len() && t[k] == wt[i];
                assert(s[k] == w[i]);
            } else {
                assert(s[s.len() - 1] == w[i]);
            }
        }
        if ids(s).no_duplicates() {
            assert(ids(t) =~= ids(s).drop_last());
            assert(ids(t).no_duplicates());
            if s.last().0@ == id {
                assert forall|i: int| 0 <= i < t.len() implies (#[trigger] t[i]).0@ != id by {
                    assert(ids(s)[i] == t[i].0@);
                    assert(ids(s)[s.len() - 1] == id);
                }
            } else {
                assert forall|i: int, j: int| 0 <= i < j < w.len() implies ids(w)[i] != ids(
                    w,
                )[j] by {
                    if j == w.len() - 1 {
                        assert(t.contains(wt[i]));
                        let k = choose|k: int| 0 <= k < t.len() && t[k] == wt[i];
                        assert(ids(s)[k] == wt[i].0@);
                        assert(ids(s)[s.len() - 1] == s.last().0@);
                    } else {
                        assert(ids(wt)[i] == ids(w)[i] && ids(wt)[j] == ids(w)[j]);
                    }
                }
            }
        }
        if forall|i: int| 0 <= i < s.len() ==> (#[trigger] s[i]).0@ != id {
            assert forall|i: int| 0 <= i < t.len() implies (#[trigger] t[i]).0@ != id by {
                assert(s[i].0@ != id);
            }
            assert(s[s.len() - 1].0@ != id);
            assert(t.push(s.last()) =~= s);
        }
    }
}

/// What a lookup finds.
pub proof fn lemma_entry_of<T>(s: Seq<(String, T)>, id: Seq<char>)
    ensures
        match entry_of(s, id) {
            Some(i) => 0 <= i < s.len() && s[i].0@ == id,
            None => forall|i: int| 0 <= i < s.len() ==> (#[trigger] s[i]).0@ != id,
        },
    decreases s.len(),
{
    if s.len() > 0 {
        lemma_entry_of(s.drop_last(), id);
        assert forall|i: int| 0 <= i < s.len() - 1 implies s.drop_last()[i] == #[trigger] s[i] by {}
    }
}

impl<T> Window<T> {
    /// No id occurs twice, and the window is not over its capacity, which is
    /// at least one.
    pub open spec fn wf(&self) -> bool {
        &&& ids(self.entries@).no_duplicates()
        &&& self.entries@.len() <= self.capacity
        &&& 1 <= self.capacity < usize::MAX
    }

    /// An empty window; a capacity of zero counts as one.
    pub fn with_capacity(capacity: usize) -> (r: Self)
        requires
            capacity < usize::MAX,
        ensures
            r.wf(),
            r.entries@ == Seq::<(String, T)>::empty(),
            r.capacity == if capacity == 0 {
                1
            } else {
                capacity
            },
    {
        Window {
            entries: Vec::new(),
            capacity: if capacity == 0 {
                1
            } else {
                capacity
            },
        }
    }

    /// Remembers a value as the newest, replacing one under the same id and
    /// evicting the oldest once the window is full.
    pub fn remember(&mut self, id: String, value: T)
        requires
            old(self).wf(),
        ensures
            final(self).wf(),
            final(self).capacity == old(self).capacity,
            final(self).entries@ == newest(
                without(old(self).entries@, id@).push((id, value)),
                old(self).capacity as int,
            ),
    {
        let mut kept: Vec<(String, T)> = Vec::new();
        let mut rest: Vec<(String, T)> = Vec::new();
        let ghost all = self.entries@;
        // The entries leave from the end, so `rest` collects them backwards.
        while self.entries.len() > 0
            invariant
                self.capacity == old(self).capacity,
                self.entries@.len() <= all.len(),
                self.entries@ == all.take(self.entries@.len() as int),
                without(all, id@) == without(self.entries@, id@) + rest@.reverse(),
            decreases self.entries@.len(),
        {
            let ghost before = self.entries@;
            let ghost rest0 = rest@;
            if let Some(e) = self.entries.pop() {
                assert(self.entries@ =~= before.drop_last());
                assert(self.entries@ =~= all.take(self.entries@.len() as int));
                if !str_eq(e.0.as_str(), id.as_str()) {
                    rest.push(e);
                    assert(without(before, id@) + rest0.reverse() =~= without(
                        self.entries@,
                        id@,
                    ) + rest@.reverse());
                }
            }
        }
        assert(self.entries@ =~= Seq::empty());
        assert(without(all, id@) =~= rest@.reverse());
        let ghost target = rest@.reverse();
        while rest.len() > 0
            invariant
                kept@ + rest@.reverse() == target,
            decreases rest@.len(),
        {
            let ghost kept0 = kept@;
            let ghost rest0 = rest@;
            if let Some(e) = rest.pop() {
                kept.push(e);
                assert(kept@ + rest@.reverse() =~= kept0 + rest0.reverse());
            }
        }
        assert(kept@ =~= target);
        proof {
            lemma_without(all, id@);
        }
        let ghost pre = kept@;
        let ghost entry = (id, value);
        kept.push((id, value));
        assert(ids(kept@).no_duplicates()) by {
            assert forall|i: int, j: int| 0 <= i < j < kept@.len() implies ids(kept@)[i] != ids(
                kept@,
            )[j] by {
                if j == kept@.len() - 1 {
                    assert(pre[i].0@ != id@);
                } else {
                    assert(ids(pre)[i] == ids(kept@)[i] && ids(pre)[j] == ids(kept@)[j]);
                }
            }
        }
        if kept.len() > self.capacity {
            let ghost full = kept@;
            kept.remove(0);
            assert(kept@ =~= full.skip(1));
            assert(ids(kept@).no_duplicates()) by {
                assert forall|i: int, j: int| 0 <= i < j < kept@.len() implies ids(kept@)[i]
                    != ids(kept@)[j] by {
                    assert(ids(full)[i + 1] == ids(kept@)[i] && ids(full)[j + 1] == ids(kept@)[j]);
                }
            }
        }
        self.entries = kept;
    }

    /// The value under `id`, if it is still inside the window.
    pub fn get(&self, id: &str) -> (r: Option<&T>)
        ensures
            match r {
                Some(v) => entry_of(self.entries@, id@) is Some && *v == self.entries@[entry_of(
                    self.entries@,
                    id@,
                )->0].1,
                None => entry_of(self.entries@, id@) is None,
            },
    {
        let mut i: usize = self.entries.len();
        assert(self.entries@.take(i as int) =~= self.entries@);
        while i > 0
            invariant
                i <= self.entries.len(),
                entry_of(self.entries@, id@) == entry_of(self.entries@.take(i as int), id@),
            decreases i,
        {
            assert(self.entries@.take(i as int).drop_last() =~= self.entries@.take(i - 1));
            if str_eq(self.entries[i - 1].0.as_str(), id) {
                return Some(&self.entries[i - 1].1);
            }
            i = i - 1;
        }
        None
    }

    /// How many values are held.
    pub fn len(&self) -> (n: usize)
        ensures
            n == self.entries@.len(),
    {
        self.entries.len()
    }
}

// -------------------------------------------------------------------- laws
/// A value just remembered is found again.
pub proof fn law_remembered_is_found<T>(s: Seq<(String, T)>, id: String, value: T, capacity: int)
    requires
        capacity >= 1,
    ensures
        ({
            let after = newest(without(s, id@).push((id, value)), capacity);
            entry_of(after, id@) == Some(after.len() - 1) && after.last().1 == value
        }),
{
}

/// Remembering under one id does not touch the value under another, as long
/// as the window has room.
pub proof fn law_others_are_kept<T>(
    s: Seq<(String, T)>,
    id: String,
    value: T,
    capacity: int,
    other: Seq<char>,
)
    requires
        s.len() < capacity,
        other != id@,
        entry_of(s, other) is Some,
        ids(s).no_duplicates(),
    ensures
        ({
            let after = newest(without(s, id@).push((id, value)), capacity);
            entry_of(after, other) is Some && after[entry_of(after, other)->0].1 == s[entry_of(
                s,
                other,
            )->0].1
        }),
{
    lemma_without(s, id@);
    lemma_entry_of(s, other);
    let after = newest(without(s, id@).push((id, value)), capacity);
    assert(after =~= without(s, id@).push((id, value)));
    assert(after.drop_last() =~= without(s, id@));
    lemma_entry_of_without(s, id@, other);
    lemma_entry_of(without(s, id@), other);
}

proof fn lemma_entry_of_without<T>(s: Seq<(String, T)>, id: Seq<char>, other: Seq<char>)
    requires
        other != id,
        entry_of(s, other) is Some,
    ensures
        entry_of(without(s, id), other) is Some,
        without(s, id)[entry_of(without(s, id), other)->0] == s[entry_of(s, other)->0],
    decreases s.len(),
{
    lemma_entry_of(s, other);
    if s.last().0@ == other {
        assert(without(s, id).last() == s.last());
    } else {
        lemma_entry_of(s.drop_last(), other);
        lemma_entry_of_without(s.drop_last(), id, other);
        let w = without(s.drop_last(), id);
        lemma_entry_of(w, other);
        if s.last().0@ != id {
            assert(without(s, id).drop_last() =~= w);
        }
    }
}

/// The window never exceeds its capacity, and what it evicts is the oldest.
pub proof fn law_bounded<T>(s: Seq<(String, T)>, id: String, value: T, capacity: int)
    requires
        capacity >= 1,
        s.len() <= capacity,
        ids(s).no_duplicates(),
    ensures
        newest(without(s, id@).push((id, value)), capacity).len() <= capacity,
        s.len() == capacity && entry_of(s, id@) is None ==> newest(
            without(s, id@).push((id, value)),
            capacity,
        ) == s.skip(1).push((id, value)),
{
    lemma_without(s, id@);
    lemma_entry_of(s, id@);
    if s.len() == capacity && entry_of(s, id@) is None {
        assert(without(s, id@) == s);
        assert(s.push((id, value)).skip(1) =~= s.skip(1).push((id, value)));
    }
}

} // verus!
