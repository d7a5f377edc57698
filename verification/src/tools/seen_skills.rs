//! Which skill bodies a session has consumed, and whether they are still in
//! its context.
//!
//! Each entry carries the compaction epoch at which the body was last loaded;
//! a compaction bumps the session's epoch, so older entries stop counting as
//! "in context" until the body is read again. Nothing is ever cleared.
use std::collections::HashMap;
use vstd::prelude::*;
use vstd::std_specs::hash::*;

use crate::paths::{components, components_of, file_name, file_name_of};
use crate::sort::{insert_str, is_sorted_lex, lemma_sorted_lex, sorted_lex};
use crate::text::{oview, str_eq, views};

verus! {

broadcast use vstd::std_specs::hash::group_hash_axioms;

// --------------------------------------------------------------- skill paths
/// The skill whose definition a path points at: `skills/<slug>/SKILL.md`.
pub open spec fn slug_of(path: Seq<char>) -> Option<Seq<char>> {
    let c = components(path);
    if file_name(path) == Some("SKILL.md"@) && c.len() >= 3 && c[c.len() - 3] == "skills"@ {
        Some(c[c.len() - 2])
    } else {
        None
    }
}

/// Extracts the skill slug from a path that points at a skill definition file.
pub fn skill_slug_from_path(path: &str) -> (r: Option<String>)
    ensures
        oview(r) == slug_of(path@),
{
    match file_name_of(path) {
        Some(name) => {
            if !str_eq(name.as_str(), "SKILL.md") {
                return None;
            }
        },
        None => {
            return None;
        },
    }
    let c = components_of(path);
    if c.len() < 3 {
        return None;
    }
    let ghost all = views(c@);
    assert(all[c.len() - 3] == c@[c.len() - 3]@);
    assert(all[c.len() - 2] == c@[c.len() - 2]@);
    if str_eq(c[c.len() - 3].as_str(), "skills") {
        Some(c[c.len() - 2].clone())
    } else {
        None
    }
}

// ------------------------------------------------------------------ registry
/// One consumed skill.
pub struct SeenRow {
    pub session: u128,
    pub slug: String,
    pub epoch: u64,
}

pub open spec fn key(r: SeenRow) -> (u128, Seq<char>) {
    (r.session, r.slug@)
}

/// No skill is listed twice for one session.
pub open spec fn distinct(s: Seq<SeenRow>) -> bool {
    forall|i: int, j: int|
        #![trigger s[i], s[j]]
        0 <= i < j < s.len() ==> key(s[i]) != key(s[j])
}

/// The epochs by session and slug.
pub open spec fn to_map(s: Seq<SeenRow>) -> Map<(u128, Seq<char>), u64>
    decreases s.len(),
{
    if s.len() == 0 {
        Map::empty()
    } else {
        to_map(s.drop_last()).insert(key(s.last()), s.last().epoch)
    }
}

/// Where an entry stands.
pub open spec fn index_of_row(s: Seq<SeenRow>, session: u128, slug: Seq<char>) -> Option<int>
    decreases s.len(),
{
    if s.len() == 0 {
        None
    } else if key(s.last()) == (session, slug) {
        Some(s.len() - 1)
    } else {
        index_of_row(s.drop_last(), session, slug)
    }
}

proof fn lemma_index_of_row(s: Seq<SeenRow>, session: u128, slug: Seq<char>)
    ensures
        match index_of_row(s, session, slug) {
            Some(i) => 0 <= i < s.len() && key(s[i]) == (session, slug) && to_map(
                s,
            ).dom().contains((session, slug)) && to_map(s)[(session, slug)] == s[i].epoch,
            None => !to_map(s).dom().contains((session, slug)) && forall|i: int|
                0 <= i < s.len() ==> key(#[trigger] s[i]) != (session, slug),
        },
    decreases s.len(),
{
    if s.len() > 0 {
        let t = s.drop_last();
        lemma_index_of_row(t, session, slug);
        assert forall|i: int| 0 <= i < t.len() implies t[i] == #[trigger] s[i] by {}
    }
}

proof fn lemma_map_at(s: Seq<SeenRow>, i: int)
    requires
        distinct(s),
        0 <= i < s.len(),
    ensures
        to_map(s).dom().contains(key(s[i])),
        to_map(s)[key(s[i])] == s[i].epoch,
{
    lemma_index_of_row(s, s[i].session, s[i].slug@);
    let k = index_of_row(s, s[i].session, s[i].slug@)->0;
    if k < i {
        assert(key(s[k]) != key(s[i]));
    } else if i < k {
        assert(key(s[i]) != key(s[k]));
    }
}

proof fn lemma_map_update(s: Seq<SeenRow>, i: int, r: SeenRow)
    requires
        distinct(s),
        0 <= i < s.len(),
        key(s[i]) == key(r),
    ensures
        distinct(s.update(i, r)),
        to_map(s.update(i, r)) == to_map(s).insert(key(r), r.epoch),
{
    let u = s.update(i, r);
    assert(distinct(u)) by {
        assert forall|x: int, y: int|
            #![trigger u[x], u[y]]
            0 <= x < y < u.len() implies key(u[x]) != key(u[y]) by {
            assert(key(s[x]) != key(s[y]));
        }
    }
    let want = to_map(s).insert(key(r), r.epoch);
    assert forall|k: (u128, Seq<char>)| to_map(u).dom().contains(k) == want.dom().contains(k) by {
        lemma_index_of_row(u, k.0, k.1);
        lemma_index_of_row(s, k.0, k.1);
        lemma_map_at(u, i);
        if let Some(x) = index_of_row(u, k.0, k.1) {
            if x != i {
                lemma_map_at(s, x);
            }
        }
        if let Some(x) = index_of_row(s, k.0, k.1) {
            lemma_map_at(u, x);
        }
    }
    assert forall|k: (u128, Seq<char>)| to_map(u).dom().contains(k) implies to_map(u)[k]
        == want[k] by {
        lemma_index_of_row(u, k.0, k.1);
        lemma_map_at(u, i);
        let x = index_of_row(u, k.0, k.1)->0;
        if x != i {
            assert(key(u[x]) != key(u[i])) by {
                if x < i {
                    assert(key(s[x]) != key(s[i]));
                } else {
                    assert(key(s[i]) != key(s[x]));
                }
            }
            lemma_map_at(s, x);
        }
    }
    assert(to_map(u) =~= want);
}

/// The rows of one session's slugs.
pub open spec fn slugs_of(s: Seq<SeenRow>, session: u128) -> Seq<Seq<char>>
    decreases s.len(),
{
    if s.len() == 0 {
        Seq::empty()
    } else if s.last().session == session {
        slugs_of(s.drop_last(), session).push(s.last().slug@)
    } else {
        slugs_of(s.drop_last(), session)
    }
}

/// A table of epochs by session and slug.
pub struct SeenTable {
    pub rows: Vec<SeenRow>,
}

impl SeenTable {
    pub open spec fn wf(&self) -> bool {
        distinct(self.rows@)
    }

    pub open spec fn map(&self) -> Map<(u128, Seq<char>), u64> {
        to_map(self.rows@)
    }

    pub fn new() -> (r: Self)
        ensures
            r.wf(),
            r.map() == Map::<(u128, Seq<char>), u64>::empty(),
    {
        SeenTable { rows: Vec::new() }
    }

    fn find(&self, session: u128, slug: &str) -> (r: Option<usize>)
        ensures
            match r {
                Some(i) => index_of_row(self.rows@, session, slug@) == Some(i as int) && i
                    < self.rows@.len(),
                None => index_of_row(self.rows@, session, slug@) is None,
            },
    {
        let mut i: usize = self.rows.len();
        assert(self.rows@.take(i as int) =~= self.rows@);
        while i > 0
            invariant
                i <= self.rows.len(),
                index_of_row(self.rows@, session, slug@) == index_of_row(
                    self.rows@.take(i as int),
                    session,
                    slug@,
                ),
            decreases i,
        {
            assert(self.rows@.take(i as int).drop_last() =~= self.rows@.take(i - 1));
            if self.rows[i - 1].session == session && str_eq(self.rows[i - 1].slug.as_str(), slug) {
                return Some(i - 1);
            }
            i = i - 1;
        }
        None
    }

    /// The epoch of an entry.
    pub fn get(&self, session: u128, slug: &str) -> (r: Option<u64>)
        ensures
            match r {
                Some(e) => self.map().dom().contains((session, slug@)) && self.map()[(
                    session,
                    slug@,
                )] == e,
                None => !self.map().dom().contains((session, slug@)),
            },
    {
        proof {
            lemma_index_of_row(self.rows@, session, slug@);
        }
        match self.find(session, slug) {
            Some(i) => Some(self.rows[i].epoch),
            None => None,
        }
    }

    /// Sets the epoch of an entry.
    pub fn put(&mut self, session: u128, slug: &str, epoch: u64)
        requires
            old(self).wf(),
        ensures
            final(self).wf(),
            final(self).map() == old(self).map().insert((session, slug@), epoch),
    {
        proof {
            lemma_index_of_row(self.rows@, session, slug@);
        }
        let row = SeenRow { session, slug: slug.to_owned(), epoch };
        match self.find(session, slug) {
            Some(i) => {
                proof {
                    lemma_map_update(self.rows@, i as int, row);
                }
                self.rows.set(i, row);
            },
            None => {
                let ghost pre = self.rows@;
                self.rows.push(row);
                assert(self.rows@.drop_last() =~= pre);
                assert(distinct(self.rows@)) by {
                    assert forall|x: int, y: int|
                        #![trigger self.rows@[x], self.rows@[y]]
                        0 <= x < y < self.rows@.len() implies key(self.rows@[x]) != key(
                        self.rows@[y],
                    ) by {
                        if y == pre.len() {
                            assert(key(pre[x]) != (session, slug@));
                        } else {
                            assert(key(pre[x]) != key(pre[y]));
                        }
                    }
                }
            },
        }
    }

    /// Raises the epoch of an entry to at least `epoch`.
    pub fn raise(&mut self, session: u128, slug: &str, epoch: u64)
        requires
            old(self).wf(),
        ensures
            final(self).wf(),
            final(self).map() == raised(old(self).map(), (session, slug@), epoch),
    {
        let e: u64 = match self.get(session, slug) {
            Some(old) => if old > epoch {
                old
            } else {
                epoch
            },
            None => epoch,
        };
        self.put(session, slug, e);
    }

    pub fn len(&self) -> (n: usize)
        ensures
            n == self.rows@.len(),
    {
        self.rows.len()
    }
}

/// A map with one entry raised to at least `epoch`.
pub open spec fn raised<K>(m: Map<K, u64>, k: K, epoch: u64) -> Map<K, u64> {
    m.insert(
        k,
        if m.dom().contains(k) && m[k] > epoch {
            m[k]
        } else {
            epoch
        },
    )
}

/// Raises the epoch of a session to at least `epoch`.
fn raise_epoch(epochs: &mut HashMap<u128, u64>, session: u128, epoch: u64)
    ensures
        final(epochs)@ == raised(old(epochs)@, session, epoch),
{
    let e: u64 = match epochs.get(&session) {
        Some(old) => if *old > epoch {
            *old
        } else {
            epoch
        },
        None => epoch,
    };
    epochs.insert(session, e);
}

/// The registry of consumed skills.
pub struct SeenSkills {
    pub seen: SeenTable,
    /// Compaction epoch of each session; absent means zero.
    pub epochs: HashMap<u128, u64>,
}

/// A session's compaction epoch.
pub open spec fn epoch_of(epochs: Map<u128, u64>, session: u128) -> u64 {
    if epochs.dom().contains(session) {
        epochs[session]
    } else {
        0
    }
}

/// Whether a session's context holds a skill's body.
pub open spec fn in_context(
    seen: Map<(u128, Seq<char>), u64>,
    epochs: Map<u128, u64>,
    session: u128,
    slug: Seq<char>,
) -> bool {
    seen.dom().contains((session, slug)) && seen[(session, slug)] >= epoch_of(epochs, session)
}

/// The registry, as values.
pub struct Registry {
    pub seen: Map<(u128, Seq<char>), u64>,
    pub epochs: Map<u128, u64>,
}

/// What happens to the registry.
pub enum SkillEvent {
    /// A session reads a skill's body.
    Read { session: u128, slug: Seq<char> },
    /// A session's context is compacted.
    Compacted { session: u128 },
}

/// The registry after an event.
pub open spec fn after_event(r: Registry, e: SkillEvent) -> Registry {
    match e {
        SkillEvent::Read { session, slug } => Registry {
            seen: r.seen.insert((session, slug), epoch_of(r.epochs, session)),
            ..r
        },
        SkillEvent::Compacted { session } => Registry {
            epochs: r.epochs.insert(session, (epoch_of(r.epochs, session) + 1) as u64),
            ..r
        },
    }
}

/// The registry after a run of events.
pub open spec fn after_events(r: Registry, events: Seq<SkillEvent>) -> Registry
    decreases events.len(),
{
    if events.len() == 0 {
        r
    } else {
        after_event(after_events(r, events.drop_last()), events.last())
    }
}

/// How often a session is compacted in a run of events.
pub open spec fn compactions(events: Seq<SkillEvent>, session: u128) -> nat
    decreases events.len(),
{
    if events.len() == 0 {
        0
    } else {
        compactions(events.drop_last(), session) + if events.last() == (SkillEvent::Compacted {
            session,
        }) {
            1nat
        } else {
            0nat
        }
    }
}

/// Whether no event is a session's reading of a skill.
pub open spec fn unread(events: Seq<SkillEvent>, session: u128, slug: Seq<char>) -> bool {
    forall|i: int|
        0 <= i < events.len() ==> #[trigger] events[i] != (SkillEvent::Read { session, slug })
}

impl SeenSkills {
    pub open spec fn wf(&self) -> bool {
        self.seen.wf()
    }

    pub open spec fn registry(&self) -> Registry {
        Registry { seen: self.seen.map(), epochs: self.epochs@ }
    }

    pub fn new() -> (r: Self)
        ensures
            r.wf(),
            r.seen.map() == Map::<(u128, Seq<char>), u64>::empty(),
            r.epochs@ == Map::<u128, u64>::empty(),
    {
        SeenSkills { seen: SeenTable::new(), epochs: HashMap::new() }
    }

    /// The session's compaction epoch.
    pub fn current_epoch(&self, session: u128) -> (r: u64)
        ensures
            r == epoch_of(self.epochs@, session),
    {
        match self.epochs.get(&session) {
            Some(e) => *e,
            None => 0,
        }
    }

    /// Records that a session consumed a skill, at its current epoch. Returns
    /// that epoch, for the stored row.
    pub fn mark_seen(&mut self, session: u128, slug: &str) -> (epoch: u64)
        requires
            old(self).wf(),
        ensures
            final(self).wf(),
            final(self).epochs == old(self).epochs,
            epoch == epoch_of(old(self).epochs@, session),
            final(self).seen.map() == old(self).seen.map().insert((session, slug@), epoch),
            final(self).registry() == after_event(
                old(self).registry(),
                SkillEvent::Read { session, slug: slug@ },
            ),
    {
        let epoch: u64 = self.current_epoch(session);
        self.seen.put(session, slug, epoch);
        epoch
    }

    /// Bumps the session's compaction epoch; clears nothing.
    pub fn note_compaction(&mut self, session: u128)
        requires
            old(self).wf(),
            epoch_of(old(self).epochs@, session) < u64::MAX,
        ensures
            final(self).wf(),
            final(self).seen == old(self).seen,
            final(self).epochs@ == old(self).epochs@.insert(
                session,
                (epoch_of(old(self).epochs@, session) + 1) as u64,
            ),
            final(self).registry() == after_event(
                old(self).registry(),
                SkillEvent::Compacted { session },
            ),
    {
        let next: u64 = self.current_epoch(session) + 1;
        self.epochs.insert(session, next);
    }

    /// Whether the session's context currently holds the skill's body.
    pub fn seen_since_compaction(&self, session: u128, slug: &str) -> (r: bool)
        ensures
            r == in_context(self.seen.map(), self.epochs@, session, slug@),
    {
        match self.seen.get(session, slug) {
            Some(e) => e >= self.current_epoch(session),
            None => false,
        }
    }

    /// Whether the session has consumed the skill, at any epoch.
    pub fn was_seen(&self, session: u128, slug: &str) -> (r: bool)
        ensures
            r == self.seen.map().dom().contains((session, slug@)),
    {
        self.seen.get(session, slug).is_some()
    }

    /// All skills a session has consumed, in lexicographic order.
    pub fn seen_for_session(&self, session: u128) -> (r: Vec<String>)
        ensures
            views(r@) == sorted_lex(slugs_of(self.seen.rows@, session)),
    {
        let mut out: Vec<String> = Vec::new();
        let mut i: usize = 0;
        let ghost rows = self.seen.rows@;
        assert(rows.take(0) =~= Seq::empty());
        assert(views(out@) =~= Seq::empty());
        while i < self.seen.rows.len()
            invariant
                i <= self.seen.rows.len(),
                rows == self.seen.rows@,
                views(out@) == sorted_lex(slugs_of(rows.take(i as int), session)),
            decreases self.seen.rows.len() - i,
        {
            assert(rows.take(i + 1).drop_last() =~= rows.take(i as int));
            if self.seen.rows[i].session == session {
                proof {
                    let some = slugs_of(rows.take(i as int), session);
                    assert(some.push(rows[i as int].slug@).drop_last() =~= some);
                }
                insert_str(&mut out, self.seen.rows[i].slug.clone());
            }
            i = i + 1;
        }
        assert(rows.take(i as int) =~= rows);
        out
    }

    /// Installs seeds, the greater epoch winning. Returns how many entries
    /// they held.
    pub fn apply_seeds(&mut self, seeds: HydrationSeeds) -> (n: usize)
        requires
            old(self).wf(),
            seeds.wf(),
        ensures
            final(self).wf(),
            n == seeds.seen.rows@.len(),
            final(self).seen.map() == merged_rows(old(self).seen.map(), seeds.seen.rows@),
            final(self).epochs@ == merged_epochs(old(self).epochs@, seeds.sessions@, seeds.epochs@),
    {
        let mut i: usize = 0;
        let ghost rows = seeds.seen.rows@;
        let ghost start = self.seen.map();
        assert(rows.take(0) =~= Seq::empty());
        while i < seeds.seen.rows.len()
            invariant
                i <= seeds.seen.rows.len(),
                rows == seeds.seen.rows@,
                self.wf(),
                self.epochs == old(self).epochs,
                self.seen.map() == merged_rows(start, rows.take(i as int)),
            decreases seeds.seen.rows.len() - i,
        {
            assert(rows.take(i + 1).drop_last() =~= rows.take(i as int));
            let r = &seeds.seen.rows[i];
            self.seen.raise(r.session, r.slug.as_str(), r.epoch);
            i = i + 1;
        }
        assert(rows.take(i as int) =~= rows);
        let mut k: usize = 0;
        let ghost start_epochs = self.epochs@;
        assert(seeds.sessions@.take(0) =~= Seq::empty());
        while k < seeds.sessions.len()
            invariant
                k <= seeds.sessions.len(),
                seeds.wf(),
                self.wf(),
                self.seen.map() == merged_rows(start, rows),
                self.epochs@ == merged_epochs(
                    start_epochs,
                    seeds.sessions@.take(k as int),
                    seeds.epochs@,
                ),
            decreases seeds.sessions.len() - k,
        {
            assert(seeds.sessions@.take(k + 1).drop_last() =~= seeds.sessions@.take(k as int));
            let session: u128 = seeds.sessions[k];
            assert(seeds.sessions@.contains(session));
            if let Some(e) = seeds.epochs.get(&session) {
                raise_epoch(&mut self.epochs, session, *e);
            }
            k = k + 1;
        }
        assert(seeds.sessions@.take(k as int) =~= seeds.sessions@);
        seeds.seen.len()
    }
}

// ----------------------------------------------------------------- hydration
/// What stored rows fold into: entries, and the floor of each session's
/// epoch.
pub struct HydrationSeeds {
    pub seen: SeenTable,
    pub epochs: HashMap<u128, u64>,
    /// The sessions that `epochs` holds.
    pub sessions: Vec<u128>,
}

impl HydrationSeeds {
    pub open spec fn wf(&self) -> bool {
        &&& self.seen.wf()
        &&& self.sessions@.no_duplicates()
        &&& forall|s: u128| self.epochs@.dom().contains(s) <==> #[trigger] self.sessions@.contains(s)
    }
}

/// A stored row: session, slug and epoch.
pub struct StoredRow {
    pub session: u128,
    pub slug: String,
    pub epoch: Option<i64>,
}

/// A stored epoch; absent and negative ones read as zero.
pub open spec fn stored_epoch(e: Option<i64>) -> u64 {
    if e is Some && e->0 > 0 {
        e->0 as u64
    } else {
        0
    }
}

/// The entries that stored rows fold into: per session and slug the greatest
/// epoch.
pub open spec fn folded_seen(rows: Seq<StoredRow>) -> Map<(u128, Seq<char>), u64>
    decreases rows.len(),
{
    if rows.len() == 0 {
        Map::empty()
    } else {
        raised(
            folded_seen(rows.drop_last()),
            (rows.last().session, rows.last().slug@),
            stored_epoch(rows.last().epoch),
        )
    }
}

/// The epoch floors that stored rows fold into: per session the greatest epoch.
pub open spec fn folded_epochs(rows: Seq<StoredRow>) -> Map<u128, u64>
    decreases rows.len(),
{
    if rows.len() == 0 {
        Map::empty()
    } else {
        raised(
            folded_epochs(rows.drop_last()),
            rows.last().session,
            stored_epoch(rows.last().epoch),
        )
    }
}

/// Folds stored rows into seeds.
pub fn hydrate_from_rows(rows: &Vec<StoredRow>) -> (r: HydrationSeeds)
    ensures
        r.wf(),
        r.seen.map() == folded_seen(rows@),
        r.epochs@ == folded_epochs(rows@),
{
    let mut seeds = HydrationSeeds {
        seen: SeenTable::new(),
        epochs: HashMap::new(),
        sessions: Vec::new(),
    };
    let mut i: usize = 0;
    assert(rows@.take(0) =~= Seq::empty());
    while i < rows.len()
        invariant
            i <= rows.len(),
            seeds.wf(),
            seeds.seen.map() == folded_seen(rows@.take(i as int)),
            seeds.epochs@ == folded_epochs(rows@.take(i as int)),
        decreases rows.len() - i,
    {
        assert(rows@.take(i + 1).drop_last() =~= rows@.take(i as int));
        let row = &rows[i];
        let epoch: u64 = match row.epoch {
            Some(e) => if e > 0 {
                e as u64
            } else {
                0
            },
            None => 0,
        };
        seeds.seen.raise(row.session, row.slug.as_str(), epoch);
        let ghost pre = seeds.sessions@;
        if !seeds.epochs.contains_key(&row.session) {
            seeds.sessions.push(row.session);
            proof {
                assert(!pre.contains(row.session));
                let now = seeds.sessions@;
                assert forall|x: int, y: int| 0 <= x < y < now.len() implies now[x] != now[y] by {
                    if y == pre.len() {
                        assert(pre.contains(pre[x]));
                    }
                }
            }
        }
        raise_epoch(&mut seeds.epochs, row.session, epoch);
        assert forall|s: u128| seeds.epochs@.dom().contains(s) <==> #[trigger] seeds.sessions@.contains(
            s,
        ) by {
            let now = seeds.sessions@;
            if pre.contains(s) {
                let k = choose|k: int| 0 <= k < pre.len() && pre[k] == s;
                assert(now[k] == s);
            }
            if s == row.session && now.len() > pre.len() {
                assert(now[now.len() - 1] == s);
            }
            if now.contains(s) && !pre.contains(s) {
                let k = choose|k: int| 0 <= k < now.len() && now[k] == s;
                assert(k == pre.len());
            }
        }
        i = i + 1;
    }
    assert(rows@.take(i as int) =~= rows@);
    seeds
}

/// A map with every row merged in, the greater epoch winning.
pub open spec fn merged_rows(m: Map<(u128, Seq<char>), u64>, rows: Seq<SeenRow>) -> Map<
    (u128, Seq<char>),
    u64,
>
    decreases rows.len(),
{
    if rows.len() == 0 {
        m
    } else {
        raised(merged_rows(m, rows.drop_last()), key(rows.last()), rows.last().epoch)
    }
}

/// A map with the epochs of the listed sessions merged in.
pub open spec fn merged_epochs(m: Map<u128, u64>, sessions: Seq<u128>, from: Map<u128, u64>) -> Map<
    u128,
    u64,
>
    decreases sessions.len(),
{
    if sessions.len() == 0 {
        m
    } else {
        raised(merged_epochs(m, sessions.drop_last(), from), sessions.last(), from[sessions.last()])
    }
}

// -------------------------------------------------------------------- laws
/// Reading a skill brings it into context; a compaction takes it out again;
/// reading it again brings it back.
pub proof fn law_compaction_rearms(
    seen: Map<(u128, Seq<char>), u64>,
    epochs: Map<u128, u64>,
    session: u128,
    slug: Seq<char>,
)
    requires
        epoch_of(epochs, session) < u64::MAX,
    ensures
        ({
            let read = seen.insert((session, slug), epoch_of(epochs, session));
            let compacted = epochs.insert(session, (epoch_of(epochs, session) + 1) as u64);
            let again = read.insert((session, slug), epoch_of(compacted, session));
            &&& in_context(read, epochs, session, slug)
            &&& !in_context(read, compacted, session, slug)
            &&& in_context(again, compacted, session, slug)
        }),
{
}

/// A run of events without a reading moves the counter by the compactions and
/// leaves the skill's entry alone.
proof fn lemma_unread(r: Registry, events: Seq<SkillEvent>, session: u128, slug: Seq<char>)
    requires
        unread(events, session, slug),
        epoch_of(r.epochs, session) + compactions(events, session) <= u64::MAX,
    ensures
        ({
            let later = after_events(r, events);
            &&& epoch_of(later.epochs, session) == epoch_of(r.epochs, session) + compactions(
                events,
                session,
            )
            &&& later.seen.dom().contains((session, slug)) == r.seen.dom().contains(
                (session, slug),
            )
            &&& r.seen.dom().contains((session, slug)) ==> later.seen[(session, slug)] == r.seen[(
                session,
                slug,
            )]
        }),
    decreases events.len(),
{
    if events.len() > 0 {
        let init = events.drop_last();
        assert(unread(init, session, slug)) by {
            assert forall|i: int| 0 <= i < init.len() implies #[trigger] init[i] != (
            SkillEvent::Read { session, slug }) by {
                assert(events[i] == init[i]);
            }
        }
        lemma_unread(r, init, session, slug);
        assert(events[events.len() - 1] == events.last());
    }
}

/// A skill stays out of context until it is read again: once read, it is in
/// context exactly as long as its session has not been compacted since, however
/// often that happens and whatever other sessions and skills do in between, and
/// reading it again brings it back. One that was never read is not in context.
pub proof fn law_out_of_context_until_read_again(
    r: Registry,
    session: u128,
    slug: Seq<char>,
    events: Seq<SkillEvent>,
)
    requires
        unread(events, session, slug),
        epoch_of(r.epochs, session) + compactions(events, session) <= u64::MAX,
    ensures
        ({
            let reading = SkillEvent::Read { session, slug };
            let later = after_events(after_event(r, reading), events);
            let again = after_event(later, reading);
            &&& in_context(later.seen, later.epochs, session, slug) == (compactions(
                events,
                session,
            ) == 0)
            &&& in_context(again.seen, again.epochs, session, slug)
        }),
        ({
            let never = after_events(r, events);
            !r.seen.dom().contains((session, slug)) ==> !in_context(
                never.seen,
                never.epochs,
                session,
                slug,
            )
        }),
{
    lemma_unread(after_event(r, SkillEvent::Read { session, slug }), events, session, slug);
    lemma_unread(r, events, session, slug);
}

/// A compaction of one session takes no skill out of another's context.
pub proof fn law_sessions_are_independent(
    seen: Map<(u128, Seq<char>), u64>,
    epochs: Map<u128, u64>,
    session: u128,
    other: u128,
    slug: Seq<char>,
    epoch: u64,
)
    requires
        other != session,
    ensures
        in_context(seen, epochs.insert(session, epoch), other, slug) == in_context(
            seen,
            epochs,
            other,
            slug,
        ),
        in_context(seen.insert((session, slug), epoch), epochs, other, slug) == in_context(
            seen,
            epochs,
            other,
            slug,
        ),
{
}

/// After a restart no session's epoch is below one it had reached: every
/// stored row's epoch is at most the restored counter, and a compaction then
/// gates every restored skill.
pub proof fn law_hydration_restores_the_counter(rows: Seq<StoredRow>, k: int)
    requires
        0 <= k < rows.len(),
    ensures
        folded_epochs(rows).dom().contains(rows[k].session),
        stored_epoch(rows[k].epoch) <= folded_epochs(rows)[rows[k].session],
        folded_seen(rows).dom().contains((rows[k].session, rows[k].slug@)),
        stored_epoch(rows[k].epoch) <= folded_seen(rows)[(rows[k].session, rows[k].slug@)],
    decreases rows.len(),
{
    if k < rows.len() - 1 {
        law_hydration_restores_the_counter(rows.drop_last(), k);
        assert(rows.drop_last()[k] == rows[k]);
    }
}

/// No restored entry is newer than its session's restored counter.
pub proof fn law_hydrated_entries_are_current_at_most(
    rows: Seq<StoredRow>,
    session: u128,
    slug: Seq<char>,
)
    requires
        folded_seen(rows).dom().contains((session, slug)),
    ensures
        folded_epochs(rows).dom().contains(session),
        folded_seen(rows)[(session, slug)] <= folded_epochs(rows)[session],
    decreases rows.len(),
{
    if rows.len() > 0 {
        let init = rows.drop_last();
        if folded_seen(init).dom().contains((session, slug)) {
            law_hydrated_entries_are_current_at_most(init, session, slug);
        }
    }
}

/// The list of a session's skills is sorted and holds each as often as it is
/// recorded.
pub proof fn law_seen_list_is_sorted(rows: Seq<SeenRow>, session: u128)
    ensures
        is_sorted_lex(sorted_lex(slugs_of(rows, session))),
        sorted_lex(slugs_of(rows, session)).to_multiset() == slugs_of(rows, session).to_multiset(),
{
    lemma_sorted_lex(slugs_of(rows, session));
}

/// A path that ends in `skills/<slug>/SKILL.md` points at that skill, and no
/// other path points at one.
pub proof fn law_skill_paths(path: Seq<char>, dir: Seq<Seq<char>>, slug: Seq<char>)
    ensures
        file_name(path) == Some("SKILL.md"@) && components(path) == dir + seq![
            "skills"@,
            slug,
            "SKILL.md"@,
        ] ==> slug_of(path) == Some(slug),
        file_name(path) != Some("SKILL.md"@) ==> slug_of(path) is None,
        components(path).len() < 3 ==> slug_of(path) is None,
        components(path) == dir + seq![slug, slug, "SKILL.md"@] && slug != "skills"@ ==> slug_of(
            path,
        ) is None,
{
    let c = components(path);
    if c == dir + seq!["skills"@, slug, "SKILL.md"@] {
        assert(c[c.len() - 3] == "skills"@ && c[c.len() - 2] == slug);
    }
    if c == dir + seq![slug, slug, "SKILL.md"@] {
        assert(c[c.len() - 3] == slug);
    }
}

/// The table gives each row's epoch under its session and slug, and nothing
/// else.
pub proof fn law_table_gives_its_rows(rows: Seq<SeenRow>, i: int, session: u128, slug: Seq<char>)
    requires
        distinct(rows),
    ensures
        0 <= i < rows.len() ==> to_map(rows).dom().contains((rows[i].session, rows[i].slug@))
            && to_map(rows)[(rows[i].session, rows[i].slug@)] == rows[i].epoch,
        (forall|k: int|
            0 <= k < rows.len() ==> (#[trigger] rows[k]).session != session || rows[k].slug@
                != slug) ==> !to_map(rows).dom().contains((session, slug)),
{
    if 0 <= i < rows.len() {
        lemma_map_at(rows, i);
    }
    lemma_index_of_row(rows, session, slug);
}

proof fn lemma_slugs_add(a: Seq<SeenRow>, b: Seq<SeenRow>, session: u128)
    ensures
        slugs_of(a + b, session) == slugs_of(a, session) + slugs_of(b, session),
    decreases b.len(),
{
    if b.len() == 0 {
        assert(a + b =~= a);
        assert(slugs_of(a, session) + slugs_of(b, session) =~= slugs_of(a, session));
    } else {
        assert((a + b).drop_last() =~= a + b.drop_last());
        lemma_slugs_add(a, b.drop_last(), session);
        assert(slugs_of(a + b, session) =~= slugs_of(a, session) + slugs_of(b, session));
    }
}

/// Every skill that a session consumed is among its skills, and none of
/// another session is.
pub proof fn law_session_lists_its_own(
    a: Seq<SeenRow>,
    r: SeenRow,
    b: Seq<SeenRow>,
    session: u128,
)
    ensures
        r.session == session ==> slugs_of(a.push(r) + b, session) == slugs_of(a, session).push(
            r.slug@,
        ) + slugs_of(b, session),
        r.session != session ==> slugs_of(a.push(r) + b, session) == slugs_of(a, session)
            + slugs_of(b, session),
{
    lemma_slugs_add(a.push(r), b, session);
    assert(a.push(r).drop_last() =~= a);
}

/// Of two epochs the greater stands, and no other entry changes.
pub proof fn law_greater_epoch_wins<K>(m: Map<K, u64>, k: K, other: K, epoch: u64)
    ensures
        raised(m, k, epoch).dom() == m.dom().insert(k),
        raised(m, k, epoch)[k] >= epoch,
        m.dom().contains(k) ==> raised(m, k, epoch)[k] >= m[k] && (raised(m, k, epoch)[k] == m[k]
            || raised(m, k, epoch)[k] == epoch),
        !m.dom().contains(k) ==> raised(m, k, epoch)[k] == epoch,
        other != k && m.dom().contains(other) ==> raised(m, k, epoch)[other] == m[other],
{
    assert(raised(m, k, epoch).dom() =~= m.dom().insert(k));
}

/// A stored epoch counts as it is; an absent or negative one counts as zero.
pub proof fn law_stored_epochs(e: i64)
    ensures
        e >= 0 ==> stored_epoch(Some(e)) == e,
        e < 0 ==> stored_epoch(Some(e)) == 0,
        stored_epoch(None) == 0,
{
}

/// What is restored was stored: every restored epoch is that of a row.
pub proof fn law_restored_epochs_were_stored(rows: Seq<StoredRow>, session: u128, slug: Seq<char>)
    ensures
        folded_seen(rows).dom().contains((session, slug)) ==> exists|i: int|
            0 <= i < rows.len() && (#[trigger] rows[i]).session == session && rows[i].slug@ == slug
                && stored_epoch(rows[i].epoch) == folded_seen(rows)[(session, slug)],
        folded_epochs(rows).dom().contains(session) ==> exists|i: int|
            0 <= i < rows.len() && (#[trigger] rows[i]).session == session && stored_epoch(
                rows[i].epoch,
            ) == folded_epochs(rows)[session],
    decreases rows.len(),
{
    if rows.len() > 0 {
        let init = rows.drop_last();
        law_restored_epochs_were_stored(init, session, slug);
        let last = rows.len() - 1;
        if folded_seen(rows).dom().contains((session, slug)) {
            if folded_seen(init).dom().contains((session, slug)) && folded_seen(init)[(
                session,
                slug,
            )] == folded_seen(rows)[(session, slug)] {
                let i = choose|i: int|
                    0 <= i < init.len() && (#[trigger] init[i]).session == session
                        && init[i].slug@ == slug && stored_epoch(init[i].epoch) == folded_seen(
                        init,
                    )[(session, slug)];
                assert(rows[i] == init[i]);
            } else {
                assert(rows[last].session == session && rows[last].slug@ == slug);
            }
        }
        if folded_epochs(rows).dom().contains(session) {
            if folded_epochs(init).dom().contains(session) && folded_epochs(init)[session]
                == folded_epochs(rows)[session] {
                let i = choose|i: int|
                    0 <= i < init.len() && (#[trigger] init[i]).session == session && stored_epoch(
                        init[i].epoch,
                    ) == folded_epochs(init)[session];
                assert(rows[i] == init[i]);
            } else {
                assert(rows[last].session == session);
            }
        }
    }
}

/// Merging seeds in loses nothing: every entry that was there, and every seed,
/// is there with at least its epoch.
pub proof fn law_seeds_are_merged(
    m: Map<(u128, Seq<char>), u64>,
    rows: Seq<SeenRow>,
    k: (u128, Seq<char>),
    i: int,
)
    ensures
        m.dom().contains(k) ==> merged_rows(m, rows).dom().contains(k) && merged_rows(m, rows)[k]
            >= m[k],
        0 <= i < rows.len() ==> merged_rows(m, rows).dom().contains(
            (rows[i].session, rows[i].slug@),
        ) && merged_rows(m, rows)[(rows[i].session, rows[i].slug@)] >= rows[i].epoch,
    decreases rows.len(),
{
    if rows.len() > 0 {
        law_seeds_are_merged(m, rows.drop_last(), k, i);
        if 0 <= i < rows.len() - 1 {
            assert(rows.drop_last()[i] == rows[i]);
        }
    }
}

/// The counters of the sessions are merged in the same way.
pub proof fn law_counters_are_merged(
    m: Map<u128, u64>,
    sessions: Seq<u128>,
    from: Map<u128, u64>,
    s: u128,
)
    ensures
        m.dom().contains(s) ==> merged_epochs(m, sessions, from).dom().contains(s)
            && merged_epochs(m, sessions, from)[s] >= m[s],
        sessions.contains(s) ==> merged_epochs(m, sessions, from).dom().contains(s)
            && merged_epochs(m, sessions, from)[s] >= from[s],
        !sessions.contains(s) && m.dom().contains(s) ==> merged_epochs(m, sessions, from)[s]
            == m[s],
    decreases sessions.len(),
{
    if sessions.len() > 0 {
        let init = sessions.drop_last();
        law_counters_are_merged(m, init, from, s);
        if sessions.contains(s) {
            let i = choose|i: int| 0 <= i < sessions.len() && sessions[i] == s;
            if i < init.len() {
                assert(init[i] == s);
            }
        } else {
            assert(sessions[sessions.len() - 1] != s);
            if init.contains(s) {
                let i = choose|i: int| 0 <= i < init.len() && init[i] == s;
                assert(sessions[i] == s);
            }
        }
    }
}

} // verus!
