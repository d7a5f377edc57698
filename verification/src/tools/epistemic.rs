//! Beliefs with confidence levels, source attribution, decay and contradiction
//! detection.
use vstd::prelude::*;

use crate::clock::{date_text, days_between, days_since, is_reading, utc_text, Moment};
use crate::search::{dec_i64, decimal_int, has_prefix, lemma_tells, starts_with, tells};
use crate::text::{cat3, cat4, cat5, oview, str_eq, strip_leading, trim, trim_start_of, trimmed, views};

verus! {

/// Confidence in a belief, from least to most certain.
#[derive(Clone, Copy, PartialEq, Eq, PartialOrd, Ord, Structural, Debug)]
pub enum Confidence {
    /// Conflicts with another belief.
    Contradicted,
    /// Not yet verified, assumed true.
    Uncertain,
    /// Derived from other beliefs.
    Inferred,
    /// Confirmed by user or system.
    Verified,
}

impl Confidence {
    /// The place of a level in the order.
    pub open spec fn level(self) -> nat {
        match self {
            Confidence::Contradicted => 0,
            Confidence::Uncertain => 1,
            Confidence::Inferred => 2,
            Confidence::Verified => 3,
        }
    }

    /// One level lower; verified and contradicted beliefs stay.
    pub open spec fn lower(self) -> Confidence {
        match self {
            Confidence::Verified => Confidence::Verified,
            Confidence::Inferred => Confidence::Uncertain,
            Confidence::Uncertain => Confidence::Contradicted,
            Confidence::Contradicted => Confidence::Contradicted,
        }
    }

    /// Decays confidence by one level. Verified beliefs do not decay.
    pub fn decay(self) -> (r: Self)
        ensures
            r == self.lower(),
    {
        match self {
            Confidence::Verified => Confidence::Verified,
            Confidence::Inferred => Confidence::Uncertain,
            Confidence::Uncertain => Confidence::Contradicted,
            Confidence::Contradicted => Confidence::Contradicted,
        }
    }

    pub open spec fn text(self) -> Seq<char> {
        match self {
            Confidence::Verified => "verified"@,
            Confidence::Inferred => "inferred"@,
            Confidence::Uncertain => "uncertain"@,
            Confidence::Contradicted => "contradicted"@,
        }
    }

    /// Human-readable label.
    pub fn label(&self) -> (r: &'static str)
        ensures
            r@ == self.text(),
    {
        match self {
            Confidence::Verified => "verified",
            Confidence::Inferred => "inferred",
            Confidence::Uncertain => "uncertain",
            Confidence::Contradicted => "contradicted",
        }
    }
}

/// Where a belief comes from.
pub struct Source {
    pub origin: String,
    pub recorded_at: Moment,
    pub last_verified: Moment,
}

/// A belief with confidence, source and usage.
pub struct Belief {
    pub key: String,
    pub value: String,
    pub confidence: Confidence,
    pub source: Source,
    pub notes: Option<String>,
    /// How often the belief was accessed.
    pub hits: u64,
    /// When it was last accessed; `None` if never.
    pub last_used: Option<Moment>,
}

/// A belief, as values.
pub struct BeliefV {
    pub key: Seq<char>,
    pub value: Seq<char>,
    pub confidence: Confidence,
    pub origin: Seq<char>,
    pub recorded_at: Moment,
    pub last_verified: Moment,
    pub notes: Option<Seq<char>>,
    pub hits: u64,
    pub last_used: Option<Moment>,
}

impl View for Belief {
    type V = BeliefV;

    open spec fn view(&self) -> BeliefV {
        BeliefV {
            key: self.key@,
            value: self.value@,
            confidence: self.confidence,
            origin: self.source.origin@,
            recorded_at: self.source.recorded_at,
            last_verified: self.source.last_verified,
            notes: oview(self.notes),
            hits: self.hits,
            last_used: self.last_used,
        }
    }
}

impl Belief {
    /// A copy of the belief.
    pub fn dup(&self) -> (r: Self)
        ensures
            r == *self,
    {
        Belief {
            key: self.key.clone(),
            value: self.value.clone(),
            confidence: self.confidence,
            source: Source {
                origin: self.source.origin.clone(),
                recorded_at: self.source.recorded_at,
                last_verified: self.source.last_verified,
            },
            notes: match &self.notes {
                Some(n) => Some(n.clone()),
                None => None,
            },
            hits: self.hits,
            last_used: self.last_used,
        }
    }
}

/// All tracked beliefs, each under its key.
pub struct EpistemicStore {
    pub entries: Vec<Belief>,
    pub version: u32,
}

// ------------------------------------------------------------ the store as a map
pub open spec fn bviews(s: Seq<Belief>) -> Seq<BeliefV> {
    s.map_values(|b: Belief| b@)
}

/// No key occurs twice.
pub open spec fn distinct(s: Seq<Belief>) -> bool {
    forall|i: int, j: int|
        #![trigger s[i], s[j]]
        0 <= i < j < s.len() ==> s[i].key@ != s[j].key@
}

/// The beliefs by key.
pub open spec fn to_map(s: Seq<Belief>) -> Map<Seq<char>, BeliefV>
    decreases s.len(),
{
    if s.len() == 0 {
        Map::empty()
    } else {
        to_map(s.drop_last()).insert(s.last().key@, s.last()@)
    }
}

/// Where the belief of a key stands.
pub open spec fn index_of_key(s: Seq<Belief>, key: Seq<char>) -> Option<int>
    decreases s.len(),
{
    if s.len() == 0 {
        None
    } else if s.last().key@ == key {
        Some(s.len() - 1)
    } else {
        index_of_key(s.drop_last(), key)
    }
}

proof fn lemma_index_of_key(s: Seq<Belief>, key: Seq<char>)
    ensures
        match index_of_key(s, key) {
            Some(i) => 0 <= i < s.len() && s[i].key@ == key && to_map(s).dom().contains(key)
                && to_map(s)[key] == s[i]@,
            None => !to_map(s).dom().contains(key) && forall|i: int|
                0 <= i < s.len() ==> (#[trigger] s[i]).key@ != key,
        },
    decreases s.len(),
{
    if s.len() > 0 {
        let t = s.drop_last();
        lemma_index_of_key(t, key);
        assert forall|i: int| 0 <= i < t.len() implies t[i] == #[trigger] s[i] by {}
    }
}

proof fn lemma_map_at(s: Seq<Belief>, i: int)
    requires
        distinct(s),
        0 <= i < s.len(),
    ensures
        to_map(s).dom().contains(s[i].key@),
        to_map(s)[s[i].key@] == s[i]@,
{
    lemma_index_of_key(s, s[i].key@);
    let k = index_of_key(s, s[i].key@)->0;
    if k < i {
        assert(s[k].key@ != s[i].key@);
    } else if i < k {
        assert(s[i].key@ != s[k].key@);
    }
}

proof fn lemma_map_has(s: Seq<Belief>, key: Seq<char>) -> (i: int)
    requires
        to_map(s).dom().contains(key),
    ensures
        0 <= i < s.len() && s[i].key@ == key && to_map(s)[key] == s[i]@,
{
    lemma_index_of_key(s, key);
    index_of_key(s, key)->0
}

proof fn lemma_map_update(s: Seq<Belief>, i: int, b: Belief)
    requires
        distinct(s),
        0 <= i < s.len(),
        s[i].key@ == b.key@,
    ensures
        distinct(s.update(i, b)),
        to_map(s.update(i, b)) == to_map(s).insert(b.key@, b@),
{
    let u = s.update(i, b);
    assert(distinct(u)) by {
        assert forall|x: int, y: int|
            #![trigger u[x], u[y]]
            0 <= x < y < u.len() implies u[x].key@ != u[y].key@ by {
            assert(s[x].key@ != s[y].key@);
        }
    }
    let want = to_map(s).insert(b.key@, b@);
    assert forall|k: Seq<char>| to_map(u).dom().contains(k) == want.dom().contains(k) by {
        if to_map(u).dom().contains(k) {
            let x = lemma_map_has(u, k);
            if x != i {
                lemma_map_at(s, x);
            }
        }
        if want.dom().contains(k) && k != b.key@ {
            let x = lemma_map_has(s, k);
            assert(u[x] == s[x]);
            lemma_map_at(u, x);
        }
        lemma_map_at(u, i);
    }
    assert forall|k: Seq<char>| to_map(u).dom().contains(k) implies to_map(u)[k] == want[k] by {
        let x = lemma_map_has(u, k);
        lemma_map_at(u, i);
        if x != i {
            assert(u[x].key@ != u[i].key@) by {
                if x < i {
                    assert(s[x].key@ != s[i].key@);
                } else {
                    assert(s[i].key@ != s[x].key@);
                }
            }
            lemma_map_at(s, x);
        }
    }
    assert(to_map(u) =~= want);
}

// ------------------------------------------------------------- what operations mean
/// The result of adding a belief.
pub enum ContradictionResult {
    NoContradiction,
    Contradicted { old_value: String, new_value: String },
}

/// A belief as it is first recorded.
pub open spec fn fresh(
    key: Seq<char>,
    value: Seq<char>,
    confidence: Confidence,
    origin: Seq<char>,
    now: Moment,
) -> BeliefV {
    BeliefV {
        key,
        value,
        confidence,
        origin,
        recorded_at: now,
        last_verified: now,
        notes: None,
        hits: 0,
        last_used: None,
    }
}

/// The key a superseded belief is archived under. It prefixes the original key
/// rather than extending it, so prefix queries do not find archived copies.
pub open spec fn archive_key(key: Seq<char>, now: Moment) -> Seq<char> {
    "contradicted:"@ + decimal_int(now.secs as int) + ":"@ + key
}

/// The superseded belief as it is archived.
pub open spec fn archived(b: BeliefV, value: Seq<char>, origin: Seq<char>, now: Moment) -> BeliefV {
    BeliefV {
        key: archive_key(b.key, now),
        confidence: Confidence::Contradicted,
        notes: Some(
            "Contradicted by new value '"@ + value + "' from "@ + origin + " at "@ + utc_text(
                now.secs as int,
                "%Y-%m-%d %H:%M:%S UTC"@,
            )->0,
        ),
        ..b
    }
}

/// Whether a value contradicts what is believed under a key.
pub open spec fn conflicts(m: Map<Seq<char>, BeliefV>, key: Seq<char>, value: Seq<char>) -> bool {
    m.dom().contains(key) && m[key].value != value && m[key].confidence != Confidence::Contradicted
}

/// When a belief was last seen: used, or else recorded.
pub open spec fn last_seen(b: BeliefV) -> Moment {
    match b.last_used {
        Some(t) => t,
        None => b.recorded_at,
    }
}

/// Whether a belief is due to decay.
pub open spec fn stale(b: BeliefV, decay_days: int, now: Moment) -> bool {
    b.confidence != Confidence::Verified && days_between(last_seen(b), now) >= decay_days
}

/// A belief after a decay pass.
pub open spec fn decayed(b: BeliefV, decay_days: int, now: Moment) -> BeliefV {
    if stale(b, decay_days, now) {
        BeliefV { confidence: b.confidence.lower(), ..b }
    } else {
        b
    }
}

/// The report on a belief whose confidence dropped.
pub open spec fn decay_line(b: BeliefV, now: Moment) -> Seq<char> {
    b.key + ": "@ + b.confidence.text() + " → "@ + b.confidence.lower().text() + " ("@
        + decimal_int(days_between(last_seen(b), now)) + " days since last use)"@
}

/// The reports of a decay pass, in the order of the store.
pub open spec fn decay_report(s: Seq<BeliefV>, decay_days: int, now: Moment) -> Seq<Seq<char>>
    decreases s.len(),
{
    if s.len() == 0 {
        Seq::empty()
    } else {
        let init = decay_report(s.drop_last(), decay_days, now);
        let b = s.last();
        if stale(b, decay_days, now) && b.confidence.lower() != b.confidence {
            init.push(decay_line(b, now))
        } else {
            init
        }
    }
}

/// A belief that nobody ever recalled and that is old.
pub open spec fn cold(b: BeliefV, max_age_days: int, now: Moment) -> bool {
    b.hits == 0 && days_between(last_seen(b), now) >= max_age_days
}

/// The beliefs that satisfy a predicate, in the order of the store.
pub open spec fn those(s: Seq<Belief>, p: spec_fn(BeliefV) -> bool) -> Seq<Belief>
    decreases s.len(),
{
    if s.len() == 0 {
        Seq::empty()
    } else if p(s.last()@) {
        those(s.drop_last(), p).push(s.last())
    } else {
        those(s.drop_last(), p)
    }
}

pub open spec fn derefs(s: Seq<&Belief>) -> Seq<Belief> {
    s.map_values(|b: &Belief| *b)
}

/// A section of the memory file.
pub struct Section {
    pub heading: String,
    pub body: String,
}

/// The key under which a heading's section is believed.
pub open spec fn heading_key(heading: Seq<char>) -> Seq<char> {
    "MEMORY.md##"@ + trimmed(trim_start_of(trimmed(heading), '#'))
}

/// Whether a section carries content worth indexing: below a second-level
/// heading, with more than twenty characters of body.
pub open spec fn indexable(s: Section) -> bool {
    let h = trimmed(s.heading@);
    &&& h.len() > 0
    &&& !(has_prefix(h, "#"@) && !has_prefix(h, "##"@))
    &&& trimmed(s.body@).len() > 20
}

/// The belief a section becomes: the first two hundred characters of its body.
pub open spec fn section_belief(s: Section, now: Moment) -> BeliefV {
    let body = trimmed(s.body@);
    fresh(
        heading_key(s.heading@),
        if body.len() > 200 {
            body.take(200)
        } else {
            body
        },
        Confidence::Inferred,
        "MEMORY.md backfill ("@ + utc_text(now.secs as int, "%Y-%m-%d"@)->0 + ")"@,
        now,
    )
}

/// The beliefs after indexing the sections: each one that is worth it and
/// whose key is not believed yet.
pub open spec fn backfilled(m: Map<Seq<char>, BeliefV>, sections: Seq<Section>, now: Moment) -> Map<
    Seq<char>,
    BeliefV,
>
    decreases sections.len(),
{
    if sections.len() == 0 {
        m
    } else {
        let before = backfilled(m, sections.drop_last(), now);
        let s = sections.last();
        if indexable(s) && !before.dom().contains(heading_key(s.heading@)) {
            before.insert(heading_key(s.heading@), section_belief(s, now))
        } else {
            before
        }
    }
}

/// How many beliefs indexing adds.
pub open spec fn backfill_count(m: Map<Seq<char>, BeliefV>, sections: Seq<Section>, now: Moment) -> nat
    decreases sections.len(),
{
    if sections.len() == 0 {
        0
    } else {
        let before = backfilled(m, sections.drop_last(), now);
        let s = sections.last();
        backfill_count(m, sections.drop_last(), now) + if indexable(s) && !before.dom().contains(
            heading_key(s.heading@),
        ) {
            1nat
        } else {
            0nat
        }
    }
}

fn make_fresh(key: &str, value: &str, confidence: Confidence, origin: String, now: Moment) -> (r:
    Belief)
    ensures
        r@ == fresh(key@, value@, confidence, origin@, now),
{
    Belief {
        key: key.to_owned(),
        value: value.to_owned(),
        confidence,
        source: Source { origin, recorded_at: now, last_verified: now },
        notes: None,
        hits: 0,
        last_used: None,
    }
}

fn seen_at(b: &Belief) -> (r: Moment)
    ensures
        r == last_seen(b@),
{
    match b.last_used {
        Some(t) => t,
        None => b.source.recorded_at,
    }
}

impl EpistemicStore {
    pub open spec fn wf(&self) -> bool {
        distinct(self.entries@)
    }

    /// The beliefs by key.
    pub open spec fn beliefs(&self) -> Map<Seq<char>, BeliefV> {
        to_map(self.entries@)
    }

    /// An empty store.
    pub fn new() -> (r: Self)
        ensures
            r.wf(),
            r.beliefs() == Map::<Seq<char>, BeliefV>::empty(),
            r.version == 1,
    {
        EpistemicStore { entries: Vec::new(), version: 1 }
    }

    /// Where the belief of a key stands.
    fn find(&self, key: &str) -> (r: Option<usize>)
        ensures
            match r {
                Some(i) => index_of_key(self.entries@, key@) == Some(i as int) && i
                    < self.entries@.len(),
                None => index_of_key(self.entries@, key@) is None,
            },
    {
        let mut i: usize = self.entries.len();
        assert(self.entries@.take(i as int) =~= self.entries@);
        while i > 0
            invariant
                i <= self.entries.len(),
                index_of_key(self.entries@, key@) == index_of_key(
                    self.entries@.take(i as int),
                    key@,
                ),
            decreases i,
        {
            assert(self.entries@.take(i as int).drop_last() =~= self.entries@.take(i - 1));
            if str_eq(self.entries[i - 1].key.as_str(), key) {
                return Some(i - 1);
            }
            i = i - 1;
        }
        None
    }

    /// Puts a belief under its key, replacing what stands there.
    fn put(&mut self, b: Belief)
        requires
            old(self).wf(),
        ensures
            final(self).wf(),
            final(self).version == old(self).version,
            final(self).beliefs() == old(self).beliefs().insert(b.key@, b@),
    {
        proof {
            lemma_index_of_key(self.entries@, b.key@);
        }
        match self.find(b.key.as_str()) {
            Some(i) => {
                proof {
                    lemma_map_update(self.entries@, i as int, b);
                }
                self.entries.set(i, b);
            },
            None => {
                let ghost pre = self.entries@;
                self.entries.push(b);
                assert(self.entries@.drop_last() =~= pre);
                assert(distinct(self.entries@)) by {
                    assert forall|x: int, y: int|
                        #![trigger self.entries@[x], self.entries@[y]]
                        0 <= x < y < self.entries@.len() implies self.entries@[x].key@
                        != self.entries@[y].key@ by {
                        if y == pre.len() {
                            assert(pre[x].key@ != b.key@);
                        } else {
                            assert(pre[x].key@ != pre[y].key@);
                        }
                    }
                }
            },
        }
    }

    /// Adds or updates a belief. A different value under the same key
    /// contradicts: the old belief is archived as contradicted.
    pub fn add_belief(
        &mut self,
        key: &str,
        value: &str,
        confidence: Confidence,
        origin: &str,
        now: Moment,
    ) -> (r: ContradictionResult)
        requires
            old(self).wf(),
            is_reading(now),
        ensures
            final(self).wf(),
            final(self).version == old(self).version,
            ({
                let m = old(self).beliefs();
                let new = fresh(key@, value@, confidence, origin@, now);
                if conflicts(m, key@, value@) {
                    let gone = archived(m[key@], value@, origin@, now);
                    &&& final(self).beliefs() == m.insert(gone.key, gone).insert(key@, new)
                    &&& r is Contradicted
                    &&& r->old_value@ == m[key@].value
                    &&& r->new_value@ == value@
                } else {
                    final(self).beliefs() == m.insert(key@, new) && r is NoContradiction
                }
            }),
    {
        proof {
            lemma_index_of_key(self.entries@, key@);
        }
        let mut conflict: Option<String> = None;
        if let Some(i) = self.find(key) {
            if !str_eq(self.entries[i].value.as_str(), value) && self.entries[i].confidence
                != Confidence::Contradicted {
                let old_value = self.entries[i].value.clone();
                let mut gone = self.entries[i].dup();
                gone.key = cat4(
                    "contradicted:",
                    dec_i64(now.secs).as_str(),
                    ":",
                    key,
                );
                gone.confidence = Confidence::Contradicted;
                let mut note = cat5(
                    "Contradicted by new value '",
                    value,
                    "' from ",
                    origin,
                    " at ",
                );
                note.append(date_text(now, "%Y-%m-%d %H:%M:%S UTC").as_str());
                gone.notes = Some(note);
                self.put(gone);
                conflict = Some(old_value);
            }
        }
        self.put(make_fresh(key, value, confidence, origin.to_owned(), now));
        match conflict {
            Some(old_value) => ContradictionResult::Contradicted {
                old_value,
                new_value: value.to_owned(),
            },
            None => ContradictionResult::NoContradiction,
        }
    }

    /// The belief of a key.
    pub fn get_belief(&self, key: &str) -> (r: Option<&Belief>)
        ensures
            match r {
                Some(b) => self.beliefs().dom().contains(key@) && b@ == self.beliefs()[key@],
                None => !self.beliefs().dom().contains(key@),
            },
    {
        proof {
            lemma_index_of_key(self.entries@, key@);
        }
        match self.find(key) {
            Some(i) => Some(&self.entries[i]),
            None => None,
        }
    }

    /// Verifies a belief again. False where there is none.
    pub fn verify_belief(&mut self, key: &str, now: Moment) -> (r: bool)
        requires
            old(self).wf(),
        ensures
            final(self).wf(),
            final(self).version == old(self).version,
            r == old(self).beliefs().dom().contains(key@),
            final(self).beliefs() == if r {
                old(self).beliefs().insert(
                    key@,
                    BeliefV {
                        last_verified: now,
                        confidence: Confidence::Verified,
                        ..old(self).beliefs()[key@]
                    },
                )
            } else {
                old(self).beliefs()
            },
    {
        proof {
            lemma_index_of_key(self.entries@, key@);
        }
        match self.find(key) {
            Some(i) => {
                let mut b = self.entries[i].dup();
                b.source.last_verified = now;
                b.confidence = Confidence::Verified;
                self.put(b);
                true
            },
            None => false,
        }
    }

    /// Records a use of a belief. False where there is none.
    pub fn touch_belief(&mut self, key: &str, now: Moment) -> (r: bool)
        requires
            old(self).wf(),
            old(self).beliefs().dom().contains(key@) ==> old(self).beliefs()[key@].hits < u64::MAX,
        ensures
            final(self).wf(),
            final(self).version == old(self).version,
            r == old(self).beliefs().dom().contains(key@),
            final(self).beliefs() == if r {
                old(self).beliefs().insert(
                    key@,
                    BeliefV {
                        hits: (old(self).beliefs()[key@].hits + 1) as u64,
                        last_used: Some(now),
                        ..old(self).beliefs()[key@]
                    },
                )
            } else {
                old(self).beliefs()
            },
    {
        proof {
            lemma_index_of_key(self.entries@, key@);
        }
        match self.find(key) {
            Some(i) => {
                let mut b = self.entries[i].dup();
                b.hits = b.hits + 1;
                b.last_used = Some(now);
                self.put(b);
                true
            },
            None => false,
        }
    }

    /// Lets beliefs that were not seen within `decay_days` drop one level;
    /// verified beliefs are immune. Reports those that dropped.
    pub fn apply_decay(&mut self, decay_days: i64, now: Moment) -> (r: Vec<String>)
        requires
            old(self).wf(),
        ensures
            final(self).wf(),
            final(self).version == old(self).version,
            final(self).entries@.len() == old(self).entries@.len(),
            forall|i: int|
                0 <= i < final(self).entries@.len() ==> (#[trigger] final(self).entries@[i])@
                    == decayed(old(self).entries@[i]@, decay_days as int, now),
            views(r@) == decay_report(bviews(old(self).entries@), decay_days as int, now),
    {
        let mut report: Vec<String> = Vec::new();
        let mut i: usize = 0;
        let ghost start = self.entries@;
        assert(bviews(start).take(0) =~= Seq::empty());
        assert(views(report@) =~= Seq::empty());
        while i < self.entries.len()
            invariant
                i <= self.entries@.len(),
                self.entries@.len() == start.len(),
                self.version == old(self).version,
                start == old(self).entries@,
                forall|k: int|
                    0 <= k < i ==> (#[trigger] self.entries@[k])@ == decayed(
                        start[k]@,
                        decay_days as int,
                        now,
                    ),
                forall|k: int| i <= k < start.len() ==> #[trigger] self.entries@[k] == start[k],
                views(report@) == decay_report(
                    bviews(start).take(i as int),
                    decay_days as int,
                    now,
                ),
            decreases self.entries@.len() - i,
        {
            assert(self.entries@[i as int] == start[i as int]);
            assert(bviews(start).take(i + 1).drop_last() =~= bviews(start).take(i as int));
            assert(bviews(start)[i as int] == start[i as int]@);
            let before = self.entries[i].confidence;
            if before != Confidence::Verified {
                let age: i64 = days_since(seen_at(&self.entries[i]), now);
                if age >= decay_days {
                    let after = before.decay();
                    if after != before {
                        let mut line = cat5(
                            self.entries[i].key.as_str(),
                            ": ",
                            before.label(),
                            " → ",
                            after.label(),
                        );
                        line.append(" (");
                        line.append(dec_i64(age).as_str());
                        line.append(" days since last use)");
                        let ghost pre = views(report@);
                        report.push(line);
                        assert(views(report@) =~= pre.push(line@));
                    }
                    let mut b = self.entries[i].dup();
                    b.confidence = after;
                    self.entries.set(i, b);
                }
            }
            i = i + 1;
        }
        assert(bviews(start).take(i as int) =~= bviews(start));
        assert(distinct(self.entries@)) by {
            assert forall|x: int, y: int|
                #![trigger self.entries@[x], self.entries@[y]]
                0 <= x < y < self.entries@.len() implies self.entries@[x].key@
                != self.entries@[y].key@ by {
                assert(self.entries@[x]@.key == start[x]@.key);
                assert(self.entries@[y]@.key == start[y]@.key);
                assert(start[x].key@ != start[y].key@);
            }
        }
        report
    }

    /// The beliefs of one confidence level.
    pub fn list_by_confidence(&self, confidence: Confidence) -> (r: Vec<&Belief>)
        ensures
            derefs(r@) == those(self.entries@, |b: BeliefV| b.confidence == confidence),
    {
        let mut out: Vec<&Belief> = Vec::new();
        let mut i: usize = 0;
        let ghost p = |b: BeliefV| b.confidence == confidence;
        assert(self.entries@.take(0) =~= Seq::empty());
        assert(derefs(out@) =~= Seq::empty());
        while i < self.entries.len()
            invariant
                i <= self.entries.len(),
                p == (|b: BeliefV| b.confidence == confidence),
                derefs(out@) == those(self.entries@.take(i as int), p),
            decreases self.entries.len() - i,
        {
            assert(self.entries@.take(i + 1).drop_last() =~= self.entries@.take(i as int));
            if self.entries[i].confidence == confidence {
                let ghost pre = derefs(out@);
                out.push(&self.entries[i]);
                assert(derefs(out@) =~= pre.push(self.entries@[i as int]));
            }
            i = i + 1;
        }
        assert(self.entries@.take(i as int) =~= self.entries@);
        out
    }

    /// The contradicted beliefs.
    pub fn list_contradictions(&self) -> (r: Vec<&Belief>)
        ensures
            derefs(r@) == those(
                self.entries@,
                |b: BeliefV| b.confidence == Confidence::Contradicted,
            ),
    {
        self.list_by_confidence(Confidence::Contradicted)
    }

    /// The beliefs whose key starts with `prefix`.
    pub fn list_by_key_prefix(&self, prefix: &str) -> (r: Vec<&Belief>)
        ensures
            derefs(r@) == those(self.entries@, |b: BeliefV| has_prefix(b.key, prefix@)),
    {
        let mut out: Vec<&Belief> = Vec::new();
        let mut i: usize = 0;
        let ghost p = |b: BeliefV| has_prefix(b.key, prefix@);
        assert(self.entries@.take(0) =~= Seq::empty());
        assert(derefs(out@) =~= Seq::empty());
        while i < self.entries.len()
            invariant
                i <= self.entries.len(),
                p == (|b: BeliefV| has_prefix(b.key, prefix@)),
                derefs(out@) == those(self.entries@.take(i as int), p),
            decreases self.entries.len() - i,
        {
            assert(self.entries@.take(i + 1).drop_last() =~= self.entries@.take(i as int));
            if starts_with(self.entries[i].key.as_str(), prefix) {
                let ghost pre = derefs(out@);
                out.push(&self.entries[i]);
                assert(derefs(out@) =~= pre.push(self.entries@[i as int]));
            }
            i = i + 1;
        }
        assert(self.entries@.take(i as int) =~= self.entries@);
        out
    }

    /// The beliefs that [`EpistemicStore::delete_cold_beliefs`] would delete.
    pub fn list_cold_beliefs(&self, max_age_days: i64, now: Moment) -> (r: Vec<&Belief>)
        ensures
            derefs(r@) == those(self.entries@, |b: BeliefV| cold(b, max_age_days as int, now)),
    {
        let mut out: Vec<&Belief> = Vec::new();
        let mut i: usize = 0;
        let ghost p = |b: BeliefV| cold(b, max_age_days as int, now);
        assert(self.entries@.take(0) =~= Seq::empty());
        assert(derefs(out@) =~= Seq::empty());
        while i < self.entries.len()
            invariant
                i <= self.entries.len(),
                p == (|b: BeliefV| cold(b, max_age_days as int, now)),
                derefs(out@) == those(self.entries@.take(i as int), p),
            decreases self.entries.len() - i,
        {
            assert(self.entries@.take(i + 1).drop_last() =~= self.entries@.take(i as int));
            if self.entries[i].hits == 0 && days_since(seen_at(&self.entries[i]), now)
                >= max_age_days {
                let ghost pre = derefs(out@);
                out.push(&self.entries[i]);
                assert(derefs(out@) =~= pre.push(self.entries@[i as int]));
            }
            i = i + 1;
        }
        assert(self.entries@.take(i as int) =~= self.entries@);
        out
    }

    /// Deletes the beliefs that nobody ever recalled and that are at least
    /// `max_age_days` old. Returns their keys.
    pub fn delete_cold_beliefs(&mut self, max_age_days: i64, now: Moment) -> (r: Vec<String>)
        requires
            old(self).wf(),
        ensures
            final(self).wf(),
            final(self).version == old(self).version,
            final(self).entries@ == those(
                old(self).entries@,
                |b: BeliefV| !cold(b, max_age_days as int, now),
            ),
            views(r@) == those(
                old(self).entries@,
                |b: BeliefV| cold(b, max_age_days as int, now),
            ).map_values(|b: Belief| b.key@),
    {
        let mut keys: Vec<String> = Vec::new();
        let mut kept: Vec<Belief> = Vec::new();
        let mut i: usize = 0;
        let ghost all = self.entries@;
        let ghost c = |b: BeliefV| cold(b, max_age_days as int, now);
        let ghost n = |b: BeliefV| !cold(b, max_age_days as int, now);
        assert(all.take(0) =~= Seq::empty());
        assert(views(keys@) =~= those(all.take(0), c).map_values(|b: Belief| b.key@));
        while i < self.entries.len()
            invariant
                i <= self.entries.len(),
                *self == *old(self),
                all == self.entries@,
                c == (|b: BeliefV| cold(b, max_age_days as int, now)),
                n == (|b: BeliefV| !cold(b, max_age_days as int, now)),
                kept@ == those(all.take(i as int), n),
                views(keys@) == those(all.take(i as int), c).map_values(|b: Belief| b.key@),
            decreases self.entries.len() - i,
        {
            assert(all.take(i + 1).drop_last() =~= all.take(i as int));
            if self.entries[i].hits == 0 && days_since(seen_at(&self.entries[i]), now)
                >= max_age_days {
                let ghost pre = views(keys@);
                let ghost some = those(all.take(i as int), c);
                keys.push(self.entries[i].key.clone());
                assert(views(keys@) =~= pre.push(all[i as int].key@));
                assert(some.push(all[i as int]).map_values(|b: Belief| b.key@)
                    =~= some.map_values(|b: Belief| b.key@).push(all[i as int].key@));
            } else {
                kept.push(self.entries[i].dup());
            }
            i = i + 1;
        }
        assert(all.take(i as int) =~= all);
        proof {
            lemma_those_distinct(all, n);
        }
        self.entries = kept;
        keys
    }

    /// Indexes the sections of the memory file: each one worth it becomes a
    /// belief under its heading. What is already believed is never
    /// overwritten. Returns how many beliefs were added.
    pub fn backfill_from_content(&mut self, sections: &Vec<Section>, now: Moment) -> (added: usize)
        requires
            old(self).wf(),
            is_reading(now),
        ensures
            final(self).wf(),
            final(self).version == old(self).version,
            final(self).beliefs() == backfilled(old(self).beliefs(), sections@, now),
            added == backfill_count(old(self).beliefs(), sections@, now),
            added <= sections@.len(),
    {
        let mut added: usize = 0;
        let mut i: usize = 0;
        let ghost m = self.beliefs();
        assert(sections@.take(0) =~= Seq::empty());
        while i < sections.len()
            invariant
                i <= sections.len(),
                self.wf(),
                self.version == old(self).version,
                self.beliefs() == backfilled(m, sections@.take(i as int), now),
                added == backfill_count(m, sections@.take(i as int), now),
                added <= i,
                is_reading(now),
            decreases sections.len() - i,
        {
            assert(sections@.take(i + 1).drop_last() =~= sections@.take(i as int));
            let s = &sections[i];
            let h = trim(s.heading.as_str());
            let body = trim(s.body.as_str());
            let n: usize = body.unicode_len();
            if !h.is_empty() && !(starts_with(h, "#") && !starts_with(h, "##")) && n > 20 {
                let key = crate::text::cat2("MEMORY.md##", trim(strip_leading(h, '#')));
                if self.get_belief(key.as_str()).is_none() {
                    let value = if n > 200 {
                        body.substring_char(0, 200)
                    } else {
                        body
                    };
                    let origin = cat3(
                        "MEMORY.md backfill (",
                        date_text(now, "%Y-%m-%d").as_str(),
                        ")",
                    );
                    let b = make_fresh(key.as_str(), value, Confidence::Inferred, origin, now);
                    assert(b@ == section_belief(*s, now)) by {
                        assert(n > 200 ==> value@ =~= body@.take(200));
                    }
                    self.put(b);
                    added = added + 1;
                }
            }
            i = i + 1;
        }
        assert(sections@.take(i as int) =~= sections@);
        added
    }
}

proof fn lemma_those_member(s: Seq<Belief>, p: spec_fn(BeliefV) -> bool, k: int) -> (i: int)
    requires
        0 <= k < those(s, p).len(),
    ensures
        0 <= i < s.len() && s[i] == those(s, p)[k] && p(s[i]@),
    decreases s.len(),
{
    if p(s.last()@) && k == those(s, p).len() - 1 {
        s.len() - 1
    } else {
        lemma_those_member(s.drop_last(), p, k)
    }
}

proof fn lemma_those_distinct(s: Seq<Belief>, p: spec_fn(BeliefV) -> bool)
    requires
        distinct(s),
    ensures
        distinct(those(s, p)),
    decreases s.len(),
{
    if s.len() > 0 {
        let t = s.drop_last();
        assert(distinct(t)) by {
            assert forall|x: int, y: int|
                #![trigger t[x], t[y]]
                0 <= x < y < t.len() implies t[x].key@ != t[y].key@ by {
                assert(s[x].key@ != s[y].key@);
            }
        }
        lemma_those_distinct(t, p);
        let w = those(s, p);
        let wt = those(t, p);
        if p(s.last()@) {
            assert forall|x: int, y: int|
                #![trigger w[x], w[y]]
                0 <= x < y < w.len() implies w[x].key@ != w[y].key@ by {
                if y == wt.len() {
                    let i = lemma_those_member(t, p, x);
                    assert(s[i].key@ != s[s.len() - 1].key@);
                } else {
                    assert(wt[x].key@ != wt[y].key@);
                }
            }
        }
    }
}

// ------------------------------------------------------- with save decisions
/// Adds a belief; the store is to be saved.
pub fn add_belief(
    store: &mut EpistemicStore,
    key: &str,
    value: &str,
    confidence: Confidence,
    origin: &str,
    now: Moment,
) -> (r: (ContradictionResult, bool))
    requires
        old(store).wf(),
        is_reading(now),
    ensures
        final(store).wf(),
        r.1,
        r.0 is Contradicted <==> conflicts(old(store).beliefs(), key@, value@),
        r.0 is Contradicted ==> r.0->old_value@ == old(store).beliefs()[key@].value
            && r.0->new_value@ == value@,
        ({
            let m = old(store).beliefs();
            let new = fresh(key@, value@, confidence, origin@, now);
            let gone = archived(m[key@], value@, origin@, now);
            final(store).beliefs() == if conflicts(m, key@, value@) {
                m.insert(gone.key, gone).insert(key@, new)
            } else {
                m.insert(key@, new)
            }
        }),
{
    let r = store.add_belief(key, value, confidence, origin, now);
    (r, true)
}

/// Verifies a belief; the store is to be saved where there was one.
pub fn verify_belief(store: &mut EpistemicStore, key: &str, now: Moment) -> (r: bool)
    requires
        old(store).wf(),
    ensures
        final(store).wf(),
        r == old(store).beliefs().dom().contains(key@),
        final(store).beliefs() == if r {
            old(store).beliefs().insert(
                key@,
                BeliefV {
                    last_verified: now,
                    confidence: Confidence::Verified,
                    ..old(store).beliefs()[key@]
                },
            )
        } else {
            old(store).beliefs()
        },
{
    store.verify_belief(key, now)
}

/// Records a use of a belief; the store is to be saved where there was one.
pub fn touch_belief(store: &mut EpistemicStore, key: &str, now: Moment) -> (r: bool)
    requires
        old(store).wf(),
        old(store).beliefs().dom().contains(key@) ==> old(store).beliefs()[key@].hits < u64::MAX,
    ensures
        final(store).wf(),
        r == old(store).beliefs().dom().contains(key@),
        final(store).beliefs() == if r {
            old(store).beliefs().insert(
                key@,
                BeliefV {
                    hits: (old(store).beliefs()[key@].hits + 1) as u64,
                    last_used: Some(now),
                    ..old(store).beliefs()[key@]
                },
            )
        } else {
            old(store).beliefs()
        },
{
    store.touch_belief(key, now)
}

/// Runs a decay pass; the store is to be saved where the report is not empty.
pub fn apply_decay(store: &mut EpistemicStore, decay_days: i64, now: Moment) -> (r: Vec<String>)
    requires
        old(store).wf(),
    ensures
        final(store).wf(),
        final(store).entries@.len() == old(store).entries@.len(),
        forall|i: int|
            0 <= i < final(store).entries@.len() ==> (#[trigger] final(store).entries@[i])@
                == decayed(old(store).entries@[i]@, decay_days as int, now),
        views(r@) == decay_report(bviews(old(store).entries@), decay_days as int, now),
{
    store.apply_decay(decay_days, now)
}

/// Deletes cold beliefs; the store is to be saved where any was deleted.
pub fn delete_cold_beliefs(store: &mut EpistemicStore, max_age_days: i64, now: Moment) -> (r: Vec<
    String,
>)
    requires
        old(store).wf(),
    ensures
        final(store).wf(),
        final(store).entries@ == those(
            old(store).entries@,
            |b: BeliefV| !cold(b, max_age_days as int, now),
        ),
        views(r@) == those(
            old(store).entries@,
            |b: BeliefV| cold(b, max_age_days as int, now),
        ).map_values(|b: Belief| b.key@),
{
    store.delete_cold_beliefs(max_age_days, now)
}

/// The beliefs whose key starts with `prefix`.
pub fn list_by_prefix(store: &EpistemicStore, prefix: &str) -> (r: Vec<Belief>)
    ensures
        r@ == those(store.entries@, |b: BeliefV| has_prefix(b.key, prefix@)),
{
    let found = store.list_by_key_prefix(prefix);
    let mut out: Vec<Belief> = Vec::new();
    let mut i: usize = 0;
    while i < found.len()
        invariant
            i <= found.len(),
            out@ == derefs(found@).take(i as int),
        decreases found.len() - i,
    {
        out.push(found[i].dup());
        assert(derefs(found@).take(i + 1) =~= derefs(found@).take(i as int).push(
            derefs(found@)[i as int],
        ));
        i = i + 1;
    }
    assert(derefs(found@).take(i as int) =~= derefs(found@));
    out
}

/// Indexes the sections of the memory file; the store is to be saved where any
/// belief was added.
pub fn backfill_beliefs(store: &mut EpistemicStore, sections: &Vec<Section>, now: Moment) -> (added:
    usize)
    requires
        old(store).wf(),
        is_reading(now),
    ensures
        final(store).wf(),
        final(store).version == old(store).version,
        final(store).beliefs() == backfilled(old(store).beliefs(), sections@, now),
        added == backfill_count(old(store).beliefs(), sections@, now),
{
    store.backfill_from_content(sections, now)
}

/// Days after which a session start lets unseen beliefs decay.
pub const SESSION_DECAY_DAYS: i64 = 30;

/// What a session start did to the store.
pub struct Maintenance {
    pub decayed: Vec<String>,
    pub added: usize,
    /// Whether the store changed and is to be saved.
    pub save: bool,
}

/// The store's beliefs after a decay pass.
pub open spec fn decayed_map(s: Seq<Belief>, decay_days: int, now: Moment) -> Map<
    Seq<char>,
    BeliefV,
> {
    to_map(s).map_values(|b: BeliefV| decayed(b, decay_days, now))
}

/// Maintenance at session start: lets stale beliefs decay, then indexes the
/// sections of the memory file, if there is one.
pub fn session_start_maintenance(
    store: &mut EpistemicStore,
    sections: &Option<Vec<Section>>,
    now: Moment,
) -> (r: Maintenance)
    requires
        old(store).wf(),
        is_reading(now),
    ensures
        final(store).wf(),
        views(r.decayed@) == decay_report(
            bviews(old(store).entries@),
            SESSION_DECAY_DAYS as int,
            now,
        ),
        ({
            let m = decayed_map(old(store).entries@, SESSION_DECAY_DAYS as int, now);
            match sections {
                Some(s) => final(store).beliefs() == backfilled(m, s@, now) && r.added
                    == backfill_count(m, s@, now),
                None => final(store).beliefs() == m && r.added == 0,
            }
        }),
        r.save == (r.decayed@.len() > 0 || r.added > 0),
{
    let decayed_lines = store.apply_decay(SESSION_DECAY_DAYS, now);
    proof {
        lemma_decayed_map(old(store).entries@, store.entries@, SESSION_DECAY_DAYS as int, now);
    }
    let added: usize = match sections {
        Some(s) => store.backfill_from_content(s, now),
        None => 0,
    };
    let save = decayed_lines.len() > 0 || added > 0;
    Maintenance { decayed: decayed_lines, added, save }
}

proof fn lemma_decayed_map(s: Seq<Belief>, t: Seq<Belief>, decay_days: int, now: Moment)
    requires
        s.len() == t.len(),
        forall|i: int|
            0 <= i < s.len() ==> (#[trigger] t[i])@ == decayed(s[i]@, decay_days, now),
    ensures
        to_map(t) == decayed_map(s, decay_days, now),
    decreases s.len(),
{
    if s.len() > 0 {
        let s1 = s.drop_last();
        let t1 = t.drop_last();
        assert forall|i: int| 0 <= i < s1.len() implies (#[trigger] t1[i])@ == decayed(
            s1[i]@,
            decay_days,
            now,
        ) by {
            assert(t[i]@ == decayed(s[i]@, decay_days, now));
        }
        lemma_decayed_map(s1, t1, decay_days, now);
        assert(t[s.len() - 1]@ == decayed(s[s.len() - 1]@, decay_days, now));
        assert(t.last().key@ == s.last().key@) by {
            assert(t.last()@.key == s.last()@.key);
        }
    }
    assert(to_map(t) =~= decayed_map(s, decay_days, now));
}

// -------------------------------------------------------------------- laws
/// Verified beliefs are immune to decay.
pub proof fn law_verified_never_decays(b: BeliefV, decay_days: int, now: Moment)
    requires
        b.confidence == Confidence::Verified,
    ensures
        decayed(b, decay_days, now) == b,
{
}

/// A decay pass lowers a belief by at most one level and changes nothing else.
pub proof fn law_decay_is_one_level(b: BeliefV, decay_days: int, now: Moment)
    ensures
        decayed(b, decay_days, now).confidence.level() <= b.confidence.level(),
        b.confidence.level() <= decayed(b, decay_days, now).confidence.level() + 1,
        decayed(b, decay_days, now) == (BeliefV {
            confidence: decayed(b, decay_days, now).confidence,
            ..b
        }),
{
}

/// A belief that was just used does not decay.
pub proof fn law_use_protects_from_decay(b: BeliefV, decay_days: int, now: Moment)
    requires
        b.last_used == Some(now),
        decay_days > 0,
    ensures
        decayed(b, decay_days, now) == b,
{
}

/// A belief that was ever used is never deleted as cold.
pub proof fn law_used_is_never_cold(b: BeliefV, max_age_days: int, now: Moment)
    requires
        b.hits > 0,
    ensures
        !cold(b, max_age_days, now),
{
}

/// Indexing never overwrites: what is believed stays as it is, so verified
/// beliefs survive indexing again.
pub proof fn law_backfill_never_overwrites(
    m: Map<Seq<char>, BeliefV>,
    sections: Seq<Section>,
    now: Moment,
    key: Seq<char>,
)
    requires
        m.dom().contains(key),
    ensures
        backfilled(m, sections, now).dom().contains(key),
        backfilled(m, sections, now)[key] == m[key],
    decreases sections.len(),
{
    if sections.len() > 0 {
        law_backfill_never_overwrites(m, sections.drop_last(), now, key);
    }
}

/// Every section worth indexing is believed afterwards.
pub proof fn law_backfill_covers(
    m: Map<Seq<char>, BeliefV>,
    sections: Seq<Section>,
    now: Moment,
    k: int,
)
    requires
        0 <= k < sections.len(),
        indexable(sections[k]),
    ensures
        backfilled(m, sections, now).dom().contains(heading_key(sections[k].heading@)),
    decreases sections.len(),
{
    if k < sections.len() - 1 {
        law_backfill_covers(m, sections.drop_last(), now, k);
    }
}

/// Indexing twice adds nothing the second time.
pub proof fn law_backfill_is_idempotent(
    m: Map<Seq<char>, BeliefV>,
    sections: Seq<Section>,
    now: Moment,
    later: Moment,
)
    ensures
        backfilled(backfilled(m, sections, now), sections, later) == backfilled(m, sections, now),
{
    assert(sections =~= sections.take(sections.len() as int));
    lemma_backfill_covered(backfilled(m, sections, now), m, sections, now, sections, later);
}

proof fn lemma_backfill_covered(
    full: Map<Seq<char>, BeliefV>,
    m: Map<Seq<char>, BeliefV>,
    all: Seq<Section>,
    now: Moment,
    sections: Seq<Section>,
    later: Moment,
)
    requires
        full == backfilled(m, all, now),
        sections.len() <= all.len(),
        sections == all.take(sections.len() as int),
    ensures
        backfilled(full, sections, later) == full,
    decreases sections.len(),
{
    if sections.len() > 0 {
        let rest = sections.drop_last();
        assert(rest =~= all.take(rest.len() as int));
        lemma_backfill_covered(full, m, all, now, rest, later);
        let k = sections.len() - 1;
        assert(sections.last() == all[k]);
        if indexable(all[k]) {
            law_backfill_covers(m, all, now, k);
        }
    }
}

/// An archived copy does not answer to a prefix of the original key, unless
/// that prefix is one of the archive's own namespace.
pub proof fn law_archive_is_out_of_prefix_queries(key: Seq<char>, now: Moment, prefix: Seq<char>)
    requires
        prefix.len() > 0,
        prefix[0] != 'c',
    ensures
        !has_prefix(archive_key(key, now), prefix),
{
    reveal_strlit("contradicted:");
    if has_prefix(archive_key(key, now), prefix) {
        assert(archive_key(key, now)[0] == 'c');
        assert(archive_key(key, now).subrange(0, prefix.len() as int)[0] == 'c');
    }
}

/// A belief that nobody used or recorded for the given days loses one level of
/// confidence, unless it is verified; a contradicted one has none to lose. One
/// that was seen since keeps it.
pub proof fn law_unused_beliefs_decay(b: BeliefV, decay_days: int, now: Moment)
    ensures
        ({
            let seen = if b.last_used is Some {
                b.last_used->0
            } else {
                b.recorded_at
            };
            let after = decayed(b, decay_days, now).confidence;
            &&& days_between(seen, now) < decay_days ==> decayed(b, decay_days, now) == b
            &&& days_between(seen, now) >= decay_days && b.confidence == Confidence::Inferred
                ==> after == Confidence::Uncertain
            &&& days_between(seen, now) >= decay_days && b.confidence == Confidence::Uncertain
                ==> after == Confidence::Contradicted
            &&& b.confidence == Confidence::Contradicted ==> after == Confidence::Contradicted
        }),
{
}

/// A belief is cold exactly when it was never recalled and is at least that
/// old.
pub proof fn law_cold_means_old_and_never_used(b: BeliefV, max_age_days: int, now: Moment)
    ensures
        b.hits == 0 && b.last_used is None ==> (cold(b, max_age_days, now) <==> days_between(
            b.recorded_at,
            now,
        ) >= max_age_days),
        cold(b, max_age_days, now) ==> b.hits == 0,
        b.last_used is Some && cold(b, max_age_days, now) ==> days_between(b.last_used->0, now)
            >= max_age_days,
{
}

/// The levels have names and places of their own, verified highest.
pub proof fn law_levels_are_ordered(a: Confidence, b: Confidence)
    ensures
        a.level() == b.level() ==> a == b,
        a.text() == b.text() ==> a == b,
        Confidence::Verified.level() > Confidence::Inferred.level(),
        Confidence::Inferred.level() > Confidence::Uncertain.level(),
        Confidence::Uncertain.level() > Confidence::Contradicted.level(),
        Confidence::Verified.text() == "verified"@,
        Confidence::Inferred.text() == "inferred"@,
        Confidence::Uncertain.text() == "uncertain"@,
        Confidence::Contradicted.text() == "contradicted"@,
{
    reveal_strlit("verified");
    reveal_strlit("inferred");
    reveal_strlit("uncertain");
    reveal_strlit("contradicted");
    assert("verified"@[0] == 'v' && "inferred"@[0] == 'i' && "uncertain"@[0] == 'u'
        && "contradicted"@[0] == 'c');
}

proof fn lemma_decay_report_add(
    a: Seq<BeliefV>,
    b: Seq<BeliefV>,
    decay_days: int,
    now: Moment,
)
    ensures
        decay_report(a + b, decay_days, now) == decay_report(a, decay_days, now) + decay_report(
            b,
            decay_days,
            now,
        ),
    decreases b.len(),
{
    if b.len() == 0 {
        assert(a + b =~= a);
        assert(decay_report(a, decay_days, now) + decay_report(b, decay_days, now) =~= decay_report(
            a,
            decay_days,
            now,
        ));
    } else {
        assert((a + b).drop_last() =~= a + b.drop_last());
        lemma_decay_report_add(a, b.drop_last(), decay_days, now);
        assert(decay_report(a + b, decay_days, now) =~= decay_report(a, decay_days, now)
            + decay_report(b, decay_days, now));
    }
}

/// A decay pass reports every belief whose confidence it lowered, once, and no
/// other; the report names the key and both levels.
pub proof fn law_every_drop_is_reported(
    a: Seq<BeliefV>,
    m: BeliefV,
    b: Seq<BeliefV>,
    decay_days: int,
    now: Moment,
)
    ensures
        ({
            let all = decay_report(a.push(m) + b, decay_days, now);
            let (x, y) = (decay_report(a, decay_days, now), decay_report(b, decay_days, now));
            let after = decayed(m, decay_days, now);
            if after.confidence == m.confidence {
                all == x + y
            } else {
                &&& all == x.push(all[x.len() as int]) + y
                &&& tells(
                    all[x.len() as int],
                    m.key + ": "@ + m.confidence.text() + " → "@ + after.confidence.text() + " ("@,
                )
            }
        }),
{
    lemma_decay_report_add(a.push(m), b, decay_days, now);
    assert(a.push(m).drop_last() =~= a);
    let (x, y) = (decay_report(a, decay_days, now), decay_report(b, decay_days, now));
    let all = decay_report(a.push(m) + b, decay_days, now);
    if decayed(m, decay_days, now).confidence != m.confidence {
        let line = decay_line(m, now);
        assert(all == x.push(line) + y);
        assert(all[x.len() as int] == line);
        let part = m.key + ": "@ + m.confidence.text() + " → "@ + m.confidence.lower().text()
            + " ("@;
        let days = decimal_int(days_between(last_seen(m), now)) + " days since last use)"@;
        assert(line =~= Seq::<char>::empty() + part + days);
        lemma_tells(line, Seq::empty(), part, days);
    }
}

/// A new value that contradicts a belief does not erase it: the archived copy
/// keeps the old value and everything that is known of it, is contradicted,
/// tells what contradicted it, and stands under a key of its own that ends
/// with the old one.
pub proof fn law_contradicted_belief_is_kept(
    b: BeliefV,
    value: Seq<char>,
    origin: Seq<char>,
    now: Moment,
)
    ensures
        ({
            let old = archived(b, value, origin, now);
            &&& old.value == b.value
            &&& old.origin == b.origin
            &&& old.recorded_at == b.recorded_at
            &&& old.last_verified == b.last_verified
            &&& old.hits == b.hits
            &&& old.last_used == b.last_used
            &&& old.confidence == Confidence::Contradicted
            &&& old.notes is Some && tells(
                old.notes->0,
                "Contradicted by new value '"@ + value + "' from "@ + origin + " at "@,
            )
            &&& old.key == archive_key(b.key, now)
            &&& old.key.len() > b.key.len()
            &&& old.key.skip(old.key.len() - b.key.len()) == b.key
            &&& old.key.take(13) == "contradicted:"@
            &&& tells(old.key, ":"@ + decimal_int(now.secs as int) + ":"@)
        }),
{
    let old = archived(b, value, origin, now);
    reveal_strlit("contradicted:");
    reveal_strlit(":");
    reveal_strlit("contradicted");
    assert(old.key.skip(old.key.len() - b.key.len()) =~= b.key);
    assert(old.key.take(13) =~= "contradicted:"@);
    let mid = ":"@ + decimal_int(now.secs as int) + ":"@;
    assert(old.key =~= "contradicted"@ + mid + b.key);
    lemma_tells(old.key, "contradicted"@, mid, b.key);
    let part = "Contradicted by new value '"@ + value + "' from "@ + origin + " at "@;
    let when = utc_text(now.secs as int, "%Y-%m-%d %H:%M:%S UTC"@)->0;
    assert(old.notes->0 =~= Seq::<char>::empty() + part + when);
    lemma_tells(old.notes->0, Seq::empty(), part, when);
}

/// What contradicts: another value than the one believed, unless that belief
/// was given up before. The same value again does not, nor does a first one.
pub proof fn law_another_value_contradicts(
    m: Map<Seq<char>, BeliefV>,
    key: Seq<char>,
    value: Seq<char>,
)
    ensures
        !m.dom().contains(key) ==> !conflicts(m, key, value),
        m.dom().contains(key) && m[key].value == value ==> !conflicts(m, key, value),
        m.dom().contains(key) && m[key].value != value && m[key].confidence
            != Confidence::Contradicted ==> conflicts(m, key, value),
        m.dom().contains(key) && m[key].confidence == Confidence::Contradicted ==> !conflicts(
            m,
            key,
            value,
        ),
{
}

/// A belief is recorded as it was given, now, and unused.
pub proof fn law_recorded_as_given(
    key: Seq<char>,
    value: Seq<char>,
    confidence: Confidence,
    origin: Seq<char>,
    now: Moment,
)
    ensures
        ({
            let b = fresh(key, value, confidence, origin, now);
            &&& b.key == key && b.value == value && b.confidence == confidence && b.origin == origin
            &&& b.recorded_at == now && b.last_verified == now
            &&& b.notes is None && b.hits == 0 && b.last_used is None
        }),
{
}

/// Which sections are indexed: those under a heading of the second level or
/// below, or under one without a mark, with more than twenty characters of
/// body. Each becomes an inferred belief under its heading, holding the start
/// of its body.
pub proof fn law_sections_become_beliefs(s: Section, now: Moment)
    ensures
        ({
            let h = trimmed(s.heading@);
            let body = trimmed(s.body@);
            let b = section_belief(s, now);
            &&& h.len() == 0 ==> !indexable(s)
            &&& body.len() <= 20 ==> !indexable(s)
            &&& h.len() > 0 && h[0] == '#' && (h.len() == 1 || h[1] != '#') ==> !indexable(s)
            &&& h.len() > 1 && h[0] == '#' && h[1] == '#' && body.len() > 20 ==> indexable(s)
            &&& h.len() > 0 && h[0] != '#' && body.len() > 20 ==> indexable(s)
            &&& b.value.len() == if body.len() > 200 {
                200
            } else {
                body.len()
            }
            &&& b.value == body.take(b.value.len() as int)
            &&& b.key == "MEMORY.md##"@ + trimmed(trim_start_of(h, '#'))
            &&& b.confidence == Confidence::Inferred
            &&& b.hits == 0 && b.recorded_at == now
        }),
{
    reveal_strlit("#");
    reveal_strlit("##");
    let h = trimmed(s.heading@);
    let body = trimmed(s.body@);
    assert(body.take(body.len() as int) =~= body);
    if h.len() > 0 {
        assert(h.subrange(0, 1)[0] == h[0]);
        assert("#"@[0] == '#' && "##"@[0] == '#' && "##"@[1] == '#');
        if h[0] == '#' {
            assert(h.subrange(0, 1) =~= "#"@);
        }
        if h.len() > 1 {
            assert(h.subrange(0, 2)[1] == h[1] && h.subrange(0, 2)[0] == h[0]);
            if h[0] == '#' && h[1] == '#' {
                assert(h.subrange(0, 2) =~= "##"@);
            }
        }
    }
}

/// Indexing counts exactly the beliefs it adds.
pub proof fn law_backfill_counts_what_it_adds(
    m: Map<Seq<char>, BeliefV>,
    sections: Seq<Section>,
    now: Moment,
)
    requires
        m.dom().finite(),
    ensures
        backfilled(m, sections, now).dom().finite(),
        backfilled(m, sections, now).dom().len() == m.dom().len() + backfill_count(m, sections, now),
    decreases sections.len(),
{
    if sections.len() > 0 {
        law_backfill_counts_what_it_adds(m, sections.drop_last(), now);
        let before = backfilled(m, sections.drop_last(), now);
        let s = sections.last();
        let k = heading_key(s.heading@);
        if indexable(s) && !before.dom().contains(k) {
            assert(backfilled(m, sections, now).dom() =~= before.dom().insert(k));
        }
    }
}

/// A section that is indexed first under its heading is what is believed.
pub proof fn law_backfill_believes_the_section(
    m: Map<Seq<char>, BeliefV>,
    sections: Seq<Section>,
    now: Moment,
    k: int,
)
    requires
        0 <= k < sections.len(),
        indexable(sections[k]),
        !m.dom().contains(heading_key(sections[k].heading@)),
        forall|j: int|
            0 <= j < k ==> heading_key((#[trigger] sections[j]).heading@) != heading_key(
                sections[k].heading@,
            ),
    ensures
        backfilled(m, sections, now)[heading_key(sections[k].heading@)] == section_belief(
            sections[k],
            now,
        ),
    decreases sections.len(),
{
    let key = heading_key(sections[k].heading@);
    let init = sections.drop_last();
    if k == sections.len() - 1 {
        lemma_not_backfilled(m, init, now, key);
    } else {
        assert forall|j: int| 0 <= j < k implies heading_key((#[trigger] init[j]).heading@)
            != heading_key(init[k].heading@) by {
            assert(heading_key(sections[j].heading@) != key);
        }
        law_backfill_believes_the_section(m, init, now, k);
        law_backfill_covers(m, init, now, k);
    }
}

proof fn lemma_not_backfilled(
    m: Map<Seq<char>, BeliefV>,
    sections: Seq<Section>,
    now: Moment,
    key: Seq<char>,
)
    requires
        !m.dom().contains(key),
        forall|j: int| 0 <= j < sections.len() ==> heading_key((#[trigger] sections[j]).heading@) != key,
    ensures
        !backfilled(m, sections, now).dom().contains(key),
    decreases sections.len(),
{
    if sections.len() > 0 {
        let init = sections.drop_last();
        assert(heading_key(sections[sections.len() - 1].heading@) != key);
        assert forall|j: int| 0 <= j < init.len() implies heading_key((#[trigger] init[j]).heading@)
            != key by {
            assert(heading_key(sections[j].heading@) != key);
        }
        lemma_not_backfilled(m, init, now, key);
    }
}

/// A listing holds exactly the beliefs asked for, in the order of the store.
pub proof fn law_listing_is_a_filter(
    a: Seq<Belief>,
    m: Belief,
    b: Seq<Belief>,
    p: spec_fn(BeliefV) -> bool,
)
    ensures
        those(a.push(m) + b, p) == if p(m@) {
            those(a, p).push(m) + those(b, p)
        } else {
            those(a, p) + those(b, p)
        },
        those(Seq::empty(), p).len() == 0,
{
    lemma_those_add(a.push(m), b, p);
    assert(a.push(m).drop_last() =~= a);
}

proof fn lemma_those_add(a: Seq<Belief>, b: Seq<Belief>, p: spec_fn(BeliefV) -> bool)
    ensures
        those(a + b, p) == those(a, p) + those(b, p),
    decreases b.len(),
{
    if b.len() == 0 {
        assert(a + b =~= a);
        assert(those(a, p) + those(b, p) =~= those(a, p));
    } else {
        assert((a + b).drop_last() =~= a + b.drop_last());
        lemma_those_add(a, b.drop_last(), p);
        assert(those(a + b, p) =~= those(a, p) + those(b, p));
    }
}

/// What is recorded is recalled: the store's map holds each entry under its
/// key.
pub proof fn law_entries_are_found(s: Seq<Belief>, i: int)
    requires
        0 <= i < s.len(),
        distinct(s),
    ensures
        to_map(s).dom().contains(s[i].key@),
        to_map(s)[s[i].key@] == s[i]@,
{
    lemma_map_at(s, i);
}

} // verus!
