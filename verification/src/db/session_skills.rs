//! Stored seen-skill rows.
use vstd::prelude::*;

verus! {

/// The value of a UUID's text, as the `uuid` crate reads it; `None` where it
/// is none.
pub uninterp spec fn uuid_value(text: Seq<char>) -> Option<u128>;

/// `uuid::Uuid::parse_str` and `Uuid::as_u128`. The value depends on the text
/// alone and is named.
#[verifier::external_body]
pub(crate) fn read_uuid(text: &str) -> (r: Option<u128>)
    ensures
        r == uuid_value(text@),
{
    match uuid::Uuid::parse_str(text) {
        Ok(u) => Some(u.as_u128()),
        Err(_) => None,
    }
}

/// A row as the table holds it.
pub struct SkillColumns {
    pub session_id: String,
    pub slug: String,
    pub epoch: Option<i64>,
    pub loaded_mtime: Option<i64>,
}

/// A row whose session was read.
pub struct SkillRow {
    pub session: u128,
    pub slug: String,
    pub epoch: Option<i64>,
    pub loaded_mtime: Option<i64>,
}

/// A row, as values.
pub struct SkillRowV {
    pub session: u128,
    pub slug: Seq<char>,
    pub epoch: Option<i64>,
    pub loaded_mtime: Option<i64>,
}

impl View for SkillRow {
    type V = SkillRowV;

    open spec fn view(&self) -> SkillRowV {
        SkillRowV {
            session: self.session,
            slug: self.slug@,
            epoch: self.epoch,
            loaded_mtime: self.loaded_mtime,
        }
    }
}

pub open spec fn row_views(v: Seq<SkillRow>) -> Seq<SkillRowV> {
    v.map_values(|r: SkillRow| r@)
}

/// A row of the table, given its session.
pub open spec fn row_of(c: SkillColumns, session: u128) -> SkillRowV {
    SkillRowV { session, slug: c.slug@, epoch: c.epoch, loaded_mtime: c.loaded_mtime }
}

/// The rows whose session can be read, in order.
pub open spec fn readable(rows: Seq<SkillColumns>) -> Seq<SkillRowV>
    decreases rows.len(),
{
    if rows.len() == 0 {
        Seq::empty()
    } else {
        match uuid_value(rows.last().session_id@) {
            Some(id) => readable(rows.drop_last()).push(row_of(rows.last(), id)),
            None => readable(rows.drop_last()),
        }
    }
}

/// One row, given what its session reads as; `None` where it cannot be read.
pub fn to_row(c: &SkillColumns, session: Option<u128>) -> (r: Option<SkillRow>)
    ensures
        match r {
            Some(row) => session is Some && row@ == row_of(*c, session->0),
            None => session is None,
        },
{
    match session {
        Some(s) => Some(
            SkillRow {
                session: s,
                slug: c.slug.clone(),
                epoch: c.epoch,
                loaded_mtime: c.loaded_mtime,
            },
        ),
        None => None,
    }
}

/// The rows whose session can be read, in order; the others are skipped.
pub fn all(rows: &Vec<SkillColumns>) -> (r: Vec<SkillRow>)
    ensures
        row_views(r@) == readable(rows@),
{
    let mut out: Vec<SkillRow> = Vec::new();
    let mut i: usize = 0;
    assert(rows@.take(0) =~= Seq::empty());
    assert(row_views(out@) =~= Seq::empty());
    while i < rows.len()
        invariant
            i <= rows.len(),
            row_views(out@) == readable(rows@.take(i as int)),
        decreases rows.len() - i,
    {
        assert(rows@.take(i + 1).drop_last() =~= rows@.take(i as int));
        let ghost pre = row_views(out@);
        if let Some(row) = to_row(&rows[i], read_uuid(rows[i].session_id.as_str())) {
            let ghost v = row@;
            out.push(row);
            assert(row_views(out@) =~= pre.push(v));
        }
        i = i + 1;
    }
    assert(rows@.take(i as int) =~= rows@);
    out
}

proof fn lemma_readable_adds(a: Seq<SkillColumns>, b: Seq<SkillColumns>)
    ensures
        readable(a + b) == readable(a) + readable(b),
    decreases b.len(),
{
    if b.len() == 0 {
        assert(a + b =~= a);
        assert(readable(a) + readable(b) =~= readable(a));
    } else {
        assert((a + b).drop_last() =~= a + b.drop_last());
        lemma_readable_adds(a, b.drop_last());
        assert(readable(a + b) =~= readable(a) + readable(b));
    }
}

/// Every row whose session can be read is kept in its place, with its slug, its
/// epoch and the file's time as they were stored; the others are left out.
pub proof fn law_readable_rows_are_kept(a: Seq<SkillColumns>, c: SkillColumns, b: Seq<SkillColumns>)
    ensures
        uuid_value(c.session_id@) is Some ==> readable(a.push(c) + b) == readable(a).push(
            SkillRowV {
                session: uuid_value(c.session_id@)->0,
                slug: c.slug@,
                epoch: c.epoch,
                loaded_mtime: c.loaded_mtime,
            },
        ) + readable(b),
        uuid_value(c.session_id@) is None ==> readable(a.push(c) + b) == readable(a) + readable(b),
{
    lemma_readable_adds(a.push(c), b);
    assert(a.push(c).drop_last() =~= a);
}

} // verus!
