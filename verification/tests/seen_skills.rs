use crabs::tools::seen_skills::{
    hydrate_from_rows, skill_slug_from_path, SeenSkills, StoredRow,
};
use uuid::Uuid;

fn fresh() -> u128 {
    Uuid::new_v4().as_u128()
}

fn row(session: u128, slug: &str, epoch: Option<i64>) -> StoredRow {
    StoredRow { session, slug: slug.to_string(), epoch }
}

#[test]
fn slug_extraction_from_skill_paths() {
    assert_eq!(
        skill_slug_from_path("/root/.opencrabs/profiles/ops/skills/opencrabs-dev/SKILL.md"),
        Some("opencrabs-dev".to_string())
    );
    assert_eq!(skill_slug_from_path("skills/foo/SKILL.md"), Some("foo".to_string()));
}

#[test]
fn non_skill_paths_yield_none() {
    assert_eq!(skill_slug_from_path("/home/user/MEMORY.md"), None);
    assert_eq!(skill_slug_from_path("skills/foo/other.md"), None);
    assert_eq!(skill_slug_from_path("not-skills/foo/SKILL.md"), None);
    assert_eq!(skill_slug_from_path("skills/foo/"), None);
}

#[test]
fn mark_seen_is_idempotent_and_session_scoped() {
    let mut s = SeenSkills::new();
    let a = fresh();
    let b = fresh();
    s.mark_seen(a, "opencrabs-dev");
    s.mark_seen(a, "opencrabs-dev");
    assert!(s.was_seen(a, "opencrabs-dev"));
    assert_eq!(s.seen_for_session(a), vec!["opencrabs-dev".to_string()]);
    assert!(!s.was_seen(b, "opencrabs-dev"));
    assert!(s.seen_for_session(b).is_empty());
}

#[test]
fn seen_list_is_sorted_and_multi() {
    let mut s = SeenSkills::new();
    let a = fresh();
    s.mark_seen(a, "zeta");
    s.mark_seen(a, "alpha");
    assert_eq!(s.seen_for_session(a), vec!["alpha".to_string(), "zeta".to_string()]);
}

#[test]
fn fresh_session_reports_not_seen_since_compaction() {
    let s = SeenSkills::new();
    let a = fresh();
    assert!(!s.seen_since_compaction(a, "anything"));
}

#[test]
fn seen_passes_and_compaction_rearms_gate() {
    let mut s = SeenSkills::new();
    let a = fresh();
    s.mark_seen(a, "my-skill");
    assert!(s.seen_since_compaction(a, "my-skill"));
    s.note_compaction(a);
    assert!(!s.seen_since_compaction(a, "my-skill"));
    s.mark_seen(a, "my-skill");
    assert!(s.seen_since_compaction(a, "my-skill"));
}

#[test]
fn compaction_clears_nothing_stamp_inventory_intact() {
    let mut s = SeenSkills::new();
    let a = fresh();
    s.mark_seen(a, "one");
    s.mark_seen(a, "two");
    s.note_compaction(a);
    assert_eq!(s.seen_for_session(a), vec!["one".to_string(), "two".to_string()]);
    assert!(!s.seen_since_compaction(a, "one"));
    assert!(!s.seen_since_compaction(a, "two"));
}

#[test]
fn sessions_are_independent() {
    let mut s = SeenSkills::new();
    let a = fresh();
    let b = fresh();
    s.mark_seen(a, "sk");
    s.note_compaction(a);
    s.mark_seen(b, "sk");
    assert!(s.seen_since_compaction(b, "sk"));
    assert!(!s.seen_since_compaction(a, "sk"));
}

#[test]
fn hydration_takes_max_epoch_per_session() {
    let a = fresh();
    let b = fresh();
    let seeds = hydrate_from_rows(&vec![
        row(a, "one", Some(1)),
        row(a, "two", Some(3)),
        row(b, "one", Some(1)),
    ]);
    assert_eq!(seeds.seen.len(), 3);
    assert_eq!(seeds.epochs.get(&a), Some(&3));
    assert_eq!(seeds.epochs.get(&b), Some(&1));
}

#[test]
fn hydration_restores_epoch_counter_so_next_compaction_gates() {
    let mut s = SeenSkills::new();
    let a = fresh();
    s.apply_seeds(hydrate_from_rows(&vec![row(a, "sk", Some(2))]));
    assert!(s.was_seen(a, "sk"));
    assert!(s.seen_since_compaction(a, "sk"));
    s.note_compaction(a);
    assert!(!s.seen_since_compaction(a, "sk"));
}

#[test]
fn hydration_null_epoch_reads_as_zero_and_stays_permissive() {
    let mut s = SeenSkills::new();
    let a = fresh();
    s.apply_seeds(hydrate_from_rows(&vec![row(a, "legacy", None)]));
    assert!(s.was_seen(a, "legacy"));
    assert!(s.seen_since_compaction(a, "legacy"));
    let b = fresh();
    s.apply_seeds(hydrate_from_rows(&vec![row(b, "odd", Some(-5))]));
    assert!(s.seen_since_compaction(b, "odd"));
}

#[test]
fn hydration_preserves_stamp_inventory_across_restart() {
    let mut s = SeenSkills::new();
    let a = fresh();
    s.apply_seeds(hydrate_from_rows(&vec![
        row(a, "zeta", Some(0)),
        row(a, "alpha", Some(1)),
    ]));
    assert_eq!(s.seen_for_session(a), vec!["alpha".to_string(), "zeta".to_string()]);
}

#[test]
fn seeds_never_rewind_a_running_session() {
    let mut s = SeenSkills::new();
    let a = fresh();
    s.note_compaction(a);
    s.note_compaction(a);
    s.mark_seen(a, "sk");
    assert_eq!(s.apply_seeds(hydrate_from_rows(&vec![row(a, "sk", Some(1))])), 1);
    assert_eq!(s.current_epoch(a), 2);
    assert!(s.seen_since_compaction(a, "sk"));
}

#[test]
fn out_of_context_until_read_again() {
    let mut st = crabs::tools::seen_skills::SeenSkills::new();
    assert!(!st.seen_since_compaction(1, "a"));
    st.mark_seen(1, "a");
    st.mark_seen(2, "a");
    st.note_compaction(2);
    st.mark_seen(1, "b");
    assert!(st.seen_since_compaction(1, "a"));
    for _ in 0..3 {
        st.note_compaction(1);
        st.mark_seen(1, "b");
        st.mark_seen(2, "a");
        assert!(!st.seen_since_compaction(1, "a"));
    }
    st.mark_seen(1, "a");
    assert!(st.seen_since_compaction(1, "a"));
}
