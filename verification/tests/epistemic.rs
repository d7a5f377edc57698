use crabs::clock::{days_since, Moment};
use crabs::tools::epistemic::{
    add_belief, apply_decay, backfill_beliefs, delete_cold_beliefs, list_by_prefix,
    session_start_maintenance, touch_belief, verify_belief, Confidence, ContradictionResult,
    EpistemicStore, Section,
};

const DAY: i64 = 86_400;

fn at(secs: i64) -> Moment {
    Moment { secs, nanos: 0 }
}

fn section(heading: &str, body: &str) -> Section {
    Section { heading: heading.to_string(), body: body.to_string() }
}

#[test]
fn contradictions_are_archived() {
    let mut st = EpistemicStore::new();
    let r = st.add_belief("port", "80", Confidence::Inferred, "logs", at(0));
    assert!(matches!(r, ContradictionResult::NoContradiction));
    let r = st.add_belief("port", "443", Confidence::Verified, "docs", at(5));
    assert!(matches!(r, ContradictionResult::Contradicted { old_value, new_value } if old_value == "80" && new_value == "443"));
    assert_eq!(st.get_belief("port").unwrap().value, "443");
    let old = st.get_belief("contradicted:5:port").unwrap();
    assert!(old.confidence == Confidence::Contradicted && old.value == "80");
    assert_eq!(
        old.notes.as_deref(),
        Some("Contradicted by new value '443' from docs at 1970-01-01 00:00:05 UTC")
    );
    assert_eq!(st.list_contradictions().len(), 1);
    assert_eq!(st.list_by_key_prefix("port").len(), 1);
    assert_eq!(list_by_prefix(&st, "contradicted:").len(), 1);
}

#[test]
fn same_value_contradicts_nothing() {
    let mut st = EpistemicStore::new();
    st.add_belief("k", "v", Confidence::Uncertain, "a", at(0));
    let (r, _) = add_belief(&mut st, "k", "v", Confidence::Verified, "b", at(1));
    assert!(matches!(r, ContradictionResult::NoContradiction));
    assert_eq!(st.entries.len(), 1);
    assert_eq!(st.list_by_confidence(Confidence::Verified).len(), 1);
}

#[test]
fn unseen_beliefs_decay_one_level() {
    let mut st = EpistemicStore::new();
    st.add_belief("v", "1", Confidence::Verified, "s", at(0));
    st.add_belief("i", "1", Confidence::Inferred, "s", at(0));
    st.add_belief("u", "1", Confidence::Inferred, "s", at(0));
    assert!(touch_belief(&mut st, "u", at(29 * DAY)));
    assert!(!touch_belief(&mut st, "none", at(0)));
    assert_eq!(apply_decay(&mut st, 30, at(30 * DAY)), vec!["i: inferred → uncertain (30 days since last use)"]);
    assert!(st.get_belief("v").unwrap().confidence == Confidence::Verified);
    assert!(st.get_belief("i").unwrap().confidence == Confidence::Uncertain);
    assert!(st.get_belief("u").unwrap().confidence == Confidence::Inferred);
    assert!(verify_belief(&mut st, "i", at(31 * DAY)));
    assert!(st.get_belief("i").unwrap().confidence == Confidence::Verified);
    assert!(!verify_belief(&mut st, "none", at(0)));
    assert!(Confidence::Uncertain.decay() == Confidence::Contradicted);
    assert!(Confidence::Contradicted.decay() == Confidence::Contradicted);
}

#[test]
fn cold_beliefs_go_and_used_ones_stay() {
    let mut st = EpistemicStore::new();
    st.add_belief("cold", "1", Confidence::Inferred, "s", at(0));
    st.add_belief("warm", "1", Confidence::Inferred, "s", at(0));
    st.touch_belief("warm", at(1));
    assert_eq!(st.list_cold_beliefs(90, at(90 * DAY)).len(), 1);
    assert_eq!(delete_cold_beliefs(&mut st, 90, at(89 * DAY)), Vec::<String>::new());
    assert_eq!(delete_cold_beliefs(&mut st, 90, at(90 * DAY)), vec!["cold"]);
    assert!(st.get_belief("warm").is_some());
}

#[test]
fn backfill_indexes_sections_once() {
    let mut st = EpistemicStore::new();
    let body = "x".repeat(21);
    let long = "é".repeat(300);
    let sections = vec![
        section("", &body),
        section("# Title", &body),
        section("## Deploy", &format!("  {body}\n")),
        section("### Long", &long),
        section("## Stub", &"y".repeat(20)),
    ];
    assert_eq!(backfill_beliefs(&mut st, &sections, at(0)), 2);
    let b = st.get_belief("MEMORY.md##Deploy").unwrap();
    assert!(b.value == body && b.confidence == Confidence::Inferred);
    assert_eq!(b.source.origin, "MEMORY.md backfill (1970-01-01)");
    assert_eq!(st.get_belief("MEMORY.md##Long").unwrap().value, "é".repeat(200));
    st.verify_belief("MEMORY.md##Deploy", at(5));
    assert_eq!(st.backfill_from_content(&sections, at(9)), 0);
    assert!(st.get_belief("MEMORY.md##Deploy").unwrap().confidence == Confidence::Verified);
}

#[test]
fn session_start_maintains_the_store() {
    let mut st = EpistemicStore::new();
    st.add_belief("i", "1", Confidence::Inferred, "s", at(0));
    let m = session_start_maintenance(&mut st, &None, at(DAY));
    assert!(m.decayed.is_empty() && m.added == 0 && !m.save);
    let m = session_start_maintenance(&mut st, &Some(vec![section("## A", &"z".repeat(30))]), at(40 * DAY));
    assert!(m.decayed.len() == 1 && m.added == 1 && m.save);
}

#[test]
fn far_moments_are_held() {
    let mut st = EpistemicStore::new();
    st.add_belief("old", "1", Confidence::Inferred, "s", at(-30_000_000_000));
    st.add_belief("far", "1", Confidence::Inferred, "s", at(30_000_000_000));
    assert_eq!(st.get_belief("old").unwrap().source.recorded_at, at(-30_000_000_000));
    assert_eq!(apply_decay(&mut st, 30, at(0)), vec!["old: inferred → uncertain (347222 days since last use)"]);
    st.add_belief("far", "2", Confidence::Inferred, "s", at(-62_135_596_800));
    let gone = st.get_belief("contradicted:-62135596800:far").unwrap();
    assert_eq!(gone.notes.as_deref(), Some("Contradicted by new value '2' from s at 0001-01-01 00:00:00 UTC"));
}

#[test]
fn leap_seconds_count() {
    let leap = Moment { secs: 1_483_228_799, nanos: 1_000_000_000 };
    assert_eq!(days_since(leap, at(1_483_228_799 + 86_399)), 0);
    assert_eq!(days_since(leap, at(1_483_228_799 + 86_400)), 0);
    assert_eq!(days_since(leap, at(1_483_228_799 + 86_401)), 1);
    assert_eq!(days_since(at(100), Moment { secs: 100 - 86_400, nanos: 1 }), 0);
    assert_eq!(days_since(at(100), at(100 - 86_400)), -1);
}
