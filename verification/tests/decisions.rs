use crabs::context::{ContentBlock, Counted};
use crabs::decisions::normalize::{canonical_json, decision_key, key_bytes, mask_volatile};
use crabs::decisions::report::{
    find_tier, mode_label, pct, render_usage_block, render_usage_lines, DecisionMode,
    DecisionStats, DecisionTierConfig,
};
use crabs::json::Json;
use crabs::tools::decide_cached::{
    after_lookup, braced_part, decided_answer, execute, fresh_enough, hit_answer, parse_decision,
    plain_answer, prompt, text_of, tier_name, unparsed_answer, AfterLookup, CachedRow, DecideInput,
    Opening, ANSWER_CONTRACT,
};

fn s(t: &str) -> String {
    t.to_string()
}

fn text(t: &str) -> Json {
    Json::Str(s(t))
}

fn num(t: &str) -> Json {
    Json::Number(s(t))
}

fn obj(members: Vec<(&str, Json)>) -> Json {
    Json::Object(members.into_iter().map(|(k, v)| (s(k), v)).collect())
}

#[test]
fn volatile_parts_are_masked() {
    assert_eq!(mask_volatile("at 2024-05-06T07:08:09.1Z done"), "at <ts> done");
    assert_eq!(mask_volatile("on 2024-05-06"), "on <date>");
    assert_eq!(mask_volatile("id 123e4567-e89b-12d3-a456-426614174000"), "id <uuid>");
    assert_eq!(mask_volatile("from 10.0.0.1:8080 now"), "from <ip> now");
    assert_eq!(mask_volatile("in /home/ana/x.txt, 42 items"), "in <path> 42 items");
    assert_eq!(mask_volatile("42 items"), "42 items");
}

#[test]
fn member_order_does_not_matter() {
    let a = obj(vec![("b", num("1")), ("a", Json::Array(vec![text("x"), Json::Null, Json::Bool(true)]))]);
    let b = obj(vec![("a", Json::Array(vec![text("x"), Json::Null, Json::Bool(true)])), ("b", num("1"))]);
    assert_eq!(canonical_json(&a), "{\"a\":[\"x\",null,true],\"b\":1}");
    assert_eq!(canonical_json(&a), canonical_json(&b));
    let swapped = Json::Array(vec![num("1"), num("2")]);
    assert_eq!(canonical_json(&swapped), "[1,2]");
    assert_eq!(canonical_json(&text("seen 2024-01-01")), "\"seen <date>\"");
}

#[test]
fn parts_cannot_forge_a_key() {
    assert_eq!(
        decision_key("ab", "c", "v1", "x"),
        "9fde981c33a8a567d51643552d9d526066b625459c6eb0f35dc05f0a29c73a34"
    );
    assert_eq!(
        decision_key("a", "bc", "v1", "x"),
        "b1fcbd2f4359e527b54bcd02ae67adbe94d840391ac4090fc524817610c580f9"
    );
    assert_eq!(key_bytes("a", "b", "c", "d"), b"oc-decision-cache-v1\x1fa\x1fb\x1fc\x1fd".to_vec());
}

fn tiers() -> Vec<(String, DecisionTierConfig)> {
    let tier = |mode, ttl_hours| DecisionTierConfig { mode, policy_version: s("3"), ttl_hours };
    vec![
        (s("triage"), tier(DecisionMode::Live, Some(1))),
        (s("silent"), tier(DecisionMode::Off, None)),
        (s("trial"), tier(DecisionMode::Shadow, None)),
    ]
}

fn ask(tier: &str) -> DecideInput {
    DecideInput {
        tier: s(tier),
        input: obj(vec![("from", text("10.0.0.1")), ("at", text("2024-01-01"))]),
        ask: s("which?"),
    }
}

#[test]
fn questions_open_by_mode() {
    match execute(&ask("triage"), &tiers()) {
        Opening::Lookup { key } => {
            assert_eq!(key, "056b1e42235696b420b8962fd5a6e99304e514c18077358ef9cb6884935ed3d0")
        }
        _ => panic!("expected a lookup"),
    }
    assert!(matches!(execute(&ask("silent"), &tiers()), Opening::Plain));
    assert!(matches!(execute(&ask("nope"), &tiers()), Opening::Unknown(r) if !r.success
        && r.text == "unknown decision tier 'nope': add [decisions.tiers.nope] with policy_version to enable it (#1648)"));
    assert_eq!(prompt("which?"), format!("which?\n\n{ANSWER_CONTRACT}"));
    assert_eq!(tier_name(DecisionMode::Shadow), "shadow");
}

#[test]
fn rows_expire() {
    assert!(fresh_enough(0, None, i64::MAX));
    assert!(fresh_enough(0, Some(1), 3600));
    assert!(!fresh_enough(0, Some(1), 3601));
    assert!(fresh_enough(i64::MIN, Some(i64::MAX), i64::MAX));
    assert!(!fresh_enough(0, Some(-1), 0));
}

#[test]
fn shadow_always_asks() {
    let row = || Some(CachedRow { result_json: s("{\"decision\": \"a\"}"), created_at: 0 });
    assert!(matches!(after_lookup(DecisionMode::Shadow, &row(), None, 9, "t", "k"),
        AfterLookup::Ask { would_hit: true, count_would_hit: true }));
    assert!(matches!(after_lookup(DecisionMode::Live, &row(), Some(1), 4000, "t", "k"),
        AfterLookup::Ask { would_hit: false, count_would_hit: false }));
    assert!(matches!(after_lookup(DecisionMode::Live, &None, None, 0, "t", "k"),
        AfterLookup::Ask { would_hit: false, count_would_hit: false }));
    match after_lookup(DecisionMode::Live, &row(), Some(1), 60, "t", "0123456789abcdef") {
        AfterLookup::Hit(r) => assert_eq!(
            r.text,
            "{\"cached\":true,\"decision\":{\"decision\":\"a\"},\"key8\":\"01234567\",\"mode\":\"live\",\"tier\":\"t\"}"
        ),
        _ => panic!("expected a hit"),
    }
    let bad = Some(CachedRow { result_json: s("not json"), created_at: 0 });
    assert!(matches!(after_lookup(DecisionMode::Live, &bad, None, 0, "t", "k"),
        AfterLookup::Hit(r) if r.text.contains("\"decision\":\"not json\"")));
}

#[test]
fn replies_are_parsed() {
    assert_eq!(braced_part("sure: {\"a\":{}} ok"), Some(s("{\"a\":{}}")));
    assert_eq!(braced_part("} {"), None);
    assert_eq!(braced_part("none"), None);
    assert_eq!(
        parse_decision("```json\n{ \"p\": 1, \"decision\": \"x\" }\n```"),
        Some(s("{\"decision\":\"x\",\"p\":1}"))
    );
    assert_eq!(parse_decision("{oops}"), None);
    let c = |t: &str| ContentBlock::Text(Counted { text: s(t), tokens: 1 });
    assert_eq!(text_of(&vec![c("a"), ContentBlock::Image { source: s("{}") }, c("b")]), "ab");
}

#[test]
fn decision_answers() {
    assert_eq!(plain_answer("t", "hi").text, "{\"cached\":false,\"mode\":\"off\",\"text\":\"hi\",\"tier\":\"t\"}");
    assert_eq!(
        unparsed_answer(DecisionMode::Live, "t", "hi").text,
        "{\"cached\":false,\"mode\":\"live\",\"not_cached_reason\":\"model reply did not honor the decision JSON contract\",\"text\":\"hi\",\"tier\":\"t\"}"
    );
    assert_eq!(
        decided_answer(DecisionMode::Shadow, "t", "abcdefgh99", s("{}"), true, false).text,
        "{\"cached\":false,\"decision\":{},\"key8\":\"abcdefgh\",\"mode\":\"shadow\",\"stored\":false,\"tier\":\"t\",\"would_hit\":true}"
    );
    assert!(hit_answer("t", "short", s("1")).text.contains("\"key8\":\"short\""));
}

#[test]
fn usage_report() {
    let stats = |tier: &str, calls, would_hit, live_hit| DecisionStats {
        tier_id: s(tier), calls, would_hit, live_hit, last_seen_at: 0,
    };
    let all = vec![stats("gone", 2, 1, 0), stats("triage", 10, 0, 4)];
    let shares = vec![(s("50"), s("0")), (s("0"), s("40"))];
    let lines = render_usage_lines(&all, &shares, &vec![(s("triage"), 7)], &tiers()).unwrap();
    assert_eq!(
        lines,
        vec![
            "Decision cache (#1648), per tier:",
            "- `gone` [(unconfigured) v?]: 2 calls, would-hit 1 (50%), live-hit 0 (0%), 0 rows cached",
            "- `triage` [live v3]: 10 calls, would-hit 0 (0%), live-hit 4 (40%), 7 rows cached",
            "- est. model calls avoided (live hits): 4",
        ]
    );
    assert_eq!(render_usage_block(&all, &shares, &vec![(s("triage"), 7)], &tiers()).unwrap(), lines.join("\n"));
    assert!(render_usage_lines(&vec![], &vec![], &vec![], &tiers()).is_none());
    assert_eq!(pct(0, "50"), "0%");
    assert_eq!(mode_label(DecisionMode::Off), "off");
    assert!(find_tier(&tiers(), "trial").is_some());
    assert!(find_tier(&tiers(), "x").is_none());
}
