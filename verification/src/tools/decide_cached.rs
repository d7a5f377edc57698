//! Exact decision reuse: a decision is keyed by its structured input, and,
//! depending on its tier's mode, a cached answer is reused (live) or only
//! counted (shadow). Every failure is a miss: the model is asked.
use vstd::prelude::*;
use vstd::utf8::encode_utf8;

use super::result::{Reply, ToolResult};
use crate::context::{bviews, BlockV, ContentBlock};
use crate::decisions::normalize::{
    canonical, canonical_json, decision_key, key_of, law_parts_cannot_forge, preimage, sha256_hex,
    FIELD_SEP, NORMALIZER_VERSION,
};
use crate::decisions::report::{
    find_tier, mode_label, mode_text, tier_config, DecisionMode, DecisionTierConfig,
};
use crate::json::{
    law_object_shows_each_member, literal, member_views, normal, render_object, rendered_object,
    to_literal, to_normal, Json,
};
use crate::search::{
    find_char, index_of, last_index_of, lemma_index_of, lemma_last_index_of, lemma_tells,
    rfind_char, tells,
};
use crate::text::{cat3, cat5, chars_of, oview, string_of};

verus! {

/// A decision-shaped question.
pub struct DecideInput {
    /// Name of the configured tier.
    pub tier: String,
    /// What the decision depends on; this is what is keyed.
    pub input: Json,
    /// The question put to the model on a miss.
    pub ask: String,
}

/// The contract a decision is answered under.
pub const ANSWER_CONTRACT: &'static str = "Answer with JSON only, no prose, matching: {\"decision\": <concise answer>, \"p\": <confidence 0..1 or null>, \"margin\": <distance to runner-up 0..1 or null>}.";

/// The question as it is put to the model.
pub open spec fn prompt_text(ask: Seq<char>) -> Seq<char> {
    ask + "\n\n"@ + ANSWER_CONTRACT@
}

/// The question as it is put to the model.
pub fn prompt(ask: &str) -> (r: String)
    ensures
        r@ == prompt_text(ask@),
{
    cat3(ask, "\n\n", ANSWER_CONTRACT)
}

/// The texts of a reply, one after the other.
pub open spec fn texts(blocks: Seq<BlockV>) -> Seq<char>
    decreases blocks.len(),
{
    if blocks.len() == 0 {
        Seq::empty()
    } else {
        match blocks.last() {
            BlockV::Text(t) => texts(blocks.drop_last()) + t.text,
            _ => texts(blocks.drop_last()),
        }
    }
}

/// The text of a reply.
pub fn text_of(blocks: &Vec<ContentBlock>) -> (r: String)
    ensures
        r@ == texts(bviews(blocks@)),
{
    let mut out = String::new();
    let mut i: usize = 0;
    assert(bviews(blocks@).take(0) =~= Seq::empty());
    while i < blocks.len()
        invariant
            i <= blocks.len(),
            out@ == texts(bviews(blocks@).take(i as int)),
        decreases blocks.len() - i,
    {
        assert(bviews(blocks@).take(i + 1).drop_last() =~= bviews(blocks@).take(i as int));
        assert(bviews(blocks@)[i as int] == blocks@[i as int]@);
        if let ContentBlock::Text(t) = &blocks[i] {
            out.append(t.text.as_str());
        }
        i = i + 1;
    }
    assert(bviews(blocks@).take(i as int) =~= bviews(blocks@));
    out
}

/// The part of a reply from its first `{` to its last `}`.
pub open spec fn braced(text: Seq<char>) -> Option<Seq<char>> {
    match (index_of(text, '{'), last_index_of(text, '}')) {
        (Some(start), Some(end)) => if end <= start {
            None
        } else {
            Some(text.subrange(start, end + 1))
        },
        _ => None,
    }
}

/// The part of a reply from its first `{` to its last `}`.
pub fn braced_part(text: &str) -> (r: Option<String>)
    ensures
        oview(r) == braced(text@),
{
    let v = chars_of(text);
    match (find_char(&v, '{'), rfind_char(&v, '}')) {
        (Some(start), Some(end)) => if end <= start {
            None
        } else {
            Some(string_of(&v, start, end + 1))
        },
        _ => None,
    }
}

/// The decision object of a reply, rendered again; `None` where the reply
/// does not honour the contract.
pub fn parse_decision(text: &str) -> (r: Option<String>)
    ensures
        oview(r) == match braced(text@) {
            Some(s) => normal(s),
            None => None,
        },
{
    match braced_part(text) {
        Some(s) => to_normal(s.as_str()),
        None => None,
    }
}

/// The name of a mode.
pub fn tier_name(mode: DecisionMode) -> (r: &'static str)
    ensures
        r@ == mode_text(mode),
{
    mode_label(mode)
}

/// `n` within the range of 64-bit integers.
pub open spec fn clamped(n: int) -> int {
    if n > i64::MAX {
        i64::MAX as int
    } else if n < i64::MIN {
        i64::MIN as int
    } else {
        n
    }
}

/// Whether a row is young enough to be reused: without a lifetime it always
/// is.
pub open spec fn young(created_at: i64, ttl_hours: Option<i64>, now: i64) -> bool {
    match ttl_hours {
        Some(h) => clamped(now - created_at) <= clamped(h * 3600),
        None => true,
    }
}

fn clamp(n: i128) -> (r: i64)
    ensures
        r == clamped(n as int),
{
    if n > i64::MAX as i128 {
        i64::MAX
    } else if n < i64::MIN as i128 {
        i64::MIN
    } else {
        n as i64
    }
}

/// Whether a row is young enough to be reused. Times are Unix seconds.
pub fn fresh_enough(created_at: i64, ttl_hours: Option<i64>, now: i64) -> (r: bool)
    ensures
        r == young(created_at, ttl_hours, now),
{
    match ttl_hours {
        Some(h) => clamp(now as i128 - created_at as i128) <= clamp(h as i128 * 3600),
        None => true,
    }
}

/// How a question begins.
pub enum Opening {
    /// The tier is not configured.
    Unknown(ToolResult),
    /// The tier is off: ask the model, touch no cache and no counter.
    Plain,
    /// Look up this key.
    Lookup { key: String },
}

pub open spec fn unknown_tier(tier: Seq<char>) -> Seq<char> {
    "unknown decision tier '"@ + tier + "': add [decisions.tiers."@ + tier
        + "] with policy_version to enable it (#1648)"@
}

/// The key of a question under a tier.
pub open spec fn question_key(q: DecideInput, c: DecisionTierConfig) -> Seq<char> {
    key_of(q.tier@, c.policy_version@, NORMALIZER_VERSION@, canonical(q.input))
}

/// Begins a question.
pub fn execute(q: &DecideInput, tiers: &Vec<(String, DecisionTierConfig)>) -> (r: Opening)
    ensures
        match tier_config(tiers@, q.tier@) {
            None => r is Unknown && r->Unknown_0@ == Reply::Error(unknown_tier(q.tier@)),
            Some(c) => if c.mode == DecisionMode::Off {
                r is Plain
            } else {
                r is Lookup && r->key@ == question_key(*q, c) && r->key@.len() == 64
            },
        },
{
    match find_tier(tiers, q.tier.as_str()) {
        None => Opening::Unknown(
            ToolResult::error(
                cat5(
                    "unknown decision tier '",
                    q.tier.as_str(),
                    "': add [decisions.tiers.",
                    q.tier.as_str(),
                    "] with policy_version to enable it (#1648)",
                ),
            ),
        ),
        Some(c) => if c.mode == DecisionMode::Off {
            Opening::Plain
        } else {
            Opening::Lookup {
                key: decision_key(
                    q.tier.as_str(),
                    c.policy_version.as_str(),
                    NORMALIZER_VERSION,
                    canonical_json(&q.input).as_str(),
                ),
            }
        },
    }
}

/// A cached decision.
pub struct CachedRow {
    pub result_json: String,
    pub created_at: i64,
}

/// Whether a cached decision is there and young enough.
pub open spec fn available(row: Option<CachedRow>, ttl_hours: Option<i64>, now: i64) -> bool {
    row is Some && young(row->0.created_at, ttl_hours, now)
}

/// Whether a cached decision is reused.
pub open spec fn reuses(
    mode: DecisionMode,
    row: Option<CachedRow>,
    ttl_hours: Option<i64>,
    now: i64,
) -> bool {
    mode == DecisionMode::Live && available(row, ttl_hours, now)
}

/// What follows a lookup.
pub enum AfterLookup {
    /// Answer from the cache; count a hit of the row and a live hit of the
    /// tier.
    Hit(ToolResult),
    /// Ask the model, counting a call of the tier, with a would-hit where the
    /// tier is in shadow mode and a row was there.
    Ask { would_hit: bool, count_would_hit: bool },
}

/// A key's first eight characters.
pub open spec fn short_key(key: Seq<char>) -> Seq<char> {
    if key.len() > 8 {
        key.take(8)
    } else {
        key
    }
}

fn short(key: &str) -> (r: String)
    ensures
        r@ == short_key(key@),
{
    let v = chars_of(key);
    if v.len() > 8 {
        let s = string_of(&v, 0, 8);
        assert(s@ =~= key@.take(8));
        s
    } else {
        key.to_owned()
    }
}

/// A stored decision as JSON; one that is not JSON as a JSON string.
pub open spec fn stored_value(json: Seq<char>) -> Seq<char> {
    match normal(json) {
        Some(t) => t,
        None => literal(json),
    }
}

pub open spec fn flag(b: bool) -> Seq<char> {
    if b {
        "true"@
    } else {
        "false"@
    }
}

fn flag_text(b: bool) -> (r: String)
    ensures
        r@ == flag(b),
{
    if b {
        "true".to_owned()
    } else {
        "false".to_owned()
    }
}

/// The answer from the cache.
pub open spec fn hit_text(tier: Seq<char>, key: Seq<char>, decision: Seq<char>) -> Seq<char> {
    rendered_object(
        seq![
            ("cached"@, "true"@),
            ("decision"@, decision),
            ("key8"@, literal(short_key(key))),
            ("mode"@, literal("live"@)),
            ("tier"@, literal(tier)),
        ],
    )
}

/// The answer from the cache, the stored decision already rendered.
pub fn hit_answer(tier: &str, key: &str, decision: String) -> (r: ToolResult)
    ensures
        r@ == Reply::Success(hit_text(tier@, key@, decision@)),
{
    let ghost d = decision@;
    let mut v: Vec<(String, String)> = Vec::new();
    v.push(("cached".to_owned(), "true".to_owned()));
    v.push(("decision".to_owned(), decision));
    v.push(("key8".to_owned(), to_literal(short(key).as_str())));
    v.push(("mode".to_owned(), to_literal("live")));
    v.push(("tier".to_owned(), to_literal(tier)));
    assert(member_views(v@) =~= seq![
        ("cached"@, "true"@),
        ("decision"@, d),
        ("key8"@, literal(short_key(key@))),
        ("mode"@, literal("live"@)),
        ("tier"@, literal(tier@)),
    ]);
    ToolResult::success(render_object(&v))
}

/// Goes on after the lookup; a failed lookup is a missing row.
pub fn after_lookup(
    mode: DecisionMode,
    row: &Option<CachedRow>,
    ttl_hours: Option<i64>,
    now: i64,
    tier: &str,
    key: &str,
) -> (r: AfterLookup)
    ensures
        match r {
            AfterLookup::Hit(t) => reuses(mode, *row, ttl_hours, now) && t@ == Reply::Success(
                hit_text(tier@, key@, stored_value(row->0.result_json@)),
            ),
            AfterLookup::Ask { would_hit, count_would_hit } => {
                &&& !reuses(mode, *row, ttl_hours, now)
                &&& would_hit == available(*row, ttl_hours, now)
                &&& count_would_hit == (mode == DecisionMode::Shadow && would_hit)
            },
        },
{
    let there = match row {
        Some(r) => fresh_enough(r.created_at, ttl_hours, now),
        None => false,
    };
    if mode == DecisionMode::Live && there {
        if let Some(r) = row {
            let decision = match to_normal(r.result_json.as_str()) {
                Some(t) => t,
                None => to_literal(r.result_json.as_str()),
            };
            return AfterLookup::Hit(hit_answer(tier, key, decision));
        }
    }
    AfterLookup::Ask { would_hit: there, count_would_hit: mode == DecisionMode::Shadow && there }
}

pub open spec fn plain_text(tier: Seq<char>, answer: Seq<char>) -> Seq<char> {
    rendered_object(
        seq![
            ("cached"@, "false"@),
            ("mode"@, literal("off"@)),
            ("text"@, literal(answer)),
            ("tier"@, literal(tier)),
        ],
    )
}

/// The answer of a tier that is off.
pub fn plain_answer(tier: &str, answer: &str) -> (r: ToolResult)
    ensures
        r@ == Reply::Success(plain_text(tier@, answer@)),
{
    let mut v: Vec<(String, String)> = Vec::new();
    v.push(("cached".to_owned(), "false".to_owned()));
    v.push(("mode".to_owned(), to_literal("off")));
    v.push(("text".to_owned(), to_literal(answer)));
    v.push(("tier".to_owned(), to_literal(tier)));
    assert(member_views(v@) =~= seq![
        ("cached"@, "false"@),
        ("mode"@, literal("off"@)),
        ("text"@, literal(answer@)),
        ("tier"@, literal(tier@)),
    ]);
    ToolResult::success(render_object(&v))
}

pub open spec fn unparsed_text(mode: DecisionMode, tier: Seq<char>, answer: Seq<char>) -> Seq<char> {
    rendered_object(
        seq![
            ("cached"@, "false"@),
            ("mode"@, literal(mode_text(mode))),
            (
                "not_cached_reason"@,
                literal("model reply did not honor the decision JSON contract"@),
            ),
            ("text"@, literal(answer)),
            ("tier"@, literal(tier)),
        ],
    )
}

/// The answer where the model's reply does not honour the contract: its raw
/// text, and nothing is stored.
pub fn unparsed_answer(mode: DecisionMode, tier: &str, answer: &str) -> (r: ToolResult)
    ensures
        r@ == Reply::Success(unparsed_text(mode, tier@, answer@)),
{
    let mut v: Vec<(String, String)> = Vec::new();
    v.push(("cached".to_owned(), "false".to_owned()));
    v.push(("mode".to_owned(), to_literal(tier_name(mode))));
    v.push(
        (
            "not_cached_reason".to_owned(),
            to_literal("model reply did not honor the decision JSON contract"),
        ),
    );
    v.push(("text".to_owned(), to_literal(answer)));
    v.push(("tier".to_owned(), to_literal(tier)));
    assert(member_views(v@) =~= seq![
        ("cached"@, "false"@),
        ("mode"@, literal(mode_text(mode))),
        (
            "not_cached_reason"@,
            literal("model reply did not honor the decision JSON contract"@),
        ),
        ("text"@, literal(answer@)),
        ("tier"@, literal(tier@)),
    ]);
    ToolResult::success(render_object(&v))
}

pub open spec fn decided_text(
    mode: DecisionMode,
    tier: Seq<char>,
    key: Seq<char>,
    decision: Seq<char>,
    would_hit: bool,
    stored: bool,
) -> Seq<char> {
    rendered_object(
        seq![
            ("cached"@, "false"@),
            ("decision"@, decision),
            ("key8"@, literal(short_key(key))),
            ("mode"@, literal(mode_text(mode))),
            ("stored"@, flag(stored)),
            ("tier"@, literal(tier)),
            ("would_hit"@, flag(would_hit)),
        ],
    )
}

/// The answer of a decision the model just made; `stored` tells whether the
/// cache took it.
pub fn decided_answer(
    mode: DecisionMode,
    tier: &str,
    key: &str,
    decision: String,
    would_hit: bool,
    stored: bool,
) -> (r: ToolResult)
    ensures
        r@ == Reply::Success(decided_text(mode, tier@, key@, decision@, would_hit, stored)),
{
    let ghost d = decision@;
    let mut v: Vec<(String, String)> = Vec::new();
    v.push(("cached".to_owned(), "false".to_owned()));
    v.push(("decision".to_owned(), decision));
    v.push(("key8".to_owned(), to_literal(short(key).as_str())));
    v.push(("mode".to_owned(), to_literal(tier_name(mode))));
    v.push(("stored".to_owned(), flag_text(stored)));
    v.push(("tier".to_owned(), to_literal(tier)));
    v.push(("would_hit".to_owned(), flag_text(would_hit)));
    assert(member_views(v@) =~= seq![
        ("cached"@, "false"@),
        ("decision"@, d),
        ("key8"@, literal(short_key(key@))),
        ("mode"@, literal(mode_text(mode))),
        ("stored"@, flag(stored)),
        ("tier"@, literal(tier@)),
        ("would_hit"@, flag(would_hit)),
    ]);
    ToolResult::success(render_object(&v))
}

// -------------------------------------------------------------------- laws
/// Shadow mode changes nothing the agent experiences: the model is always
/// asked, whatever the cache holds.
pub proof fn law_shadow_always_asks(row: Option<CachedRow>, ttl_hours: Option<i64>, now: i64)
    ensures
        !reuses(DecisionMode::Shadow, row, ttl_hours, now),
{
}

/// A row past its lifetime is a miss, for every lifetime whose seconds fit in
/// an `i64`.
pub proof fn law_expired_is_a_miss(
    mode: DecisionMode,
    row: CachedRow,
    hours: i64,
    now: i64,
)
    requires
        i64::MIN <= hours * 3600 <= i64::MAX,
        now - row.created_at > hours * 3600,
    ensures
        !available(Some(row), Some(hours), now),
        !reuses(mode, Some(row), Some(hours), now),
{
    assert((hours * 3600) % 2 == 0);
}

/// Whether an object's text shows a member.
pub open spec fn shows(t: Seq<char>, key: Seq<char>, value: Seq<char>) -> bool {
    tells(t, literal(key) + ":"@ + value)
}

/// A young row of a live tier answers, and the answer shows the stored
/// decision; no other mode reuses one, and a row that is not there is never
/// reused.
pub proof fn law_live_row_answers(
    mode: DecisionMode,
    row: CachedRow,
    hours: i64,
    now: i64,
    tier: Seq<char>,
    key: Seq<char>,
    decision: Seq<char>,
)
    ensures
        i64::MIN <= hours * 3600 <= i64::MAX && i64::MIN <= now - row.created_at <= i64::MAX ==> (
        available(Some(row), Some(hours), now) <==> now - row.created_at <= hours * 3600),
        available(Some(row), None, now),
        !available(None, Some(hours), now) && !available(None, None, now),
        reuses(DecisionMode::Live, Some(row), None, now),
        reuses(mode, Some(row), Some(hours), now) <==> mode == DecisionMode::Live && available(
            Some(row),
            Some(hours),
            now,
        ),
        !reuses(DecisionMode::Off, Some(row), None, now),
        shows(hit_text(tier, key, decision), "decision"@, decision),
        shows(hit_text(tier, key, decision), "cached"@, "true"@),
        shows(hit_text(tier, key, decision), "tier"@, literal(tier)),
        shows(hit_text(tier, key, decision), "mode"@, literal("live"@)),
        shows(hit_text(tier, key, decision), "key8"@, literal(short_key(key))),
{
    let ms = seq![
        ("cached"@, "true"@),
        ("decision"@, decision),
        ("key8"@, literal(short_key(key))),
        ("mode"@, literal("live"@)),
        ("tier"@, literal(tier)),
    ];
    law_object_shows_each_member(ms, 0);
    law_object_shows_each_member(ms, 1);
    law_object_shows_each_member(ms, 2);
    law_object_shows_each_member(ms, 3);
    law_object_shows_each_member(ms, 4);
}

/// What the model decided is answered: the decision, or the raw reply where it
/// is none or the tier is off; and whether it was kept and would have been
/// reused.
pub proof fn law_model_answers_are_shown(
    mode: DecisionMode,
    tier: Seq<char>,
    key: Seq<char>,
    answer: Seq<char>,
    would_hit: bool,
    stored: bool,
)
    ensures
        ({
            let t = decided_text(mode, tier, key, answer, would_hit, stored);
            &&& shows(t, "decision"@, answer)
            &&& shows(t, "cached"@, "false"@)
            &&& shows(
                t,
                "stored"@,
                if stored {
                    "true"@
                } else {
                    "false"@
                },
            )
            &&& shows(
                t,
                "would_hit"@,
                if would_hit {
                    "true"@
                } else {
                    "false"@
                },
            )
            &&& shows(t, "tier"@, literal(tier))
            &&& shows(t, "mode"@, literal(mode_text(mode)))
            &&& shows(t, "key8"@, literal(short_key(key)))
        }),
        shows(unparsed_text(mode, tier, answer), "text"@, literal(answer)),
        shows(unparsed_text(mode, tier, answer), "cached"@, "false"@),
        shows(unparsed_text(mode, tier, answer), "tier"@, literal(tier)),
        shows(unparsed_text(mode, tier, answer), "mode"@, literal(mode_text(mode))),
        shows(plain_text(tier, answer), "text"@, literal(answer)),
        shows(plain_text(tier, answer), "cached"@, "false"@),
        shows(plain_text(tier, answer), "mode"@, literal("off"@)),
        shows(plain_text(tier, answer), "tier"@, literal(tier)),
{
    let ms = seq![
        ("cached"@, "false"@),
        ("decision"@, answer),
        ("key8"@, literal(short_key(key))),
        ("mode"@, literal(mode_text(mode))),
        ("stored"@, flag(stored)),
        ("tier"@, literal(tier)),
        ("would_hit"@, flag(would_hit)),
    ];
    law_object_shows_each_member(ms, 0);
    law_object_shows_each_member(ms, 1);
    law_object_shows_each_member(ms, 2);
    law_object_shows_each_member(ms, 3);
    law_object_shows_each_member(ms, 4);
    law_object_shows_each_member(ms, 5);
    law_object_shows_each_member(ms, 6);
    let us = seq![
        ("cached"@, "false"@),
        ("mode"@, literal(mode_text(mode))),
        ("not_cached_reason"@, literal("model reply did not honor the decision JSON contract"@)),
        ("text"@, literal(answer)),
        ("tier"@, literal(tier)),
    ];
    law_object_shows_each_member(us, 0);
    law_object_shows_each_member(us, 1);
    law_object_shows_each_member(us, 3);
    law_object_shows_each_member(us, 4);
    let ps = seq![
        ("cached"@, "false"@),
        ("mode"@, literal("off"@)),
        ("text"@, literal(answer)),
        ("tier"@, literal(tier)),
    ];
    law_object_shows_each_member(ps, 0);
    law_object_shows_each_member(ps, 1);
    law_object_shows_each_member(ps, 2);
    law_object_shows_each_member(ps, 3);
}

/// The model is asked the question itself, with the contract of the answer
/// behind it.
pub proof fn law_question_is_put(ask: Seq<char>)
    ensures
        prompt_text(ask).take(ask.len() as int) == ask,
        tells(prompt_text(ask), ANSWER_CONTRACT@),
        ANSWER_CONTRACT@
            == "Answer with JSON only, no prose, matching: {\"decision\": <concise answer>, \"p\": <confidence 0..1 or null>, \"margin\": <distance to runner-up 0..1 or null>}."@,
{
    assert(prompt_text(ask).take(ask.len() as int) =~= ask);
    let e = Seq::<char>::empty();
    assert(prompt_text(ask) =~= (ask + "\n\n"@) + ANSWER_CONTRACT@ + e);
    lemma_tells(prompt_text(ask), ask + "\n\n"@, ANSWER_CONTRACT@, e);
}

proof fn lemma_texts_add(a: Seq<BlockV>, b: Seq<BlockV>)
    ensures
        texts(a + b) == texts(a) + texts(b),
    decreases b.len(),
{
    if b.len() == 0 {
        assert(a + b =~= a);
        assert(texts(a) + texts(b) =~= texts(a));
    } else {
        assert((a + b).drop_last() =~= a + b.drop_last());
        lemma_texts_add(a, b.drop_last());
        assert(texts(a + b) =~= texts(a) + texts(b));
    }
}

/// A reply's text is that of all its text blocks, in order, and of no other
/// block.
pub proof fn law_reply_text_is_whole(a: Seq<BlockV>, m: BlockV, b: Seq<BlockV>)
    ensures
        texts(Seq::empty()).len() == 0,
        texts(a.push(m) + b) == match m {
            BlockV::Text(t) => texts(a) + t.text + texts(b),
            _ => texts(a) + texts(b),
        },
{
    lemma_texts_add(a.push(m), b);
    assert(a.push(m).drop_last() =~= a);
}

/// A decision is read out of the words around it: from the first opening brace
/// to the last closing one.
pub proof fn law_decision_is_found_in_prose(p: Seq<char>, mid: Seq<char>, q: Seq<char>)
    requires
        !p.contains('{'),
        !q.contains('}'),
    ensures
        braced(p + seq!['{'] + mid + seq!['}'] + q) == Some(seq!['{'] + mid + seq!['}']),
        braced(p) is None,
        braced(q) is None,
{
    let t = p + seq!['{'] + mid + seq!['}'] + q;
    lemma_index_of(t, '{');
    lemma_last_index_of(t, '}');
    lemma_index_of(p, '{');
    lemma_last_index_of(q, '}');
    let end = p.len() + 1 + mid.len();
    assert(t[p.len() as int] == '{');
    assert(t[end as int] == '}');
    let s = index_of(t, '{')->0;
    let l = last_index_of(t, '}')->0;
    if s < p.len() {
        assert(p[s] == t[s]);
    }
    if l > end {
        assert(q[l - end - 1] == t[l]);
    }
    assert(t.subrange(s, l + 1) =~= seq!['{'] + mid + seq!['}']);
}

/// A question's key stands for its tier, the tier's policy and its input: with
/// the same bytes under the digest, the canonical texts are the same.
pub proof fn law_same_key_bytes_mean_the_same_question(
    p: DecideInput,
    c: DecisionTierConfig,
    q: DecideInput,
    d: DecisionTierConfig,
)
    requires
        !encode_utf8(p.tier@).contains(FIELD_SEP),
        !encode_utf8(c.policy_version@).contains(FIELD_SEP),
        !encode_utf8(q.tier@).contains(FIELD_SEP),
        !encode_utf8(d.policy_version@).contains(FIELD_SEP),
        !encode_utf8(NORMALIZER_VERSION@).contains(FIELD_SEP),
    ensures
        exists|a: Seq<u8>, b: Seq<u8>|
            question_key(p, c) == #[trigger] sha256_hex(a) && question_key(q, d)
                == #[trigger] sha256_hex(b) && (a == b ==> p.tier@ == q.tier@ && c.policy_version@
                == d.policy_version@ && canonical(p.input) == canonical(q.input)),
{
    let n = NORMALIZER_VERSION@;
    let (x, y) = (
        (p.tier@, c.policy_version@, n, canonical(p.input)),
        (q.tier@, d.policy_version@, n, canonical(q.input)),
    );
    let a = preimage(encode_utf8(x.0), encode_utf8(x.1), encode_utf8(x.2), encode_utf8(x.3));
    let b = preimage(encode_utf8(y.0), encode_utf8(y.1), encode_utf8(y.2), encode_utf8(y.3));
    if a == b {
        law_parts_cannot_forge(x, y);
    }
    assert(question_key(p, c) == sha256_hex(a) && question_key(q, d) == sha256_hex(b));
}

/// The short form of a key is its first eight characters.
pub proof fn law_short_key_is_a_prefix(key: Seq<char>)
    ensures
        key.len() >= 8 ==> short_key(key) == key.take(8),
        key.len() < 8 ==> short_key(key) == key,
        tells(unknown_tier(key), "'"@ + key + "'"@),
{
    if key.len() == 8 {
        assert(key.take(8) =~= key);
    }
    reveal_strlit("unknown decision tier '");
    reveal_strlit("': add [decisions.tiers.");
    reveal_strlit("'");
    let a = "unknown decision tier '"@;
    let b = "': add [decisions.tiers."@;
    let t = unknown_tier(key);
    let rest = b.skip(1) + key + "] with policy_version to enable it (#1648)"@;
    assert(t =~= a.take(22) + ("'"@ + key + "'"@) + rest);
    lemma_tells(t, a.take(22), "'"@ + key + "'"@, rest);
}

} // verus!
