//! Decision accounting: counters in, markdown lines out.
use vstd::prelude::*;

use crate::search::{dec_i64, decimal_int, join, join_strs, lemma_tells, tells};
use crate::text::{cat2, cat5, oview, str_eq, views};

verus! {

/// One tier's counters.
pub struct DecisionStats {
    pub tier_id: String,
    pub calls: i64,
    pub would_hit: i64,
    pub live_hit: i64,
    pub last_seen_at: i64,
}

/// How a tier uses its cache.
#[derive(Clone, Copy, PartialEq, Eq, Structural, Debug)]
pub enum DecisionMode {
    /// Always asks the model, and records what would have been reused.
    Shadow,
    /// Reuses.
    Live,
    Off,
}

/// The configuration of a tier.
pub struct DecisionTierConfig {
    pub mode: DecisionMode,
    pub policy_version: String,
    pub ttl_hours: Option<i64>,
}

pub open spec fn mode_text(mode: DecisionMode) -> Seq<char> {
    match mode {
        DecisionMode::Shadow => "shadow"@,
        DecisionMode::Live => "live"@,
        DecisionMode::Off => "off"@,
    }
}

/// The name of a mode.
pub fn mode_label(mode: DecisionMode) -> (r: &'static str)
    ensures
        r@ == mode_text(mode),
{
    match mode {
        DecisionMode::Shadow => "shadow",
        DecisionMode::Live => "live",
        DecisionMode::Off => "off",
    }
}

/// A share as a percentage; nothing of nothing is `0%`. `rounded` is the share
/// in whole percent, rendered.
pub open spec fn share(whole: int, rounded: Seq<char>) -> Seq<char> {
    if whole > 0 {
        rounded + "%"@
    } else {
        "0%"@
    }
}

/// A share as a percentage.
pub fn pct(whole: i64, rounded: &str) -> (r: String)
    ensures
        r@ == share(whole as int, rounded@),
{
    if whole > 0 {
        cat2(rounded, "%")
    } else {
        "0%".to_owned()
    }
}

/// The configuration of a tier in a list of tiers.
pub open spec fn tier_config(tiers: Seq<(String, DecisionTierConfig)>, id: Seq<char>) -> Option<
    DecisionTierConfig,
>
    decreases tiers.len(),
{
    if tiers.len() == 0 {
        None
    } else if tiers[0].0@ == id {
        Some(tiers[0].1)
    } else {
        tier_config(tiers.drop_first(), id)
    }
}

/// The configuration of a tier in a list of tiers.
pub fn find_tier<'a>(tiers: &'a Vec<(String, DecisionTierConfig)>, id: &str) -> (r: Option<
    &'a DecisionTierConfig,
>)
    ensures
        match r {
            Some(c) => tier_config(tiers@, id@) == Some(*c),
            None => tier_config(tiers@, id@) is None,
        },
{
    let mut i: usize = 0;
    assert(tiers@.skip(0) =~= tiers@);
    while i < tiers.len()
        invariant
            i <= tiers.len(),
            tier_config(tiers@, id@) == tier_config(tiers@.skip(i as int), id@),
        decreases tiers.len() - i,
    {
        assert(tiers@.skip(i as int)[0] == tiers@[i as int]);
        if str_eq(tiers[i].0.as_str(), id) {
            return Some(&tiers[i].1);
        }
        assert(tiers@.skip(i as int).drop_first() =~= tiers@.skip(i + 1));
        i = i + 1;
    }
    None
}

/// How many rows are cached for a tier.
pub open spec fn row_count(rows: Seq<(String, i64)>, id: Seq<char>) -> int
    decreases rows.len(),
{
    if rows.len() == 0 {
        0
    } else if rows[0].0@ == id {
        rows[0].1 as int
    } else {
        row_count(rows.drop_first(), id)
    }
}

fn find_rows(rows: &Vec<(String, i64)>, id: &str) -> (r: i64)
    ensures
        r == row_count(rows@, id@),
{
    let mut i: usize = 0;
    assert(rows@.skip(0) =~= rows@);
    while i < rows.len()
        invariant
            i <= rows.len(),
            row_count(rows@, id@) == row_count(rows@.skip(i as int), id@),
        decreases rows.len() - i,
    {
        assert(rows@.skip(i as int)[0] == rows@[i as int]);
        if str_eq(rows[i].0.as_str(), id) {
            return rows[i].1;
        }
        assert(rows@.skip(i as int).drop_first() =~= rows@.skip(i + 1));
        i = i + 1;
    }
    0
}

/// The line of one tier. `would` and `live` are its shares in whole percent,
/// rendered.
pub open spec fn tier_line(
    s: DecisionStats,
    would: Seq<char>,
    live: Seq<char>,
    rows: Seq<(String, i64)>,
    tiers: Seq<(String, DecisionTierConfig)>,
) -> Seq<char> {
    let c = tier_config(tiers, s.tier_id@);
    "- `"@ + s.tier_id@ + "` ["@ + (match c {
        Some(c) => mode_text(c.mode),
        None => "(unconfigured)"@,
    }) + " v"@ + (match c {
        Some(c) => c.policy_version@,
        None => "?"@,
    }) + "]: "@ + decimal_int(s.calls as int) + " calls, would-hit "@ + decimal_int(
        s.would_hit as int,
    ) + " ("@ + share(s.calls as int, would) + "), live-hit "@ + decimal_int(s.live_hit as int)
        + " ("@ + share(s.calls as int, live) + "), "@ + decimal_int(row_count(rows, s.tier_id@))
        + " rows cached"@
}

/// The live hits of the first `n` tiers.
pub open spec fn live_hits(stats: Seq<DecisionStats>, n: int) -> int
    decreases n,
{
    if n <= 0 {
        0
    } else {
        live_hits(stats, n - 1) + stats[n - 1].live_hit
    }
}

/// The lines of the first `n` tiers.
pub open spec fn tier_lines(
    stats: Seq<DecisionStats>,
    shares: Seq<(String, String)>,
    rows: Seq<(String, i64)>,
    tiers: Seq<(String, DecisionTierConfig)>,
    n: int,
) -> Seq<Seq<char>>
    decreases n,
{
    if n <= 0 {
        Seq::empty()
    } else {
        tier_lines(stats, shares, rows, tiers, n - 1).push(
            tier_line(stats[n - 1], shares[n - 1].0@, shares[n - 1].1@, rows, tiers),
        )
    }
}

/// The report: a title, a line per tier, and the model calls avoided; nothing
/// where nothing was measured.
pub open spec fn usage_lines(
    stats: Seq<DecisionStats>,
    shares: Seq<(String, String)>,
    rows: Seq<(String, i64)>,
    tiers: Seq<(String, DecisionTierConfig)>,
) -> Option<Seq<Seq<char>>> {
    if stats.len() == 0 {
        None
    } else {
        Some(
            seq!["Decision cache (#1648), per tier:"@] + tier_lines(
                stats,
                shares,
                rows,
                tiers,
                stats.len() as int,
            ).push(
                "- est. model calls avoided (live hits): "@ + decimal_int(
                    live_hits(stats, stats.len() as int),
                ),
            ),
        )
    }
}

/// Every running total of the live hits fits.
pub open spec fn hits_fit(stats: Seq<DecisionStats>) -> bool {
    forall|n: int|
        0 <= n <= stats.len() ==> i64::MIN <= #[trigger] live_hits(stats, n) <= i64::MAX
}

/// Lines for the usage surfaces, one per tier. `shares` holds the would-hit
/// and live-hit percentages of each tier, in whole percent. `None` when
/// nothing was measured yet.
pub fn render_usage_lines(
    stats: &Vec<DecisionStats>,
    shares: &Vec<(String, String)>,
    cached_rows: &Vec<(String, i64)>,
    tiers: &Vec<(String, DecisionTierConfig)>,
) -> (r: Option<Vec<String>>)
    requires
        shares.len() == stats.len(),
        hits_fit(stats@),
    ensures
        match r {
            Some(lines) => usage_lines(stats@, shares@, cached_rows@, tiers@) == Some(
                views(lines@),
            ),
            None => usage_lines(stats@, shares@, cached_rows@, tiers@) is None,
        },
{
    if stats.len() == 0 {
        return None;
    }
    let mut lines: Vec<String> = Vec::new();
    let ghost title = "Decision cache (#1648), per tier:"@;
    lines.push("Decision cache (#1648), per tier:".to_owned());
    let mut total: i64 = 0;
    let mut i: usize = 0;
    assert(views(lines@) =~= seq![title] + Seq::<Seq<char>>::empty());
    while i < stats.len()
        invariant
            i <= stats.len(),
            shares.len() == stats.len(),
            hits_fit(stats@),
            total == live_hits(stats@, i as int),
            views(lines@) == seq![title] + tier_lines(
                stats@,
                shares@,
                cached_rows@,
                tiers@,
                i as int,
            ),
        decreases stats.len() - i,
    {
        let s = &stats[i];
        let cfg = find_tier(tiers, s.tier_id.as_str());
        let mode = match cfg {
            Some(c) => mode_label(c.mode),
            None => "(unconfigured)",
        };
        let policy = match cfg {
            Some(c) => c.policy_version.as_str(),
            None => "?",
        };
        let mut line = cat5("- `", s.tier_id.as_str(), "` [", mode, " v");
        line.append(policy);
        line.append("]: ");
        line.append(dec_i64(s.calls).as_str());
        line.append(" calls, would-hit ");
        line.append(dec_i64(s.would_hit).as_str());
        line.append(" (");
        line.append(pct(s.calls, shares[i].0.as_str()).as_str());
        line.append("), live-hit ");
        line.append(dec_i64(s.live_hit).as_str());
        line.append(" (");
        line.append(pct(s.calls, shares[i].1.as_str()).as_str());
        line.append("), ");
        line.append(dec_i64(find_rows(cached_rows, s.tier_id.as_str())).as_str());
        line.append(" rows cached");
        assert(line@ == tier_line(
            *s,
            shares@[i as int].0@,
            shares@[i as int].1@,
            cached_rows@,
            tiers@,
        ));
        let ghost pre = views(lines@);
        lines.push(line);
        assert(views(lines@) =~= pre.push(line@));
        assert(live_hits(stats@, i + 1) == total + s.live_hit);
        total = total + s.live_hit;
        i = i + 1;
        assert(pre.push(line@) =~= seq![title] + tier_lines(
            stats@,
            shares@,
            cached_rows@,
            tiers@,
            i as int,
        ));
    }
    let last = cat2("- est. model calls avoided (live hits): ", dec_i64(total).as_str());
    let ghost pre = views(lines@);
    lines.push(last);
    assert(views(lines@) =~= pre.push(last@));
    assert(pre.push(last@) =~= usage_lines(stats@, shares@, cached_rows@, tiers@)->0);
    Some(lines)
}

/// The report as one block.
pub fn render_usage_block(
    stats: &Vec<DecisionStats>,
    shares: &Vec<(String, String)>,
    cached_rows: &Vec<(String, i64)>,
    tiers: &Vec<(String, DecisionTierConfig)>,
) -> (r: Option<String>)
    requires
        shares.len() == stats.len(),
        hits_fit(stats@),
    ensures
        oview(r) == match usage_lines(stats@, shares@, cached_rows@, tiers@) {
            Some(lines) => Some(join(lines, "\n"@)),
            None => None,
        },
{
    match render_usage_lines(stats, shares, cached_rows, tiers) {
        Some(lines) => Some(join_strs(&lines, "\n")),
        None => None,
    }
}

/// Silence rule: no counters, no block.
pub proof fn law_silent_without_counters(
    shares: Seq<(String, String)>,
    rows: Seq<(String, i64)>,
    tiers: Seq<(String, DecisionTierConfig)>,
)
    ensures
        usage_lines(Seq::empty(), shares, rows, tiers) is None,
{
}

/// The configuration of a tier is the first under its name; a tier without one
/// has none. So are its rows counted.
pub proof fn law_tier_is_found_by_name(
    tiers: Seq<(String, DecisionTierConfig)>,
    rows: Seq<(String, i64)>,
    i: int,
    id: Seq<char>,
)
    ensures
        0 <= i < tiers.len() && tiers[i].0@ == id && (forall|j: int|
            0 <= j < i ==> (#[trigger] tiers[j]).0@ != id) ==> tier_config(tiers, id) == Some(
            tiers[i].1,
        ),
        (forall|j: int| 0 <= j < tiers.len() ==> (#[trigger] tiers[j]).0@ != id) ==> tier_config(
            tiers,
            id,
        ) is None,
        0 <= i < rows.len() && rows[i].0@ == id && (forall|j: int|
            0 <= j < i ==> (#[trigger] rows[j]).0@ != id) ==> row_count(rows, id) == rows[i].1,
        (forall|j: int| 0 <= j < rows.len() ==> (#[trigger] rows[j]).0@ != id) ==> row_count(
            rows,
            id,
        ) == 0,
{
    lemma_tier(tiers, i, id);
    lemma_rows(rows, i, id);
}

proof fn lemma_tier(tiers: Seq<(String, DecisionTierConfig)>, i: int, id: Seq<char>)
    ensures
        0 <= i < tiers.len() && tiers[i].0@ == id && (forall|j: int|
            0 <= j < i ==> (#[trigger] tiers[j]).0@ != id) ==> tier_config(tiers, id) == Some(
            tiers[i].1,
        ),
        (forall|j: int| 0 <= j < tiers.len() ==> (#[trigger] tiers[j]).0@ != id) ==> tier_config(
            tiers,
            id,
        ) is None,
    decreases tiers.len(),
{
    if tiers.len() > 0 {
        let rest = tiers.drop_first();
        lemma_tier(rest, i - 1, id);
        assert forall|j: int| 0 <= j < rest.len() implies #[trigger] rest[j] == tiers[j + 1] by {}
        if tiers[0].0@ != id {
            if 0 <= i < tiers.len() && tiers[i].0@ == id {
                assert(rest[i - 1].0@ == id);
            }
        }
    }
}

proof fn lemma_rows(rows: Seq<(String, i64)>, i: int, id: Seq<char>)
    ensures
        0 <= i < rows.len() && rows[i].0@ == id && (forall|j: int|
            0 <= j < i ==> (#[trigger] rows[j]).0@ != id) ==> row_count(rows, id) == rows[i].1,
        (forall|j: int| 0 <= j < rows.len() ==> (#[trigger] rows[j]).0@ != id) ==> row_count(
            rows,
            id,
        ) == 0,
    decreases rows.len(),
{
    if rows.len() > 0 {
        let rest = rows.drop_first();
        lemma_rows(rest, i - 1, id);
        assert forall|j: int| 0 <= j < rest.len() implies #[trigger] rest[j] == rows[j + 1] by {}
        if rows[0].0@ != id {
            if 0 <= i < rows.len() && rows[i].0@ == id {
                assert(rest[i - 1].0@ == id);
            }
        }
    }
}

proof fn lemma_tier_lines(
    stats: Seq<DecisionStats>,
    shares: Seq<(String, String)>,
    rows: Seq<(String, i64)>,
    tiers: Seq<(String, DecisionTierConfig)>,
    n: int,
    i: int,
)
    requires
        0 <= i < n,
    ensures
        tier_lines(stats, shares, rows, tiers, n).len() == n,
        tier_lines(stats, shares, rows, tiers, n)[i] == tier_line(
            stats[i],
            shares[i].0@,
            shares[i].1@,
            rows,
            tiers,
        ),
    decreases n,
{
    reveal_with_fuel(tier_lines, 2);
    if i < n - 1 {
        lemma_tier_lines(stats, shares, rows, tiers, n - 1, i);
    } else if n > 1 {
        lemma_tier_lines(stats, shares, rows, tiers, n - 1, 0);
    }
}

/// The report has a title, then one line for each tier, in order, and the sum
/// of the live hits at its end.
pub proof fn law_report_covers_every_tier(
    stats: Seq<DecisionStats>,
    shares: Seq<(String, String)>,
    rows: Seq<(String, i64)>,
    tiers: Seq<(String, DecisionTierConfig)>,
    i: int,
)
    requires
        0 <= i < stats.len(),
    ensures
        ({
            let lines = usage_lines(stats, shares, rows, tiers);
            &&& lines is Some
            &&& lines->0.len() == stats.len() + 2
            &&& tells(lines->0[0], "Decision cache"@)
            &&& lines->0[i + 1] == tier_line(
                stats[i],
                shares[i].0@,
                shares[i].1@,
                rows,
                tiers,
            )
            &&& lines->0.last() == "- est. model calls avoided (live hits): "@ + decimal_int(
                live_hits(stats, stats.len() as int),
            )
        }),
        live_hits(stats, 0) == 0,
        live_hits(stats, i + 1) - live_hits(stats, i) == stats[i].live_hit,
{
    let n = stats.len() as int;
    lemma_tier_lines(stats, shares, rows, tiers, n, i);
    let all = tier_lines(stats, shares, rows, tiers, n);
    let lines = usage_lines(stats, shares, rows, tiers)->0;
    assert(lines[i + 1] == all[i]);
    reveal_strlit("Decision cache (#1648), per tier:");
    reveal_strlit("Decision cache");
    let title = "Decision cache (#1648), per tier:"@;
    assert(title =~= Seq::<char>::empty() + "Decision cache"@ + title.skip(14));
    lemma_tells(title, Seq::empty(), "Decision cache"@, title.skip(14));
}

/// The line of a tier tells its name, its mode and policy where it is
/// configured, its counters with their shares of the calls, and its rows. Of no
/// calls every share is nothing.
pub proof fn law_tier_line_tells_the_counters(
    s: DecisionStats,
    would: Seq<char>,
    live: Seq<char>,
    rows: Seq<(String, i64)>,
    tiers: Seq<(String, DecisionTierConfig)>,
    c: DecisionTierConfig,
)
    ensures
        tier_config(tiers, s.tier_id@) == Some(c) && s.calls > 0 ==> tier_line(
            s,
            would,
            live,
            rows,
            tiers,
        ) == "- `"@ + s.tier_id@ + "` ["@ + mode_text(c.mode) + " v"@ + c.policy_version@ + "]: "@ + decimal_int(
            s.calls as int,
        ) + " calls, would-hit "@ + decimal_int(s.would_hit as int) + " ("@ + (would + "%"@)
            + "), live-hit "@ + decimal_int(s.live_hit as int) + " ("@ + (live + "%"@) + "), "@
            + decimal_int(row_count(rows, s.tier_id@)) + " rows cached"@,
        tier_config(tiers, s.tier_id@) == Some(c) && s.calls <= 0 ==> tier_line(
            s,
            would,
            live,
            rows,
            tiers,
        ) == "- `"@ + s.tier_id@ + "` ["@ + mode_text(c.mode) + " v"@ + c.policy_version@ + "]: "@ + decimal_int(
            s.calls as int,
        ) + " calls, would-hit "@ + decimal_int(s.would_hit as int) + " ("@ + "0%"@
            + "), live-hit "@ + decimal_int(s.live_hit as int) + " ("@ + "0%"@ + "), "@
            + decimal_int(row_count(rows, s.tier_id@)) + " rows cached"@,
        tier_config(tiers, s.tier_id@) is None && s.calls > 0 ==> tier_line(
            s,
            would,
            live,
            rows,
            tiers,
        ) == "- `"@ + s.tier_id@ + "` ["@ + "(unconfigured)"@ + " v"@ + "?"@ + "]: "@ + decimal_int(
            s.calls as int,
        ) + " calls, would-hit "@ + decimal_int(s.would_hit as int) + " ("@ + (would + "%"@)
            + "), live-hit "@ + decimal_int(s.live_hit as int) + " ("@ + (live + "%"@) + "), "@
            + decimal_int(row_count(rows, s.tier_id@)) + " rows cached"@,
        tier_config(tiers, s.tier_id@) is None && s.calls <= 0 ==> tier_line(
            s,
            would,
            live,
            rows,
            tiers,
        ) == "- `"@ + s.tier_id@ + "` ["@ + "(unconfigured)"@ + " v"@ + "?"@ + "]: "@ + decimal_int(
            s.calls as int,
        ) + " calls, would-hit "@ + decimal_int(s.would_hit as int) + " ("@ + "0%"@
            + "), live-hit "@ + decimal_int(s.live_hit as int) + " ("@ + "0%"@ + "), "@
            + decimal_int(row_count(rows, s.tier_id@)) + " rows cached"@,
{
}

/// The modes have names of their own.
pub proof fn law_mode_names_are_distinct(a: DecisionMode, b: DecisionMode)
    ensures
        mode_text(a) == mode_text(b) ==> a == b,
        mode_text(DecisionMode::Shadow) == "shadow"@,
        mode_text(DecisionMode::Live) == "live"@,
        mode_text(DecisionMode::Off) == "off"@,
{
    reveal_strlit("shadow");
    reveal_strlit("live");
    reveal_strlit("off");
    assert("shadow"@.len() == 6 && "live"@.len() == 4 && "off"@.len() == 3);
}

} // verus!
