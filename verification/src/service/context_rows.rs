//! Cleaning stored rows before they become context: which sweep a row needs,
//! and where hoisted reasoning goes.
use vstd::prelude::*;

use crate::search::{contains, has, law_search_finds, lemma_tells, tells};
use crate::text::{blank, is_blank, oview, str_eq};

verus! {

/// A stored row's parts that become context.
pub struct Row {
    pub role: String,
    pub content: String,
    pub thinking: Option<String>,
}

/// What has been done to a row.
#[derive(Clone, Copy, PartialEq, Eq, Structural)]
pub enum Stage {
    Raw,
    PhantomStripped,
    Hoisted,
    Swept,
    Clean,
}

/// What a row needs next.
#[derive(Clone, Copy, PartialEq, Eq, Structural)]
pub enum Sweep {
    /// Strip phantom-blocked sections.
    StripPhantom,
    /// Hoist the reasoning, and hand what that gave to [`take_reasoning`].
    HoistReasoning,
    /// Strip every other artifact.
    StripArtifacts,
    /// Strip the compaction banner.
    StripBanner,
    Nothing,
}

/// What a row needs next. Phantom-blocked sections go before the general
/// sweep, which would remove their markers only; reasoning is hoisted before
/// its markers are swept.
pub open spec fn sweep_after(stage: Stage, row: Row, preserve_thinking: bool) -> Sweep {
    if stage == Stage::Raw && has(row.content@, "<!-- phantom_blocked=1 -->"@) {
        Sweep::StripPhantom
    } else if (stage == Stage::Raw || stage == Stage::PhantomStripped) && preserve_thinking
        && row.role@ == "assistant"@ {
        Sweep::HoistReasoning
    } else if stage != Stage::Swept && stage != Stage::Clean && has(row.content@, "<!--"@) {
        Sweep::StripArtifacts
    } else if stage != Stage::Clean {
        Sweep::StripBanner
    } else {
        Sweep::Nothing
    }
}

/// What a row needs next.
pub fn next_sweep(stage: Stage, row: &Row, preserve_thinking: bool) -> (r: Sweep)
    ensures
        r == sweep_after(stage, *row, preserve_thinking),
{
    if stage == Stage::Raw && contains(row.content.as_str(), "<!-- phantom_blocked=1 -->") {
        Sweep::StripPhantom
    } else if (stage == Stage::Raw || stage == Stage::PhantomStripped) && preserve_thinking
        && str_eq(row.role.as_str(), "assistant") {
        Sweep::HoistReasoning
    } else if stage != Stage::Swept && stage != Stage::Clean && contains(
        row.content.as_str(),
        "<!--",
    ) {
        Sweep::StripArtifacts
    } else if stage != Stage::Clean {
        Sweep::StripBanner
    } else {
        Sweep::Nothing
    }
}

/// The stage that a sweep leads to.
pub open spec fn reached(sweep: Sweep) -> Stage {
    match sweep {
        Sweep::StripPhantom => Stage::PhantomStripped,
        Sweep::HoistReasoning => Stage::Hoisted,
        Sweep::StripArtifacts => Stage::Swept,
        Sweep::StripBanner | Sweep::Nothing => Stage::Clean,
    }
}

/// The stage that a sweep leads to.
pub fn stage_after(sweep: Sweep) -> (r: Stage)
    ensures
        r == reached(sweep),
{
    match sweep {
        Sweep::StripPhantom => Stage::PhantomStripped,
        Sweep::HoistReasoning => Stage::Hoisted,
        Sweep::StripArtifacts => Stage::Swept,
        Sweep::StripBanner | Sweep::Nothing => Stage::Clean,
    }
}

/// A row's thinking with hoisted reasoning behind what is there.
pub open spec fn with_reasoning(thinking: Option<Seq<char>>, reasoning: Seq<char>) -> Seq<char> {
    match thinking {
        Some(t) => if is_blank(t) {
            reasoning
        } else {
            t + "\n\n"@ + reasoning
        },
        None => reasoning,
    }
}

/// Takes in what hoisting gave: the content without its reasoning, and the
/// reasoning. Without any the row stays as it is.
pub fn take_reasoning(row: &mut Row, cleaned: String, reasoning: Option<String>)
    ensures
        final(row).role == old(row).role,
        match reasoning {
            Some(x) => final(row).content@ == cleaned@ && oview(final(row).thinking) == Some(
                with_reasoning(oview(old(row).thinking), x@),
            ),
            None => *final(row) == *old(row),
        },
{
    if let Some(x) = reasoning {
        row.content = cleaned;
        let thinking = match &row.thinking {
            Some(t) => if !blank(t.as_str()) {
                let mut all = t.clone();
                all.append("\n\n");
                all.append(x.as_str());
                Some(all)
            } else {
                Some(x)
            },
            None => Some(x),
        };
        row.thinking = thinking;
    }
}

/// The order of the stages.
pub open spec fn rank(stage: Stage) -> int {
    match stage {
        Stage::Raw => 0,
        Stage::PhantomStripped => 1,
        Stage::Hoisted => 2,
        Stage::Swept => 3,
        Stage::Clean => 4,
    }
}

/// Cleaning moves on with every sweep, so that it ends, and a row is clean
/// only once its banner was stripped.
pub proof fn law_cleaning_moves_on(stage: Stage, row: Row, preserve_thinking: bool)
    ensures
        ({
            let s = sweep_after(stage, row, preserve_thinking);
            &&& s == Sweep::Nothing <==> stage == Stage::Clean
            &&& stage != Stage::Clean ==> rank(reached(s)) > rank(stage)
            &&& stage != Stage::Clean && reached(s) == Stage::Clean ==> s == Sweep::StripBanner
        }),
{
}

/// What a row needs first: phantom-blocked sections are stripped before all
/// else; an assistant's reasoning is hoisted where it is kept; any other marker
/// is swept; and the banner goes last.
pub proof fn law_order_of_sweeps(row: Row, keep: bool)
    ensures
        tells(row.content@, "<!-- phantom_blocked=1 -->"@) <==> sweep_after(Stage::Raw, row, keep)
            == Sweep::StripPhantom,
        sweep_after(Stage::PhantomStripped, row, keep) == Sweep::HoistReasoning <==> keep
            && row.role@ == "assistant"@,
        !tells(row.content@, "<!-- phantom_blocked=1 -->"@) && keep && row.role@ == "assistant"@
            ==> sweep_after(Stage::Raw, row, keep) == Sweep::HoistReasoning,
        sweep_after(Stage::Hoisted, row, keep) == if tells(row.content@, "<!--"@) {
            Sweep::StripArtifacts
        } else {
            Sweep::StripBanner
        },
        sweep_after(Stage::Swept, row, keep) == Sweep::StripBanner,
        sweep_after(Stage::Clean, row, keep) == Sweep::Nothing,
{
    law_search_finds(row.content@, "<!-- phantom_blocked=1 -->"@);
    law_search_finds(row.content@, "<!--"@);
}

/// Hoisted reasoning is kept whole, behind any thinking that the row had.
pub proof fn law_reasoning_is_kept(thinking: Seq<char>, reasoning: Seq<char>)
    ensures
        tells(with_reasoning(Some(thinking), reasoning), reasoning),
        !is_blank(thinking) ==> with_reasoning(Some(thinking), reasoning).take(
            thinking.len() as int,
        ) == thinking,
        !is_blank(thinking) ==> with_reasoning(Some(thinking), reasoning) == thinking + "\n\n"@
            + reasoning,
        is_blank(thinking) ==> with_reasoning(Some(thinking), reasoning) == reasoning,
        with_reasoning(None, reasoning) == reasoning,
{
    let none = Seq::<char>::empty();
    let t = with_reasoning(Some(thinking), reasoning);
    if is_blank(thinking) {
        assert(t =~= none + reasoning + none);
        lemma_tells(t, none, reasoning, none);
    } else {
        assert(t =~= (thinking + "\n\n"@) + reasoning + none);
        lemma_tells(t, thinking + "\n\n"@, reasoning, none);
        assert(t.take(thinking.len() as int) =~= thinking);
    }
}

} // verus!
