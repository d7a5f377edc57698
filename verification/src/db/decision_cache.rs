//! Statements of the decision cache that depend on their arguments.
use vstd::prelude::*;

use crate::search::{join, join_strs};
use crate::text::{cat3, views};

verus! {

/// `n` placeholders.
pub open spec fn marks(n: nat) -> Seq<Seq<char>> {
    Seq::new(n, |i: int| "?"@)
}

/// Deletes the rows of tiers that are not among `n` known ones; with none
/// known, all rows.
pub open spec fn unknown_tiers_text(n: nat) -> Seq<char> {
    if n == 0 {
        "DELETE FROM decision_cache"@
    } else {
        "DELETE FROM decision_cache WHERE tier_id NOT IN ("@ + join(marks(n), ","@) + ")"@
    }
}

/// The statement that deletes the rows of unconfigured tiers.
pub fn delete_unknown_tiers(known: usize) -> (r: String)
    ensures
        r@ == unknown_tiers_text(known as nat),
{
    if known == 0 {
        return "DELETE FROM decision_cache".to_owned();
    }
    let mut parts: Vec<String> = Vec::new();
    let mut i: usize = 0;
    assert(views(parts@) =~= marks(0));
    while i < known
        invariant
            i <= known,
            views(parts@) == marks(i as nat),
        decreases known - i,
    {
        let ghost pre = views(parts@);
        parts.push("?".to_owned());
        assert(views(parts@) =~= pre.push("?"@));
        assert(marks((i + 1) as nat) =~= pre.push("?"@));
        i = i + 1;
    }
    cat3(
        "DELETE FROM decision_cache WHERE tier_id NOT IN (",
        join_strs(&parts, ",").as_str(),
        ")",
    )
}

/// The rows of known tiers are spared: one placeholder for each of them, and
/// everything goes only where none is known.
pub proof fn law_each_known_tier_has_a_placeholder(n: nat)
    ensures
        unknown_tiers_text(0) == "DELETE FROM decision_cache"@,
        unknown_tiers_text(1) == "DELETE FROM decision_cache WHERE tier_id NOT IN (?)"@,
        n > 0 ==> unknown_tiers_text(n + 1) == unknown_tiers_text(n).drop_last() + ",?)"@,
{
    reveal_strlit("DELETE FROM decision_cache WHERE tier_id NOT IN (");
    reveal_strlit("DELETE FROM decision_cache WHERE tier_id NOT IN (?)");
    reveal_strlit("?");
    reveal_strlit(")");
    reveal_strlit(",?)");
    reveal_strlit(",");
    reveal_with_fuel(join, 2);
    assert(marks(1) =~= seq!["?"@]);
    assert(unknown_tiers_text(1) =~= "DELETE FROM decision_cache WHERE tier_id NOT IN (?)"@);
    if n > 0 {
        assert(marks(n + 1).drop_last() =~= marks(n));
        assert(join(marks(n + 1), ","@) == join(marks(n), ","@) + ","@ + "?"@);
        assert(unknown_tiers_text(n + 1) =~= unknown_tiers_text(n).drop_last() + ",?)"@);
    }
}

} // verus!
