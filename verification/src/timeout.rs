//! Timeout flags resolve through one chain: the provider's section, the agent
//! section, the family's compiled default.
use vstd::prelude::*;

use crate::search::{lemma_tells, tells};

verus! {

/// Which tier supplied a timeout.
#[derive(Clone, Copy, PartialEq, Eq, Structural, Debug)]
pub enum TimeoutTier {
    Provider,
    Agent,
    /// The compiled default applies, or, where there is none, the one decided
    /// at run time.
    Default,
}

pub open spec fn tier_label(t: TimeoutTier) -> Seq<char> {
    match t {
        TimeoutTier::Provider => "[providers.<name>]"@,
        TimeoutTier::Agent => "[agent]"@,
        TimeoutTier::Default => "compiled default"@,
    }
}

impl TimeoutTier {
    /// The tier's name.
    pub fn label(&self) -> (r: &'static str)
        ensures
            r@ == tier_label(*self),
    {
        match self {
            TimeoutTier::Provider => "[providers.<name>]",
            TimeoutTier::Agent => "[agent]",
            TimeoutTier::Default => "compiled default",
        }
    }
}

/// A resolved timeout: the seconds that apply, and where they came from.
#[derive(Clone, Copy, PartialEq, Eq, Structural, Debug)]
pub struct TimeoutResolution {
    /// `None` where the default is decided at run time.
    pub effective: Option<u64>,
    pub tier: TimeoutTier,
    /// Whether the provider's section carried `0` and was skipped.
    pub provider_zero: bool,
    /// Whether the agent section carried `0` and was skipped.
    pub agent_zero: bool,
}

/// The note on skipped zeros.
pub open spec fn zero_text(provider_zero: bool, agent_zero: bool) -> Option<Seq<char>> {
    if provider_zero && agent_zero {
        Some("[providers.<name>] and [agent] both carried 0"@)
    } else if provider_zero {
        Some("[providers.<name>] carried 0"@)
    } else if agent_zero {
        Some("[agent] carried 0"@)
    } else {
        None
    }
}

impl TimeoutResolution {
    /// The seconds that apply.
    pub fn duration(&self) -> (r: Option<u64>)
        ensures
            r == self.effective,
    {
        self.effective
    }

    /// The seconds to apply as an override: only what a section said, never
    /// the compiled default.
    pub fn override_duration(&self) -> (r: Option<u64>)
        ensures
            r == if self.tier == TimeoutTier::Default {
                None
            } else {
                self.effective
            },
    {
        match self.tier {
            TimeoutTier::Provider | TimeoutTier::Agent => self.duration(),
            TimeoutTier::Default => None,
        }
    }

    /// What to log about a skipped zero.
    pub fn zero_note(&self) -> (r: Option<&'static str>)
        ensures
            match r {
                Some(t) => zero_text(self.provider_zero, self.agent_zero) == Some(t@),
                None => zero_text(self.provider_zero, self.agent_zero) is None,
            },
    {
        match (self.provider_zero, self.agent_zero) {
            (true, true) => Some("[providers.<name>] and [agent] both carried 0"),
            (true, false) => Some("[providers.<name>] carried 0"),
            (false, true) => Some("[agent] carried 0"),
            (false, false) => None,
        }
    }
}

/// Whether a configured value can act as a timeout: it is there and not zero.
pub open spec fn usable(value: Option<u64>) -> bool {
    value is Some && value->0 > 0
}

/// The resolution across the three tiers.
pub open spec fn resolution(
    provider_value: Option<u64>,
    agent_value: Option<u64>,
    compiled_default: Option<u64>,
) -> TimeoutResolution {
    TimeoutResolution {
        effective: if usable(provider_value) {
            provider_value
        } else if usable(agent_value) {
            agent_value
        } else {
            compiled_default
        },
        tier: if usable(provider_value) {
            TimeoutTier::Provider
        } else if usable(agent_value) {
            TimeoutTier::Agent
        } else {
            TimeoutTier::Default
        },
        provider_zero: provider_value == Some(0u64),
        agent_zero: agent_value == Some(0u64),
    }
}

fn is_zero(value: Option<u64>) -> (r: bool)
    ensures
        r == (value == Some(0u64)),
{
    match value {
        Some(s) => s == 0,
        None => false,
    }
}

fn is_usable(value: Option<u64>) -> (r: bool)
    ensures
        r == usable(value),
{
    match value {
        Some(s) => s > 0,
        None => false,
    }
}

/// Resolves a timeout flag. A configured zero is skipped, and reported, since
/// read literally it would fail every call at once.
pub fn resolve_timeout(
    provider_value: Option<u64>,
    agent_value: Option<u64>,
    compiled_default: Option<u64>,
) -> (r: TimeoutResolution)
    ensures
        r == resolution(provider_value, agent_value, compiled_default),
{
    let provider_zero = is_zero(provider_value);
    let agent_zero = is_zero(agent_value);
    if is_usable(provider_value) {
        return TimeoutResolution {
            effective: provider_value,
            tier: TimeoutTier::Provider,
            provider_zero,
            agent_zero,
        };
    }
    if is_usable(agent_value) {
        return TimeoutResolution {
            effective: agent_value,
            tier: TimeoutTier::Agent,
            provider_zero,
            agent_zero,
        };
    }
    TimeoutResolution {
        effective: compiled_default,
        tier: TimeoutTier::Default,
        provider_zero,
        agent_zero,
    }
}

/// A configured zero never becomes a timeout, and it never goes unreported.
pub proof fn law_zero_is_skipped_and_told(
    provider_value: Option<u64>,
    agent_value: Option<u64>,
    compiled_default: Option<u64>,
)
    requires
        compiled_default != Some(0u64),
    ensures
        resolution(provider_value, agent_value, compiled_default).effective != Some(0u64),
        zero_text(
            resolution(provider_value, agent_value, compiled_default).provider_zero,
            resolution(provider_value, agent_value, compiled_default).agent_zero,
        ) is Some <==> provider_value == Some(0u64) || agent_value == Some(0u64),
{
}

/// The provider's own value comes first, then the agent's, then the compiled
/// default; a zero counts as no value.
pub proof fn law_nearest_section_decides(p: u64, a: u64, d: Option<u64>, other: Option<u64>)
    requires
        p > 0,
        a > 0,
    ensures
        resolution(Some(p), other, d).effective == Some(p),
        resolution(Some(p), other, d).tier == TimeoutTier::Provider,
        resolution(None, Some(a), d).effective == Some(a),
        resolution(None, Some(a), d).tier == TimeoutTier::Agent,
        resolution(Some(0u64), Some(a), d).effective == Some(a),
        resolution(Some(0u64), Some(a), d).tier == TimeoutTier::Agent,
        resolution(None, None, d).effective == d,
        resolution(Some(0u64), Some(0u64), d).effective == d,
        resolution(Some(0u64), None, d).effective == d,
        resolution(None, Some(0u64), d).effective == d,
        resolution(None, None, d).tier == TimeoutTier::Default,
        resolution(Some(0u64), Some(0u64), d).tier == TimeoutTier::Default,
{
}

/// A note names each section that carried a zero, and only those; a tier is
/// named by its section.
pub proof fn law_notes_name_the_section()
    ensures
        tells(zero_text(true, true)->0, tier_label(TimeoutTier::Provider)),
        tells(zero_text(true, true)->0, tier_label(TimeoutTier::Agent)),
        tells(zero_text(true, false)->0, tier_label(TimeoutTier::Provider)),
        tells(zero_text(false, true)->0, tier_label(TimeoutTier::Agent)),
        zero_text(false, false) is None,
        zero_text(true, false) == Some("[providers.<name>] carried 0"@),
        zero_text(false, true) == Some("[agent] carried 0"@),
        tier_label(TimeoutTier::Default) == "compiled default"@,
{
    let p = "[providers.<name>]"@;
    let a = "[agent]"@;
    let none = Seq::<char>::empty();
    reveal_strlit("[providers.<name>]");
    reveal_strlit("[agent]");
    reveal_strlit("[providers.<name>] and [agent] both carried 0");
    reveal_strlit("[providers.<name>] carried 0");
    reveal_strlit("[agent] carried 0");
    let both = zero_text(true, true)->0;
    let one = zero_text(true, false)->0;
    let two = zero_text(false, true)->0;
    assert(both =~= none + p + both.skip(18));
    assert(both =~= both.take(23) + a + both.skip(30));
    assert(one =~= none + p + one.skip(18));
    assert(two =~= none + a + two.skip(7));
    lemma_tells(both, none, p, both.skip(18));
    lemma_tells(both, both.take(23), a, both.skip(30));
    lemma_tells(one, none, p, one.skip(18));
    lemma_tells(two, none, a, two.skip(7));
}

} // verus!
