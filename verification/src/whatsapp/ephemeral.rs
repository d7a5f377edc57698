//! Disappearing-message lifetimes.
use vstd::prelude::*;

use crate::search::{dec_u64, decimal};
use crate::text::cat2;

verus! {

pub const TTL_24_HOURS: u32 = 86_400;

pub const TTL_7_DAYS: u32 = 604_800;

pub const TTL_90_DAYS: u32 = 7_776_000;

/// Longest lifetime WhatsApp accepts; a larger one is clamped.
pub const TTL_MAX: u32 = 7_776_000;

/// The lifetime of one message: an explicit request beats the channel's
/// default, `0` means that the message does not expire, and nothing exceeds
/// the maximum.
pub open spec fn lifetime(requested: Option<u64>, default_ttl: Option<u32>) -> Option<nat> {
    let wanted: nat = match requested {
        Some(s) => s as nat,
        None => match default_ttl {
            Some(s) => s as nat,
            None => 0,
        },
    };
    if wanted == 0 {
        None
    } else if wanted > TTL_MAX {
        Some(TTL_MAX as nat)
    } else {
        Some(wanted)
    }
}

/// Resolves the lifetime of one outbound message.
pub fn resolve(requested: Option<u64>, default_ttl: Option<u32>) -> (r: Option<u32>)
    ensures
        match r {
            Some(s) => lifetime(requested, default_ttl) == Some(s as nat),
            None => lifetime(requested, default_ttl) is None,
        },
{
    match requested {
        Some(seconds) => if seconds == 0 {
            None
        } else if seconds > TTL_MAX as u64 {
            Some(TTL_MAX)
        } else {
            Some(seconds as u32)
        },
        None => match default_ttl {
            Some(seconds) => if seconds == 0 {
                None
            } else if seconds > TTL_MAX {
                Some(TTL_MAX)
            } else {
                Some(seconds)
            },
            None => None,
        },
    }
}

/// A lifetime in the largest unit that divides it.
pub open spec fn lifetime_text(ttl: nat) -> Seq<char> {
    if ttl == TTL_24_HOURS {
        "24 hours"@
    } else if ttl % 86_400 == 0 {
        decimal(ttl / 86_400) + " days"@
    } else if ttl % 3_600 == 0 {
        decimal(ttl / 3_600) + " hours"@
    } else if ttl % 60 == 0 {
        decimal(ttl / 60) + " minutes"@
    } else {
        decimal(ttl) + " seconds"@
    }
}

/// Human-readable form of a lifetime.
pub fn describe(ttl: u32) -> (r: String)
    ensures
        r@ == lifetime_text(ttl as nat),
{
    let n: u64 = ttl as u64;
    if ttl == TTL_24_HOURS {
        "24 hours".to_owned()
    } else if n % 86_400 == 0 {
        cat2(dec_u64(n / 86_400).as_str(), " days")
    } else if n % 3_600 == 0 {
        cat2(dec_u64(n / 3_600).as_str(), " hours")
    } else if n % 60 == 0 {
        cat2(dec_u64(n / 60).as_str(), " minutes")
    } else {
        cat2(dec_u64(n).as_str(), " seconds")
    }
}

/// An explicit `0` beats every channel default.
pub proof fn law_zero_never_expires(default_ttl: Option<u32>)
    ensures
        lifetime(Some(0), default_ttl) is None,
{
}

/// No message lives longer than the maximum, or for no time at all.
pub proof fn law_lifetime_is_bounded(requested: Option<u64>, default_ttl: Option<u32>)
    ensures
        match lifetime(requested, default_ttl) {
            Some(s) => 0 < s <= TTL_MAX,
            None => true,
        },
{
}

/// The lifetime is the one asked for, else the channel's; nothing and zero
/// mean none, and more than ninety days mean ninety days.
pub proof fn law_lifetime_is_the_one_asked_for(requested: Option<u64>, default_ttl: Option<u32>)
    ensures
        requested is Some && 0 < requested->0 <= 90 * 86_400 ==> lifetime(requested, default_ttl)
            == Some(requested->0 as nat),
        requested is Some && requested->0 > 90 * 86_400 ==> lifetime(requested, default_ttl)
            == Some(7_776_000nat),
        requested is None && default_ttl is Some && 0 < default_ttl->0 <= 90 * 86_400 ==> lifetime(
            requested,
            default_ttl,
        ) == Some(default_ttl->0 as nat),
        requested is None && default_ttl is Some && default_ttl->0 > 90 * 86_400 ==> lifetime(
            requested,
            default_ttl,
        ) == Some(7_776_000nat),
        requested is None && (default_ttl is None || default_ttl->0 == 0) ==> lifetime(
            requested,
            default_ttl,
        ) is None,
        TTL_24_HOURS == 24 * 3_600,
        TTL_7_DAYS == 7 * 86_400,
        TTL_90_DAYS == 90 * 86_400,
{
}

/// A lifetime is told in the largest unit that divides it: so many days,
/// hours, minutes or seconds are the lifetime again. One day is told in hours.
pub proof fn law_lifetime_is_told_exactly(ttl: nat, n: nat)
    ensures
        ttl == 86_400 * n && n != 1 ==> lifetime_text(ttl) == decimal(n) + " days"@,
        lifetime_text(86_400) == "24 hours"@,
        ttl == 3_600 * n && ttl % 86_400 != 0 ==> lifetime_text(ttl) == decimal(n) + " hours"@,
        ttl == 60 * n && ttl % 3_600 != 0 ==> lifetime_text(ttl) == decimal(n) + " minutes"@,
        ttl % 60 != 0 ==> lifetime_text(ttl) == decimal(ttl) + " seconds"@,
{
}

} // verus!
