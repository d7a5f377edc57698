//! Calendar renderings of Unix time.
use vstd::prelude::*;

verus! {

/// Unix seconds in UTC, rendered by chrono after a format; `None` outside its
/// range.
pub uninterp spec fn utc_text(secs: int, format: Seq<char>) -> Option<Seq<char>>;

/// The formats in use.
pub open spec fn known_format(format: Seq<char>) -> bool {
    format == "%Y-%m-%d %H:%M"@ || format == "%Y-%m-%d %H:%M:%S UTC"@ || format == "%Y-%m-%d"@
}

/// The seconds of the calendar that chrono keeps: the years -262143 to 262142.
pub open spec fn in_calendar(secs: int) -> bool {
    -8_334_601_228_800 <= secs <= 8_210_266_876_799
}

/// `chrono::DateTime::<Utc>::from_timestamp`, then `DateTime::format`. The
/// rendering depends on the seconds and the format alone and is named; beside
/// the name the contract claims that every second of the calendar has one.
#[verifier::external_body]
pub(crate) fn format_utc(secs: i64, format: &str) -> (r: Option<String>)
    requires
        known_format(format@),
    ensures
        match r {
            Some(s) => utc_text(secs as int, format@) == Some(s@),
            None => utc_text(secs as int, format@) is None,
        },
        in_calendar(secs as int) ==> r is Some,
{
    match chrono::DateTime::<chrono::Utc>::from_timestamp(secs, 0) {
        Some(d) => Some(d.format(format).to_string()),
        None => None,
    }
}

/// A moment: whole seconds since the epoch and nanoseconds beyond them. A leap
/// second is told by a second's worth of nanoseconds or more.
#[derive(Clone, Copy, PartialEq, Eq, Structural, Debug)]
pub struct Moment {
    pub secs: i64,
    pub nanos: u32,
}

/// Nanoseconds of a second.
pub const SECOND: u32 = 1_000_000_000;

/// Nanoseconds of a day.
pub const DAY_NANOS: i128 = 86_400_000_000_000;

/// What a clock can read: a moment of the calendar, outside leap seconds.
pub open spec fn is_reading(m: Moment) -> bool {
    in_calendar(m.secs as int) && m.nanos < SECOND
}

/// Seconds since midnight.
pub open spec fn time_of_day(m: Moment) -> int {
    m.secs as int % 86_400
}

/// The leap second that lies between two moments of the day: the earlier one
/// is told by the second before, so it counts where the later one is past it.
pub open spec fn leap_between(then: Moment, now: Moment) -> int {
    if time_of_day(now) > time_of_day(then) && then.nanos >= SECOND {
        1
    } else if time_of_day(now) < time_of_day(then) && now.nanos >= SECOND {
        -1
    } else {
        0
    }
}

/// Nanoseconds from `then` to `now`.
pub open spec fn elapsed(then: Moment, now: Moment) -> int {
    (now.secs - then.secs + leap_between(then, now)) * 1_000_000_000 + now.nanos - then.nanos
}

/// Whole days from `then` to `now`, rounded towards zero.
pub open spec fn days_between(then: Moment, now: Moment) -> int {
    let d = elapsed(then, now);
    if d >= 0 {
        d / 86_400_000_000_000
    } else {
        -((-d) / 86_400_000_000_000)
    }
}

fn day_second(m: Moment) -> (r: i64)
    ensures
        r == time_of_day(m),
{
    let rest: i64 = m.secs % 86_400;
    if rest < 0 {
        rest + 86_400
    } else {
        rest
    }
}

/// Whole days from `then` to `now`, rounded towards zero.
pub fn days_since(then: Moment, now: Moment) -> (r: i64)
    ensures
        r == days_between(then, now),
{
    let a: i64 = day_second(then);
    let b: i64 = day_second(now);
    let leap: i128 = if b > a && then.nanos >= SECOND {
        1
    } else if b < a && now.nanos >= SECOND {
        -1
    } else {
        0
    };
    let d: i128 = (now.secs as i128 - then.secs as i128 + leap) * 1_000_000_000 + now.nanos as i128
        - then.nanos as i128;
    if d >= 0 {
        (d / DAY_NANOS) as i64
    } else {
        let back: i128 = -d;
        -((back / DAY_NANOS) as i64)
    }
}

/// A date rendered from what a clock read.
pub fn date_text(now: Moment, format: &str) -> (r: String)
    requires
        known_format(format@),
        is_reading(now),
    ensures
        utc_text(now.secs as int, format@) == Some(r@),
{
    match format_utc(now.secs, format) {
        Some(s) => s,
        None => String::new(),
    }
}

// -------------------------------------------------------------------- laws
/// Days are counted from moment to moment: a moment that lies whole days and
/// less than a day more behind another is that many days later, and counted
/// back, that many earlier. A moment is no days from itself.
pub proof fn law_days_are_counted(then: Moment, now: Moment, days: int, rest: int)
    requires
        then.nanos < SECOND,
        now.nanos < SECOND,
        days >= 0,
        0 <= rest < 86_400_000_000_000,
        (now.secs - then.secs) * 1_000_000_000 + now.nanos - then.nanos == days
            * 86_400_000_000_000 + rest,
    ensures
        days_between(then, now) == days,
        days_between(now, then) == -days,
        days_between(now, now) == 0,
        elapsed(now, then) == -elapsed(then, now),
{
    let d = elapsed(then, now);
    assert(d == days * 86_400_000_000_000 + rest);
    assert(d / 86_400_000_000_000 == days) by (nonlinear_arith)
        requires
            d == days * 86_400_000_000_000 + rest,
            0 <= rest < 86_400_000_000_000,
            days >= 0,
    ;
}

/// A leap second counts: it lies between itself and what follows on its day.
pub proof fn law_leap_seconds_count(then: Moment, now: Moment)
    requires
        SECOND <= then.nanos < 2 * SECOND,
        now.nanos < SECOND,
        time_of_day(now) > time_of_day(then),
    ensures
        elapsed(then, now) == (now.secs - then.secs) * 1_000_000_000 + now.nanos - (then.nanos
            - 1_000_000_000),
        elapsed(now, then) == -elapsed(then, now),
{
}

} // verus!
