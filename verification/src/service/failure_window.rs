//! How recently the primary provider has been failing. Time erases a failure;
//! a success in between does not. Times are nanoseconds on a monotonic clock.
use vstd::prelude::*;

verus! {

/// How far back a rescue still counts: fifteen minutes.
pub const STICKY_FALLBACK_WINDOW: u64 = 900_000_000_000;

/// Whether a failure at `at` still counts at `now`.
pub open spec fn counts(at: u64, now: u64, window: u64) -> bool {
    at + window >= now
}

/// The failures that still count, in order.
pub open spec fn recent(failures: Seq<u64>, now: u64, window: u64) -> Seq<u64>
    decreases failures.len(),
{
    if failures.len() == 0 {
        failures
    } else if counts(failures.last(), now, window) {
        recent(failures.drop_last(), now, window).push(failures.last())
    } else {
        recent(failures.drop_last(), now, window)
    }
}

/// The time from which on failures count; `None` where the window reaches back
/// past the clock's origin, so that all of them do.
fn cutoff(now: u64, window: u64) -> (r: Option<u64>)
    ensures
        match r {
            Some(c) => c == now - window,
            None => window > now,
        },
{
    if now >= window {
        Some(now - window)
    } else {
        None
    }
}

proof fn lemma_recent(failures: Seq<u64>, now: u64, window: u64)
    ensures
        recent(failures, now, window).len() <= failures.len(),
        window > now ==> recent(failures, now, window) == failures,
    decreases failures.len(),
{
    if failures.len() > 0 {
        lemma_recent(failures.drop_last(), now, window);
        if window > now {
            assert(failures.drop_last().push(failures.last()) =~= failures);
        }
    }
}

/// Drops the failures that have aged out and records one at `now`; the result
/// is how many count, the new one among them.
pub fn record(failures: &mut Vec<u64>, now: u64, window: u64) -> (r: u32)
    requires
        old(failures)@.len() < u32::MAX,
    ensures
        final(failures)@ == recent(old(failures)@, now, window).push(now),
        r == final(failures)@.len(),
{
    let ghost all = failures@;
    proof {
        lemma_recent(all, now, window);
    }
    if let Some(c) = cutoff(now, window) {
        let mut kept: Vec<u64> = Vec::new();
        let mut i: usize = 0;
        assert(all.take(0) =~= Seq::empty());
        while i < failures.len()
            invariant
                i <= failures.len(),
                failures@ == all,
                c == now - window,
                kept@ == recent(all.take(i as int), now, window),
            decreases failures.len() - i,
        {
            assert(all.take(i + 1).drop_last() =~= all.take(i as int));
            if failures[i] >= c {
                kept.push(failures[i]);
            }
            i = i + 1;
        }
        assert(all.take(i as int) =~= all);
        *failures = kept;
    }
    failures.push(now);
    failures.len() as u32
}

/// How many failures count at `now`.
pub fn count(failures: &Vec<u64>, now: u64, window: u64) -> (r: u32)
    requires
        failures@.len() <= u32::MAX,
    ensures
        r == recent(failures@, now, window).len(),
{
    proof {
        lemma_recent(failures@, now, window);
    }
    match cutoff(now, window) {
        Some(c) => {
            let mut n: u32 = 0;
            let mut i: usize = 0;
            assert(failures@.take(0) =~= Seq::empty());
            while i < failures.len()
                invariant
                    i <= failures.len(),
                    failures@.len() <= u32::MAX,
                    c == now - window,
                    n <= i,
                    n == recent(failures@.take(i as int), now, window).len(),
                decreases failures.len() - i,
            {
                assert(failures@.take(i + 1).drop_last() =~= failures@.take(i as int));
                if failures[i] >= c {
                    n = n + 1;
                }
                i = i + 1;
            }
            assert(failures@.take(i as int) =~= failures@);
            n
        },
        None => failures.len() as u32,
    }
}

proof fn lemma_recent_twice(failures: Seq<u64>, now: u64, window: u64)
    ensures
        recent(recent(failures, now, window), now, window) == recent(failures, now, window),
    decreases failures.len(),
{
    if failures.len() > 0 {
        let t = failures.drop_last();
        lemma_recent_twice(t, now, window);
        if counts(failures.last(), now, window) {
            let r = recent(t, now, window);
            assert(r.push(failures.last()).drop_last() =~= r);
        }
    }
}

/// What is recorded is what is counted: a count at the same time gives what
/// the record gave.
pub proof fn law_recorded_counts(failures: Seq<u64>, now: u64, window: u64)
    ensures
        recent(recent(failures, now, window).push(now), now, window) == recent(
            failures,
            now,
            window,
        ).push(now),
{
    lemma_recent_twice(failures, now, window);
    let r = recent(failures, now, window);
    assert(r.push(now).drop_last() =~= r);
}

/// A failure ages out and does not come back: what does not count now does not
/// count later.
pub proof fn law_only_time_erases(failures: Seq<u64>, now: u64, later: u64, window: u64)
    requires
        now <= later,
    ensures
        recent(failures, later, window) == recent(recent(failures, now, window), later, window),
    decreases failures.len(),
{
    if failures.len() > 0 {
        let t = failures.drop_last();
        law_only_time_erases(t, now, later, window);
        if counts(failures.last(), now, window) {
            let r = recent(t, now, window);
            assert(r.push(failures.last()).drop_last() =~= r);
        }
    }
}

proof fn lemma_recent_adds(a: Seq<u64>, b: Seq<u64>, now: u64, window: u64)
    ensures
        recent(a + b, now, window) == recent(a, now, window) + recent(b, now, window),
    decreases b.len(),
{
    if b.len() == 0 {
        assert(a + b =~= a);
        assert(recent(a, now, window) + recent(b, now, window) =~= recent(a, now, window));
    } else {
        assert((a + b).drop_last() =~= a + b.drop_last());
        lemma_recent_adds(a, b.drop_last(), now, window);
        assert(recent(a + b, now, window) =~= recent(a, now, window) + recent(b, now, window));
    }
}

/// A failure counts as long as it is no older than the window, which reaches
/// back fifteen minutes, and each that counts is kept in its place.
pub proof fn law_window_reaches_back(a: Seq<u64>, at: u64, b: Seq<u64>, now: u64, window: u64)
    ensures
        now - at <= window ==> recent(a.push(at) + b, now, window) == recent(a, now, window).push(
            at,
        ) + recent(b, now, window),
        now - at > window ==> recent(a.push(at) + b, now, window) == recent(a, now, window)
            + recent(b, now, window),
        STICKY_FALLBACK_WINDOW == 15 * 60 * 1_000_000_000,
{
    lemma_recent_adds(a.push(at), b, now, window);
    assert(a.push(at).drop_last() =~= a);
}

} // verus!
