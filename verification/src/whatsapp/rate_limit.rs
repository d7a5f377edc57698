//! Outbound rate limiting for WhatsApp.
//!
//! * Token bucket (`messages_per_minute`): burst capacity equals the
//!   per-minute rate, refilled continuously. Over-budget sends are paced,
//!   never dropped: [`Decision`] has no reject variant.
//! * Rolling 24 h cap (`daily_cap`): hard stop. On saturation the send parks in
//!   a FIFO queue that is flushed as the window slides.
//! * One owner alert per saturation episode, re-armed when the window drops
//!   back under the cap.
//! * Owner bypass: sends addressed to the owner skip the budget entirely.
//!
//! Time is a count of nanoseconds on a monotonic clock, handed in by the
//! caller. The bucket level is exact: one token is worth as many units as a
//! minute has nanoseconds, so a rate of `r` per minute refills `r` units per
//! nanosecond.
use std::collections::VecDeque;
use vstd::prelude::*;

use crate::search::{dec_u64, dec_usize, decimal, lemma_tells, tells};
use crate::text::cat3;

verus! {

/// Bucket units in one token: the nanoseconds of a minute.
pub const TOKEN: u128 = 60_000_000_000;

/// The rolling window, in nanoseconds: 24 hours.
pub const DAY: u64 = 86_400_000_000_000;

/// The two budgets; `0` switches one off.
pub struct WaRateLimitConfig {
    pub messages_per_minute: u32,
    pub daily_cap: u32,
}

/// A send parked while the daily cap is saturated.
pub struct QueuedSend {
    pub jid: String,
    pub text: String,
}

/// Admission decision of [`admit_send`].
pub enum Decision {
    /// Budget consumed (one token and one window timestamp): send now.
    SendNow,
    /// Bucket empty: sleep this many nanoseconds, then admit again. Nothing
    /// was consumed.
    Pace(u64),
    /// Rolling cap full: park the send. `alert` is true exactly once per
    /// saturation episode.
    Queue { alert: bool },
}

/// Budget state.
pub struct LimiterState {
    /// Bucket level in units.
    pub tokens: u128,
    /// Last refill; `None` while nothing was ever admitted (the bucket starts
    /// full).
    pub last_refill: Option<u64>,
    /// Send timestamps of the rolling window, oldest first.
    pub window: VecDeque<u64>,
    /// True while a saturation episode is in flight.
    pub saturation: bool,
    /// Parked sends, oldest first.
    pub queue: VecDeque<QueuedSend>,
}

/// The budget part of a state: all of it but the queue.
pub struct Budget {
    pub tokens: nat,
    pub last_refill: Option<u64>,
    pub window: Seq<u64>,
    pub saturation: bool,
}

impl LimiterState {
    /// The bucket never holds more than the largest configurable capacity.
    pub open spec fn wf(&self) -> bool {
        self.tokens <= u32::MAX * TOKEN
    }

    pub open spec fn budget(&self) -> Budget {
        Budget {
            tokens: self.tokens as nat,
            last_refill: self.last_refill,
            window: self.window@,
            saturation: self.saturation,
        }
    }

    /// A fresh limiter: nothing sent, nothing queued.
    pub fn new() -> (s: Self)
        ensures
            s.wf(),
            s.budget() == (Budget {
                tokens: 0,
                last_refill: None,
                window: Seq::empty(),
                saturation: false,
            }),
            s.queue@ == Seq::<QueuedSend>::empty(),
    {
        LimiterState {
            tokens: 0,
            last_refill: None,
            window: VecDeque::new(),
            saturation: false,
            queue: VecDeque::new(),
        }
    }

    /// Queued-send count.
    pub fn queue_len(&self) -> (n: usize)
        ensures
            n == self.queue@.len(),
    {
        self.queue.len()
    }

    /// True while a saturation episode is in flight.
    pub fn saturated(&self) -> (b: bool)
        ensures
            b == self.saturation,
    {
        self.saturation
    }
}

impl Default for LimiterState {
    fn default() -> (s: Self)
        ensures
            s.wf(),
            s.budget() == (Budget {
                tokens: 0,
                last_refill: None,
                window: Seq::empty(),
                saturation: false,
            }),
            s.queue@ == Seq::<QueuedSend>::empty(),
    {
        LimiterState::new()
    }
}

pub open spec fn bucket_on(cfg: &WaRateLimitConfig) -> bool {
    cfg.messages_per_minute > 0
}

pub open spec fn cap_on(cfg: &WaRateLimitConfig) -> bool {
    cfg.daily_cap > 0
}

/// Bucket level after a continuous refill up to `now`, never above the
/// capacity; a bucket that was never used is full.
pub open spec fn refilled(b: Budget, cfg: &WaRateLimitConfig, now: u64) -> nat {
    let capacity = cfg.messages_per_minute as nat * TOKEN as nat;
    match b.last_refill {
        None => capacity,
        Some(last) => {
            let elapsed = if now >= last {
                (now - last) as nat
            } else {
                0
            };
            let level = b.tokens + elapsed * cfg.messages_per_minute as nat;
            if level < capacity {
                level
            } else {
                capacity
            }
        },
    }
}

/// A timestamp that the 24 h window has left behind.
pub open spec fn expired(t: u64, now: u64) -> bool {
    t + DAY <= now
}

/// The window without its leading expired timestamps.
pub open spec fn pruned(window: Seq<u64>, now: u64) -> Seq<u64>
    decreases window.len(),
{
    if window.len() > 0 && expired(window[0], now) {
        pruned(window.drop_first(), now)
    } else {
        window
    }
}

/// A quotient rounded to the nearest whole number, and to the even one of two
/// that are equally near.
pub open spec fn nearest(part: nat, whole: nat) -> nat {
    let down = part / whole;
    let rest = part % whole;
    if 2 * rest < whole || (2 * rest == whole && down % 2 == 0) {
        down
    } else {
        down + 1
    }
}

/// Nanoseconds until a bucket at `level` holds a whole token, to the nearest.
pub open spec fn refill_wait(level: nat, cfg: &WaRateLimitConfig) -> nat {
    nearest((TOKEN - level) as nat, cfg.messages_per_minute as nat)
}

/// The budget once the bucket is refilled and the window pruned, before
/// anything is decided.
pub open spec fn settled(b: Budget, cfg: &WaRateLimitConfig, now: u64) -> Budget {
    Budget {
        tokens: if bucket_on(cfg) {
            refilled(b, cfg, now)
        } else {
            b.tokens
        },
        last_refill: if bucket_on(cfg) {
            Some(now)
        } else {
            b.last_refill
        },
        window: if cap_on(cfg) {
            pruned(b.window, now)
        } else {
            b.window
        },
        saturation: b.saturation,
    }
}

/// Whether the rolling window is full.
pub open spec fn capped(b: Budget, cfg: &WaRateLimitConfig, now: u64) -> bool {
    cap_on(cfg) && pruned(b.window, now).len() >= cfg.daily_cap
}

/// Whether the bucket holds less than one token.
pub open spec fn drained(b: Budget, cfg: &WaRateLimitConfig, now: u64) -> bool {
    bucket_on(cfg) && refilled(b, cfg, now) < TOKEN
}

/// What is decided on a send, and the budget it leaves.
pub open spec fn admission(
    b: Budget,
    cfg: &WaRateLimitConfig,
    now: u64,
    is_owner: bool,
) -> (Budget, Decision) {
    let s = settled(b, cfg, now);
    if is_owner || (!bucket_on(cfg) && !cap_on(cfg)) {
        (b, Decision::SendNow)
    } else if capped(b, cfg, now) {
        (Budget { saturation: true, ..s }, Decision::Queue { alert: !b.saturation })
    } else {
        let open = Budget {
            saturation: if cap_on(cfg) {
                false
            } else {
                b.saturation
            },
            ..s
        };
        if drained(b, cfg, now) {
            (open, Decision::Pace(refill_wait(s.tokens, cfg) as u64))
        } else {
            (
                Budget {
                    tokens: if bucket_on(cfg) {
                        (s.tokens - TOKEN) as nat
                    } else {
                        s.tokens
                    },
                    window: if cap_on(cfg) {
                        s.window.push(now)
                    } else {
                        s.window
                    },
                    ..open
                },
                Decision::SendNow,
            )
        }
    }
}

proof fn lemma_refill_bound(tokens: nat, elapsed: nat, rate: nat)
    requires
        tokens <= u32::MAX * TOKEN,
        elapsed <= u64::MAX,
        rate <= u32::MAX,
    ensures
        0 <= elapsed * rate <= u64::MAX * u32::MAX,
        tokens + elapsed * rate <= u128::MAX,
        rate * TOKEN <= u32::MAX * TOKEN,
{
    assert(0 <= elapsed * rate <= u64::MAX * u32::MAX) by (nonlinear_arith)
        requires
            elapsed <= u64::MAX,
            rate <= u32::MAX,
    ;
    assert(u64::MAX * u32::MAX + u32::MAX * TOKEN <= u128::MAX);
}

/// Rounding moves a quotient by half of the divisor at most, and never above
/// what is divided.
proof fn lemma_nearest(part: nat, whole: nat)
    requires
        0 < whole,
        0 < part,
    ensures
        nearest(part, whole) <= part,
        -(whole as int) <= 2 * (part - nearest(part, whole) * whole) <= whole,
{
    let down = part / whole;
    let rest = part % whole;
    vstd::arithmetic::div_mod::lemma_fundamental_div_mod(part as int, whole as int);
    assert(0 <= rest < whole);
    assert(down * whole == part - rest) by (nonlinear_arith)
        requires
            part == whole * down + rest,
    ;
    assert((down + 1) * whole == down * whole + whole) by (nonlinear_arith);
    assert(down <= part && (whole > 1 ==> down < part)) by (nonlinear_arith)
        requires
            down * whole == part - rest,
            0 < part,
            0 <= rest < whole,
    ;
}

/// Decides on one send. On [`Decision::SendNow`] one token and one window
/// timestamp are consumed; the other decisions consume nothing.
pub fn admit_send(
    state: &mut LimiterState,
    cfg: &WaRateLimitConfig,
    now: u64,
    is_owner: bool,
) -> (d: Decision)
    requires
        old(state).wf(),
    ensures
        final(state).wf(),
        final(state).queue == old(state).queue,
        (final(state).budget(), d) == admission(old(state).budget(), cfg, now, is_owner),
{
    if is_owner {
        return Decision::SendNow;
    }
    let bucket = cfg.messages_per_minute > 0;
    let cap = cfg.daily_cap > 0;
    if !bucket && !cap {
        return Decision::SendNow;
    }
    let rate: u128 = cfg.messages_per_minute as u128;
    if bucket {
        proof {
            lemma_refill_bound(0, 0, rate as nat);
        }
        let capacity: u128 = rate * TOKEN;
        match state.last_refill {
            Some(last) => {
                let elapsed: u128 = if now >= last {
                    (now - last) as u128
                } else {
                    0
                };
                proof {
                    lemma_refill_bound(state.tokens as nat, elapsed as nat, rate as nat);
                }
                let level: u128 = state.tokens + elapsed * rate;
                state.tokens = if level < capacity {
                    level
                } else {
                    capacity
                };
            },
            None => {
                state.tokens = capacity;
            },
        }
        state.last_refill = Some(now);
    }
    assert(state.tokens == settled(old(state).budget(), cfg, now).tokens);
    if cap {
        let mut stop = false;
        while !stop
            invariant
                state.wf(),
                state.queue == old(state).queue,
                state.tokens == settled(old(state).budget(), cfg, now).tokens,
                state.last_refill == settled(old(state).budget(), cfg, now).last_refill,
                state.saturation == old(state).saturation,
                pruned(state.window@, now) == pruned(old(state).window@, now),
                stop ==> state.window@ == pruned(old(state).window@, now),
            decreases state.window@.len(), (if stop { 0int } else { 1int }),
        {
            if state.window.len() == 0 {
                stop = true;
            } else {
                let front: u64 = state.window[0];
                if now >= DAY && front <= now - DAY {
                    let ghost before = state.window@;
                    state.window.pop_front();
                    assert(state.window@ =~= before.drop_first());
                } else {
                    stop = true;
                }
            }
        }
        if state.window.len() as u64 >= cfg.daily_cap as u64 {
            let alert = !state.saturation;
            state.saturation = true;
            return Decision::Queue { alert };
        }
        state.saturation = false;
    }
    if bucket {
        if state.tokens < TOKEN {
            proof {
                lemma_nearest((TOKEN - state.tokens) as nat, rate as nat);
            }
            let gap: u128 = TOKEN - state.tokens;
            let down: u128 = gap / rate;
            let rest: u128 = gap % rate;
            let wait: u128 = if 2 * rest < rate || (2 * rest == rate && down % 2 == 0) {
                down
            } else {
                down + 1
            };
            return Decision::Pace(wait as u64);
        }
        state.tokens = state.tokens - TOKEN;
    }
    if cap {
        state.window.push_back(now);
    }
    Decision::SendNow
}

/// How many of the `n` oldest queued sends the budget lets out at `now`, and
/// the budget that is left: one admission each, up to the first that is not
/// granted.
pub open spec fn flush(b: Budget, cfg: &WaRateLimitConfig, now: u64, n: nat) -> (nat, Budget)
    decreases n,
{
    if n == 0 {
        (0, b)
    } else {
        let (after, d) = admission(b, cfg, now, false);
        if d is SendNow {
            let (k, rest) = flush(after, cfg, now, (n - 1) as nat);
            (k + 1, rest)
        } else {
            (0, after)
        }
    }
}

/// Pops the queued sends that the recovered budget allows, oldest first. Each
/// pop consumes budget through [`admit_send`]; the first decision that is not
/// [`Decision::SendNow`] stops the flush.
pub fn drain_ready(state: &mut LimiterState, cfg: &WaRateLimitConfig, now: u64) -> (out: Vec<
    QueuedSend,
>)
    requires
        old(state).wf(),
    ensures
        final(state).wf(),
        out@ + final(state).queue@ == old(state).queue@,
        (out@.len(), final(state).budget()) == flush(
            old(state).budget(),
            cfg,
            now,
            old(state).queue@.len(),
        ),
{
    let mut out: Vec<QueuedSend> = Vec::new();
    let mut stop = false;
    assert(out@ + state.queue@ =~= old(state).queue@);
    while !stop && state.queue.len() > 0
        invariant
            state.wf(),
            out@ + state.queue@ == old(state).queue@,
            !stop ==> ({
                let whole = flush(old(state).budget(), cfg, now, old(state).queue@.len());
                let rest = flush(state.budget(), cfg, now, state.queue@.len());
                whole == (out@.len() + rest.0, rest.1)
            }),
            stop ==> flush(old(state).budget(), cfg, now, old(state).queue@.len()) == (
                out@.len(),
                state.budget(),
            ),
        decreases state.queue@.len(), (if stop { 0int } else { 1int }),
    {
        let ghost queue = state.queue@;
        match admit_send(state, cfg, now, false) {
            Decision::SendNow => {
                if let Some(item) = state.queue.pop_front() {
                    out.push(item);
                    assert(out@ + state.queue@ =~= old(state).queue@);
                }
            },
            _ => {
                stop = true;
            },
        }
    }
    out
}

// ------------------------------------------------------------ the limiter
/// What becomes of one send.
pub enum GateOutcome {
    /// Proceed with the send now (budget consumed, or owner bypass).
    SendNow,
    /// Parked at this 1-based position of the queue.
    Queued { position: usize },
}

/// One step of admission: done, or sleep that many nanoseconds and step again.
pub enum GateStep {
    Done(GateOutcome),
    Wait(u64),
}

/// One step of admission for an ephemeral send.
pub enum EphemeralStep {
    Proceed,
    Drop,
    Wait(u64),
}

/// The channel-wide limiter: budget state and saturation-alert flags.
pub struct WhatsappRateLimiter {
    pub state: LimiterState,
    /// Set on the first queued send of an episode.
    pub alert_pending: bool,
    /// True while this episode's alert has been delivered.
    pub alert_sent: bool,
}

/// What a queued send holds.
pub open spec fn is_send(q: QueuedSend, jid: Seq<char>, text: Seq<char>) -> bool {
    q.jid@ == jid && q.text@ == text
}

impl WhatsappRateLimiter {
    pub open spec fn wf(&self) -> bool {
        self.state.wf()
    }

    pub fn new() -> (r: Self)
        ensures
            r.wf(),
            r.state.queue@.len() == 0,
            r.state.budget().window.len() == 0,
            r.state.budget().last_refill is None,
            !r.state.saturation,
            !r.alert_pending,
            !r.alert_sent,
    {
        WhatsappRateLimiter { state: LimiterState::new(), alert_pending: false, alert_sent: false }
    }

    /// Admits one outbound send. An empty bucket asks the caller to sleep and
    /// step again; a full window parks the text at the end of the queue.
    pub fn gate(
        &mut self,
        cfg: &WaRateLimitConfig,
        now: u64,
        jid: &str,
        text: &str,
        is_owner: bool,
    ) -> (r: GateStep)
        requires
            old(self).wf(),
            old(self).state.queue@.len() < usize::MAX,
        ensures
            final(self).wf(),
            final(self).alert_sent == old(self).alert_sent,
            final(self).state.budget() == admission(
                old(self).state.budget(),
                cfg,
                now,
                is_owner,
            ).0,
            match admission(old(self).state.budget(), cfg, now, is_owner).1 {
                Decision::SendNow => r == GateStep::Done(GateOutcome::SendNow) && final(self).state.queue == old(self).state.queue && final(self).alert_pending == old(self).alert_pending,
                Decision::Pace(wait) => r == GateStep::Wait(wait) && final(self).state.queue == old(self).state.queue && final(self).alert_pending == old(self).alert_pending,
                Decision::Queue { alert } => {
                    &&& r == GateStep::Done(
                        GateOutcome::Queued {
                            position: (old(self).state.queue@.len() + 1) as usize,
                        },
                    )
                    &&& final(self).state.queue@.len() == old(self).state.queue@.len() + 1
                    &&& final(self).state.queue@.drop_last() == old(self).state.queue@
                    &&& is_send(final(self).state.queue@.last(), jid@, text@)
                    &&& final(self).alert_pending == (old(self).alert_pending || alert)
                },
            },
    {
        match admit_send(&mut self.state, cfg, now, is_owner) {
            Decision::SendNow => GateStep::Done(GateOutcome::SendNow),
            Decision::Pace(wait) => GateStep::Wait(wait),
            Decision::Queue { alert } => {
                let ghost before = self.state.queue@;
                self.state.queue.push_back(
                    QueuedSend { jid: jid.to_owned(), text: text.to_owned() },
                );
                assert(self.state.queue@.drop_last() =~= before);
                let position: usize = self.state.queue.len();
                if alert {
                    self.alert_pending = true;
                }
                GateStep::Done(GateOutcome::Queued { position })
            },
        }
    }

    /// Pacing-only admission for ephemeral sends: the bucket paces as usual,
    /// but a saturated window drops the send instead of queueing it. A
    /// saturating episode still arms the owner alert.
    pub fn gate_ephemeral(&mut self, cfg: &WaRateLimitConfig, now: u64, is_owner: bool) -> (r:
        EphemeralStep)
        requires
            old(self).wf(),
        ensures
            final(self).wf(),
            final(self).alert_sent == old(self).alert_sent,
            final(self).state.queue == old(self).state.queue,
            final(self).state.budget() == admission(
                old(self).state.budget(),
                cfg,
                now,
                is_owner,
            ).0,
            match admission(old(self).state.budget(), cfg, now, is_owner).1 {
                Decision::SendNow => r == EphemeralStep::Proceed && final(self).alert_pending
                    == old(self).alert_pending,
                Decision::Pace(wait) => r == EphemeralStep::Wait(wait) && final(self).alert_pending == old(self).alert_pending,
                Decision::Queue { alert } => r == EphemeralStep::Drop && final(self).alert_pending == (old(self).alert_pending || alert),
            },
    {
        match admit_send(&mut self.state, cfg, now, is_owner) {
            Decision::SendNow => EphemeralStep::Proceed,
            Decision::Pace(wait) => EphemeralStep::Wait(wait),
            Decision::Queue { alert } => {
                if alert {
                    self.alert_pending = true;
                }
                EphemeralStep::Drop
            },
        }
    }

    /// Queue depth.
    pub fn queue_len(&self) -> (n: usize)
        ensures
            n == self.state.queue@.len(),
    {
        self.state.queue_len()
    }

    /// One drainer pass: flushes queued sends while the budget allows, and
    /// re-arms the alert once the saturation episode is over.
    pub fn drain(&mut self, cfg: &WaRateLimitConfig, now: u64) -> (ready: Vec<QueuedSend>)
        requires
            old(self).wf(),
        ensures
            final(self).wf(),
            ready@ + final(self).state.queue@ == old(self).state.queue@,
            (ready@.len(), final(self).state.budget()) == flush(
                old(self).state.budget(),
                cfg,
                now,
                old(self).state.queue@.len(),
            ),
            final(self).alert_pending == (final(self).state.saturation && old(self).alert_pending),
            final(self).alert_sent == (final(self).state.saturation && old(self).alert_sent),
    {
        let ready = drain_ready(&mut self.state, cfg, now);
        if !self.state.saturated() {
            self.alert_pending = false;
            self.alert_sent = false;
        }
        ready
    }

    /// Puts sends that were not delivered back in front of the queue, in
    /// their order.
    pub fn requeue_front(&mut self, items: Vec<QueuedSend>)
        requires
            old(self).wf(),
            items@.len() + old(self).state.queue@.len() <= usize::MAX,
        ensures
            final(self).wf(),
            final(self).state.queue@ == items@ + old(self).state.queue@,
            final(self).state.budget() == old(self).state.budget(),
            final(self).alert_pending == old(self).alert_pending,
            final(self).alert_sent == old(self).alert_sent,
    {
        let mut items = items;
        let ghost all = items@;
        while items.len() > 0
            invariant
                self.wf(),
                items@ + self.state.queue@ == all + old(self).state.queue@,
                self.state.budget() == old(self).state.budget(),
                self.alert_pending == old(self).alert_pending,
                self.alert_sent == old(self).alert_sent,
            decreases items.len(),
        {
            let ghost before = items@;
            let ghost queue = self.state.queue@;
            if let Some(item) = items.pop() {
                self.state.queue.push_front(item);
                assert(items@ + self.state.queue@ =~= before + queue);
            }
        }
        assert(items@ + self.state.queue@ =~= self.state.queue@);
    }

    /// True when the owner is owed a saturation alert.
    pub fn alert_due(&self) -> (b: bool)
        ensures
            b == (self.alert_pending && !self.alert_sent),
    {
        self.alert_pending && !self.alert_sent
    }

    /// Marks this episode's alert delivered.
    pub fn mark_alert_sent(&mut self)
        ensures
            final(self).state == old(self).state,
            final(self).alert_pending == old(self).alert_pending,
            final(self).alert_sent,
    {
        self.alert_sent = true;
    }
}

/// Seconds between two drainer passes.
pub const DRAIN_TICK_SECONDS: u64 = 60;

/// The alert sent to the owner when the daily cap is reached.
pub open spec fn alert_text(header: Seq<char>, daily_cap: nat, queued: nat) -> Seq<char> {
    header + "\n\nWhatsApp daily cap reached ("@ + decimal(daily_cap)
        + " messages / rolling 24h). "@ + decimal(queued)
        + " message(s) queued; they flush automatically as the window slides. Messages to you are never limited."@
}

/// The alert sent to the owner when the daily cap is reached.
pub fn owner_alert(header: &str, daily_cap: u32, queued: usize) -> (r: String)
    ensures
        r@ == alert_text(header@, daily_cap as nat, queued as nat),
{
    let mut r = cat3(
        header,
        "\n\nWhatsApp daily cap reached (",
        dec_u64(daily_cap as u64).as_str(),
    );
    r.append(" messages / rolling 24h). ");
    r.append(dec_usize(queued).as_str());
    r.append(
        " message(s) queued; they flush automatically as the window slides. Messages to you are never limited.",
    );
    r
}

/// What became of one flushed send.
pub enum FlushEvent {
    /// There is no connected client.
    NoClient,
    /// The recipient is not a JID.
    BadJid,
    Sent,
    Failed,
}

/// What the drainer does next.
pub enum FlushAction {
    /// Put this send and all that follow it back in front of the queue, and
    /// stop this pass.
    RequeueRest,
    /// Drop this send and go on.
    Skip,
    /// Record this send in the history and go on.
    Persist,
}

/// The drainer's reaction to what became of one flushed send.
pub fn flush_step(event: FlushEvent) -> (a: FlushAction)
    ensures
        a is RequeueRest <==> event is NoClient || event is Failed,
        a is Skip <==> event is BadJid,
        a is Persist <==> event is Sent,
{
    match event {
        FlushEvent::NoClient => FlushAction::RequeueRest,
        FlushEvent::Failed => FlushAction::RequeueRest,
        FlushEvent::BadJid => FlushAction::Skip,
        FlushEvent::Sent => FlushAction::Persist,
    }
}

// -------------------------------------------------------------------- laws
/// Sends to the owner leave the budget as it is and always go out.
pub proof fn law_owner_bypass(b: Budget, cfg: &WaRateLimitConfig, now: u64)
    ensures
        admission(b, cfg, now, true) == (b, Decision::SendNow),
{
}

/// With both budgets off everything goes out.
pub proof fn law_disabled(b: Budget, cfg: &WaRateLimitConfig, now: u64, is_owner: bool)
    requires
        cfg.messages_per_minute == 0,
        cfg.daily_cap == 0,
    ensures
        admission(b, cfg, now, is_owner) == (b, Decision::SendNow),
{
}

/// A paced or queued send consumes nothing: bucket and window are those of
/// the refilled, pruned budget.
pub proof fn law_refusal_consumes_nothing(b: Budget, cfg: &WaRateLimitConfig, now: u64)
    requires
        !(admission(b, cfg, now, false).1 is SendNow),
    ensures
        admission(b, cfg, now, false).0.tokens == settled(b, cfg, now).tokens,
        admission(b, cfg, now, false).0.window == settled(b, cfg, now).window,
{
}

/// Pacing ends: past the sleep that it asks for, the bucket holds a token and
/// the send is not paced again. At its very end the bucket may lack what half
/// a nanosecond brings; the send is then paced by no time at all.
pub proof fn law_pacing_ends(b: Budget, cfg: &WaRateLimitConfig, now: u64, later: u64)
    requires
        admission(b, cfg, now, false).1 is Pace,
        later >= now + admission(b, cfg, now, false).1->Pace_0,
    ensures
        ({
            let wait = admission(b, cfg, now, false).1->Pace_0;
            let again = admission(admission(b, cfg, now, false).0, cfg, later, false).1;
            &&& later > now + wait ==> !(again is Pace)
            &&& again is Pace ==> again->Pace_0 == 0
        }),
{
    let rate = cfg.messages_per_minute as nat;
    let level = refilled(b, cfg, now);
    let gap = (TOKEN - level) as nat;
    lemma_nearest(gap, rate);
    let wait = refill_wait(level, cfg);
    let elapsed = (later - now) as nat;
    assert(elapsed * rate >= wait * rate) by (nonlinear_arith)
        requires
            elapsed >= wait,
    ;
    if elapsed > wait {
        assert(elapsed * rate >= wait * rate + rate) by (nonlinear_arith)
            requires
                elapsed >= wait + 1,
        ;
    }
    assert(rate * TOKEN as nat >= TOKEN) by (nonlinear_arith)
        requires
            rate > 0,
    ;
    let left = gap - elapsed * rate;
    if 0 < left {
        assert(elapsed == wait);
        assert(left < rate);
        assert(left as nat / rate == 0 && left as nat % rate == left) by {
            vstd::arithmetic::div_mod::lemma_basic_div(left, rate as int);
            vstd::arithmetic::div_mod::lemma_small_mod(left as nat, rate);
        }
    }
}

/// The alert flag is raised once per episode: after one queued send the next
/// queued send raises none.
pub proof fn law_alert_once(b: Budget, cfg: &WaRateLimitConfig, now: u64, later: u64)
    requires
        admission(b, cfg, now, false).1 is Queue,
        admission(admission(b, cfg, now, false).0, cfg, later, false).1 is Queue,
    ensures
        admission(admission(b, cfg, now, false).0, cfg, later, false).1 == (Decision::Queue {
            alert: false,
        }),
{
}

/// Once the window slides back under the cap the alert is armed again.
pub proof fn law_alert_rearms(b: Budget, cfg: &WaRateLimitConfig, now: u64)
    requires
        cap_on(cfg),
        !capped(b, cfg, now),
    ensures
        !admission(b, cfg, now, false).0.saturation,
{
}

/// Oldest first, and nothing from the future.
pub open spec fn chronological(window: Seq<u64>, now: u64) -> bool {
    &&& forall|i: int, j: int| 0 <= i <= j < window.len() ==> window[i] <= window[j]
    &&& forall|i: int| 0 <= i < window.len() ==> window[i] <= now
}

/// On a window in order, pruning removes exactly what has expired.
pub proof fn law_pruned_is_filter(window: Seq<u64>, now: u64)
    requires
        chronological(window, now),
    ensures
        forall|i: int|
            0 <= i < pruned(window, now).len() ==> !expired(#[trigger] pruned(window, now)[i], now),
        forall|i: int|
            0 <= i < window.len() && !expired(#[trigger] window[i], now) ==> pruned(
                window,
                now,
            ).contains(window[i]),
        chronological(pruned(window, now), now),
    decreases window.len(),
{
    if window.len() > 0 && expired(window[0], now) {
        let rest = window.drop_first();
        assert(chronological(rest, now)) by {
            assert forall|i: int, j: int| 0 <= i <= j < rest.len() implies rest[i] <= rest[j] by {
                assert(rest[i] == window[i + 1] && rest[j] == window[j + 1]);
            }
        }
        law_pruned_is_filter(rest, now);
        assert forall|i: int|
            0 <= i < window.len() && !expired(#[trigger] window[i], now) implies pruned(
            window,
            now,
        ).contains(window[i]) by {
            assert(rest[i - 1] == window[i]);
        }
    } else {
        assert forall|i: int| 0 <= i < window.len() implies !expired(window[i], now) by {
            assert(window[0] <= window[i]);
        }
        assert forall|i: int| 0 <= i < window.len() implies window.contains(window[i]) by {}
    }
}

/// The daily cap holds: after a granted send the window holds at most
/// `daily_cap` sends, all of the last 24 hours, in order, with this one last.
pub proof fn law_daily_cap(b: Budget, cfg: &WaRateLimitConfig, now: u64)
    requires
        cap_on(cfg),
        chronological(b.window, now),
        admission(b, cfg, now, false).1 is SendNow,
    ensures
        ({
            let w = admission(b, cfg, now, false).0.window;
            &&& w.len() <= cfg.daily_cap
            &&& w.last() == now
            &&& chronological(w, now)
            &&& forall|i: int| 0 <= i < w.len() ==> !expired(#[trigger] w[i], now)
        }),
{
    law_pruned_is_filter(b.window, now);
    let p = pruned(b.window, now);
    let w = p.push(now);
    assert(admission(b, cfg, now, false).0.window == w);
    assert forall|i: int| 0 <= i < w.len() implies !expired(#[trigger] w[i], now) by {
        if i < p.len() {
            assert(!expired(p[i], now));
        }
    }
}

/// The burst is bounded: at one instant the bucket grants at most
/// `messages_per_minute` sends.
pub proof fn law_burst(b: Budget, cfg: &WaRateLimitConfig, now: u64, n: nat)
    requires
        bucket_on(cfg),
        b.last_refill == Some(now),
        b.tokens <= cfg.messages_per_minute as nat * TOKEN as nat,
    ensures
        flush(b, cfg, now, n).0 * TOKEN <= b.tokens,
    decreases n,
{
    if n > 0 {
        let (after, d) = admission(b, cfg, now, false);
        assert(refilled(b, cfg, now) == b.tokens) by {
            assert(0nat * cfg.messages_per_minute as nat == 0);
        }
        if d is SendNow {
            law_burst(after, cfg, now, (n - 1) as nat);
            let k = flush(after, cfg, now, (n - 1) as nat).0;
            assert((k + 1) * TOKEN == k * TOKEN + TOKEN);
        }
    }
}

/// What is decided on a send that is not the owner's: a full window queues it,
/// an empty bucket paces it, and otherwise it goes out, at the cost of one
/// token and one place in the window.
pub proof fn law_budget_decides(b: Budget, cfg: &WaRateLimitConfig, now: u64)
    ensures
        ({
            let (after, d) = admission(b, cfg, now, false);
            let full = cfg.daily_cap > 0 && pruned(b.window, now).len() >= cfg.daily_cap;
            let empty = cfg.messages_per_minute > 0 && refilled(b, cfg, now) < 60_000_000_000;
            &&& full ==> d == (Decision::Queue { alert: !b.saturation }) && after.saturation
            &&& !full && empty ==> d is Pace
            &&& !full && !empty ==> d is SendNow
            &&& !full && !empty && cfg.daily_cap > 0 ==> after.window == pruned(
                b.window,
                now,
            ).push(now)
            &&& !full && !empty && cfg.messages_per_minute > 0 ==> after.tokens + 60_000_000_000
                == refilled(b, cfg, now)
            &&& cfg.messages_per_minute > 0 && cfg.daily_cap > 0 ==> after.last_refill == Some(now)
        }),
{
}

/// The bucket refills continuously, at the rate per minute, up to the burst:
/// each nanosecond brings as many units as messages go out per minute, a token
/// being sixty billion units, and a minute fills it. A bucket that was never
/// used is full; a clock that goes back brings nothing.
pub proof fn law_bucket_refills_at_the_rate(b: Budget, cfg: &WaRateLimitConfig, now: u64, last: u64)
    ensures
        b.last_refill is None ==> refilled(b, cfg, now) == cfg.messages_per_minute
            * 60_000_000_000,
        refilled(b, cfg, now) <= cfg.messages_per_minute * 60_000_000_000,
        b.last_refill == Some(last) && last <= now && b.tokens + (now - last)
            * cfg.messages_per_minute <= cfg.messages_per_minute * 60_000_000_000 ==> refilled(
            b,
            cfg,
            now,
        ) == b.tokens + (now - last) * cfg.messages_per_minute,
        b.last_refill == Some(last) && last + 60_000_000_000 <= now ==> refilled(b, cfg, now)
            == cfg.messages_per_minute * 60_000_000_000,
        b.last_refill == Some(last) && now < last && b.tokens <= cfg.messages_per_minute
            * 60_000_000_000 ==> refilled(b, cfg, now) == b.tokens,
{
    let rate = cfg.messages_per_minute as nat;
    if b.last_refill == Some(last) && last + 60_000_000_000 <= now {
        let elapsed = (now - last) as nat;
        assert(elapsed * rate >= rate * 60_000_000_000) by (nonlinear_arith)
            requires
                elapsed >= 60_000_000_000,
        ;
    }
    assert(0nat * rate == 0);
}

/// The sleep that pacing asks for is what the bucket lacks, to the nearest
/// nanosecond.
pub proof fn law_wait_is_what_the_bucket_lacks(b: Budget, cfg: &WaRateLimitConfig, now: u64)
    requires
        admission(b, cfg, now, false).1 is Pace,
    ensures
        ({
            let wait = admission(b, cfg, now, false).1->Pace_0;
            let lack = 60_000_000_000 - refilled(b, cfg, now);
            let rate = cfg.messages_per_minute as int;
            -rate <= 2 * (lack - wait * rate) <= rate
        }),
{
    let rate = cfg.messages_per_minute as nat;
    lemma_nearest((TOKEN - refilled(b, cfg, now)) as nat, rate);
    assert(refill_wait(refilled(b, cfg, now), cfg) <= TOKEN);
}

/// A full bucket grants its burst at once: with no daily cap, of `n` sends at
/// one instant as many go out as the rate per minute, and no more.
pub proof fn law_full_bucket_grants_its_burst(b: Budget, cfg: &WaRateLimitConfig, now: u64, n: nat)
    requires
        cfg.messages_per_minute > 0,
        cfg.daily_cap == 0,
        b.last_refill is None,
    ensures
        flush(b, cfg, now, n).0 == if n < cfg.messages_per_minute {
            n
        } else {
            cfg.messages_per_minute as nat
        },
{
    if n > 0 {
        let rate = cfg.messages_per_minute as nat;
        assert(rate * TOKEN as nat >= TOKEN) by (nonlinear_arith)
            requires
                rate > 0,
        ;
        let (after, d) = admission(b, cfg, now, false);
        assert(rate * TOKEN as nat - TOKEN == (rate - 1) * TOKEN as nat) by (nonlinear_arith);
        lemma_tokens_are_granted(after, cfg, now, (n - 1) as nat, (rate - 1) as nat);
    }
}

proof fn lemma_tokens_are_granted(
    b: Budget,
    cfg: &WaRateLimitConfig,
    now: u64,
    n: nat,
    k: nat,
)
    requires
        cfg.messages_per_minute > 0,
        cfg.daily_cap == 0,
        b.last_refill == Some(now),
        b.tokens == k * TOKEN as nat,
        k <= cfg.messages_per_minute,
    ensures
        flush(b, cfg, now, n).0 == if n < k {
            n
        } else {
            k
        },
    decreases n,
{
    if n > 0 {
        let rate = cfg.messages_per_minute as nat;
        assert(0nat * rate == 0);
        assert(k * TOKEN as nat <= rate * TOKEN as nat) by (nonlinear_arith)
            requires
                k <= rate,
        ;
        assert(refilled(b, cfg, now) == b.tokens);
        let (after, d) = admission(b, cfg, now, false);
        if k > 0 {
            assert(k * TOKEN as nat >= TOKEN) by (nonlinear_arith)
                requires
                    k > 0,
            ;
            assert(k * TOKEN as nat - TOKEN == (k - 1) * TOKEN as nat) by (nonlinear_arith);
            lemma_tokens_are_granted(after, cfg, now, (n - 1) as nat, (k - 1) as nat);
        } else {
            assert(0nat * TOKEN as nat == 0);
        }
    }
}

/// A timestamp leaves the window a day after it.
pub proof fn law_window_is_a_day(t: u64, now: u64)
    ensures
        expired(t, now) <==> now - t >= 24 * 60 * 60 * 1_000_000_000,
        TOKEN == 60 * 1_000_000_000,
        DRAIN_TICK_SECONDS == 60,
{
}

/// The alert stands under the header and tells the cap and how many messages
/// wait.
pub proof fn law_alert_tells_cap_and_queue(header: Seq<char>, daily_cap: nat, queued: nat)
    ensures
        alert_text(header, daily_cap, queued).take(header.len() as int) == header,
        tells(
            alert_text(header, daily_cap, queued),
            "daily cap reached ("@ + decimal(daily_cap) + " messages"@,
        ),
        tells(alert_text(header, daily_cap, queued), decimal(queued) + " message(s) queued"@),
{
    reveal_strlit("\n\nWhatsApp daily cap reached (");
    reveal_strlit("\n\nWhatsApp ");
    reveal_strlit("daily cap reached (");
    reveal_strlit(" messages / rolling 24h). ");
    reveal_strlit(" messages");
    reveal_strlit(
        " message(s) queued; they flush automatically as the window slides. Messages to you are never limited.",
    );
    reveal_strlit(" message(s) queued");
    let t = alert_text(header, daily_cap, queued);
    let a = "\n\nWhatsApp daily cap reached ("@;
    let b = " messages / rolling 24h). "@;
    let c =
        " message(s) queued; they flush automatically as the window slides. Messages to you are never limited."@;
    assert(t.take(header.len() as int) =~= header);
    let p = "daily cap reached ("@ + decimal(daily_cap) + " messages"@;
    let before = header + "\n\nWhatsApp "@;
    let after = b.skip(9) + decimal(queued) + c;
    assert(t =~= before + p + after);
    lemma_tells(t, before, p, after);
    let q = decimal(queued) + " message(s) queued"@;
    assert(t =~= (header + a + decimal(daily_cap) + b) + q + c.skip(18));
    lemma_tells(t, header + a + decimal(daily_cap) + b, q, c.skip(18));
}

/// A queued send holds the chat and the text that it was queued with.
pub proof fn law_queued_sends_hold_chat_and_text(q: QueuedSend, jid: Seq<char>, text: Seq<char>)
    ensures
        is_send(q, jid, text) ==> q.jid@ == jid && q.text@ == text,
        is_send(q, q.jid@, q.text@),
{
}

} // verus!
