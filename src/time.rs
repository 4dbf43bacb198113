//! Tick counting, ping/pong round-trip and clock-offset estimation, and
//! fixed-rate tick pacing.
use vstd::prelude::*;
use std::time::{Instant, SystemTime, UNIX_EPOCH};
use crate::average::MovingAverage;
use crate::message::InternalMessage;

verus! {

/// How many samples the round-trip and clock-offset averages hold.
pub const AVERAGE_SIZE: usize = 16;

/// A ping is sent once this many tick durations have passed since the last.
pub const PING_INTERVAL_TICKS: u64 = 8;

/// Weight, in percent, of a new round-trip sample.
pub const RTT_RATIO: u8 = 100;

/// Weight, in percent, of a new clock-offset sample.
pub const CLOCK_RATIO: u8 = 50;

/// std's monotonic clock reading, carried through opaquely.
#[verifier::external_type_specification]
#[verifier::external_body]
pub struct ExInstant(Instant);

/// Relies on Instant::now for a reading of the monotonic clock; nothing is
/// assumed of its value.
pub assume_specification[ Instant::now ]() -> Instant;

/// std's wall-clock reading, carried through opaquely.
#[verifier::external_type_specification]
#[verifier::external_body]
pub struct ExSystemTime(SystemTime);

/// Relies on SystemTime::now for a reading of the wall clock; nothing is
/// assumed of its value.
pub assume_specification[ SystemTime::now ]() -> SystemTime;

/// Relies on SystemTime::duration_since: the distance of `t` from the Unix
/// epoch (taken from the error for a time before it) as whole seconds and
/// the nanoseconds past them, which `Duration::subsec_nanos` documents as
/// below one billion.
#[verifier::external_body]
fn since_epoch(t: &SystemTime) -> (r: (u64, u32))
    ensures
        r.1 < 1_000_000_000,
{
    let d = match t.duration_since(UNIX_EPOCH) {
        Ok(d) => d,
        Err(e) => e.duration(),
    };
    (d.as_secs(), d.subsec_nanos())
}

/// Relies on Instant::elapsed: the time since `origin` as whole seconds and
/// the nanoseconds past them, which `Duration::subsec_nanos` documents as
/// below one billion.
#[verifier::external_body]
fn elapsed_since(origin: &Instant) -> (r: (u64, u32))
    ensures
        r.1 < 1_000_000_000,
{
    let d = origin.elapsed();
    (d.as_secs(), d.subsec_nanos())
}

/// `secs` seconds and `nanos` nanoseconds in milliseconds, saturating.
pub open spec fn millis_of(secs: u64, nanos: u32) -> int {
    let v = secs * 1000 + nanos / 1_000_000;
    if v > u64::MAX { u64::MAX as int } else { v }
}

/// `secs` seconds and `nanos` nanoseconds in nanoseconds, saturating.
pub open spec fn nanos_of(secs: u64, nanos: u32) -> int {
    let v = secs * 1_000_000_000 + nanos;
    if v > u64::MAX { u64::MAX as int } else { v }
}

/// Milliseconds given as seconds and nanoseconds, saturating at `u64::MAX`.
pub fn millis(secs: u64, nanos: u32) -> (r: u64)
    ensures
        r == millis_of(secs, nanos),
{
    let extra = (nanos / 1_000_000) as u64;
    match secs.checked_mul(1000) {
        Some(m) => m.saturating_add(extra),
        None => u64::MAX,
    }
}

fn nanos(secs: u64, subsec: u32) -> (r: u64)
    ensures
        r == nanos_of(secs, subsec),
{
    match secs.checked_mul(1_000_000_000) {
        Some(m) => m.saturating_add(subsec as u64),
        None => u64::MAX,
    }
}

/// The current wall-clock time in milliseconds since the Unix epoch (the
/// distance to it, for a clock set before it).
pub fn precise_time_ms() -> (r: u64)
    ensures
        exists|secs: u64, nanos: u32| nanos < 1_000_000_000 && r == #[trigger] millis_of(secs, nanos),
{
    let (secs, n) = since_epoch(&SystemTime::now());
    millis(secs, n)
}

/// Length of one tick in whole milliseconds.
pub open spec fn tick_duration(ticks_per_second: u8) -> int {
    1000int / (ticks_per_second as int)
}

/// Length of one tick in nanoseconds.
pub open spec fn desired_wait(ticks_per_second: u8) -> int {
    1_000_000_000int / (ticks_per_second as int)
}

pub open spec fn clamp_i64(v: int) -> i64 {
    if v > i64::MAX {
        i64::MAX
    } else if v < i64::MIN {
        i64::MIN
    } else {
        v as i64
    }
}

pub open spec fn sat_sub(a: int, b: int) -> int {
    if a >= b { a - b } else { 0 }
}

/// The round-trip sample in microseconds of a pong for ping tick
/// `pong_tick`, sent at `client_time`, received at `now` during tick `tick`:
/// the mean of the round trip the tick count implies and the one the clock
/// shows, each less one tick.
pub open spec fn rtt_sample(tick: u8, ticks_per_second: u8, pong_tick: u8, client_time: u64, now: u64) -> i64 {
    let d = tick_duration(ticks_per_second);
    let tick_diff = (tick - pong_tick) % 256;
    let expected = sat_sub(tick_diff, 1) * d;
    let actual = sat_sub(sat_sub(now as int, client_time as int), d);
    clamp_i64((expected + actual) * 500)
}

/// The clock-offset sample in microseconds: the mean of the responder's lead
/// at sending and at receipt.
pub open spec fn clock_sample(client_time: u64, server_time: u64, now: u64) -> i64 {
    clamp_i64(((server_time - client_time) + (server_time - now)) * 500)
}

/// The pongs answering `msgs`' pings, stamped `now`, in order.
pub open spec fn responses(msgs: Seq<InternalMessage>, now: u64) -> Seq<InternalMessage>
    decreases msgs.len(),
{
    if msgs.len() == 0 {
        Seq::empty()
    } else {
        let r = responses(msgs.drop_last(), now);
        match msgs.last() {
            InternalMessage::Ping(tick, time) => r.push(InternalMessage::Pong(tick, time, now)),
            InternalMessage::Pong(..) => r,
        }
    }
}

/// The round-trip and clock-offset windows after absorbing the pongs of
/// `msgs` in order: each pong's round-trip sample enters at full weight, and
/// unless it exceeds one and a half times the updated mean (compared exactly,
/// against the window's sum), its clock-offset sample enters blended half and
/// half with the mean.
pub open spec fn absorb(
    rtt: Seq<i64>,
    clock: Seq<i64>,
    tick: u8,
    ticks_per_second: u8,
    msgs: Seq<InternalMessage>,
    now: u64,
) -> (Seq<i64>, Seq<i64>)
    decreases msgs.len(),
{
    if msgs.len() == 0 {
        (rtt, clock)
    } else {
        let (r, c) = absorb(rtt, clock, tick, ticks_per_second, msgs.drop_last(), now);
        match msgs.last() {
            InternalMessage::Ping(..) => (r, c),
            InternalMessage::Pong(pong_tick, client_time, server_time) => {
                let sample = rtt_sample(tick, ticks_per_second, pong_tick, client_time, now);
                let r2 = crate::average::push_window(
                    r,
                    crate::average::blend(crate::average::mean(r), sample as int, RTT_RATIO as int) as i64,
                    AVERAGE_SIZE as nat,
                );
                if 2 * sample * r2.len() <= 3 * crate::average::sum(r2) {
                    let c2 = crate::average::push_window(
                        c,
                        crate::average::blend(
                            crate::average::mean(c),
                            clock_sample(client_time, server_time, now) as int,
                            CLOCK_RATIO as int,
                        ) as i64,
                        AVERAGE_SIZE as nat,
                    );
                    (r2, c2)
                } else {
                    (r2, c)
                }
            },
        }
    }
}

/// The messages a tick sends: a ping stamped with the tick and `now` first
/// when one is `due`, then the answers to the received pings.
pub open spec fn outgoing(due: bool, tick: u8, msgs: Seq<InternalMessage>, now: u64) -> Seq<
    InternalMessage,
> {
    (if due {
        seq![InternalMessage::Ping(tick, now)]
    } else {
        Seq::empty()
    }) + responses(msgs, now)
}

/// One protocol tick of timer `t` to `u` on received `msgs` at wall-clock
/// time `now`, sending `out` (with a ping first when one is `due`).
pub open spec fn receive_step(
    t: Timer,
    u: Timer,
    msgs: Seq<InternalMessage>,
    out: Seq<InternalMessage>,
    now: u64,
    due: bool,
) -> bool {
    &&& u.wf()
    &&& out == outgoing(due, t.tick(), msgs, now)
    &&& (u.rtt_window(), u.clock_window()) == absorb(
        t.rtt_window(),
        t.clock_window(),
        t.tick(),
        t.ticks_per_second(),
        msgs,
        now,
    )
    &&& u.tick() == (t.tick() + 1) % 256
    &&& u.ticks_per_second() == t.ticks_per_second()
    &&& u.last_wait() == t.last_wait()
    &&& u.accumulated_wait() == t.accumulated_wait()
}

/// Pacing timer `t` to `u` at monotonic time `now`, asking for a wait of `r`
/// nanoseconds: the time worked since the end of the last wait is added to
/// the carried-over work. Within one tick's budget the rest of the budget is
/// waited and nothing is carried; beyond it nothing is waited and one budget
/// is taken off the carried work. The wait is taken to end `r` nanoseconds
/// after `now`; nothing else changes.
pub open spec fn paced(t: Timer, u: Timer, now: u64, r: u64) -> bool {
    let desired = desired_wait(t.ticks_per_second());
    let worked = t.accumulated_wait() + sat_sub(now as int, t.last_wait() as int);
    let acc = if worked > u64::MAX {
        u64::MAX as int
    } else {
        worked
    };
    &&& u.wf()
    &&& acc <= desired ==> r == desired - acc && u.accumulated_wait() == 0
    &&& acc > desired ==> r == 0 && u.accumulated_wait() == acc - desired
    &&& u.last_wait() == if now + r > u64::MAX {
        u64::MAX as int
    } else {
        now + r
    }
    &&& u.tick() == t.tick()
    &&& u.ticks_per_second() == t.ticks_per_second()
    &&& u.rtt_window() == t.rtt_window()
    &&& u.clock_window() == t.clock_window()
    &&& u.last_ping() == t.last_ping()
}

/// Per-peer tick counter, round-trip and clock-offset estimators, ping
/// cadence and tick pacing. Times of the monotonic clock are nanoseconds
/// since `origin`.
pub struct Timer {
    tick: u8,
    ticks_per_second: u8,
    clock_shift: MovingAverage,
    average_rtt: MovingAverage,
    origin: Instant,
    last_wait: u64,
    accumulated_wait: u64,
    last_ping: u64,
}

impl Timer {
    pub closed spec fn wf(&self) -> bool {
        &&& self.ticks_per_second >= 1
        &&& self.clock_shift.wf()
        &&& self.average_rtt.wf()
        &&& self.clock_shift.capacity() == AVERAGE_SIZE
        &&& self.average_rtt.capacity() == AVERAGE_SIZE
        &&& forall|i: int| 0 <= i < self.average_rtt.window().len() ==> self.average_rtt.window()[i] >= 0
    }

    pub closed spec fn tick(&self) -> u8 {
        self.tick
    }

    pub closed spec fn ticks_per_second(&self) -> u8 {
        self.ticks_per_second
    }

    /// The round-trip samples in the estimator's window, in microseconds.
    pub closed spec fn rtt_window(&self) -> Seq<i64> {
        self.average_rtt.window()
    }

    /// The clock-offset samples in the estimator's window, in microseconds.
    pub closed spec fn clock_window(&self) -> Seq<i64> {
        self.clock_shift.window()
    }

    /// Monotonic time of the end of the last pacing wait.
    pub closed spec fn last_wait(&self) -> u64 {
        self.last_wait
    }

    /// Work time carried over from ticks that overran their budget.
    pub closed spec fn accumulated_wait(&self) -> u64 {
        self.accumulated_wait
    }

    /// Monotonic time at which the last ping was sent.
    pub closed spec fn last_ping(&self) -> u64 {
        self.last_ping
    }

    /// A timer at tick 0 with empty estimators.
    pub open spec fn fresh(&self, ticks_per_second: u8) -> bool {
        &&& self.wf()
        &&& self.tick() == 0
        &&& self.ticks_per_second() == ticks_per_second
        &&& self.rtt_window() == Seq::<i64>::empty()
        &&& self.clock_window() == Seq::<i64>::empty()
        &&& self.last_wait() == 0
        &&& self.accumulated_wait() == 0
        &&& self.last_ping() == 0
    }

    pub fn new(ticks_per_second: u8) -> (r: Self)
        requires
            ticks_per_second >= 1,
        ensures
            r.fresh(ticks_per_second),
    {
        Timer {
            tick: 0,
            ticks_per_second,
            clock_shift: MovingAverage::new(AVERAGE_SIZE),
            average_rtt: MovingAverage::new(AVERAGE_SIZE),
            origin: Instant::now(),
            last_wait: 0,
            accumulated_wait: 0,
            last_ping: 0,
        }
    }

    /// Smoothed round-trip time in microseconds.
    pub fn rtt(&self) -> (r: i64)
        requires
            self.wf(),
        ensures
            r == crate::average::mean(self.rtt_window()),
            r >= 0,
    {
        proof {
            crate::average::lemma_mean_nonneg(self.average_rtt.window());
        }
        self.average_rtt.get()
    }

    /// Smoothed clock offset to the peer in microseconds.
    pub fn clock(&self) -> (r: i64)
        requires
            self.wf(),
        ensures
            r == crate::average::mean(self.clock_window()),
    {
        self.clock_shift.get()
    }

    /// Starts over: tick 0, empty estimators, and a new monotonic origin.
    pub fn reset(&mut self)
        requires
            old(self).wf(),
        ensures
            final(self).fresh(old(self).ticks_per_second()),
    {
        let fresh = Timer::new(self.ticks_per_second);
        *self = fresh;
    }

    /// A timer at this one's tick and rate with fresh estimators and pacing.
    pub fn clone(&mut self) -> (r: Self)
        requires
            old(self).wf(),
        ensures
            *final(self) == *old(self),
            r.wf(),
            r.tick() == old(self).tick(),
            r.ticks_per_second() == old(self).ticks_per_second(),
            r.rtt_window() == Seq::<i64>::empty(),
            r.clock_window() == Seq::<i64>::empty(),
            r.accumulated_wait() == 0,
            r.last_wait() == 0,
            r.last_ping() == 0,
    {
        let mut r = Timer::new(self.ticks_per_second);
        r.tick = self.tick;
        r
    }

    /// The monotonic clock: nanoseconds since this timer's origin.
    fn now_nanos(&self) -> u64 {
        let (secs, n) = elapsed_since(&self.origin);
        nanos(secs, n)
    }

    /// Runs one tick of the protocol on the internal messages received and
    /// returns those to send (see `receive_at`), reading the wall clock and the
    /// monotonic clock.
    pub fn receive(&mut self, messages: Vec<InternalMessage>) -> (r: Vec<InternalMessage>)
        requires
            old(self).wf(),
        ensures
            final(self).wf(),
            exists|now: u64, due: bool| #[trigger] receive_step(*old(self), *final(self), messages@, r@, now, due),
    {
        let now = precise_time_ms();
        let mono = self.now_nanos();
        self.receive_at(messages, now, mono)
    }

    /// Runs one tick of the protocol at wall-clock time `now` (milliseconds)
    /// and monotonic time `mono` (nanoseconds). A ping stamped with the
    /// current tick and `now` goes first when more than eight tick durations
    /// passed since the last ping; each received ping is answered by a pong
    /// stamped `now`; each received pong feeds the estimators (see `absorb`).
    /// The tick then advances, wrapping at 256.
    pub fn receive_at(&mut self, messages: Vec<InternalMessage>, now: u64, mono: u64) -> (r: Vec<
        InternalMessage,
    >)
        requires
            old(self).wf(),
        ensures
            ({
                let due = sat_sub(mono as int, old(self).last_ping() as int) > PING_INTERVAL_TICKS
                    * tick_duration(old(self).ticks_per_second()) * 1_000_000;
                &&& r@ == outgoing(due, old(self).tick(), messages@, now)
                &&& final(self).last_ping() == if due {
                    mono
                } else {
                    old(self).last_ping()
                }
            }),
            final(self).wf(),
            receive_step(
                *old(self),
                *final(self),
                messages@,
                r@,
                now,
                sat_sub(mono as int, old(self).last_ping() as int) > PING_INTERVAL_TICKS * tick_duration(
                    old(self).ticks_per_second(),
                ) * 1_000_000,
            ),
            (final(self).rtt_window(), final(self).clock_window()) == absorb(
                old(self).rtt_window(),
                old(self).clock_window(),
                old(self).tick(),
                old(self).ticks_per_second(),
                messages@,
                now,
            ),
            final(self).tick() == (old(self).tick() + 1) % 256,
            final(self).ticks_per_second() == old(self).ticks_per_second(),
            final(self).last_wait() == old(self).last_wait(),
            final(self).accumulated_wait() == old(self).accumulated_wait(),
    {
        let mut outgoing: Vec<InternalMessage> = Vec::new();
        let tick_ms = 1000 / (self.ticks_per_second as u64);
        let interval = PING_INTERVAL_TICKS * tick_ms * 1_000_000;
        let since = mono.saturating_sub(self.last_ping);
        if since > interval {
            outgoing.push(InternalMessage::Ping(self.tick, now));
            self.last_ping = mono;
        }
        let ghost head = outgoing@;
        let ghost rtt0 = self.average_rtt.window();
        let ghost clock0 = self.clock_shift.window();
        let mut i: usize = 0;
        while i < messages.len()
            invariant
                self.wf(),
                self.tick == old(self).tick,
                self.ticks_per_second == old(self).ticks_per_second,
                self.last_wait == old(self).last_wait,
                self.accumulated_wait == old(self).accumulated_wait,
                self.last_ping == (if since > interval { mono } else { old(self).last_ping }),
                tick_ms == tick_duration(self.ticks_per_second),
                i <= messages@.len(),
                rtt0 == old(self).rtt_window(),
                clock0 == old(self).clock_window(),
                outgoing@ == head + responses(messages@.subrange(0, i as int), now),
                (self.average_rtt.window(), self.clock_shift.window()) == absorb(
                    rtt0,
                    clock0,
                    self.tick,
                    self.ticks_per_second,
                    messages@.subrange(0, i as int),
                    now,
                ),
            decreases messages.len() - i,
        {
            let m = messages[i];
            proof {
                assert(messages@.subrange(0, i + 1 as int).drop_last() =~= messages@.subrange(0, i as int));
            }
            match m {
                InternalMessage::Ping(tick, time) => {
                    outgoing.push(InternalMessage::Pong(tick, time, now));
                },
                InternalMessage::Pong(pong_tick, client_time, server_time) => {
                    let sample = rtt_sample_exec(self.tick, tick_ms, pong_tick, client_time, now);
                    proof {
                        crate::average::lemma_blend_full(
                            crate::average::mean(self.average_rtt.window()),
                            sample as int,
                        );
                    }
                    self.average_rtt.update(sample, RTT_RATIO);
                    let total = self.average_rtt.total();
                    let count = self.average_rtt.len();
                    proof {
                        crate::average::lemma_sum_bounds(self.average_rtt.window());
                        assert(count * (i64::MIN as int) >= 16 * (i64::MIN as int)) by (nonlinear_arith)
                            requires
                                count <= 16,
                        ;
                        assert(count * (i64::MAX as int) <= 16 * (i64::MAX as int)) by (nonlinear_arith)
                            requires
                                count <= 16,
                        ;
                        assert(2 * (sample as int) * (count as int) <= 2 * (i64::MAX as int) * 16) by (nonlinear_arith)
                            requires
                                0 <= sample <= i64::MAX,
                                count <= 16,
                        ;
                    }
                    if 2 * (sample as i128) * (count as i128) <= 3 * total {
                        let c = clock_sample_exec(client_time, server_time, now);
                        self.clock_shift.update(c, CLOCK_RATIO);
                    }
                },
            }
            i = i + 1;
        }
        proof {
            assert(messages@.subrange(0, messages@.len() as int) =~= messages@);
        }
        self.tick = self.tick.wrapping_add(1);
        outgoing
    }

    /// Paces the tick loop: reads the monotonic clock and returns how many
    /// nanoseconds the caller must block before the next tick (see `pace`).
    pub fn sleep(&mut self) -> (r: u64)
        requires
            old(self).wf(),
        ensures
            exists|now: u64| #[trigger] paced(*old(self), *final(self), now, r),
            r <= desired_wait(old(self).ticks_per_second()),
    {
        let now = self.now_nanos();
        self.pace(now)
    }

    /// Pacing at monotonic time `now`: the time worked since the end of the
    /// last wait is added to the carried-over work. Within one tick's budget
    /// the rest of the budget is to be waited and nothing is carried; beyond
    /// it nothing is waited and one budget is taken off the carried work. The
    /// wait is taken to end `r` nanoseconds after `now`.
    pub fn pace(&mut self, now: u64) -> (r: u64)
        requires
            old(self).wf(),
        ensures
            paced(*old(self), *final(self), now, r),
            r <= desired_wait(old(self).ticks_per_second()),
    {
        let desired = 1_000_000_000u64 / (self.ticks_per_second as u64);
        let elapsed = now.saturating_sub(self.last_wait);
        let acc = self.accumulated_wait.saturating_add(elapsed);
        let wait;
        if acc <= desired {
            wait = desired - acc;
            self.accumulated_wait = 0;
        } else {
            wait = 0;
            self.accumulated_wait = acc - desired;
        }
        self.last_wait = now.saturating_add(wait);
        wait
    }
}

fn rtt_sample_exec(tick: u8, tick_ms: u64, pong_tick: u8, client_time: u64, now: u64) -> (r: i64)
    requires
        tick_ms <= 1000,
    ensures
        forall|tps: u8| tick_duration(tps) == tick_ms ==> r == rtt_sample(tick, tps, pong_tick, client_time, now),
        r >= 0,
{
    let tick_diff = tick.wrapping_sub(pong_tick) as u64;
    proof {
        assert(tick_diff == (tick - pong_tick) % 256);
    }
    let d1 = tick_diff.saturating_sub(1);
    assert(d1 * tick_ms <= 255 * 1000) by (nonlinear_arith)
        requires
            d1 <= 255,
            tick_ms <= 1000,
    ;
    let expected = d1 * tick_ms;
    let actual = now.saturating_sub(client_time).saturating_sub(tick_ms);
    let total = ((expected as i128) + (actual as i128)) * 500;
    if total > i64::MAX as i128 {
        i64::MAX
    } else {
        total as i64
    }
}

fn clock_sample_exec(client_time: u64, server_time: u64, now: u64) -> (r: i64)
    ensures
        r == clock_sample(client_time, server_time, now),
{
    let v = (((server_time as i128) - (client_time as i128)) + ((server_time as i128) - (now as i128))) * 500;
    if v > i64::MAX as i128 {
        i64::MAX
    } else if v < i64::MIN as i128 {
        i64::MIN
    } else {
        v as i64
    }
}

} // verus!
