//! Spans of time, the clock that measures them and the timer that turns
//! them into steps.

use vstd::prelude::*;

verus! {

/// The nanoseconds in one millisecond.
pub const NANOS_PER_MILLI: i128 = 1_000_000;

/// The nanoseconds in one second.
pub const NANOS_PER_SECOND: i128 = 1_000_000_000;

/// A span of time in nanoseconds. It is signed: a clock may be set back.
#[derive(Clone, Copy, Debug, PartialEq, Eq, Structural)]
pub struct TimeSpan {
    pub nanos: i128,
}

impl TimeSpan {
    pub fn zero() -> (span: TimeSpan)
        ensures
            span.nanos == 0,
    {
        TimeSpan { nanos: 0 }
    }

    pub fn milliseconds(millis: i64) -> (span: TimeSpan)
        ensures
            span.nanos == millis * NANOS_PER_MILLI,
    {
        let millis: i128 = millis as i128;
        TimeSpan { nanos: millis * NANOS_PER_MILLI }
    }

    /// The span of `secs` whole seconds and `nanos` nanoseconds more.
    pub fn new(secs: i64, nanos: i32) -> (span: TimeSpan)
        ensures
            span.nanos == secs * NANOS_PER_SECOND + nanos,
    {
        let secs: i128 = secs as i128;
        let nanos: i128 = nanos as i128;
        TimeSpan { nanos: secs * NANOS_PER_SECOND + nanos }
    }
}

/// A moment: the seconds since the start of 1970 in universal time, and the
/// nanoseconds into the running second.
#[derive(Clone, Copy, Debug, PartialEq, Eq, Structural)]
pub struct Timestamp {
    pub secs: i64,
    pub nanos: u32,
}

/// Reads the system clock with `chrono::Utc::now` and takes the moment apart
/// with `DateTime::timestamp` and `DateTime::timestamp_subsec_nanos`.
/// Believed of it: the nanoseconds stay below one second, because chrono
/// builds the moment from a `std::time::Duration` and never hands out a
/// leap second here.
#[verifier::external_body]
fn utc_now() -> (now: Timestamp)
    ensures
        now.nanos < NANOS_PER_SECOND,
{
    let now = chrono::Utc::now();
    Timestamp { secs: now.timestamp(), nanos: now.timestamp_subsec_nanos() }
}

impl Timestamp {
    /// The moment as nanoseconds since the start of 1970.
    pub open spec fn as_nanos(&self) -> int {
        self.secs * NANOS_PER_SECOND + self.nanos
    }

    /// The present moment by the system clock.
    pub fn now() -> (now: Timestamp)
        ensures
            now.nanos < NANOS_PER_SECOND,
    {
        utc_now()
    }

    /// The span from `earlier` to this moment; negative where `earlier` is
    /// the later of the two.
    pub fn since(&self, earlier: Timestamp) -> (span: TimeSpan)
        ensures
            span.nanos == self.as_nanos() - earlier.as_nanos(),
    {
        let secs: i128 = self.secs as i128 - earlier.secs as i128;
        let nanos: i128 = self.nanos as i128 - earlier.nanos as i128;
        TimeSpan { nanos: secs * NANOS_PER_SECOND + nanos }
    }
}

/// Remembers the moment it was last asked, to tell how long ago that was.
pub struct Clock {
    pub time: Timestamp,
}

impl Clock {
    /// A clock that was last asked now.
    pub fn now() -> (clock: Clock)
        ensures
            clock.time.nanos < NANOS_PER_SECOND,
    {
        Clock { time: Timestamp::now() }
    }

    /// The time that has passed between the last moment asked for and
    /// `now`, which becomes the last moment asked for.
    pub fn update(&mut self, now: Timestamp) -> (time_passed: TimeSpan)
        ensures
            time_passed.nanos == now.as_nanos() - old(self).time.as_nanos(),
            final(self).time == now,
    {
        let time_passed = now.since(self.time);
        self.time = now;
        time_passed
    }
}

/// Gathers the time that passes and gives it out again one interval at a
/// time.
pub struct Timer {
    pub time: TimeSpan,
}

impl Timer {
    pub fn new() -> (timer: Timer)
        ensures
            timer.time.nanos == 0,
    {
        Timer { time: TimeSpan::zero() }
    }

    /// Adds `time_passed` to the time gathered.
    pub fn advance(&mut self, time_passed: TimeSpan)
        requires
            i128::MIN <= old(self).time.nanos + time_passed.nanos <= i128::MAX,
        ensures
            final(self).time.nanos == old(self).time.nanos + time_passed.nanos,
    {
        self.time = TimeSpan { nanos: self.time.nanos + time_passed.nanos };
    }

    /// Where at least `time_until_tick` has been gathered, takes that much
    /// away and says so. What is left over stays for the next call.
    pub fn tick(&mut self, time_until_tick: TimeSpan) -> (should_tick: bool)
        requires
            old(self).time.nanos - time_until_tick.nanos <= i128::MAX,
        ensures
            should_tick == (old(self).time.nanos >= time_until_tick.nanos),
            final(self).time.nanos == if should_tick {
                old(self).time.nanos - time_until_tick.nanos
            } else {
                old(self).time.nanos as int
            },
    {
        let should_tick = self.time.nanos >= time_until_tick.nanos;
        if should_tick {
            self.time = TimeSpan { nanos: self.time.nanos - time_until_tick.nanos };
        }
        should_tick
    }

    /// Forgets the time gathered.
    pub fn reset(&mut self)
        ensures
            final(self).time.nanos == 0,
    {
        self.time = TimeSpan::zero();
    }
}

/// A timer that has gathered `time` gives out as many ticks of a positive
/// `interval` as fit into `time` whole, and keeps the remainder: each of the
/// first `time / interval` calls of `tick` finds an interval left, and the
/// call after them finds less.
pub proof fn law_timer_drains_whole_intervals(time: int, interval: int, k: int)
    requires
        0 <= time,
        0 < interval,
        0 <= k < time / interval,
    ensures
        time - k * interval >= interval,
        0 <= time - (time / interval) * interval < interval,
        time - (time / interval) * interval == time % interval,
{
    vstd::arithmetic::div_mod::lemma_fundamental_div_mod(time, interval);
    vstd::arithmetic::div_mod::lemma_mod_bound(time, interval);
    assert((k + 1) * interval <= (time / interval) * interval) by (nonlinear_arith)
        requires
            k + 1 <= time / interval,
            0 < interval,
    ;
    assert((k + 1) * interval == k * interval + interval) by (nonlinear_arith);
    assert((time / interval) * interval == interval * (time / interval)) by (nonlinear_arith);
}

} // verus!
