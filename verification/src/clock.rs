//! System clocks.
//!
//! The kernel maintains a few monotonically updated counters, all in
//! nanoseconds, advanced together by the timer tick.

use vstd::prelude::*;

use crate::errno::{Errno, EINVAL};

verus! {

/// A timestamp, in the scale of the clock it comes from.
pub type Timestamp = u64;
/// Identifier of a system clock.
pub type ClockIdT = i32;

/// The real time clock.
pub const CLOCK_REALTIME: ClockIdT = 0;
/// The monotonic clock.
pub const CLOCK_MONOTONIC: ClockIdT = 1;
/// The clock measuring the time since boot.
pub const CLOCK_BOOTTIME: ClockIdT = 7;
/// The real time alarm clock.
pub const CLOCK_REALTIME_ALARM: ClockIdT = 8;
/// The boot time alarm clock.
pub const CLOCK_BOOTTIME_ALARM: ClockIdT = 9;

/// The scale of a timestamp.
#[derive(Clone, Copy, Debug, PartialEq, Eq, Structural)]
pub enum TimestampScale {
    /// Seconds.
    Second,
    /// Milliseconds.
    Millisecond,
    /// Microseconds.
    Microsecond,
    /// Nanoseconds.
    Nanosecond,
}

/// The number of nanoseconds in one unit of the given scale.
pub open spec fn scale_unit_nanos(s: TimestampScale) -> int {
    match s {
        TimestampScale::Second => 1000000000,
        TimestampScale::Millisecond => 1000000,
        TimestampScale::Microsecond => 1000,
        TimestampScale::Nanosecond => 1,
    }
}

/// Converts a timestamp in nanoseconds to the given scale, truncating.
pub fn convert_from_nano(ts: u64, to: TimestampScale) -> (r: u64)
    ensures
        r == ts as int / scale_unit_nanos(to),
{
    match to {
        TimestampScale::Second => ts / 1000000000,
        TimestampScale::Millisecond => ts / 1000000,
        TimestampScale::Microsecond => ts / 1000,
        TimestampScale::Nanosecond => ts / 1,
    }
}

/// The system's clocks, all counted in nanoseconds.
pub struct Clocks {
    /// The real time clock's counter.
    realtime: u64,
    /// The monotonic clock's counter.
    monotonic: u64,
    /// The counter of time since boot.
    boottime: u64,
}

impl Clocks {
    /// The real time counter, in nanoseconds.
    pub closed spec fn spec_realtime(&self) -> u64 {
        self.realtime
    }

    /// The monotonic counter, in nanoseconds.
    pub closed spec fn spec_monotonic(&self) -> u64 {
        self.monotonic
    }

    /// The boot time counter, in nanoseconds.
    pub closed spec fn spec_boottime(&self) -> u64 {
        self.boottime
    }

    /// Creates the clocks, all at zero.
    pub fn new() -> (r: Self)
        ensures
            r.spec_realtime() == 0,
            r.spec_monotonic() == 0,
            r.spec_boottime() == 0,
    {
        Clocks { realtime: 0, monotonic: 0, boottime: 0 }
    }

    /// Advances every clock by the given delta, in nanoseconds.
    pub fn update(&mut self, delta: Timestamp)
        requires
            old(self).spec_realtime() + delta <= u64::MAX,
            old(self).spec_monotonic() + delta <= u64::MAX,
            old(self).spec_boottime() + delta <= u64::MAX,
        ensures
            final(self).spec_realtime() == old(self).spec_realtime() + delta,
            final(self).spec_monotonic() == old(self).spec_monotonic() + delta,
            final(self).spec_boottime() == old(self).spec_boottime() + delta,
    {
        self.realtime = self.realtime + delta;
        self.monotonic = self.monotonic + delta;
        self.boottime = self.boottime + delta;
    }

    /// The raw nanosecond reading that `current_time` takes for a clock id,
    /// when that id is known.
    pub open spec fn spec_raw_time(&self, clk: ClockIdT) -> u64 {
        if clk == CLOCK_REALTIME || clk == CLOCK_REALTIME_ALARM {
            self.spec_realtime()
        } else if clk == CLOCK_MONOTONIC {
            if self.spec_realtime() >= self.spec_monotonic() {
                self.spec_realtime()
            } else {
                self.spec_monotonic()
            }
        } else {
            self.spec_boottime()
        }
    }

    /// Returns the current timestamp of the clock `clk` in the scale `scale`.
    ///
    /// Returns `EINVAL` exactly on ids that name no readable clock.
    pub fn current_time(&self, clk: ClockIdT, scale: TimestampScale) -> (r: Result<Timestamp, Errno>)
        ensures
            match r {
                Ok(ts) => {
                    &&& (clk == CLOCK_REALTIME || clk == CLOCK_REALTIME_ALARM
                        || clk == CLOCK_MONOTONIC || clk == CLOCK_BOOTTIME
                        || clk == CLOCK_BOOTTIME_ALARM)
                    &&& ts == self.spec_raw_time(clk) as int / scale_unit_nanos(scale)
                },
                Err(e) => {
                    &&& e == EINVAL
                    &&& clk != CLOCK_REALTIME && clk != CLOCK_REALTIME_ALARM
                    &&& clk != CLOCK_MONOTONIC && clk != CLOCK_BOOTTIME
                    &&& clk != CLOCK_BOOTTIME_ALARM
                },
            },
    {
        let raw: u64 = if clk == CLOCK_REALTIME || clk == CLOCK_REALTIME_ALARM {
            self.realtime
        } else if clk == CLOCK_MONOTONIC {
            if self.realtime >= self.monotonic {
                self.realtime
            } else {
                self.monotonic
            }
        } else if clk == CLOCK_BOOTTIME || clk == CLOCK_BOOTTIME_ALARM {
            self.boottime
        } else {
            return Err(EINVAL);
        };
        Ok(convert_from_nano(raw, scale))
    }
}

} // verus!
