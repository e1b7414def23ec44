//! The simulated clock: the machine's time, sped up by a fixed factor.

use vstd::prelude::*;
use crate::runtime::{elapsed_nanos, monotonic_now, utc_now_seconds};

verus! {

/// The factor by which a clock made by `TimeSystem::new` runs faster than the
/// machine's.
pub const DEFAULT_ACCELERATION: u32 = 30;

/// Nanoseconds in a second.
pub const NANOS_PER_SECOND: u128 = 1_000_000_000;

/// A clock that started at a simulated instant and runs `acceleration_factor`
/// times as fast as the machine's monotonic clock.
pub struct TimeSystem {
    real_start_time: std::time::Instant,
    system_start_time: i64,
    acceleration_factor: u32,
}

/// The simulated instant, in whole seconds, that a clock begun at
/// `system_start` shows once `elapsed` nanoseconds of real time have passed:
/// the start plus the elapsed time multiplied by the factor, held at the
/// largest `i64`.
pub open spec fn simulated_instant(system_start: i64, factor: u32, elapsed: u128) -> i64 {
    let advanced = system_start + (elapsed * factor) / 1_000_000_000;
    if advanced > i64::MAX {
        i64::MAX
    } else {
        advanced as i64
    }
}

/// The thousandths of an hour in a number of seconds, rounded down.
pub open spec fn milli_hours(seconds: int) -> int {
    (seconds * 5) / 18
}

/// The simulated clock never runs backwards: more real time gives a
/// simulated instant that is no earlier.
pub proof fn lemma_clock_monotonic(system_start: i64, factor: u32, earlier: u128, later: u128)
    requires
        earlier <= later,
    ensures
        simulated_instant(system_start, factor, earlier) <= simulated_instant(
            system_start,
            factor,
            later,
        ),
        system_start <= simulated_instant(system_start, factor, earlier),
{
    let a = earlier * factor;
    let b = later * factor;
    assert(0 <= a <= b) by (nonlinear_arith)
        requires
            0 <= earlier <= later,
            0 <= factor,
            a == earlier * factor,
            b == later * factor,
    ;
    assert(0 <= a / 1_000_000_000 <= b / 1_000_000_000) by (nonlinear_arith)
        requires
            0 <= a <= b,
    ;
}

impl TimeSystem {
    /// The simulated instant at which the clock began.
    pub closed spec fn start(&self) -> i64 {
        self.system_start_time
    }

    /// The factor by which the clock runs faster than the machine's.
    pub closed spec fn factor(&self) -> u32 {
        self.acceleration_factor
    }

    /// A clock that begins now, at the machine's present time, and runs 30
    /// times as fast.
    pub fn new() -> (clock: Self)
        ensures
            clock.factor() == DEFAULT_ACCELERATION,
    {
        TimeSystem::starting_at(utc_now_seconds(), DEFAULT_ACCELERATION)
    }

    /// A clock that begins now at the simulated instant `system_start` and
    /// runs `factor` times as fast as the machine's.
    pub fn starting_at(system_start: i64, factor: u32) -> (clock: Self)
        ensures
            clock.start() == system_start,
            clock.factor() == factor,
    {
        TimeSystem {
            real_start_time: monotonic_now(),
            system_start_time: system_start,
            acceleration_factor: factor,
        }
    }

    /// The simulated instant at which the clock began.
    pub fn system_start(&self) -> (start: i64)
        ensures
            start == self.start(),
    {
        self.system_start_time
    }

    /// The factor by which the clock runs faster than the machine's.
    pub fn acceleration(&self) -> (factor: u32)
        ensures
            factor == self.factor(),
    {
        self.acceleration_factor
    }

    /// The simulated instant once `elapsed` nanoseconds of real time have
    /// passed since the clock began.
    pub fn time_after(&self, elapsed: u128) -> (now: i64)
        ensures
            now == simulated_instant(self.start(), self.factor(), elapsed),
    {
        let factor = self.acceleration_factor as u128;
        if factor != 0 && elapsed > u128::MAX / factor {
            proof {
                assert(elapsed * factor > u128::MAX) by (nonlinear_arith)
                    requires
                        factor > 0,
                        elapsed > u128::MAX / factor,
                ;
                assert((elapsed * factor) / 1_000_000_000 > 0x1_0000_0000_0000_0000) by (nonlinear_arith)
                    requires
                        elapsed * factor > u128::MAX,
                ;
            }
            return i64::MAX;
        }
        assert(elapsed * factor <= u128::MAX) by (nonlinear_arith)
            requires
                factor == 0 || elapsed <= u128::MAX / factor,
                0 <= elapsed,
                0 <= factor,
        ;
        let passed: u128 = (elapsed * factor) / NANOS_PER_SECOND;
        let limit: i128 = i64::MAX as i128 - self.system_start_time as i128;
        if passed > limit as u128 {
            i64::MAX
        } else {
            (self.system_start_time as i128 + passed as i128) as i64
        }
    }

    /// The present simulated instant: the clock's start, advanced by the
    /// real time that has passed since, multiplied by the factor. The real
    /// time is the machine's; whatever it is, the clock has not run
    /// backwards.
    pub fn current_time(&self) -> (now: i64)
        ensures
            exists|elapsed: u128| now == simulated_instant(self.start(), self.factor(), elapsed),
            self.start() <= now,
    {
        let elapsed = elapsed_nanos(&self.real_start_time);
        proof {
            lemma_clock_monotonic(self.start(), self.factor(), elapsed, elapsed);
        }
        self.time_after(elapsed)
    }

    /// The simulated time from `start_time` to `now`, in thousandths of an
    /// hour, rounded down.
    pub fn hours_between(start_time: i64, now: i64) -> (hours: i128)
        ensures
            hours == milli_hours(now - start_time),
    {
        let scaled: i128 = (now as i128 - start_time as i128) * 5;
        if scaled >= 0 {
            scaled / 18
        } else {
            let up: i128 = -scaled;
            let q: i128 = (up + 17) / 18;
            assert(-q == scaled / 18) by (nonlinear_arith)
                requires
                    scaled < 0,
                    up == -scaled,
                    q == (up + 17) / 18,
            ;
            -q
        }
    }

    /// The simulated time that has passed since `start_time`, in thousandths
    /// of an hour, rounded down.
    pub fn get_elapsed_hours(&self, start_time: i64) -> (hours: i128)
        ensures
            exists|elapsed: u128|
                hours == milli_hours(
                    simulated_instant(self.start(), self.factor(), elapsed) - start_time,
                ),
            milli_hours(self.start() - start_time) <= hours,
    {
        let now = self.current_time();
        assert(milli_hours(self.start() - start_time) <= milli_hours(now - start_time))
            by (nonlinear_arith)
            requires
                self.start() <= now,
        ;
        TimeSystem::hours_between(start_time, now)
    }
}

} // verus!
