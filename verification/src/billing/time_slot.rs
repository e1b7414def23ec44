//! The tariff period of an instant.

use vstd::prelude::*;
use vstd::arithmetic::div_mod::lemma_mod_multiples_vanish;
use crate::billing::{FLAT_RATE, PEAK_RATE, VALLEY_RATE};

verus! {

/// Seconds in a day.
pub const SECONDS_PER_DAY: i64 = 86_400;

/// The hour of the day, from 0 to 23, of the instant `time` seconds after
/// the Unix epoch, in UTC.
pub open spec fn hour_of_day(time: int) -> int {
    (time % 86_400) / 3_600
}

/// A tariff period.
#[derive(Debug, Clone, Copy, PartialEq, Eq, Structural)]
pub enum TimeSlot {
    /// 10:00 to 15:00 and 18:00 to 21:00.
    Peak,
    /// 7:00 to 10:00, 15:00 to 18:00 and 21:00 to 23:00.
    Flat,
    /// 23:00 to 7:00 of the next day.
    Valley,
}

impl TimeSlot {
    /// The period that the hour `hour` of a day belongs to.
    pub open spec fn of_hour(hour: int) -> TimeSlot {
        if (10 <= hour <= 14) || (18 <= hour <= 20) {
            TimeSlot::Peak
        } else if (7 <= hour <= 9) || (15 <= hour <= 17) || (21 <= hour <= 22) {
            TimeSlot::Flat
        } else {
            TimeSlot::Valley
        }
    }

    /// The period that the instant `time` falls in.
    pub open spec fn at(time: int) -> TimeSlot {
        TimeSlot::of_hour(hour_of_day(time))
    }

    /// The price of the period, in thousandths of a yuan per kilowatt-hour.
    pub open spec fn rate(self) -> u32 {
        match self {
            TimeSlot::Peak => PEAK_RATE,
            TimeSlot::Flat => FLAT_RATE,
            TimeSlot::Valley => VALLEY_RATE,
        }
    }

    /// The period that the instant `time`, in seconds since the Unix epoch,
    /// falls in.
    pub fn from_time(time: i64) -> (slot: Self)
        ensures
            slot == TimeSlot::at(time as int),
    {
        // A whole number of days that lifts every `i64` above zero.
        let lift: i128 = 106_751_991_167_301 * 86_400;
        let shifted: i128 = time as i128 + lift;
        let second_of_day: i128 = shifted % 86_400;
        proof {
            lemma_mod_multiples_vanish(106_751_991_167_301, time as int, 86_400);
        }
        let hour: i128 = second_of_day / 3_600;
        if (10 <= hour && hour <= 14) || (18 <= hour && hour <= 20) {
            TimeSlot::Peak
        } else if (7 <= hour && hour <= 9) || (15 <= hour && hour <= 17) || (21 <= hour && hour
            <= 22) {
            TimeSlot::Flat
        } else {
            TimeSlot::Valley
        }
    }

    /// The price of the period, in thousandths of a yuan per kilowatt-hour.
    pub fn get_rate(&self) -> (rate: u32)
        ensures
            rate == self.rate(),
    {
        match self {
            TimeSlot::Peak => PEAK_RATE,
            TimeSlot::Flat => FLAT_RATE,
            TimeSlot::Valley => VALLEY_RATE,
        }
    }
}

} // verus!
