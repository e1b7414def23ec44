//! The data of the station: piles, requests, records, vehicles and users,
//! with the constants of the default configuration.

use vstd::prelude::*;
use vstd::string::*;
use crate::error::SchedulerError;

pub mod charging_pile;
pub mod charging_record;
pub mod charging_request;
pub mod user;
pub mod vehicle;

pub use self::charging_pile::{ChargingMode, ChargingPile, PileStatus, PileTotals};
pub use self::charging_record::ChargingRecord;
pub use self::charging_request::ChargingRequest;
pub use self::user::User;
pub use self::vehicle::Vehicle;

verus! {

/// The three tariff periods of a day.
#[derive(Debug, Clone, Copy, PartialEq, Eq, Structural)]
pub enum TimeSlotType {
    /// 10:00 to 15:00 and 18:00 to 21:00.
    Peak,
    /// 7:00 to 10:00, 15:00 to 18:00 and 21:00 to 23:00.
    Normal,
    /// 23:00 to 7:00 of the next day.
    Valley,
}

/// How many requests the waiting area holds at most.
pub const WAITING_AREA_CAPACITY: usize = 6;

/// How many fast piles a station has by default.
pub const FAST_CHARGING_PILES: usize = 2;

/// How many slow piles a station has by default.
pub const SLOW_CHARGING_PILES: usize = 3;

/// How many requests may queue at one pile behind the one that is charging.
pub const PILE_QUEUE_CAPACITY: usize = 2;

/// Power of a fast pile, in watts.
pub const FAST_CHARGING_POWER: u32 = 30_000;

/// Power of a slow pile, in watts.
pub const SLOW_CHARGING_POWER: u32 = 7_000;

/// Service fee, in thousandths of a yuan per kilowatt-hour.
pub const SERVICE_FEE_RATE: u32 = 800;

/// Electricity price at peak time, in thousandths of a yuan per kilowatt-hour.
pub const PEAK_PRICE: u32 = 1_000;

/// Electricity price at normal time, in thousandths of a yuan per kilowatt-hour.
pub const NORMAL_PRICE: u32 = 700;

/// Electricity price at valley time, in thousandths of a yuan per kilowatt-hour.
pub const VALLEY_PRICE: u32 = 400;

/// Where a request stands in its life.
#[derive(Debug, Clone, Copy, PartialEq, Eq, Hash, Structural)]
pub enum RequestStatus {
    /// In the waiting area or in a pile's queue.
    Waiting,
    /// In a pile's charging slot.
    Charging,
    /// Charged in full.
    Completed,
    /// Withdrawn before it was charged in full.
    Cancelled,
}

/// What `str::to_lowercase` returns for a text.
pub uninterp spec fn lowercased(text: Seq<char>) -> Seq<char>;

/// Calls `str::to_lowercase`. The result is a function of the text alone and
/// goes by the name `lowercased`.
#[verifier::external_body]
fn to_lowercase(text: &str) -> (lower: String)
    ensures
        lower@ == lowercased(text@),
{
    text.to_lowercase()
}

/// Whether two texts hold the same characters.
pub fn same_text(a: &str, b: &str) -> (same: bool)
    ensures
        same == (a@ == b@),
{
    let x = String::from_str(a);
    let y = String::from_str(b);
    x == y
}

impl RequestStatus {
    /// The name of the status as it is written at the persistence and wire
    /// boundaries.
    pub open spec fn name(&self) -> &'static str {
        match self {
            RequestStatus::Waiting => "Waiting",
            RequestStatus::Charging => "Charging",
            RequestStatus::Completed => "Completed",
            RequestStatus::Cancelled => "Cancelled",
        }
    }

    /// Writes the status by its name.
    pub fn to_string(&self) -> (s: String)
        ensures
            s@ == self.name()@,
    {
        match self {
            RequestStatus::Waiting => String::from_str("Waiting"),
            RequestStatus::Charging => String::from_str("Charging"),
            RequestStatus::Completed => String::from_str("Completed"),
            RequestStatus::Cancelled => String::from_str("Cancelled"),
        }
    }

    /// The status that a word in lower case names, if it names one.
    pub open spec fn of_lowercase(word: Seq<char>) -> Option<RequestStatus> {
        if word == "waiting"@ {
            Some(RequestStatus::Waiting)
        } else if word == "charging"@ {
            Some(RequestStatus::Charging)
        } else if word == "completed"@ {
            Some(RequestStatus::Completed)
        } else if word == "cancelled"@ {
            Some(RequestStatus::Cancelled)
        } else {
            None
        }
    }

    /// Reads a status from a word that is already in lower case.
    pub fn from_lowercase(word: &str) -> (r: Result<RequestStatus, SchedulerError>)
        ensures
            match r {
                Ok(status) => RequestStatus::of_lowercase(word@) == Some(status),
                Err(e) => e == SchedulerError::NotFound &&
                    RequestStatus::of_lowercase(word@).is_none(),
            },
    {
        if same_text(word, "waiting") {
            Ok(RequestStatus::Waiting)
        } else if same_text(word, "charging") {
            Ok(RequestStatus::Charging)
        } else if same_text(word, "completed") {
            Ok(RequestStatus::Completed)
        } else if same_text(word, "cancelled") {
            Ok(RequestStatus::Cancelled)
        } else {
            Err(SchedulerError::NotFound)
        }
    }

    /// Reads a status from its name, whatever the case of its letters: the
    /// text is put in lower case and then read by `from_lowercase`.
    pub fn from_str(s: &str) -> (r: Result<RequestStatus, SchedulerError>)
        ensures
            match r {
                Ok(status) => RequestStatus::of_lowercase(lowercased(s@)) == Some(status),
                Err(e) => e == SchedulerError::NotFound && RequestStatus::of_lowercase(
                    lowercased(s@),
                ).is_none(),
            },
    {
        let lower = to_lowercase(s);
        RequestStatus::from_lowercase(lower.as_str())
    }
}

} // verus!
