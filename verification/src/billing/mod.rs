//! Tariff and fees: the period of the day that an instant falls in, the
//! price of each period, and the fee of a charging session.

use vstd::prelude::*;

pub mod billing_record;
pub mod fee_calculator;
pub mod time_slot;

pub use self::billing_record::BillingRecord;
pub use self::fee_calculator::FeeCalculator;
pub use self::time_slot::TimeSlot;

verus! {

/// Electricity price at peak time, in thousandths of a yuan per kilowatt-hour.
pub const PEAK_RATE: u32 = 1_000;

/// Electricity price at flat time, in thousandths of a yuan per kilowatt-hour.
pub const FLAT_RATE: u32 = 700;

/// Electricity price at valley time, in thousandths of a yuan per kilowatt-hour.
pub const VALLEY_RATE: u32 = 400;

/// Service fee, in thousandths of a yuan per kilowatt-hour.
pub const SERVICE_RATE: u32 = 800;

} // verus!
