//! Control core of an electric-vehicle charging station: tariff and fee
//! calculation, queue numbers, a simulated clock, the two-layer queue model,
//! the dispatcher, the tick engine and the scheduler facade.
//!
//! All quantities are fixed-point integers: energy in watt-hours, power in
//! watts, instants in seconds since the Unix epoch, charging time in minutes
//! and money in millionths of a yuan.

use vstd::prelude::*;

pub mod api;
pub mod billing;
pub mod error;
pub mod models;
pub mod runtime;
pub mod scheduler;
pub mod text;

pub use error::SchedulerError;
pub use models::{
    ChargingMode, ChargingPile, ChargingRecord, ChargingRequest, PileStatus, PileTotals,
    RequestStatus, TimeSlotType, User, Vehicle,
};
pub use scheduler::{
    ChargingScheduler, Dispatcher, NumberGenerator, PileInfo, PileStatusInfo, QueueManager,
    SchedulerStatus, TickReport, TimeSystem,
};

verus! {

/// First value handed out by a fresh queue counter.
pub const QUEUE_COUNTER_START: usize = 3;

/// Returns the counter's current value and advances it by one, wrapping
/// around at the largest `usize`.
pub fn get_next_queue_number(counter: &mut usize) -> (n: usize)
    ensures
        n == *old(counter),
        *final(counter) == if *old(counter) == usize::MAX {
            0usize
        } else {
            (*old(counter) + 1) as usize
        },
{
    let n = *counter;
    if n == usize::MAX {
        *counter = 0;
    } else {
        *counter = n + 1;
    }
    n
}

} // verus!
