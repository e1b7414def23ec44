//! A vehicle and the state of its battery.

use vstd::prelude::*;
use crate::runtime::{random_uuid, utc_now_seconds};

verus! {

/// A user's vehicle.
#[derive(Debug, Clone, Copy)]
pub struct Vehicle {
    /// Identifier of the vehicle.
    pub id: u128,
    /// Identifier of its owner.
    pub user_id: u128,
    /// What the battery holds when full, in watt-hours.
    pub battery_capacity: u32,
    /// What the battery holds now, in watt-hours.
    pub current_battery: u32,
    /// When the vehicle was registered.
    pub created_at: i64,
}

impl Vehicle {
    /// A vehicle under the given identifier, registered at `now`.
    pub fn assemble(
        id: u128,
        user_id: u128,
        battery_capacity: u32,
        current_battery: u32,
        now: i64,
    ) -> (vehicle: Self)
        ensures
            vehicle == (Vehicle { id, user_id, battery_capacity, current_battery, created_at: now }),
    {
        Vehicle { id, user_id, battery_capacity, current_battery, created_at: now }
    }

    /// A vehicle under a fresh random identifier, registered at the present
    /// instant of the machine's clock.
    pub fn new(user_id: u128, battery_capacity: u32, current_battery: u32) -> (vehicle: Self)
        ensures
            vehicle.user_id == user_id,
            vehicle.battery_capacity == battery_capacity,
            vehicle.current_battery == current_battery,
    {
        let id = random_uuid();
        let now = utc_now_seconds();
        Vehicle::assemble(id, user_id, battery_capacity, current_battery, now)
    }

    /// Sets what the battery holds, at most its capacity.
    pub fn update_battery(&mut self, new_battery: u32)
        ensures
            *final(self) == (Vehicle {
                current_battery: if new_battery <= old(self).battery_capacity {
                    new_battery
                } else {
                    old(self).battery_capacity
                },
                ..*old(self)
            }),
    {
        self.current_battery = if new_battery <= self.battery_capacity {
            new_battery
        } else {
            self.battery_capacity
        };
    }

    /// Whether the battery has room for `request_amount` more watt-hours.
    pub fn can_charge(&self, request_amount: u32) -> (fits: bool)
        ensures
            fits == (self.current_battery + request_amount <= self.battery_capacity),
    {
        self.current_battery as u64 + request_amount as u64 <= self.battery_capacity as u64
    }
}

} // verus!
