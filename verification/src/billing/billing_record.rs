//! The bill of one charging session.

use vstd::prelude::*;
use crate::models::charging_pile::capped_sum;

verus! {

/// What a session delivered and what it costs.
#[derive(Debug)]
pub struct BillingRecord {
    /// Identifier of the user who charged.
    pub user_id: u128,
    /// Number of the pile that charged.
    pub pile_id: String,
    /// Energy delivered, in watt-hours.
    pub charge_amount: u32,
    /// Length of the session, in minutes.
    pub charge_time: u64,
    /// When the session began.
    pub start_time: i64,
    /// When the session ended.
    pub end_time: i64,
    /// Electricity fee, in millionths of a yuan.
    pub electricity_fee: u64,
    /// Service fee, in millionths of a yuan.
    pub service_fee: u64,
    /// Sum of the two fees.
    pub total_fee: u64,
}

impl Clone for BillingRecord {
    fn clone(&self) -> (r: Self)
        ensures
            r == *self,
    {
        BillingRecord {
            user_id: self.user_id,
            pile_id: self.pile_id.clone(),
            charge_amount: self.charge_amount,
            charge_time: self.charge_time,
            start_time: self.start_time,
            end_time: self.end_time,
            electricity_fee: self.electricity_fee,
            service_fee: self.service_fee,
            total_fee: self.total_fee,
        }
    }
}

impl BillingRecord {
    /// The bill that `new` builds: the fields as given, and the total as the
    /// sum of the two fees, held at the largest `u64`.
    pub open spec fn of(
        user_id: u128,
        pile_id: String,
        charge_amount: u32,
        charge_time: u64,
        start_time: i64,
        end_time: i64,
        electricity_fee: u64,
        service_fee: u64,
    ) -> BillingRecord {
        BillingRecord {
            user_id,
            pile_id,
            charge_amount,
            charge_time,
            start_time,
            end_time,
            electricity_fee,
            service_fee,
            total_fee: capped_sum(electricity_fee as int, service_fee as int),
        }
    }

    /// A bill with the given fields and their total.
    pub fn new(
        user_id: u128,
        pile_id: String,
        charge_amount: u32,
        charge_time: u64,
        start_time: i64,
        end_time: i64,
        electricity_fee: u64,
        service_fee: u64,
    ) -> (record: Self)
        ensures
            record == BillingRecord::of(
                user_id,
                pile_id,
                charge_amount,
                charge_time,
                start_time,
                end_time,
                electricity_fee,
                service_fee,
            ),
    {
        BillingRecord {
            user_id,
            pile_id,
            charge_amount,
            charge_time,
            start_time,
            end_time,
            electricity_fee,
            service_fee,
            total_fee: electricity_fee.saturating_add(service_fee),
        }
    }
}

} // verus!
