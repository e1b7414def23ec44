//! The receipt of a completed charging session.

use vstd::prelude::*;
use crate::models::charging_pile::capped_sum;
use crate::models::ChargingMode;
use crate::runtime::{random_uuid, utc_now_seconds};

verus! {

/// What one completed session delivered and cost.
#[derive(Debug)]
pub struct ChargingRecord {
    /// Identifier of the record.
    pub id: u128,
    /// Identifier of the user who charged.
    pub user_id: u128,
    /// Number of the pile that charged.
    pub pile_id: String,
    /// Mode of the session.
    pub mode: ChargingMode,
    /// Energy delivered, in watt-hours.
    pub charging_amount: u32,
    /// Length of the session, in minutes.
    pub charging_time: u64,
    /// Electricity fee, in millionths of a yuan.
    pub charging_fee: u64,
    /// Service fee, in millionths of a yuan.
    pub service_fee: u64,
    /// Sum of the two fees.
    pub total_fee: u64,
    /// When the session began.
    pub start_time: i64,
    /// When the session ended.
    pub end_time: i64,
    /// When the record was made.
    pub created_at: i64,
}

impl Clone for ChargingRecord {
    fn clone(&self) -> (r: Self)
        ensures
            r == *self,
    {
        ChargingRecord {
            id: self.id,
            user_id: self.user_id,
            pile_id: self.pile_id.clone(),
            mode: self.mode,
            charging_amount: self.charging_amount,
            charging_time: self.charging_time,
            charging_fee: self.charging_fee,
            service_fee: self.service_fee,
            total_fee: self.total_fee,
            start_time: self.start_time,
            end_time: self.end_time,
            created_at: self.created_at,
        }
    }
}

impl ChargingRecord {
    /// The record that `assemble` builds: the fields as given, and the total
    /// as the sum of the two fees, held at the largest `u64`.
    pub open spec fn of(
        id: u128,
        user_id: u128,
        pile_id: String,
        mode: ChargingMode,
        charging_amount: u32,
        charging_time: u64,
        charging_fee: u64,
        service_fee: u64,
        start_time: i64,
        end_time: i64,
        created_at: i64,
    ) -> ChargingRecord {
        ChargingRecord {
            id,
            user_id,
            pile_id,
            mode,
            charging_amount,
            charging_time,
            charging_fee,
            service_fee,
            total_fee: capped_sum(charging_fee as int, service_fee as int),
            start_time,
            end_time,
            created_at,
        }
    }

    /// A record under the given identifier and time of making.
    pub fn assemble(
        id: u128,
        user_id: u128,
        pile_id: String,
        mode: ChargingMode,
        charging_amount: u32,
        charging_time: u64,
        charging_fee: u64,
        service_fee: u64,
        start_time: i64,
        end_time: i64,
        created_at: i64,
    ) -> (record: Self)
        ensures
            record == ChargingRecord::of(
                id,
                user_id,
                pile_id,
                mode,
                charging_amount,
                charging_time,
                charging_fee,
                service_fee,
                start_time,
                end_time,
                created_at,
            ),
    {
        ChargingRecord {
            id,
            user_id,
            pile_id,
            mode,
            charging_amount,
            charging_time,
            charging_fee,
            service_fee,
            total_fee: charging_fee.saturating_add(service_fee),
            start_time,
            end_time,
            created_at,
        }
    }

    /// A record under a fresh random identifier, made at the present instant
    /// of the machine's clock.
    pub fn new(
        user_id: u128,
        pile_id: String,
        mode: ChargingMode,
        charging_amount: u32,
        charging_time: u64,
        charging_fee: u64,
        service_fee: u64,
        start_time: i64,
        end_time: i64,
    ) -> (record: Self)
        ensures
            record == ChargingRecord::of(
                record.id,
                user_id,
                pile_id,
                mode,
                charging_amount,
                charging_time,
                charging_fee,
                service_fee,
                start_time,
                end_time,
                record.created_at,
            ),
    {
        let id = random_uuid();
        let now = utc_now_seconds();
        ChargingRecord::assemble(
            id,
            user_id,
            pile_id,
            mode,
            charging_amount,
            charging_time,
            charging_fee,
            service_fee,
            start_time,
            end_time,
            now,
        )
    }
}

} // verus!
