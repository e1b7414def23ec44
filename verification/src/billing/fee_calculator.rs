//! The fee of a charging session.

use vstd::prelude::*;
use crate::billing::{BillingRecord, TimeSlot, SERVICE_RATE};
use crate::error::SchedulerError;

verus! {

/// The length of the sub-interval that begins at `from` when `[from, end)` is
/// cut into minutes: a whole minute, or what is left before `end`.
pub open spec fn step_length(from: int, end: int) -> int {
    if end - from < 60 {
        end - from
    } else {
        60
    }
}

/// The seconds of `[start, end)`, each weighted with the price of the period
/// in which its sub-interval begins, the interval being cut into minutes
/// from `start` on.
pub open spec fn priced_seconds(start: int, end: int) -> int
    decreases end - start,
{
    if end <= start {
        0
    } else {
        step_length(start, end) * TimeSlot::at(start).rate() + priced_seconds(
            start + step_length(start, end),
            end,
        )
    }
}

/// The electricity fee, in millionths of a yuan, of `amount` watt-hours
/// delivered evenly over `[start, end)`: each sub-interval is charged its
/// share of the energy at the price of the period in which it begins.
/// Fractions of a millionth are dropped.
pub open spec fn electricity_fee(amount: int, start: int, end: int) -> int {
    if end <= start {
        0
    } else {
        (amount * priced_seconds(start, end)) / (end - start)
    }
}

/// The service fee, in millionths of a yuan, of `amount` watt-hours.
pub open spec fn service_fee(amount: int) -> int {
    amount * SERVICE_RATE
}

/// The whole minutes of `[start, end)`.
pub open spec fn whole_minutes(start: int, end: int) -> int {
    (end - start) / 60
}

/// The priced seconds of an interval are at most its length times the
/// highest price, and never negative.
pub proof fn lemma_priced_seconds_bounds(start: int, end: int)
    ensures
        0 <= priced_seconds(start, end),
        start <= end ==> priced_seconds(start, end) <= 1_000 * (end - start),
        start <= end ==> 400 * (end - start) <= priced_seconds(start, end),
    decreases end - start,
{
    if end > start {
        let step = step_length(start, end);
        let rate = TimeSlot::at(start).rate() as int;
        lemma_priced_seconds_bounds(start + step, end);
        assert(400 * step <= step * rate <= 1_000 * step) by (nonlinear_arith)
            requires
                0 <= step,
                400 <= rate <= 1_000,
        ;
    }
}

/// The electricity fee lies between the fee at the lowest and the fee at the
/// highest price.
pub proof fn lemma_electricity_fee_bounds(amount: int, start: int, end: int)
    requires
        0 <= amount,
        start < end,
    ensures
        0 <= electricity_fee(amount, start, end) <= amount * 1_000,
{
    lemma_priced_seconds_bounds(start, end);
    let p = priced_seconds(start, end);
    let d = end - start;
    assert(amount * p <= amount * (1_000 * d)) by (nonlinear_arith)
        requires
            0 <= amount,
            p <= 1_000 * d,
    ;
    assert(amount * (1_000 * d) == (amount * 1_000) * d) by (nonlinear_arith);
    assert(0 <= amount * p) by (nonlinear_arith)
        requires
            0 <= amount,
            0 <= p,
    ;
    assert((amount * p) / d <= amount * 1_000) by (nonlinear_arith)
        requires
            d > 0,
            amount * p <= (amount * 1_000) * d,
    ;
    assert(0 <= (amount * p) / d) by (nonlinear_arith)
        requires
            d > 0,
            0 <= amount * p,
    ;
}

/// Over an interval of which every instant falls in one tariff period, the
/// priced seconds are the length of the interval at the price of the period.
pub proof fn lemma_priced_seconds_one_period(start: int, end: int, slot: TimeSlot)
    requires
        forall|t: int| start <= t < end ==> TimeSlot::at(t) == slot,
    ensures
        start <= end ==> priced_seconds(start, end) == (end - start) * slot.rate(),
    decreases end - start,
{
    let rate = slot.rate() as int;
    if end > start {
        let step = step_length(start, end);
        assert(TimeSlot::at(start) == slot);
        lemma_priced_seconds_one_period(start + step, end, slot);
        assert(priced_seconds(start + step, end) == (end - (start + step)) * rate);
        assert(priced_seconds(start, end) == step * rate + priced_seconds(start + step, end));
        assert(step * rate + (end - (start + step)) * rate == (end - start) * rate)
            by (nonlinear_arith);
    } else if end == start {
        assert((end - start) * rate == 0) by (nonlinear_arith)
            requires
                end == start,
        ;
    }
}

/// A session that falls in one tariff period costs its energy at the price
/// of the period, to the millionth.
pub proof fn lemma_fee_in_one_period(amount: int, start: int, end: int, slot: TimeSlot)
    requires
        start < end,
        forall|t: int| start <= t < end ==> TimeSlot::at(t) == slot,
    ensures
        electricity_fee(amount, start, end) == amount * slot.rate(),
{
    lemma_priced_seconds_one_period(start, end, slot);
    let d = end - start;
    let rate = slot.rate() as int;
    assert((amount * (d * rate)) / d == amount * rate) by (nonlinear_arith)
        requires
            d > 0,
    ;
}

/// Computes the fee of a charging session.
pub struct FeeCalculator;

impl FeeCalculator {
    /// What `calculate_fee` returns: `InvalidInterval` for an interval that
    /// does not end after it starts, else `InvalidAmount` for no energy, else
    /// the bill with the electricity fee of the interval, the service fee of
    /// the energy, their sum and the whole minutes of the interval.
    pub open spec fn bill(
        user_id: u128,
        pile_id: String,
        charge_amount: u32,
        start_time: i64,
        end_time: i64,
    ) -> Result<BillingRecord, SchedulerError> {
        if end_time <= start_time {
            Err(SchedulerError::InvalidInterval)
        } else if charge_amount == 0 {
            Err(SchedulerError::InvalidAmount)
        } else {
            Ok(
                BillingRecord::of(
                    user_id,
                    pile_id,
                    charge_amount,
                    whole_minutes(start_time as int, end_time as int) as u64,
                    start_time,
                    end_time,
                    electricity_fee(charge_amount as int, start_time as int, end_time as int) as u64,
                    service_fee(charge_amount as int) as u64,
                ),
            )
        }
    }

    /// Sums the priced seconds of `[start_time, end_time)`, minute by minute.
    fn priced_seconds_of(start_time: i64, end_time: i64) -> (total: u128)
        requires
            start_time < end_time,
        ensures
            total == priced_seconds(start_time as int, end_time as int),
    {
        let mut cursor: i128 = start_time as i128;
        let end: i128 = end_time as i128;
        let mut total: u128 = 0;
        while cursor < end
            invariant
                start_time <= cursor <= end,
                end == end_time,
                total + priced_seconds(cursor as int, end as int) == priced_seconds(
                    start_time as int,
                    end_time as int,
                ),
                total <= 1_000 * (cursor - start_time),
            decreases end - cursor,
        {
            let step: i128 = if end - cursor < 60 {
                end - cursor
            } else {
                60
            };
            let rate = TimeSlot::from_time(cursor as i64).get_rate();
            assert(rate <= 1_000);
            assert(step * rate <= 1_000 * step) by (nonlinear_arith)
                requires
                    0 <= step,
                    0 <= rate <= 1_000,
            ;
            total = total + (step as u128) * (rate as u128);
            cursor = cursor + step;
        }
        total
    }

    /// The bill for `charge_amount` watt-hours delivered from `start_time`
    /// to `end_time`. The result is a function of the arguments alone.
    pub fn calculate_fee(
        user_id: u128,
        pile_id: String,
        charge_amount: u32,
        start_time: i64,
        end_time: i64,
    ) -> (r: Result<BillingRecord, SchedulerError>)
        ensures
            r == FeeCalculator::bill(user_id, pile_id, charge_amount, start_time, end_time),
            r matches Ok(record) ==> record.total_fee == record.electricity_fee
                + record.service_fee,
    {
        if end_time <= start_time {
            return Err(SchedulerError::InvalidInterval);
        }
        if charge_amount == 0 {
            return Err(SchedulerError::InvalidAmount);
        }
        let seconds: u128 = (end_time as i128 - start_time as i128) as u128;
        let priced = FeeCalculator::priced_seconds_of(start_time, end_time);
        proof {
            lemma_priced_seconds_bounds(start_time as int, end_time as int);
            lemma_electricity_fee_bounds(charge_amount as int, start_time as int, end_time as int);
            assert(charge_amount * priced <= 0x1_0000_0000 * (1_000 * 0x1_0000_0000_0000_0000))
                by (nonlinear_arith)
                requires
                    0 <= charge_amount < 0x1_0000_0000,
                    0 <= priced <= 1_000 * 0x1_0000_0000_0000_0000,
            ;
        }
        let electricity: u64 = ((charge_amount as u128 * priced) / seconds) as u64;
        let service: u64 = charge_amount as u64 * SERVICE_RATE as u64;
        let minutes: u64 = (seconds / 60) as u64;
        Ok(
            BillingRecord::new(
                user_id,
                pile_id,
                charge_amount,
                minutes,
                start_time,
                end_time,
                electricity,
                service,
            ),
        )
    }
}

} // verus!
