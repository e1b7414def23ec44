//! A charging pile: its mode, its status and its cumulative counters.

use vstd::prelude::*;
use vstd::string::*;
use crate::error::SchedulerError;
use crate::models::{same_text, FAST_CHARGING_POWER, SLOW_CHARGING_POWER};
use crate::runtime::{random_uuid, utc_now_seconds};

verus! {

/// How fast a pile charges, and which piles a request may be sent to.
#[derive(Debug, Clone, Copy, PartialEq, Eq, Hash, Structural)]
pub enum ChargingMode {
    /// Fast charging.
    Fast,
    /// Slow charging.
    Slow,
}

impl ChargingMode {
    /// The name of the mode as it is written at the persistence and wire
    /// boundaries.
    pub open spec fn name(&self) -> &'static str {
        match self {
            ChargingMode::Fast => "Fast",
            ChargingMode::Slow => "Slow",
        }
    }

    /// Writes the mode by its name.
    pub fn to_string(&self) -> (s: String)
        ensures
            s@ == self.name()@,
    {
        match self {
            ChargingMode::Fast => String::from_str("Fast"),
            ChargingMode::Slow => String::from_str("Slow"),
        }
    }

    /// The mode that a text names, if it names one.
    pub open spec fn of_name(text: Seq<char>) -> Option<ChargingMode> {
        if text == "Fast"@ {
            Some(ChargingMode::Fast)
        } else if text == "Slow"@ {
            Some(ChargingMode::Slow)
        } else {
            None
        }
    }

    /// Reads a mode from its name. Any other text is `InvalidMode`.
    pub fn parse(s: &str) -> (r: Result<ChargingMode, SchedulerError>)
        ensures
            match r {
                Ok(mode) => ChargingMode::of_name(s@) == Some(mode),
                Err(e) => e == SchedulerError::InvalidMode && ChargingMode::of_name(s@).is_none(),
            },
    {
        if same_text(s, "Fast") {
            Ok(ChargingMode::Fast)
        } else if same_text(s, "Slow") {
            Ok(ChargingMode::Slow)
        } else {
            Err(SchedulerError::InvalidMode)
        }
    }

    /// The mode that a part of a path names, if it names one: the name of
    /// the mode, with its first letter in upper or in lower case.
    pub open spec fn of_path(text: Seq<char>) -> Option<ChargingMode> {
        if text == "fast"@ || text == "Fast"@ {
            Some(ChargingMode::Fast)
        } else if text == "slow"@ || text == "Slow"@ {
            Some(ChargingMode::Slow)
        } else {
            None
        }
    }

    /// Reads a mode from a part of a path. Any text but `fast`, `Fast`,
    /// `slow` and `Slow` is `InvalidMode`.
    pub fn parse_path(s: &str) -> (r: Result<ChargingMode, SchedulerError>)
        ensures
            match r {
                Ok(mode) => ChargingMode::of_path(s@) == Some(mode),
                Err(e) => e == SchedulerError::InvalidMode && ChargingMode::of_path(s@).is_none(),
            },
    {
        if same_text(s, "fast") || same_text(s, "Fast") {
            Ok(ChargingMode::Fast)
        } else if same_text(s, "slow") || same_text(s, "Slow") {
            Ok(ChargingMode::Slow)
        } else {
            Err(SchedulerError::InvalidMode)
        }
    }

    /// The power at which a pile of this mode charges, in watts.
    pub open spec fn power(&self) -> u32 {
        match self {
            ChargingMode::Fast => FAST_CHARGING_POWER,
            ChargingMode::Slow => SLOW_CHARGING_POWER,
        }
    }

    /// The letter with which queue numbers of this mode begin.
    pub open spec fn prefix(&self) -> char {
        match self {
            ChargingMode::Fast => 'F',
            ChargingMode::Slow => 'T',
        }
    }
}

/// The state of a pile.
#[derive(Debug, Clone, Copy, PartialEq, Eq, Hash, Structural)]
pub enum PileStatus {
    /// Switched on and idle.
    Available,
    /// Charging a vehicle.
    Charging,
    /// Out of order.
    Fault,
    /// Switched off.
    Shutdown,
}

impl PileStatus {
    /// The name of the status as it is written at the persistence and wire
    /// boundaries.
    pub open spec fn name(&self) -> &'static str {
        match self {
            PileStatus::Available => "Available",
            PileStatus::Charging => "Charging",
            PileStatus::Shutdown => "Shutdown",
            PileStatus::Fault => "Fault",
        }
    }

    /// The status that a text names, if it names one.
    pub open spec fn of_name(text: Seq<char>) -> Option<PileStatus> {
        if text == "Available"@ {
            Some(PileStatus::Available)
        } else if text == "Charging"@ {
            Some(PileStatus::Charging)
        } else if text == "Fault"@ {
            Some(PileStatus::Fault)
        } else if text == "Shutdown"@ {
            Some(PileStatus::Shutdown)
        } else {
            None
        }
    }

    /// Reads a status from its name. Any other text is `NotFound`.
    pub fn parse(s: &str) -> (r: Result<PileStatus, SchedulerError>)
        ensures
            match r {
                Ok(status) => PileStatus::of_name(s@) == Some(status),
                Err(e) => e == SchedulerError::NotFound && PileStatus::of_name(s@).is_none(),
            },
    {
        if same_text(s, "Available") {
            Ok(PileStatus::Available)
        } else if same_text(s, "Charging") {
            Ok(PileStatus::Charging)
        } else if same_text(s, "Fault") {
            Ok(PileStatus::Fault)
        } else if same_text(s, "Shutdown") {
            Ok(PileStatus::Shutdown)
        } else {
            Err(SchedulerError::NotFound)
        }
    }

    /// Writes the status by its name.
    pub fn to_string(&self) -> (s: String)
        ensures
            s@ == self.name()@,
    {
        match self {
            PileStatus::Available => String::from_str("Available"),
            PileStatus::Charging => String::from_str("Charging"),
            PileStatus::Shutdown => String::from_str("Shutdown"),
            PileStatus::Fault => String::from_str("Fault"),
        }
    }
}

/// The sum `a + b`, held at the largest `u64` where it would pass it.
pub open spec fn capped_sum(a: int, b: int) -> u64 {
    if a + b > u64::MAX {
        u64::MAX
    } else {
        (a + b) as u64
    }
}

/// The cumulative counters of a pile.
#[derive(Debug, Clone, Copy, PartialEq, Eq, Structural)]
pub struct PileTotals {
    /// Sessions completed.
    pub charge_count: u64,
    /// Minutes charged.
    pub charge_time: u64,
    /// Watt-hours delivered.
    pub charge_amount: u64,
    /// Electricity fees earned, in millionths of a yuan.
    pub charging_fee: u64,
    /// Service fees earned, in millionths of a yuan.
    pub service_fee: u64,
}

impl PileTotals {
    /// The counters after one more session of the given length, energy and
    /// fees, each held at the largest `u64`.
    pub open spec fn credit(
        self,
        charge_time: u64,
        charge_amount: u32,
        charging_fee: u64,
        service_fee: u64,
    ) -> PileTotals {
        PileTotals {
            charge_count: capped_sum(self.charge_count as int, 1),
            charge_time: capped_sum(self.charge_time as int, charge_time as int),
            charge_amount: capped_sum(self.charge_amount as int, charge_amount as int),
            charging_fee: capped_sum(self.charging_fee as int, charging_fee as int),
            service_fee: capped_sum(self.service_fee as int, service_fee as int),
        }
    }
}

/// A physical charger with what it has delivered so far.
#[derive(Debug)]
pub struct ChargingPile {
    /// Identifier of the pile.
    pub id: u128,
    /// Number of the pile, such as `F1` or `T2`.
    pub number: String,
    /// Mode in which the pile charges.
    pub mode: ChargingMode,
    /// Present state.
    pub status: PileStatus,
    /// Sessions completed.
    pub total_charge_count: u64,
    /// Minutes charged.
    pub total_charge_time: u64,
    /// Watt-hours delivered.
    pub total_charge_amount: u64,
    /// Electricity fees earned, in millionths of a yuan.
    pub total_charging_fee: u64,
    /// Service fees earned, in millionths of a yuan.
    pub total_service_fee: u64,
    /// When the pile last began to charge.
    pub started_at: Option<i64>,
}

impl Clone for ChargingPile {
    fn clone(&self) -> (r: Self)
        ensures
            r == *self,
    {
        ChargingPile {
            id: self.id,
            number: self.number.clone(),
            mode: self.mode,
            status: self.status,
            total_charge_count: self.total_charge_count,
            total_charge_time: self.total_charge_time,
            total_charge_amount: self.total_charge_amount,
            total_charging_fee: self.total_charging_fee,
            total_service_fee: self.total_service_fee,
            started_at: self.started_at,
        }
    }
}

impl ChargingPile {
    /// A pile that is available and has delivered nothing, under a fresh
    /// random identifier.
    pub fn new(number: String, mode: ChargingMode) -> (pile: Self)
        ensures
            pile == ChargingPile::with_id(pile.id, number, mode),
    {
        ChargingPile::assemble(random_uuid(), number, mode)
    }

    /// The pile that `assemble` builds.
    pub open spec fn with_id(id: u128, number: String, mode: ChargingMode) -> ChargingPile {
        ChargingPile {
            id,
            number,
            mode,
            status: PileStatus::Available,
            total_charge_count: 0,
            total_charge_time: 0,
            total_charge_amount: 0,
            total_charging_fee: 0,
            total_service_fee: 0,
            started_at: None,
        }
    }

    /// A pile that is available and has delivered nothing, under the given
    /// identifier.
    pub fn assemble(id: u128, number: String, mode: ChargingMode) -> (pile: Self)
        ensures
            pile == ChargingPile::with_id(id, number, mode),
    {
        ChargingPile {
            id,
            number,
            mode,
            status: PileStatus::Available,
            total_charge_count: 0,
            total_charge_time: 0,
            total_charge_amount: 0,
            total_charging_fee: 0,
            total_service_fee: 0,
            started_at: None,
        }
    }

    /// The cumulative counters of the pile.
    pub open spec fn totals(self) -> PileTotals {
        PileTotals {
            charge_count: self.total_charge_count,
            charge_time: self.total_charge_time,
            charge_amount: self.total_charge_amount,
            charging_fee: self.total_charging_fee,
            service_fee: self.total_service_fee,
        }
    }

    /// The cumulative counters of the pile.
    pub fn get_totals(&self) -> (totals: PileTotals)
        ensures
            totals == self.totals(),
    {
        PileTotals {
            charge_count: self.total_charge_count,
            charge_time: self.total_charge_time,
            charge_amount: self.total_charge_amount,
            charging_fee: self.total_charging_fee,
            service_fee: self.total_service_fee,
        }
    }

    /// The power at which the pile charges, in watts.
    pub fn get_power(&self) -> (power: u32)
        ensures
            power == self.mode.power(),
    {
        match self.mode {
            ChargingMode::Fast => FAST_CHARGING_POWER,
            ChargingMode::Slow => SLOW_CHARGING_POWER,
        }
    }

    /// The pile once it has begun to charge at `now`.
    pub open spec fn charging_from(self, now: i64) -> ChargingPile {
        ChargingPile { status: PileStatus::Charging, started_at: Some(now), ..self }
    }

    /// Begins a session at the instant `now`. Only an available pile can:
    /// any other is left as it was, with `PileUnavailable`.
    pub fn start_charging_at(&mut self, now: i64) -> (r: Result<(), SchedulerError>)
        ensures
            old(self).status == PileStatus::Available ==>
                r.is_ok() && *final(self) == old(self).charging_from(now),
            old(self).status != PileStatus::Available ==> r == Err::<(), SchedulerError>(
                SchedulerError::PileUnavailable,
            ) && *final(self) == *old(self),
    {
        match self.status {
            PileStatus::Available => {
                self.status = PileStatus::Charging;
                self.started_at = Some(now);
                Ok(())
            },
            _ => Err(SchedulerError::PileUnavailable),
        }
    }

    /// Begins a session at the present instant of the machine's clock.
    pub fn start_charging(&mut self) -> (r: Result<(), SchedulerError>)
        ensures
            old(self).status == PileStatus::Available ==>
                r.is_ok() && final(self).started_at.is_some()
                && *final(self) == old(self).charging_from(final(self).started_at.unwrap()),
            old(self).status != PileStatus::Available ==> r == Err::<(), SchedulerError>(
                SchedulerError::PileUnavailable,
            ) && *final(self) == *old(self),
    {
        let now = utc_now_seconds();
        self.start_charging_at(now)
    }

    /// The pile once a session of `charge_time` minutes that delivered
    /// `charge_amount` watt-hours has ended: available again, one session
    /// more, and time and energy added to the counters, each held at the
    /// largest `u64`.
    pub open spec fn after_session(self, charge_time: u64, charge_amount: u32) -> ChargingPile {
        ChargingPile {
            status: PileStatus::Available,
            total_charge_count: capped_sum(self.total_charge_count as int, 1),
            total_charge_time: capped_sum(self.total_charge_time as int, charge_time as int),
            total_charge_amount: capped_sum(self.total_charge_amount as int, charge_amount as int),
            ..self
        }
    }

    /// Ends the session of a charging pile. A pile that is not charging is
    /// left as it was, with `PileUnavailable`. The fees of the session are
    /// added by `add_fees`.
    pub fn stop_charging(&mut self, charge_time: u64, charge_amount: u32) -> (r: Result<
        (),
        SchedulerError,
    >)
        ensures
            old(self).status == PileStatus::Charging ==>
                r.is_ok() && *final(self) == old(self).after_session(charge_time, charge_amount),
            old(self).status != PileStatus::Charging ==> r == Err::<(), SchedulerError>(
                SchedulerError::PileUnavailable,
            ) && *final(self) == *old(self),
    {
        match self.status {
            PileStatus::Charging => {
                self.status = PileStatus::Available;
                self.total_charge_count = self.total_charge_count.saturating_add(1);
                self.total_charge_time = self.total_charge_time.saturating_add(charge_time);
                self.total_charge_amount = self.total_charge_amount.saturating_add(
                    charge_amount as u64,
                );
                Ok(())
            },
            _ => Err(SchedulerError::PileUnavailable),
        }
    }

    /// The pile with the fees of one session added to its counters, each held
    /// at the largest `u64`.
    pub open spec fn with_fees(self, electricity_fee: u64, service_fee: u64) -> ChargingPile {
        ChargingPile {
            total_charging_fee: capped_sum(self.total_charging_fee as int, electricity_fee as int),
            total_service_fee: capped_sum(self.total_service_fee as int, service_fee as int),
            ..self
        }
    }

    /// Adds the fees of one session to the counters.
    pub fn add_fees(&mut self, electricity_fee: u64, service_fee: u64)
        ensures
            *final(self) == old(self).with_fees(electricity_fee, service_fee),
    {
        self.total_charging_fee = self.total_charging_fee.saturating_add(electricity_fee);
        self.total_service_fee = self.total_service_fee.saturating_add(service_fee);
    }

    /// Closes a session of the given length, energy and fees, whatever the
    /// state of the pile was: the pile is available, and its counters have
    /// grown by one session, the minutes, the energy and the two fees.
    pub fn close_session(
        &mut self,
        charge_time: u64,
        charge_amount: u32,
        electricity_fee: u64,
        service_fee: u64,
    )
        ensures
            *final(self) == old(self).after_session(charge_time, charge_amount).with_fees(
                electricity_fee,
                service_fee,
            ),
            final(self).totals() == old(self).totals().credit(
                charge_time,
                charge_amount,
                electricity_fee,
                service_fee,
            ),
    {
        self.status = PileStatus::Available;
        self.total_charge_count = self.total_charge_count.saturating_add(1);
        self.total_charge_time = self.total_charge_time.saturating_add(charge_time);
        self.total_charge_amount = self.total_charge_amount.saturating_add(charge_amount as u64);
        self.add_fees(electricity_fee, service_fee);
    }

    /// Marks the pile as out of order, whatever its state was.
    pub fn report_fault(&mut self)
        ensures
            *final(self) == (ChargingPile { status: PileStatus::Fault, ..*old(self) }),
    {
        self.status = PileStatus::Fault;
    }

    /// Puts a pile that is out of order back in service. Any other pile is
    /// left as it was, with `PileUnavailable`.
    pub fn repair(&mut self) -> (r: Result<(), SchedulerError>)
        ensures
            old(self).status == PileStatus::Fault ==> r.is_ok() && *final(self) == (ChargingPile {
                status: PileStatus::Available,
                ..*old(self)
            }),
            old(self).status != PileStatus::Fault ==> r == Err::<(), SchedulerError>(
                SchedulerError::PileUnavailable,
            ) && *final(self) == *old(self),
    {
        match self.status {
            PileStatus::Fault => {
                self.status = PileStatus::Available;
                Ok(())
            },
            _ => Err(SchedulerError::PileUnavailable),
        }
    }

    /// Switches an available pile off. Any other pile is left as it was, with
    /// `PileUnavailable`.
    pub fn shutdown(&mut self) -> (r: Result<(), SchedulerError>)
        ensures
            old(self).status == PileStatus::Available ==> r.is_ok() && *final(self) == (
            ChargingPile { status: PileStatus::Shutdown, ..*old(self) }),
            old(self).status != PileStatus::Available ==> r == Err::<(), SchedulerError>(
                SchedulerError::PileUnavailable,
            ) && *final(self) == *old(self),
    {
        match self.status {
            PileStatus::Available => {
                self.status = PileStatus::Shutdown;
                Ok(())
            },
            _ => Err(SchedulerError::PileUnavailable),
        }
    }

    /// Switches a pile that is off back on. Any other pile is left as it was,
    /// with `PileUnavailable`.
    pub fn startup(&mut self) -> (r: Result<(), SchedulerError>)
        ensures
            old(self).status == PileStatus::Shutdown ==> r.is_ok() && *final(self) == (
            ChargingPile { status: PileStatus::Available, ..*old(self) }),
            old(self).status != PileStatus::Shutdown ==> r == Err::<(), SchedulerError>(
                SchedulerError::PileUnavailable,
            ) && *final(self) == *old(self),
    {
        match self.status {
            PileStatus::Shutdown => {
                self.status = PileStatus::Available;
                Ok(())
            },
            _ => Err(SchedulerError::PileUnavailable),
        }
    }
}

} // verus!
