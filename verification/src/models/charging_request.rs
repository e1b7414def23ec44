//! A user's request to charge, and the states it passes through.

use vstd::prelude::*;
use crate::error::SchedulerError;
use crate::models::{ChargingMode, RequestStatus};
use crate::runtime::{random_uuid, utc_now_seconds};

verus! {

/// A user's intent to charge a given amount of energy in a given mode.
#[derive(Debug)]
pub struct ChargingRequest {
    /// Identifier of the request.
    pub id: u128,
    /// Identifier of the user who made it.
    pub user_id: u128,
    /// Mode asked for.
    pub mode: ChargingMode,
    /// Energy asked for, in watt-hours.
    pub amount: u32,
    /// Queue number, such as `F1` or `T2`.
    pub queue_number: String,
    /// Where the request stands in its life.
    pub status: RequestStatus,
    /// When the request was made.
    pub created_at: i64,
    /// When the request was last changed.
    pub updated_at: i64,
}

impl Clone for ChargingRequest {
    fn clone(&self) -> (r: Self)
        ensures
            r == *self,
    {
        ChargingRequest {
            id: self.id,
            user_id: self.user_id,
            mode: self.mode,
            amount: self.amount,
            queue_number: self.queue_number.clone(),
            status: self.status,
            created_at: self.created_at,
            updated_at: self.updated_at,
        }
    }
}

impl ChargingRequest {
    /// The waiting request that `assemble` builds.
    pub open spec fn waiting(
        id: u128,
        user_id: u128,
        mode: ChargingMode,
        amount: u32,
        queue_number: String,
        now: i64,
    ) -> ChargingRequest {
        ChargingRequest {
            id,
            user_id,
            mode,
            amount,
            queue_number,
            status: RequestStatus::Waiting,
            created_at: now,
            updated_at: now,
        }
    }

    /// A waiting request under the given identifier, made at `now`.
    pub fn assemble(
        id: u128,
        user_id: u128,
        mode: ChargingMode,
        amount: u32,
        queue_number: String,
        now: i64,
    ) -> (request: Self)
        ensures
            request == ChargingRequest::waiting(id, user_id, mode, amount, queue_number, now),
    {
        ChargingRequest {
            id,
            user_id,
            mode,
            amount,
            queue_number,
            status: RequestStatus::Waiting,
            created_at: now,
            updated_at: now,
        }
    }

    /// A waiting request under a fresh random identifier, made at the
    /// present instant of the machine's clock.
    pub fn new(user_id: u128, mode: ChargingMode, amount: u32, queue_number: String) -> (request:
        Self)
        ensures
            request == ChargingRequest::waiting(
                request.id,
                user_id,
                mode,
                amount,
                queue_number,
                request.created_at,
            ),
    {
        let id = random_uuid();
        let now = utc_now_seconds();
        ChargingRequest::assemble(id, user_id, mode, amount, queue_number, now)
    }

    /// The request with another status and nothing else changed.
    pub open spec fn with_status(self, status: RequestStatus) -> ChargingRequest {
        ChargingRequest { status, ..self }
    }

    /// Moves a waiting request into charging. A request in any other state
    /// is left as it was, with `CannotModify`.
    pub fn start_charging(&mut self) -> (r: Result<(), SchedulerError>)
        ensures
            old(self).status == RequestStatus::Waiting ==>
                r.is_ok() && *final(self) == old(self).with_status(RequestStatus::Charging),
            old(self).status != RequestStatus::Waiting ==> r == Err::<(), SchedulerError>(
                SchedulerError::CannotModify,
            ) && *final(self) == *old(self),
    {
        match self.status {
            RequestStatus::Waiting => {
                self.status = RequestStatus::Charging;
                Ok(())
            },
            _ => Err(SchedulerError::CannotModify),
        }
    }

    /// Moves a charging request into completed. A request in any other state
    /// is left as it was, with `CannotModify`.
    pub fn complete_charging(&mut self) -> (r: Result<(), SchedulerError>)
        ensures
            old(self).status == RequestStatus::Charging ==>
                r.is_ok() && *final(self) == old(self).with_status(RequestStatus::Completed),
            old(self).status != RequestStatus::Charging ==> r == Err::<(), SchedulerError>(
                SchedulerError::CannotModify,
            ) && *final(self) == *old(self),
    {
        match self.status {
            RequestStatus::Charging => {
                self.status = RequestStatus::Completed;
                Ok(())
            },
            _ => Err(SchedulerError::CannotModify),
        }
    }

    /// Whether the request can still be cancelled.
    pub open spec fn is_active(self) -> bool {
        self.status == RequestStatus::Waiting || self.status == RequestStatus::Charging
    }

    /// Cancels a request that is waiting or charging. A request that is
    /// completed or already cancelled is left as it was, with `CannotModify`.
    pub fn cancel(&mut self) -> (r: Result<(), SchedulerError>)
        ensures
            old(self).is_active() ==> r.is_ok() && *final(self) == old(self).with_status(
                RequestStatus::Cancelled,
            ),
            !old(self).is_active() ==> r == Err::<(), SchedulerError>(
                SchedulerError::CannotModify,
            ) && *final(self) == *old(self),
    {
        match self.status {
            RequestStatus::Waiting | RequestStatus::Charging => {
                self.status = RequestStatus::Cancelled;
                Ok(())
            },
            _ => Err(SchedulerError::CannotModify),
        }
    }

    /// Replaces the amount of energy asked for.
    pub fn update_amount(&mut self, new_amount: u32)
        ensures
            *final(self) == (ChargingRequest { amount: new_amount, ..*old(self) }),
    {
        self.amount = new_amount;
    }

    /// The request after a change of mode at `now`.
    pub open spec fn with_mode(
        self,
        new_mode: ChargingMode,
        new_queue_number: String,
        now: i64,
    ) -> ChargingRequest {
        ChargingRequest {
            mode: new_mode,
            queue_number: new_queue_number,
            updated_at: now,
            ..self
        }
    }

    /// Replaces mode and queue number, and notes `now` as the time of the
    /// change.
    pub fn update_mode_at(&mut self, new_mode: ChargingMode, new_queue_number: String, now: i64)
        ensures
            *final(self) == old(self).with_mode(new_mode, new_queue_number, now),
    {
        self.mode = new_mode;
        self.queue_number = new_queue_number;
        self.updated_at = now;
    }

    /// Replaces mode and queue number, and notes the present instant of the
    /// machine's clock as the time of the change.
    pub fn update_mode(&mut self, new_mode: ChargingMode, new_queue_number: String)
        ensures
            *final(self) == old(self).with_mode(
                new_mode,
                new_queue_number,
                final(self).updated_at,
            ),
    {
        let now = utc_now_seconds();
        self.update_mode_at(new_mode, new_queue_number, now);
    }
}

} // verus!
