//! The scheduler: the one handle through which the station is run.

use vstd::prelude::*;
use crate::error::SchedulerError;
use crate::models::{
    ChargingMode,
    ChargingRequest,
    PileStatus,
    RequestStatus,
    FAST_CHARGING_PILES,
    SLOW_CHARGING_PILES,
};
use crate::scheduler::dispatcher::Dispatcher;
use crate::scheduler::number_generator::{queue_label, NumberGenerator};
use crate::scheduler::queue_manager::{is_default_slot, QueueManager, TickReport};
use crate::scheduler::queue_model::{completed_of, pile_index, records_of, QueueModel};
use crate::scheduler::status::{SystemRealTimeStatusForQueue, SystemStatus};
use crate::scheduler::time_system::{TimeSystem, DEFAULT_ACCELERATION};

verus! {

/// Whether the scheduler runs and whether it calls waiting requests.
#[derive(Debug, Clone, Copy, PartialEq, Eq, Structural)]
pub struct SchedulerStatus {
    /// Whether the scheduler has been started and not stopped.
    pub is_running: bool,
    /// Whether waiting requests are being sent to the piles.
    pub is_calling: bool,
}

/// A request as the front end sends it.
#[derive(Debug)]
pub struct ChargingRequestInput {
    /// Identifier of the user.
    pub user_id: u128,
    /// Name of the mode, `Fast` or `Slow`.
    pub mode: String,
    /// Energy asked for, in watt-hours.
    pub amount: u32,
}

/// A request as the front end receives it.
#[derive(Debug)]
pub struct ChargingRequestResponse {
    /// Identifier of the request.
    pub id: u128,
    /// Identifier of the user who made it.
    pub user_id: u128,
    /// Mode asked for.
    pub mode: ChargingMode,
    /// Energy asked for, in watt-hours.
    pub amount: u32,
    /// Queue number.
    pub queue_number: String,
    /// Where the request stands in its life.
    pub status: RequestStatus,
    /// When the request was made.
    pub created_at: i64,
}

impl ChargingRequestResponse {
    /// The response that tells of a request.
    pub open spec fn of(request: ChargingRequest) -> ChargingRequestResponse {
        ChargingRequestResponse {
            id: request.id,
            user_id: request.user_id,
            mode: request.mode,
            amount: request.amount,
            queue_number: request.queue_number,
            status: request.status,
            created_at: request.created_at,
        }
    }

    /// The response that tells of a request.
    pub fn from_request(request: ChargingRequest) -> (response: Self)
        ensures
            response == ChargingRequestResponse::of(request),
    {
        ChargingRequestResponse {
            id: request.id,
            user_id: request.user_id,
            mode: request.mode,
            amount: request.amount,
            queue_number: request.queue_number,
            status: request.status,
            created_at: request.created_at,
        }
    }
}

/// The charging station's scheduler: the queues, the queue numbers, the
/// dispatcher and the simulated clock.
pub struct ChargingScheduler {
    queue_manager: QueueManager,
    number_generator: NumberGenerator,
    dispatcher: Dispatcher,
    is_running: bool,
    time_system: TimeSystem,
}

impl ChargingScheduler {
    /// The queues of the station.
    pub closed spec fn model(&self) -> QueueModel {
        self.queue_manager@
    }

    /// The generator of queue numbers.
    pub closed spec fn numbers(&self) -> NumberGenerator {
        self.number_generator
    }

    /// Whether the scheduler has been started and not stopped.
    pub closed spec fn running(&self) -> bool {
        self.is_running
    }

    /// Whether waiting requests are being sent to the piles.
    pub closed spec fn calling(&self) -> bool {
        self.dispatcher.calling()
    }

    /// The simulated clock.
    pub closed spec fn clock(&self) -> TimeSystem {
        self.time_system
    }

    /// Validity of the scheduler: that of its queues. Every scheduler is
    /// valid: it is made valid, and every operation keeps it so.
    #[verifier::type_invariant]
    pub open spec fn wf(&self) -> bool {
        self.model().wf()
    }

    /// Whether nothing but the clock's reading may differ between the two.
    pub open spec fn same_state(&self, other: &ChargingScheduler) -> bool {
        &&& self.model() == other.model()
        &&& self.numbers() == other.numbers()
        &&& self.running() == other.running()
        &&& self.calling() == other.calling()
        &&& self.clock() == other.clock()
    }

    /// A scheduler that is stopped, with empty queues and no pile, whose
    /// clock begins now and runs 30 times as fast as the machine's.
    pub fn new() -> (scheduler: Self)
        ensures
            scheduler.wf(),
            !scheduler.running(),
            !scheduler.calling(),
            scheduler.model().waiting.len() == 0,
            scheduler.model().slots.len() == 0,
            scheduler.numbers().issued(ChargingMode::Fast) == 0,
            scheduler.numbers().issued(ChargingMode::Slow) == 0,
            scheduler.clock().factor() == DEFAULT_ACCELERATION,
    {
        ChargingScheduler::with_clock(TimeSystem::new())
    }

    /// A scheduler that is stopped, with empty queues and no pile, on the
    /// given clock.
    pub fn with_clock(time_system: TimeSystem) -> (scheduler: Self)
        ensures
            scheduler.wf(),
            !scheduler.running(),
            !scheduler.calling(),
            scheduler.model().waiting.len() == 0,
            scheduler.model().slots.len() == 0,
            scheduler.numbers().issued(ChargingMode::Fast) == 0,
            scheduler.numbers().issued(ChargingMode::Slow) == 0,
            scheduler.clock() == time_system,
    {
        ChargingScheduler {
            queue_manager: QueueManager::new(),
            number_generator: NumberGenerator::new(),
            dispatcher: Dispatcher::new(),
            is_running: false,
            time_system,
        }
    }

    /// The queues of the station.
    pub fn queue_manager(&self) -> (manager: &QueueManager)
        ensures
            manager@ == self.model(),
    {
        &self.queue_manager
    }

    /// The simulated clock.
    pub fn time_system(&self) -> (clock: &TimeSystem)
        ensures
            *clock == self.clock(),
    {
        &self.time_system
    }

    /// Starts the scheduler: a station without piles gets its default
    /// piles, calling is switched on, and the scheduler runs. A scheduler
    /// that runs already answers `AlreadyRunning`, and nothing changes.
    pub fn start(&mut self) -> (r: Result<(), SchedulerError>)
        ensures
            final(self).wf(),
            final(self).numbers() == old(self).numbers(),
            final(self).clock() == old(self).clock(),
            final(self).model().waiting == old(self).model().waiting,
            old(self).running() ==> r == Err::<(), SchedulerError>(SchedulerError::AlreadyRunning)
                && final(self).same_state(old(self)),
            !old(self).running() ==> r.is_ok() && final(self).running() && final(self).calling(),
            old(self).model().slots.len() > 0 ==> final(self).model() == old(self).model(),
            !old(self).running() && old(self).model().slots.len() == 0 ==>
                final(self).model().slots.len() == FAST_CHARGING_PILES + SLOW_CHARGING_PILES,
            forall|p: int|
                0 <= p < final(self).model().slots.len() && !old(self).running() &&
                    old(self).model().slots.len() == 0 ==> is_default_slot(
                    #[trigger] final(self).model().slots[p],
                    p,
                ),
    {
        proof {
            use_type_invariant(&*self);
        }
        if self.is_running {
            return Err(SchedulerError::AlreadyRunning);
        }
        let mut manager = QueueManager::new();
        std::mem::swap(&mut manager, &mut self.queue_manager);
        manager.initialize_piles();
        self.queue_manager = manager;
        let mut dispatcher = self.dispatcher;
        dispatcher.start_calling();
        self.dispatcher = dispatcher;
        self.is_running = true;
        Ok(())
    }

    /// Stops the scheduler: calling is switched off and the scheduler does
    /// not run; the queues stay as they are. A scheduler that does not run
    /// answers `NotRunning`, and nothing changes.
    pub fn stop(&mut self) -> (r: Result<(), SchedulerError>)
        ensures
            final(self).model() == old(self).model(),
            final(self).numbers() == old(self).numbers(),
            final(self).clock() == old(self).clock(),
            !old(self).running() ==> r == Err::<(), SchedulerError>(SchedulerError::NotRunning)
                && final(self).same_state(old(self)),
            old(self).running() ==> r.is_ok() && !final(self).running() && !final(self).calling(),
    {
        proof {
            use_type_invariant(&*self);
        }
        if !self.is_running {
            return Err(SchedulerError::NotRunning);
        }
        let mut dispatcher = self.dispatcher;
        dispatcher.stop_calling();
        self.dispatcher = dispatcher;
        self.is_running = false;
        Ok(())
    }

    /// Whether the scheduler runs and whether it calls waiting requests.
    pub fn get_scheduler_status(&self) -> (status: SchedulerStatus)
        ensures
            status.is_running == self.running(),
            status.is_calling == self.calling(),
    {
        SchedulerStatus { is_running: self.is_running, is_calling: self.dispatcher.is_calling() }
    }

    /// Why a request cannot be submitted, if it cannot: the error of the
    /// admission, or `CounterExhausted` where the queue numbers of the
    /// request's mode have run out.
    pub open spec fn submission(&self, request: ChargingRequest) -> Result<(), SchedulerError> {
        if self.model().admission(request).is_err() {
            self.model().admission(request)
        } else if !self.numbers().has_next(request.mode) {
            Err(SchedulerError::CounterExhausted)
        } else {
            Ok(())
        }
    }

    /// Submits a request: it gets the next queue number of its mode and
    /// joins the end of the waiting area. The request as admitted is
    /// returned. A request that cannot be submitted is refused with the
    /// error of `submission`, and nothing changes, the queue numbers
    /// included.
    pub fn submit_request(&mut self, request: ChargingRequest) -> (r: Result<
        ChargingRequest,
        SchedulerError,
    >)
        ensures
            final(self).wf(),
            final(self).running() == old(self).running(),
            final(self).calling() == old(self).calling(),
            final(self).clock() == old(self).clock(),
            old(self).model().within_capacity() ==> final(self).model().within_capacity(),
            match r {
                Ok(admitted) => {
                    &&& old(self).submission(request).is_ok()
                    &&& admitted == (ChargingRequest {
                        queue_number: admitted.queue_number,
                        ..request
                    })
                    &&& admitted.queue_number@ == queue_label(
                        request.mode,
                        old(self).numbers().issued(request.mode) + 1,
                    )
                    &&& final(self).model() == old(self).model().joined(admitted)
                    &&& final(self).numbers().issued(request.mode) == old(self).numbers().issued(
                        request.mode,
                    ) + 1
                    &&& forall|other: ChargingMode|
                        other != request.mode ==>
                            final(self).numbers().issued(other) == old(self).numbers().issued(other)
                },
                Err(e) => {
                    &&& old(self).submission(request) == Err::<(), SchedulerError>(e)
                    &&& final(self).same_state(old(self))
                },
            },
    {
        proof {
            use_type_invariant(&*self);
        }
        let checked = self.queue_manager.check_admission(&request);
        match checked {
            Err(e) => {
                return Err(e);
            },
            Ok(_) => {},
        }
        let mut numbers = self.number_generator;
        let label = match numbers.generate_number(request.mode) {
            Ok(label) => label,
            Err(e) => {
                return Err(e);
            },
        };
        self.number_generator = numbers;
        let mut admitted = request;
        admitted.queue_number = label;
        let copy = admitted.clone();
        let mut manager = QueueManager::new();
        std::mem::swap(&mut manager, &mut self.queue_manager);
        let joined = manager.add_to_waiting_queue(admitted);
        self.queue_manager = manager;
        Ok(copy)
    }

    /// One tick at `now`, as the dispatcher makes it: sessions settled, next
    /// sessions begun and, while calling is on, waiting requests sent to
    /// piles.
    pub fn tick_at(&mut self, now: i64) -> (report: TickReport)
        ensures
            final(self).wf(),
            final(self).model() == old(self).model().tick(now, old(self).calling()),
            final(self).numbers() == old(self).numbers(),
            final(self).running() == old(self).running(),
            final(self).calling() == old(self).calling(),
            final(self).clock() == old(self).clock(),
            old(self).model().within_capacity() ==> final(self).model().within_capacity(),
            report.completed@ == completed_of(old(self).model().slots, now),
            report.records@ == records_of(old(self).model().slots, now),
            report.dispatched == old(self).model().waiting.len() - final(self).model().waiting.len(),
    {
        proof {
            use_type_invariant(&*self);
        }
        let mut manager = QueueManager::new();
        std::mem::swap(&mut manager, &mut self.queue_manager);
        let report = self.dispatcher.tick(&mut manager, now);
        self.queue_manager = manager;
        report
    }

    /// One tick at the present instant of the simulated clock.
    pub fn tick(&mut self) -> (report: TickReport)
        ensures
            final(self).wf(),
            exists|now: i64|
                old(self).clock().start() <= now &&
                    final(self).model() == #[trigger] old(self).model().tick(now, old(self).calling())
                    && report.completed@ == completed_of(old(self).model().slots, now)
                    && report.records@ == records_of(old(self).model().slots, now),
            report.dispatched == old(self).model().waiting.len()
                - final(self).model().waiting.len(),
            final(self).numbers() == old(self).numbers(),
            final(self).running() == old(self).running(),
            final(self).calling() == old(self).calling(),
            final(self).clock() == old(self).clock(),
            old(self).model().within_capacity() ==> final(self).model().within_capacity(),
    {
        let now = self.time_system.current_time();
        self.tick_at(now)
    }

    /// Settles the sessions and begins the next ones at `now`, without
    /// sending waiting requests to piles.
    pub fn manual_tick_at(&mut self, now: i64) -> (report: TickReport)
        ensures
            final(self).wf(),
            final(self).model() == old(self).model().advance(now),
            final(self).numbers() == old(self).numbers(),
            final(self).running() == old(self).running(),
            final(self).calling() == old(self).calling(),
            final(self).clock() == old(self).clock(),
            report.completed@ == completed_of(old(self).model().slots, now),
            report.records@ == records_of(old(self).model().slots, now),
            report.dispatched == 0,
    {
        proof {
            use_type_invariant(&*self);
        }
        let mut manager = QueueManager::new();
        std::mem::swap(&mut manager, &mut self.queue_manager);
        let report = manager.tick(now);
        self.queue_manager = manager;
        report
    }

    /// Settles the sessions and begins the next ones at the present instant
    /// of the simulated clock, without sending waiting requests to piles.
    pub fn manual_tick(&mut self) -> (report: TickReport)
        ensures
            final(self).wf(),
            exists|now: i64|
                old(self).clock().start() <= now &&
                    final(self).model() == #[trigger] old(self).model().advance(now)
                    && report.completed@ == completed_of(old(self).model().slots, now)
                    && report.records@ == records_of(old(self).model().slots, now),
            report.dispatched == 0,
            final(self).model().waiting == old(self).model().waiting,
            final(self).numbers() == old(self).numbers(),
            final(self).running() == old(self).running(),
            final(self).calling() == old(self).calling(),
            final(self).clock() == old(self).clock(),
    {
        let now = self.time_system.current_time();
        self.manual_tick_at(now)
    }

    /// Cancels the request of the given identifier at `now`, wherever it
    /// stands. An identifier that is not tracked, as that of a completed or
    /// cancelled request, is answered with `NotFound`, and nothing changes.
    pub fn cancel_request_at(&mut self, request_id: u128, now: i64) -> (r: Result<
        (),
        SchedulerError,
    >)
        ensures
            final(self).wf(),
            final(self).model() == old(self).model().cancel(request_id, now),
            !final(self).model().tracks(request_id),
            old(self).model().tracks(request_id) ==> r.is_ok(),
            !old(self).model().tracks(request_id) ==> r == Err::<(), SchedulerError>(
                SchedulerError::NotFound,
            ) && final(self).same_state(old(self)),
            final(self).numbers() == old(self).numbers(),
            final(self).running() == old(self).running(),
            final(self).calling() == old(self).calling(),
            final(self).clock() == old(self).clock(),
            old(self).model().within_capacity() ==> final(self).model().within_capacity(),
    {
        proof {
            use_type_invariant(&*self);
        }
        let mut manager = QueueManager::new();
        std::mem::swap(&mut manager, &mut self.queue_manager);
        let r = manager.cancel_request(request_id, now);
        self.queue_manager = manager;
        r
    }

    /// Cancels the request of the given identifier at the present instant
    /// of the simulated clock.
    pub fn cancel_request(&mut self, request_id: u128) -> (r: Result<(), SchedulerError>)
        ensures
            final(self).wf(),
            exists|now: i64| old(self).clock().start() <= now && final(self).model() ==
                #[trigger] old(self).model().cancel(request_id, now),
            !final(self).model().tracks(request_id),
            old(self).model().tracks(request_id) ==> r.is_ok(),
            !old(self).model().tracks(request_id) ==> r == Err::<(), SchedulerError>(
                SchedulerError::NotFound,
            ) && final(self).same_state(old(self)),
            final(self).numbers() == old(self).numbers(),
            final(self).running() == old(self).running(),
            final(self).calling() == old(self).calling(),
            final(self).clock() == old(self).clock(),
            old(self).model().within_capacity() ==> final(self).model().within_capacity(),
    {
        let now = self.time_system.current_time();
        self.cancel_request_at(request_id, now)
    }

    /// Cancels every request of a user at `now`. A user without a request
    /// is answered with `NotFound`, and nothing changes.
    pub fn cancel_request_by_user_at(&mut self, user_id: u128, now: i64) -> (r: Result<
        (),
        SchedulerError,
    >)
        ensures
            final(self).wf(),
            final(self).model() == old(self).model().cancel_user(user_id, now),
            !final(self).model().serves(user_id),
            old(self).model().serves(user_id) ==> r.is_ok(),
            !old(self).model().serves(user_id) ==> r == Err::<(), SchedulerError>(
                SchedulerError::NotFound,
            ) && final(self).same_state(old(self)),
            final(self).numbers() == old(self).numbers(),
            final(self).running() == old(self).running(),
            final(self).calling() == old(self).calling(),
            final(self).clock() == old(self).clock(),
            old(self).model().within_capacity() ==> final(self).model().within_capacity(),
    {
        proof {
            use_type_invariant(&*self);
        }
        let mut manager = QueueManager::new();
        std::mem::swap(&mut manager, &mut self.queue_manager);
        let r = manager.cancel_request_by_user(user_id, now);
        self.queue_manager = manager;
        r
    }

    /// Cancels every request of a user at the present instant of the
    /// simulated clock.
    pub fn cancel_request_by_user(&mut self, user_id: u128) -> (r: Result<(), SchedulerError>)
        ensures
            final(self).wf(),
            exists|now: i64|
                old(self).clock().start() <= now &&
                    final(self).model() == #[trigger] old(self).model().cancel_user(user_id, now),
            !final(self).model().serves(user_id),
            old(self).model().serves(user_id) ==> r.is_ok(),
            !old(self).model().serves(user_id) ==> r == Err::<(), SchedulerError>(
                SchedulerError::NotFound,
            ) && final(self).same_state(old(self)),
            final(self).numbers() == old(self).numbers(),
            final(self).running() == old(self).running(),
            final(self).calling() == old(self).calling(),
            final(self).clock() == old(self).clock(),
            old(self).model().within_capacity() ==> final(self).model().within_capacity(),
    {
        let now = self.time_system.current_time();
        self.cancel_request_by_user_at(user_id, now)
    }

    /// Gives the request of the given identifier another amount at `now`,
    /// where it waits or is queued. An amount of nothing is `InvalidAmount`,
    /// an untracked identifier `NotFound`, a charging request
    /// `CannotModify`; then nothing changes.
    pub fn update_request_amount_at(&mut self, request_id: u128, new_amount: u32, now: i64) -> (r:
        Result<(), SchedulerError>)
        ensures
            final(self).wf(),
            r == old(self).model().resizing(request_id, new_amount),
            r.is_ok() ==> final(self).model() == old(self).model().resize(
                request_id,
                new_amount,
                now,
            ),
            r.is_err() ==> final(self).same_state(old(self)),
            final(self).numbers() == old(self).numbers(),
            final(self).running() == old(self).running(),
            final(self).calling() == old(self).calling(),
            final(self).clock() == old(self).clock(),
            final(self).model().waiting.len() == old(self).model().waiting.len(),
    {
        proof {
            use_type_invariant(&*self);
        }
        let mut manager = QueueManager::new();
        std::mem::swap(&mut manager, &mut self.queue_manager);
        let r = manager.update_request_amount(request_id, new_amount, now);
        self.queue_manager = manager;
        r
    }

    /// Gives the request of the given identifier another amount at the
    /// present instant of the simulated clock.
    pub fn update_request_amount(&mut self, request_id: u128, new_amount: u32) -> (r: Result<
        (),
        SchedulerError,
    >)
        ensures
            final(self).wf(),
            r == old(self).model().resizing(request_id, new_amount),
            r.is_ok() ==> exists|now: i64|
                old(self).clock().start() <= now &&
                    final(self).model() == #[trigger] old(self).model().resize(
                    request_id,
                    new_amount,
                    now,
                ),
            r.is_err() ==> final(self).same_state(old(self)),
            final(self).numbers() == old(self).numbers(),
            final(self).running() == old(self).running(),
            final(self).calling() == old(self).calling(),
            final(self).clock() == old(self).clock(),
            final(self).model().waiting.len() == old(self).model().waiting.len(),
    {
        let now = self.time_system.current_time();
        self.update_request_amount_at(request_id, new_amount, now)
    }

    /// Why the mode of a request cannot be changed, if it cannot: the error
    /// of the queues, or `CounterExhausted` where the queue numbers of the
    /// new mode have run out.
    pub open spec fn mode_change(&self, request_id: u128, new_mode: ChargingMode) -> Result<
        (),
        SchedulerError,
    > {
        if self.model().requeueing(request_id).is_err() {
            self.model().requeueing(request_id)
        } else if !self.numbers().has_next(new_mode) {
            Err(SchedulerError::CounterExhausted)
        } else {
            Ok(())
        }
    }

    /// Gives the request of the given identifier another mode at `now`,
    /// where it waits or is queued: it gets the next queue number of the new
    /// mode, leaves its place and joins the end of the waiting area. The new
    /// queue number is returned. Where that cannot be, the error of
    /// `mode_change` is returned and nothing changes, the queue numbers
    /// included.
    pub fn update_request_mode_at(&mut self, request_id: u128, new_mode: ChargingMode, now: i64) -> (r:
        Result<String, SchedulerError>)
        ensures
            final(self).wf(),
            final(self).running() == old(self).running(),
            final(self).calling() == old(self).calling(),
            final(self).clock() == old(self).clock(),
            old(self).model().within_capacity() ==> final(self).model().within_capacity(),
            match r {
                Ok(queue_number) => {
                    &&& old(self).mode_change(request_id, new_mode).is_ok()
                    &&& queue_number@ == queue_label(
                        new_mode,
                        old(self).numbers().issued(new_mode) + 1,
                    )
                    &&& final(self).model() == old(self).model().requeue(
                        request_id,
                        new_mode,
                        queue_number,
                        now,
                    )
                    &&& final(self).numbers().issued(new_mode) == old(self).numbers().issued(
                        new_mode,
                    ) + 1
                    &&& forall|other: ChargingMode|
                        other != new_mode ==> final(self).numbers().issued(other) ==
                            old(self).numbers().issued(other)
                },
                Err(e) => {
                    &&& old(self).mode_change(request_id, new_mode) == Err::<(), SchedulerError>(e)
                    &&& final(self).same_state(old(self))
                },
            },
    {
        proof {
            use_type_invariant(&*self);
        }
        match self.queue_manager.check_requeue(request_id) {
            Err(e) => {
                return Err(e);
            },
            Ok(_) => {},
        }
        let mut numbers = self.number_generator;
        let label = match numbers.generate_number(new_mode) {
            Ok(label) => label,
            Err(e) => {
                return Err(e);
            },
        };
        self.number_generator = numbers;
        let copy = label.clone();
        let mut manager = QueueManager::new();
        std::mem::swap(&mut manager, &mut self.queue_manager);
        let moved = manager.update_request_mode(request_id, new_mode, label, now);
        self.queue_manager = manager;
        Ok(copy)
    }

    /// Gives the request of the given identifier another mode at the
    /// present instant of the simulated clock.
    pub fn update_request_mode(&mut self, request_id: u128, new_mode: ChargingMode) -> (r: Result<
        String,
        SchedulerError,
    >)
        ensures
            final(self).wf(),
            final(self).running() == old(self).running(),
            final(self).calling() == old(self).calling(),
            final(self).clock() == old(self).clock(),
            old(self).model().within_capacity() ==> final(self).model().within_capacity(),
            match r {
                Ok(queue_number) => {
                    &&& old(self).mode_change(request_id, new_mode).is_ok()
                    &&& queue_number@ == queue_label(
                        new_mode,
                        old(self).numbers().issued(new_mode) + 1,
                    )
                    &&& exists|now: i64|
                        old(self).clock().start() <= now &&
                            final(self).model() == #[trigger] old(self).model().requeue(
                            request_id,
                            new_mode,
                            queue_number,
                            now,
                        )
                    &&& final(self).numbers().issued(new_mode) == old(self).numbers().issued(
                        new_mode,
                    ) + 1
                    &&& forall|other: ChargingMode|
                        other != new_mode ==> final(self).numbers().issued(other)
                            == old(self).numbers().issued(other)
                },
                Err(e) => {
                    &&& old(self).mode_change(request_id, new_mode) == Err::<(), SchedulerError>(e)
                    &&& final(self).same_state(old(self))
                },
            },
    {
        let now = self.time_system.current_time();
        self.update_request_mode_at(request_id, new_mode, now)
    }

    /// Handles the fault of the pile that goes by the number, at `now`.
    /// Without such a pile the answer is `NotFound`, and nothing changes.
    pub fn handle_pile_fault_at(&mut self, pile_id: &str, now: i64) -> (r: Result<
        (),
        SchedulerError,
    >)
        ensures
            final(self).wf(),
            final(self).numbers() == old(self).numbers(),
            final(self).running() == old(self).running(),
            final(self).calling() == old(self).calling(),
            final(self).clock() == old(self).clock(),
            pile_index(old(self).model().slots, pile_id@) < old(self).model().slots.len()
                ==> r.is_ok() && final(self).model() == old(self).model().fault(
                pile_index(old(self).model().slots, pile_id@),
                now,
            ),
            pile_index(old(self).model().slots, pile_id@) >= old(self).model().slots.len() ==> r
                == Err::<(), SchedulerError>(SchedulerError::NotFound) && final(self).same_state(
                old(self),
            ),
    {
        proof {
            use_type_invariant(&*self);
        }
        let mut manager = QueueManager::new();
        std::mem::swap(&mut manager, &mut self.queue_manager);
        let mut dispatcher = self.dispatcher;
        let r = dispatcher.handle_pile_fault(&mut manager, pile_id, now);
        self.dispatcher = dispatcher;
        self.queue_manager = manager;
        r
    }

    /// Handles the fault of the pile that goes by the number, at the
    /// present instant of the simulated clock.
    pub fn handle_pile_fault(&mut self, pile_id: &str) -> (r: Result<(), SchedulerError>)
        ensures
            final(self).wf(),
            final(self).numbers() == old(self).numbers(),
            final(self).running() == old(self).running(),
            final(self).calling() == old(self).calling(),
            final(self).clock() == old(self).clock(),
            pile_index(old(self).model().slots, pile_id@) < old(self).model().slots.len()
                ==> r.is_ok() && exists|now: i64|
                old(self).clock().start() <= now &&
                    final(self).model() == #[trigger] old(self).model().fault(
                    pile_index(old(self).model().slots, pile_id@),
                    now,
                ),
            pile_index(old(self).model().slots, pile_id@) >= old(self).model().slots.len() ==> r
                == Err::<(), SchedulerError>(SchedulerError::NotFound) && final(self).same_state(
                old(self),
            ),
    {
        let now = self.time_system.current_time();
        self.handle_pile_fault_at(pile_id, now)
    }

    /// Handles the repair of the pile that goes by the number, at `now`.
    /// Without such a pile the answer is `NotFound`, for a pile that is not
    /// out of order `PileUnavailable`, and nothing changes.
    pub fn handle_pile_recovery_at(&mut self, pile_id: &str, now: i64) -> (r: Result<
        (),
        SchedulerError,
    >)
        ensures
            final(self).wf(),
            final(self).numbers() == old(self).numbers(),
            final(self).running() == old(self).running(),
            final(self).calling() == old(self).calling(),
            final(self).clock() == old(self).clock(),
            r == old(self).model().repairing(pile_id@),
            r.is_ok() ==> final(self).model().after_repair_of(
                old(self).model(),
                pile_index(old(self).model().slots, pile_id@),
            ),
            r.is_ok() ==> final(self).model() == old(self).model().repair(
                pile_index(old(self).model().slots, pile_id@),
                now,
            ),
            r.is_err() ==> final(self).same_state(old(self)),
    {
        proof {
            use_type_invariant(&*self);
        }
        let mut manager = QueueManager::new();
        std::mem::swap(&mut manager, &mut self.queue_manager);
        let mut dispatcher = self.dispatcher;
        let r = dispatcher.handle_pile_recovery(&mut manager, pile_id, now);
        self.dispatcher = dispatcher;
        self.queue_manager = manager;
        r
    }

    /// Handles the repair of the pile that goes by the number, at the
    /// present instant of the simulated clock.
    pub fn handle_pile_recovery(&mut self, pile_id: &str) -> (r: Result<(), SchedulerError>)
        ensures
            final(self).wf(),
            final(self).numbers() == old(self).numbers(),
            final(self).running() == old(self).running(),
            final(self).calling() == old(self).calling(),
            final(self).clock() == old(self).clock(),
            r == old(self).model().repairing(pile_id@),
            r.is_ok() ==> final(self).model().after_repair_of(
                old(self).model(),
                pile_index(old(self).model().slots, pile_id@),
            ),
            r.is_ok() ==> exists|now: i64|
                old(self).clock().start() <= now &&
                    final(self).model() == #[trigger] old(self).model().repair(
                    pile_index(old(self).model().slots, pile_id@),
                    now,
                ),
            r.is_err() ==> final(self).same_state(old(self)),
    {
        let now = self.time_system.current_time();
        self.handle_pile_recovery_at(pile_id, now)
    }

    /// Switches the pile that goes by the number off. Only an available
    /// pile can be switched off. Without such a pile the answer is
    /// `NotFound`, for a pile in another state `PileUnavailable`, and nothing
    /// changes.
    pub fn shutdown_pile(&mut self, pile_id: &str) -> (r: Result<(), SchedulerError>)
        ensures
            final(self).wf(),
            final(self).numbers() == old(self).numbers(),
            final(self).running() == old(self).running(),
            final(self).calling() == old(self).calling(),
            final(self).clock() == old(self).clock(),
            final(self).model().waiting == old(self).model().waiting,
            r == old(self).model().switching(pile_id@, PileStatus::Available),
            r.is_ok() ==> final(self).model().slots == old(self).model().slots.update(
                pile_index(old(self).model().slots, pile_id@),
                old(self).model().slots[pile_index(old(self).model().slots, pile_id@)].with_status(
                    PileStatus::Shutdown,
                ),
            ),
            r.is_err() ==> final(self).same_state(old(self)),
    {
        proof {
            use_type_invariant(&*self);
        }
        let mut manager = QueueManager::new();
        std::mem::swap(&mut manager, &mut self.queue_manager);
        let r = manager.shutdown_pile(pile_id);
        self.queue_manager = manager;
        r
    }

    /// Switches the pile that goes by the number on again. Only a pile that
    /// is switched off can be switched on. Without such a pile the answer is
    /// `NotFound`, for a pile in another state `PileUnavailable`, and nothing
    /// changes.
    pub fn startup_pile(&mut self, pile_id: &str) -> (r: Result<(), SchedulerError>)
        ensures
            final(self).wf(),
            final(self).numbers() == old(self).numbers(),
            final(self).running() == old(self).running(),
            final(self).calling() == old(self).calling(),
            final(self).clock() == old(self).clock(),
            final(self).model().waiting == old(self).model().waiting,
            r == old(self).model().switching(pile_id@, PileStatus::Shutdown),
            r.is_ok() ==> final(self).model().slots == old(self).model().slots.update(
                pile_index(old(self).model().slots, pile_id@),
                old(self).model().slots[pile_index(old(self).model().slots, pile_id@)].with_status(
                    PileStatus::Available,
                ),
            ),
            r.is_err() ==> final(self).same_state(old(self)),
    {
        proof {
            use_type_invariant(&*self);
        }
        let mut manager = QueueManager::new();
        std::mem::swap(&mut manager, &mut self.queue_manager);
        let r = manager.startup_pile(pile_id);
        self.queue_manager = manager;
        r
    }

    /// The station at `now`, with the requests in full.
    pub fn get_system_status_at(&self, now: i64) -> (status: SystemRealTimeStatusForQueue)
        ensures
            status.shows(self.model(), now),
    {
        self.queue_manager.get_status(now)
    }

    /// The station at the present instant of the simulated clock, with the
    /// requests in full.
    pub fn get_system_status(&self) -> (status: SystemRealTimeStatusForQueue)
        ensures
            exists|now: i64| self.clock().start() <= now &&
                #[trigger] status.shows(self.model(), now),
    {
        let now = self.time_system.current_time();
        self.get_system_status_at(now)
    }

    /// The station at the present instant of the simulated clock, as the
    /// front end sees it.
    pub fn get_front_end_status(&self) -> (status: SystemStatus)
        ensures
            status.shows(self.model(), status.current_time),
            self.clock().start() <= status.current_time,
    {
        let now = self.time_system.current_time();
        self.queue_manager.get_system_status(now)
    }
}

/// Submits what the front end sent: the mode is read from its name, a
/// request is made of the input under a fresh identifier, and the request is
/// submitted as `ChargingScheduler::submit_request` does. A text that names
/// no mode is `InvalidMode`, and only such a text; a request that cannot be
/// submitted is refused with the error of its submission; in both cases
/// nothing changes.
pub fn api_submit_request(scheduler: &mut ChargingScheduler, input: ChargingRequestInput) -> (r:
    Result<ChargingRequestResponse, SchedulerError>)
    ensures
        final(scheduler).wf(),
        final(scheduler).running() == old(scheduler).running(),
        final(scheduler).calling() == old(scheduler).calling(),
        final(scheduler).clock() == old(scheduler).clock(),
        old(scheduler).model().within_capacity() ==> final(scheduler).model().within_capacity(),
        r == Err::<ChargingRequestResponse, SchedulerError>(SchedulerError::InvalidMode)
            <==> ChargingMode::of_name(input.mode@).is_none(),
        ChargingMode::of_name(input.mode@).is_some() && input.amount == 0 ==> r == Err::<
            ChargingRequestResponse,
            SchedulerError,
        >(SchedulerError::InvalidAmount),
        match (r, ChargingMode::of_name(input.mode@)) {
            (Err(e), Some(mode)) => exists|request: ChargingRequest|
                request.user_id == input.user_id && request.mode == mode && request.amount
                    == input.amount && request.status == RequestStatus::Waiting
                    && #[trigger] old(scheduler).submission(request) == Err::<
                    (),
                    SchedulerError,
                >(e),
            _ => true,
        },
        r.is_err() ==> final(scheduler).same_state(old(scheduler)),
        r matches Ok(response) ==> {
            &&& ChargingMode::of_name(input.mode@) == Some(response.mode)
            &&& response.user_id == input.user_id
            &&& response.amount == input.amount
            &&& response.status == RequestStatus::Waiting
            &&& response.queue_number@ == queue_label(
                response.mode,
                old(scheduler).numbers().issued(response.mode) + 1,
            )
            &&& exists|admitted: ChargingRequest|
                ChargingRequestResponse::of(admitted) == response && admitted.updated_at
                    == admitted.created_at && old(scheduler).submission(admitted).is_ok()
                    && final(scheduler).model() == #[trigger] old(scheduler).model().joined(
                    admitted,
                )
            &&& final(scheduler).numbers().issued(response.mode) == old(
                scheduler,
            ).numbers().issued(response.mode) + 1
            &&& forall|other: ChargingMode|
                other != response.mode ==> final(scheduler).numbers().issued(other) == old(
                    scheduler,
                ).numbers().issued(other)
        },
{
    proof {
        use_type_invariant(&*scheduler);
    }
    let mode = match ChargingMode::parse(input.mode.as_str()) {
        Ok(mode) => mode,
        Err(e) => {
            return Err(e);
        },
    };
    let request = ChargingRequest::new(input.user_id, mode, input.amount, String::new());
    match scheduler.submit_request(request) {
        Ok(admitted) => {
            proof {
                assert(old(scheduler).submission(admitted).is_ok());
                assert(scheduler.model() == old(scheduler).model().joined(admitted));
            }
            Ok(ChargingRequestResponse::from_request(admitted))
        },
        Err(e) => {
            proof {
                assert(old(scheduler).submission(request) == Err::<(), SchedulerError>(e));
            }
            Err(e)
        },
    }
}

} // verus!
