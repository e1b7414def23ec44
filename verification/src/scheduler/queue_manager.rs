//! The queue manager: the waiting area and the slots of the piles, always
//! valid, and the operations that move requests between them.

use std::collections::VecDeque;
use vstd::prelude::*;
use crate::error::SchedulerError;
use crate::models::{
    ChargingMode,
    ChargingPile,
    ChargingRecord,
    ChargingRequest,
    PileStatus,
    FAST_CHARGING_PILES,
    SLOW_CHARGING_PILES,
};
use crate::scheduler::pile_info::PileInfo;
use crate::scheduler::queue_core::QueueCore;
use crate::scheduler::queue_model::{completed_of, holder, pile_index, records_of, QueueModel};
use crate::scheduler::requests::position;

pub use crate::scheduler::queue_core::{
    default_mode,
    default_number,
    is_default_slot,
    slot_views,
    TickReport,
};

verus! {

/// The waiting area and the piles with their slots. A manager is valid at
/// all times: it is made valid, and every operation keeps it so.
pub struct QueueManager {
    core: QueueCore,
}

impl View for QueueManager {
    type V = QueueModel;

    closed spec fn view(&self) -> QueueModel {
        self.core@
    }
}

impl QueueManager {
    /// Validity of the manager: that of the queues it stands for.
    #[verifier::type_invariant]
    pub open spec fn wf(&self) -> bool {
        self@.wf()
    }

    /// A manager with an empty waiting area and no pile.
    pub fn new() -> (manager: Self)
        ensures
            manager@.wf(),
            manager@.waiting.len() == 0,
            manager@.slots.len() == 0,
    {
        QueueManager { core: QueueCore::new() }
    }

    /// The requests in the waiting area, first come first.
    pub fn waiting_queue(&self) -> (waiting: &VecDeque<ChargingRequest>)
        ensures
            waiting@ == self@.waiting,
    {
        self.core.waiting_queue()
    }

    /// The piles with their slots, in ascending order of their numbers.
    pub fn pile_infos(&self) -> (piles: &Vec<PileInfo>)
        ensures
            slot_views(piles@) == self@.slots,
    {
        self.core.pile_infos()
    }

    /// The place of the pile that goes by the number, or the number of piles
    /// if none does.
    pub fn find_pile(&self, number: &str) -> (at: usize)
        ensures
            at == pile_index(self@.slots, number@),
            at <= self@.slots.len(),
    {
        self.core.find_pile(number)
    }

    /// The place of the first pile that holds a request with the
    /// identifier, or the number of piles if none does.
    pub fn find_holder(&self, id: u128) -> (at: usize)
        ensures
            at == holder(self@.slots, id),
            at <= self@.slots.len(),
    {
        self.core.find_holder(id)
    }

    /// Whether the manager holds a request with the identifier, in the
    /// waiting area or at a pile.
    pub fn tracks(&self, id: u128) -> (yes: bool)
        ensures
            yes == self@.tracks(id),
    {
        self.core.tracks(id)
    }

    /// Puts the slot of a pile in at the place of its number, in the stead
    /// of an idle pile of the same number if there is one, and returns the
    /// place. A pile that is charging, or whose number a pile goes by that
    /// holds requests, is refused with `PileUnavailable`, and nothing
    /// changes. No request is lost.
    pub fn add_pile(&mut self, pile: ChargingPile) -> (r: Result<usize, SchedulerError>)
        ensures
            final(self)@.wf(),
            final(self)@.waiting == old(self)@.waiting,
            forall|id: u128| #[trigger] final(self)@.tracks(id) <==> old(self)@.tracks(id),
            match r {
                Ok(k) => {
                    &&& old(self)@.adding(pile).is_ok()
                    &&& old(self)@.is_rank(pile.number@, k as int)
                    &&& final(self)@ == old(self)@.with_pile_at(k as int, pile)
                },
                Err(e) => {
                    &&& old(self)@.adding(pile) == Err::<(), SchedulerError>(e)
                    &&& final(self)@ == old(self)@
                },
            },
    {
        proof {
            use_type_invariant(&*self);
        }
        let mut core = QueueCore::new();
        std::mem::swap(&mut core, &mut self.core);
        let r = core.add_pile(pile);
        self.core = core;
        r
    }

    /// Gives a station without piles its default piles: the fast piles `F1`
    /// and `F2` and the slow piles `T1`, `T2` and `T3`, in this order, each
    /// available, empty and without a completed session. A station that has
    /// piles is left as it is.
    pub fn initialize_piles(&mut self)
        ensures
            final(self)@.wf(),
            final(self)@.waiting == old(self)@.waiting,
            old(self)@.slots.len() > 0 ==> final(self)@ == old(self)@,
            old(self)@.slots.len() == 0 ==> final(self)@.slots.len() == FAST_CHARGING_PILES
                + SLOW_CHARGING_PILES,
            forall|p: int|
                0 <= p < final(self)@.slots.len() && old(self)@.slots.len() == 0 ==>
                    is_default_slot(
                    #[trigger] final(self)@.slots[p],
                    p,
                ),
    {
        proof {
            use_type_invariant(&*self);
        }
        let mut core = QueueCore::new();
        std::mem::swap(&mut core, &mut self.core);
        core.initialize_piles();
        self.core = core;
    }

    /// Says whether a request can be admitted, with the error of `admission`
    /// where it cannot.
    pub fn check_admission(&self, request: &ChargingRequest) -> (r: Result<(), SchedulerError>)
        ensures
            r == self@.admission(*request),
    {
        self.core.check_admission(request)
    }

    /// Admits a request to the end of the waiting area. A request that asks
    /// for no energy, does not wait, carries a tracked identifier or finds
    /// the waiting area full is refused with the error of `admission`, and
    /// nothing changes.
    pub fn add_to_waiting_queue(&mut self, request: ChargingRequest) -> (r: Result<
        (),
        SchedulerError,
    >)
        ensures
            r == old(self)@.admission(request),
            r.is_ok() ==> final(self)@ == old(self)@.joined(request),
            r.is_err() ==> final(self)@ == old(self)@,
            final(self)@.slots == old(self)@.slots,
            final(self)@.wf(),
            old(self)@.within_capacity() ==> final(self)@.within_capacity(),
    {
        proof {
            use_type_invariant(&*self);
        }
        let mut core = QueueCore::new();
        std::mem::swap(&mut core, &mut self.core);
        let r = core.add_to_waiting_queue(request);
        self.core = core;
        r
    }

    /// Puts a request at the end of the queue of the pile that goes by the
    /// number. Without such a pile the answer is `NotFound`; a request that
    /// cannot join the queue is refused with the error of `assignment`; in
    /// both cases nothing changes.
    pub fn assign_to_pile(&mut self, number: &str, request: ChargingRequest) -> (r: Result<
        (),
        SchedulerError,
    >)
        ensures
            final(self)@.wf(),
            final(self)@.waiting == old(self)@.waiting,
            pile_index(old(self)@.slots, number@) >= old(self)@.slots.len() ==> r == Err::<
                (),
                SchedulerError,
            >(SchedulerError::NotFound),
            pile_index(old(self)@.slots, number@) < old(self)@.slots.len() ==> r
                == old(self)@.assignment(pile_index(old(self)@.slots, number@),
                request,
            ),
            r.is_ok() ==> final(self)@ == old(self)@.enqueue_at(
                pile_index(old(self)@.slots, number@),
                request,
            ),
            r.is_err() ==> final(self)@ == old(self)@,
    {
        proof {
            use_type_invariant(&*self);
        }
        let mut core = QueueCore::new();
        std::mem::swap(&mut core, &mut self.core);
        let r = core.assign_to_pile(number, request);
        self.core = core;
        r
    }

    /// The slot to which a request goes at `now`, with the seconds after
    /// which the request would be charged in full there: the best slot for
    /// the request's mode, or nothing where no slot accepts the mode.
    pub fn find_best_pile(&self, request: &ChargingRequest, now: i64) -> (best: Option<
        (usize, u128),
    >)
        ensures
            match best {
                Some((p, seconds)) => {
                    &&& self@.best_pile(request.mode, now) == Some(p as int)
                    &&& p < self@.slots.len()
                    &&& self@.is_best(request.mode, now, p as int)
                    &&& seconds == self@.slots[p as int].completion_seconds(request.amount, now)
                },
                None => self@.best_pile(request.mode, now).is_none(),
            },
    {
        self.core.find_best_pile(request, now)
    }

    /// Takes the request of the given identifier out of the waiting area and
    /// returns it, if it waits there; else nothing changes and nothing is
    /// returned.
    pub fn remove_from_waiting(&mut self, id: u128) -> (removed: Option<ChargingRequest>)
        ensures
            final(self)@.wf(),
            final(self)@.slots == old(self)@.slots,
            match removed {
                Some(request) => {
                    &&& old(self)@.waits(id)
                    &&& request == old(self)@.waiting[position(old(self)@.waiting, id)]
                    &&& request.id == id
                    &&& final(self)@.waiting == old(self)@.waiting.remove(
                        position(old(self)@.waiting, id),
                    )
                    &&& !final(self)@.tracks(id)
                },
                None => !old(self)@.waits(id) && final(self)@ == old(self)@,
            },
    {
        proof {
            use_type_invariant(&*self);
        }
        let mut core = QueueCore::new();
        std::mem::swap(&mut core, &mut self.core);
        let removed = core.remove_from_waiting(id);
        self.core = core;
        removed
    }

    /// Lets the head of the queue of the pile that goes by the number begin
    /// to charge at `now`, if the pile is available, charges nothing and has
    /// a queue, and returns a copy of the request that began; else nothing
    /// changes and nothing is returned.
    pub fn promote_next(&mut self, number: &str, now: i64) -> (started: Option<ChargingRequest>)
        ensures
            final(self)@.wf(),
            final(self)@.waiting == old(self)@.waiting,
            pile_index(old(self)@.slots, number@) >= old(self)@.slots.len() ==> started.is_none()
                && final(self)@ == old(self)@,
            pile_index(old(self)@.slots, number@) < old(self)@.slots.len() ==> {
                let p = pile_index(old(self)@.slots, number@);
                &&& final(self)@.slots == old(self)@.slots.update(
                    p,
                    old(self)@.slots[p].promoted(now),
                )
                &&& old(self)@.slots[p].can_promote() ==> started
                    == final(self)@.slots[p].current_charging
                &&& !old(self)@.slots[p].can_promote() ==> started.is_none() && final(self)@
                    == old(self)@
            },
    {
        proof {
            use_type_invariant(&*self);
        }
        let mut core = QueueCore::new();
        std::mem::swap(&mut core, &mut self.core);
        let started = core.promote_next(number, now);
        self.core = core;
        started
    }

    /// Cancels the request of the given identifier at `now`, wherever it
    /// stands. A waiting or queued request is taken out; a charging one has
    /// its session called off without a record, its pile becomes available,
    /// and the head of the pile's queue begins to charge. An identifier that
    /// is not tracked, as that of a completed or cancelled request, is
    /// answered with `NotFound`, and nothing changes.
    pub fn cancel_request(&mut self, id: u128, now: i64) -> (r: Result<(), SchedulerError>)
        ensures
            final(self)@ == old(self)@.cancel(id, now),
            final(self)@.wf(),
            !final(self)@.tracks(id),
            old(self)@.tracks(id) ==> r.is_ok(),
            !old(self)@.tracks(id) ==> r == Err::<(), SchedulerError>(SchedulerError::NotFound)
                && final(self)@ == old(self)@,
            old(self)@.within_capacity() ==> final(self)@.within_capacity(),
    {
        proof {
            use_type_invariant(&*self);
        }
        let mut core = QueueCore::new();
        std::mem::swap(&mut core, &mut self.core);
        let r = core.cancel_request(id, now);
        self.core = core;
        r
    }

    /// Cancels every request of a user at `now`, each as `cancel_request`
    /// does. A user without a request is answered with `NotFound`, and
    /// nothing changes.
    pub fn cancel_request_by_user(&mut self, user_id: u128, now: i64) -> (r: Result<
        (),
        SchedulerError,
    >)
        ensures
            final(self)@ == old(self)@.cancel_user(user_id, now),
            final(self)@.wf(),
            !final(self)@.serves(user_id),
            old(self)@.serves(user_id) ==> r.is_ok(),
            !old(self)@.serves(user_id) ==> r == Err::<(), SchedulerError>(
                SchedulerError::NotFound,
            ) && final(self)@ == old(self)@,
            old(self)@.within_capacity() ==> final(self)@.within_capacity(),
    {
        proof {
            use_type_invariant(&*self);
        }
        let mut core = QueueCore::new();
        std::mem::swap(&mut core, &mut self.core);
        let r = core.cancel_request_by_user(user_id, now);
        self.core = core;
        r
    }

    /// Gives the request of the given identifier another amount at `now`,
    /// where it waits or is queued. An amount of nothing, an untracked
    /// identifier or a charging request is refused with the error of
    /// `resizing`, and nothing changes.
    pub fn update_request_amount(&mut self, id: u128, new_amount: u32, now: i64) -> (r: Result<
        (),
        SchedulerError,
    >)
        ensures
            r == old(self)@.resizing(id, new_amount),
            r.is_ok() ==> final(self)@ == old(self)@.resize(id, new_amount, now),
            r.is_err() ==> final(self)@ == old(self)@,
            final(self)@.wf(),
            final(self)@.waiting.len() == old(self)@.waiting.len(),
    {
        proof {
            use_type_invariant(&*self);
        }
        let mut core = QueueCore::new();
        std::mem::swap(&mut core, &mut self.core);
        let r = core.update_request_amount(id, new_amount, now);
        self.core = core;
        r
    }

    /// Says whether the mode of the request of the given identifier can be
    /// changed, with the error of `requeueing` where it cannot.
    pub fn check_requeue(&self, id: u128) -> (r: Result<(), SchedulerError>)
        ensures
            r == self@.requeueing(id),
    {
        self.core.check_requeue(id)
    }

    /// Gives the request of the given identifier another mode and another
    /// queue number at `now`: it leaves the waiting area or the queue in
    /// which it stands and joins the end of the waiting area. Where that
    /// cannot be, the error of `requeueing` is returned and nothing changes.
    pub fn update_request_mode(
        &mut self,
        id: u128,
        new_mode: ChargingMode,
        new_queue_number: String,
        now: i64,
    ) -> (r: Result<(), SchedulerError>)
        ensures
            r == old(self)@.requeueing(id),
            r.is_ok() ==> final(self)@ == old(self)@.requeue(id, new_mode, new_queue_number, now),
            r.is_err() ==> final(self)@ == old(self)@,
            final(self)@.wf(),
            old(self)@.within_capacity() ==> final(self)@.within_capacity(),
    {
        proof {
            use_type_invariant(&*self);
        }
        let mut core = QueueCore::new();
        std::mem::swap(&mut core, &mut self.core);
        let r = core.update_request_mode(id, new_mode, new_queue_number, now);
        self.core = core;
        r
    }

    /// Settles the session of every pile at `now`: a session that has
    /// delivered all that was asked for ends, its request leaves as
    /// completed, one record is made of it, the pile's counters grow by what
    /// the record says, and the pile is available again. Returns the
    /// completed requests and their records, in the order of the piles.
    pub fn settle_sessions(&mut self, now: i64) -> (done: (Vec<ChargingRequest>, Vec<ChargingRecord>))
        ensures
            final(self)@ == old(self)@.settle_all(now),
            final(self)@.wf(),
            done.0@ == completed_of(old(self)@.slots, now),
            done.1@ == records_of(old(self)@.slots, now),
    {
        proof {
            use_type_invariant(&*self);
        }
        let mut core = QueueCore::new();
        std::mem::swap(&mut core, &mut self.core);
        let done = core.settle_sessions(now);
        self.core = core;
        done
    }

    /// Lets every pile that is available, charges nothing and has a queue
    /// begin the session of the head of its queue at `now`.
    pub fn promote_idle(&mut self, now: i64)
        ensures
            final(self)@ == old(self)@.promote_all(now),
            final(self)@.wf(),
    {
        proof {
            use_type_invariant(&*self);
        }
        let mut core = QueueCore::new();
        std::mem::swap(&mut core, &mut self.core);
        core.promote_idle(now);
        self.core = core;
    }

    /// Settles the session of every pile at `now` and then lets every idle
    /// pile with a queue begin its next session. Returns the requests that
    /// were completed and the records of their sessions.
    pub fn tick(&mut self, now: i64) -> (report: TickReport)
        ensures
            final(self)@ == old(self)@.advance(now),
            final(self)@.wf(),
            report.completed@ == completed_of(old(self)@.slots, now),
            report.records@ == records_of(old(self)@.slots, now),
            report.dispatched == 0,
    {
        proof {
            use_type_invariant(&*self);
        }
        let mut core = QueueCore::new();
        std::mem::swap(&mut core, &mut self.core);
        let report = core.tick(now);
        self.core = core;
        report
    }

    /// Switches the pile that goes by the number off. Only an available
    /// pile can be switched off; its queue stays and waits until the pile is
    /// switched on again. Where that cannot be, the error of `switching` is
    /// returned and nothing changes.
    pub fn shutdown_pile(&mut self, number: &str) -> (r: Result<(), SchedulerError>)
        ensures
            final(self)@.wf(),
            r == old(self)@.switching(number@, PileStatus::Available),
            r.is_ok() ==> final(self)@ == (QueueModel {
                slots: old(self)@.slots.update(
                    pile_index(old(self)@.slots, number@),
                    old(self)@.slots[pile_index(old(self)@.slots, number@)].with_status(
                        PileStatus::Shutdown,
                    ),
                ),
                ..old(self)@
            }),
            r.is_err() ==> final(self)@ == old(self)@,
    {
        proof {
            use_type_invariant(&*self);
        }
        let mut core = QueueCore::new();
        std::mem::swap(&mut core, &mut self.core);
        let r = core.shutdown_pile(number);
        self.core = core;
        r
    }

    /// Switches the pile that goes by the number on again. Only a pile that
    /// is switched off can be switched on. Where that cannot be, the error
    /// of `switching` is returned and nothing changes.
    pub fn startup_pile(&mut self, number: &str) -> (r: Result<(), SchedulerError>)
        ensures
            final(self)@.wf(),
            r == old(self)@.switching(number@, PileStatus::Shutdown),
            r.is_ok() ==> final(self)@ == (QueueModel {
                slots: old(self)@.slots.update(
                    pile_index(old(self)@.slots, number@),
                    old(self)@.slots[pile_index(old(self)@.slots, number@)].with_status(
                        PileStatus::Available,
                    ),
                ),
                ..old(self)@
            }),
            r.is_err() ==> final(self)@ == old(self)@,
    {
        proof {
            use_type_invariant(&*self);
        }
        let mut core = QueueCore::new();
        std::mem::swap(&mut core, &mut self.core);
        let r = core.startup_pile(number);
        self.core = core;
        r
    }

    /// Takes the pile that goes by the number out of order at `now`: its
    /// slot is emptied, the requests it held are placed on the other piles
    /// in the order of their queue numbers or go to the head of the waiting
    /// area, and every idle pile begins its next session. Without such a
    /// pile the answer is `NotFound`, and nothing changes.
    pub fn handle_pile_fault(&mut self, number: &str, now: i64) -> (r: Result<(), SchedulerError>)
        ensures
            final(self)@.wf(),
            pile_index(old(self)@.slots, number@) < old(self)@.slots.len() ==> r.is_ok()
                && final(self)@ == old(self)@.fault(pile_index(old(self)@.slots, number@), now),
            pile_index(old(self)@.slots, number@) >= old(self)@.slots.len() ==> r == Err::<
                (),
                SchedulerError,
            >(SchedulerError::NotFound) && final(self)@ == old(self)@,
    {
        proof {
            use_type_invariant(&*self);
        }
        let mut core = QueueCore::new();
        std::mem::swap(&mut core, &mut self.core);
        let r = core.handle_pile_fault(number, now);
        self.core = core;
        r
    }

    /// Puts the pile that goes by the number back in service at `now`: the
    /// pile is available, the queues of all piles of its mode are emptied,
    /// and their requests are placed anew in the order of their queue
    /// numbers, the repaired pile among the candidates, or go to the head of
    /// the waiting area. No session begins: that is left to the next tick.
    /// Where the pile cannot be repaired, the error of `repairing` is
    /// returned and nothing changes.
    pub fn handle_pile_recovery(&mut self, number: &str, now: i64) -> (r: Result<
        (),
        SchedulerError,
    >)
        ensures
            final(self)@.wf(),
            r == old(self)@.repairing(number@),
            r.is_ok() ==> final(self)@ == old(self)@.repair(
                pile_index(old(self)@.slots, number@),
                now,
            ),
            r.is_ok() ==> final(self)@.after_repair_of(
                old(self)@,
                pile_index(old(self)@.slots, number@),
            ),
            r.is_err() ==> final(self)@ == old(self)@,
    {
        proof {
            use_type_invariant(&*self);
        }
        let mut core = QueueCore::new();
        std::mem::swap(&mut core, &mut self.core);
        let r = core.handle_pile_recovery(number, now);
        self.core = core;
        r
    }

    /// Sends the requests of the waiting area to piles at `now`, one after
    /// the other from the first on, each to the best slot for its mode,
    /// until the waiting area is empty or no slot accepts the first request.
    /// Returns how many requests left the waiting area.
    pub fn dispatch_waiting(&mut self, now: i64) -> (moved: usize)
        ensures
            final(self)@ == old(self)@.dispatch(now),
            final(self)@.wf(),
            moved == old(self)@.waiting.len() - final(self)@.waiting.len(),
    {
        proof {
            use_type_invariant(&*self);
        }
        let mut core = QueueCore::new();
        std::mem::swap(&mut core, &mut self.core);
        let moved = core.dispatch_waiting(now);
        self.core = core;
        moved
    }
}

} // verus!
