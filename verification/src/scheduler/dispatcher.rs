//! The dispatcher: whether waiting requests are being called to the piles,
//! and what a tick, a fault and a repair make of the queues.

use vstd::prelude::*;
use crate::error::SchedulerError;
use crate::models::ChargingRequest;
use crate::scheduler::queue_manager::{QueueManager, TickReport};
use crate::scheduler::queue_model::{completed_of, lemma_tick, pile_index, records_of};

verus! {

/// Calls waiting requests to the piles while its service is on.
#[derive(Debug, Clone, Copy, PartialEq, Eq, Structural)]
pub struct Dispatcher {
    is_calling: bool,
}

impl Dispatcher {
    /// Whether the calling service is on.
    pub closed spec fn calling(&self) -> bool {
        self.is_calling
    }

    /// A dispatcher whose calling service is off.
    pub fn new() -> (dispatcher: Self)
        ensures
            !dispatcher.calling(),
    {
        Dispatcher { is_calling: false }
    }

    /// Switches the calling service on.
    pub fn start_calling(&mut self)
        ensures
            final(self).calling(),
    {
        self.is_calling = true;
    }

    /// Switches the calling service off.
    pub fn stop_calling(&mut self)
        ensures
            !final(self).calling(),
    {
        self.is_calling = false;
    }

    /// Whether the calling service is on.
    pub fn is_calling(&self) -> (calling: bool)
        ensures
            calling == self.calling(),
    {
        self.is_calling
    }

    /// One tick at `now`: the sessions that have delivered all that was
    /// asked for are settled, every idle pile with a queue begins its next
    /// session, and, while the calling service is on, the waiting requests
    /// are sent to piles. Returns the completed requests, the records of
    /// their sessions, and how many requests left the waiting area.
    pub fn tick(&self, manager: &mut QueueManager, now: i64) -> (report: TickReport)
        ensures
            final(manager)@ == old(manager)@.tick(now, self.calling()),
            final(manager)@.wf(),
            old(manager)@.within_capacity() ==> final(manager)@.within_capacity(),
            report.completed@ == completed_of(old(manager)@.slots, now),
            report.records@ == records_of(old(manager)@.slots, now),
            report.dispatched == old(manager)@.waiting.len() - final(manager)@.waiting.len(),
    {
        proof {
            use_type_invariant(&*manager);
            lemma_tick(manager@, now, self.calling());
        }
        let mut report = manager.tick(now);
        if self.is_calling {
            report.dispatched = self.dispatch_waiting_vehicles(manager, now);
        }
        report
    }

    /// Sends the waiting requests to piles at `now`, one after the other
    /// from the first on, each to the pile that would complete it soonest,
    /// until the waiting area is empty or no pile accepts the first request.
    /// Returns how many requests left the waiting area.
    pub fn dispatch_waiting_vehicles(&self, manager: &mut QueueManager, now: i64) -> (moved: usize)
        ensures
            final(manager)@ == old(manager)@.dispatch(now),
            final(manager)@.wf(),
            moved == old(manager)@.waiting.len() - final(manager)@.waiting.len(),
    {
        manager.dispatch_waiting(now)
    }

    /// The pile to which a request would go at `now`, by its number, with
    /// the seconds after which the request would be charged in full there;
    /// nothing where no pile accepts the request's mode.
    pub fn find_best_pile(&self, request: &ChargingRequest, manager: &QueueManager, now: i64) -> (best:
        Option<(String, u128)>)
        ensures
            match best {
                Some((number, seconds)) => {
                    &&& manager@.best_pile(request.mode, now).is_some()
                    &&& number == manager@.slots[manager@.best_pile(
                        request.mode,
                        now,
                    ).unwrap()].pile.number
                    &&& seconds == manager@.slots[manager@.best_pile(
                        request.mode,
                        now,
                    ).unwrap()].completion_seconds(request.amount, now)
                },
                None => manager@.best_pile(request.mode, now).is_none(),
            },
    {
        match manager.find_best_pile(request, now) {
            Some((p, seconds)) => {
                let piles = manager.pile_infos();
                assert(piles@[p as int]@ == manager@.slots[p as int]);
                Some((piles[p].pile.number.clone(), seconds))
            },
            None => None,
        }
    }

    /// Handles the fault of the pile that goes by the number, at `now`.
    /// Calling is stopped while the queues are rearranged and is then as it
    /// was. The pile is out of order and its slot is empty; the requests it
    /// held are placed on the other piles in the order of their queue
    /// numbers, or go to the head of the waiting area; then every idle pile
    /// begins its next session. Without such a pile the answer is
    /// `NotFound`, and nothing changes.
    pub fn handle_pile_fault(&mut self, manager: &mut QueueManager, pile_id: &str, now: i64) -> (r:
        Result<(), SchedulerError>)
        ensures
            final(self).calling() == old(self).calling(),
            final(manager)@.wf(),
            pile_index(old(manager)@.slots, pile_id@) < old(manager)@.slots.len() ==> r.is_ok()
                && final(manager)@ == old(manager)@.fault(
                pile_index(old(manager)@.slots, pile_id@),
                now,
            ),
            pile_index(old(manager)@.slots, pile_id@) >= old(manager)@.slots.len() ==> r == Err::<
                (),
                SchedulerError,
            >(SchedulerError::NotFound) && final(manager)@ == old(manager)@,
    {
        let was_calling = self.is_calling;
        self.is_calling = false;
        let r = manager.handle_pile_fault(pile_id, now);
        self.is_calling = was_calling;
        r
    }

    /// Handles the repair of the pile that goes by the number, at `now`.
    /// Calling is stopped while the queues are rearranged and is then as it
    /// was. The pile is available; the queues of all piles of its mode are
    /// emptied and their requests placed anew in the order of their queue
    /// numbers. No session begins: that is left to the next tick. Without
    /// such a pile the answer is `NotFound`, for a pile that is not out of
    /// order `PileUnavailable`, and nothing changes.
    pub fn handle_pile_recovery(
        &mut self,
        manager: &mut QueueManager,
        pile_id: &str,
        now: i64,
    ) -> (r: Result<(), SchedulerError>)
        ensures
            final(self).calling() == old(self).calling(),
            final(manager)@.wf(),
            r == old(manager)@.repairing(pile_id@),
            r.is_ok() ==> final(manager)@ == old(manager)@.repair(
                pile_index(old(manager)@.slots, pile_id@),
                now,
            ),
            r.is_ok() ==> final(manager)@.after_repair_of(
                old(manager)@,
                pile_index(old(manager)@.slots, pile_id@),
            ),
            r.is_err() ==> final(manager)@ == old(manager)@,
    {
        let was_calling = self.is_calling;
        self.is_calling = false;
        let r = manager.handle_pile_recovery(pile_id, now);
        self.is_calling = was_calling;
        r
    }
}

} // verus!
