//! The queues at work: the waiting area and the slots of the piles, and the
//! operations that move requests between them, each of which takes valid
//! queues and leaves valid queues.

use std::collections::VecDeque;
use vstd::prelude::*;
use crate::error::SchedulerError;
use crate::models::{
    ChargingMode,
    ChargingPile,
    ChargingRecord,
    ChargingRequest,
    PileStatus,
    RequestStatus,
    FAST_CHARGING_PILES,
    SLOW_CHARGING_PILES,
    WAITING_AREA_CAPACITY,
};
use crate::scheduler::number_generator::{generate_queue_number, queue_label};
use crate::scheduler::pile_info::{PileInfo, PileSlot};
use crate::scheduler::queue_model::{
    completed_of,
    drained_of,
    gathered,
    holder,
    lemma_assign_head,
    lemma_best_none,
    lemma_best_unique,
    lemma_cancel,
    lemma_cancel_user,
    lemma_dispatch,
    lemma_enqueue_at,
    lemma_holder,
    lemma_joined,
    lemma_fault,
    lemma_promote_all,
    lemma_repair,
    lemma_requeue,
    lemma_resize,
    lemma_settle_all,
    lemma_with_pile,
    pile_index,
    records_of,
    QueueModel,
};
use crate::scheduler::requests::{
    find_request,
    has_user,
    lemma_position,
    lemma_without_user,
    position,
    requests_of_others,
    resized,
    sort_requests,
};
use crate::text::{label_precedes, precedes};

verus! {

/// The slots that a vector of piles stands for.
pub open spec fn slot_views(piles: Seq<PileInfo>) -> Seq<PileSlot> {
    piles.map_values(|info: PileInfo| info@)
}

/// The waiting area and the piles with their slots. The operations ask for
/// valid queues and keep them valid; `QueueManager` holds queues that are
/// always valid.
pub(crate) struct QueueCore {
    waiting_queue: VecDeque<ChargingRequest>,
    pile_infos: Vec<PileInfo>,
}

impl View for QueueCore {
    type V = QueueModel;

    closed spec fn view(&self) -> QueueModel {
        QueueModel { waiting: self.waiting_queue@, slots: slot_views(self.pile_infos@) }
    }
}

/// What one pass over the piles brought about, for the collaborator that
/// keeps the records.
#[derive(Debug)]
pub struct TickReport {
    /// The requests whose sessions ended, as completed, in the order of the
    /// piles.
    pub completed: Vec<ChargingRequest>,
    /// The records of those sessions, in the same order.
    pub records: Vec<ChargingRecord>,
    /// How many requests left the waiting area for a pile's queue.
    pub dispatched: usize,
}

impl QueueCore {
    /// Queues with an empty waiting area and no pile.
    pub(crate) fn new() -> (manager: Self)
        ensures
            manager@.wf(),
            manager@.waiting.len() == 0,
            manager@.slots.len() == 0,
    {
        QueueCore { waiting_queue: VecDeque::new(), pile_infos: Vec::new() }
    }

    /// The requests in the waiting area, first come first.
    pub(crate) fn waiting_queue(&self) -> (waiting: &VecDeque<ChargingRequest>)
        ensures
            waiting@ == self@.waiting,
    {
        &self.waiting_queue
    }

    /// The piles with their slots, in ascending order of their numbers.
    pub(crate) fn pile_infos(&self) -> (piles: &Vec<PileInfo>)
        ensures
            slot_views(piles@) == self@.slots,
    {
        &self.pile_infos
    }

    /// The place of the pile that goes by the number, or the number of piles
    /// if none does.
    pub(crate) fn find_pile(&self, number: &str) -> (at: usize)
        ensures
            at == pile_index(self@.slots, number@),
            at <= self@.slots.len(),
    {
        let ghost slots = self@.slots;
        let mut i: usize = 0;
        while i < self.pile_infos.len()
            invariant
                i <= self.pile_infos.len(),
                slots == slot_views(self.pile_infos@),
                pile_index(slots.take(i as int), number@) == i,
            decreases self.pile_infos.len() - i,
        {
            proof {
                assert(slots.take(i + 1).drop_last() =~= slots.take(i as int));
            }
            if crate::models::same_text(self.pile_infos[i].pile.number.as_str(), number) {
                proof {
                    lemma_pile_index_prefix(slots, number@, i + 1);
                }
                return i;
            }
            i += 1;
        }
        proof {
            assert(slots.take(i as int) =~= slots);
        }
        i
    }

    /// The place of the first pile that holds a request with the
    /// identifier, or the number of piles if none does.
    pub(crate) fn find_holder(&self, id: u128) -> (at: usize)
        ensures
            at == holder(self@.slots, id),
            at <= self@.slots.len(),
    {
        let ghost slots = self@.slots;
        let mut i: usize = 0;
        while i < self.pile_infos.len()
            invariant
                i <= self.pile_infos.len(),
                slots == slot_views(self.pile_infos@),
                holder(slots.take(i as int), id) == i,
            decreases self.pile_infos.len() - i,
        {
            proof {
                assert(slots.take(i + 1).drop_last() =~= slots.take(i as int));
            }
            if self.pile_infos[i].holds(id) {
                proof {
                    lemma_holder_prefix(slots, id, i + 1);
                }
                return i;
            }
            i += 1;
        }
        proof {
            assert(slots.take(i as int) =~= slots);
        }
        i
    }

    /// Whether the manager holds a request with the identifier, in the
    /// waiting area or at a pile.
    pub(crate) fn tracks(&self, id: u128) -> (yes: bool)
        ensures
            yes == self@.tracks(id),
    {
        find_request(&self.waiting_queue, id) < self.waiting_queue.len() || self.find_holder(id)
            < self.pile_infos.len()
    }

    /// Puts the slot of a pile in at the place of its number, in the stead
    /// of an idle pile of the same number if there is one, and returns the
    /// place. A pile that is charging, or whose number a pile goes by that
    /// holds requests, is refused with `PileUnavailable`, and nothing
    /// changes. No request is lost.
    pub(crate) fn add_pile(&mut self, pile: ChargingPile) -> (r: Result<usize, SchedulerError>)
        requires
            old(self)@.wf(),
        ensures
            final(self)@.wf(),
            final(self)@.waiting == old(self)@.waiting,
            forall|id: u128| #[trigger] final(self)@.tracks(id) <==> old(self)@.tracks(id),
            match r {
                Ok(k) => {
                    &&& old(self)@.adding(pile).is_ok()
                    &&& old(self)@.is_rank(pile.number@, k as int)
                    &&& final(self)@ == old(self)@.with_pile_at(k as int, pile)
                },
                Err(e) => {
                    &&& old(self)@.adding(pile) == Err::<(), SchedulerError>(e)
                    &&& final(self)@ == old(self)@
                },
            },
    {
        if pile.status == PileStatus::Charging {
            return Err(SchedulerError::PileUnavailable);
        }
        let ghost before = self@;
        let mut k: usize = 0;
        while k < self.pile_infos.len() && label_precedes(
            self.pile_infos[k].pile.number.as_str(),
            pile.number.as_str(),
        )
            invariant
                k <= self.pile_infos.len(),
                self@ == before,
                forall|j: int| 0 <= j < k ==>
                    precedes((#[trigger] before.slots[j]).pile.number@, pile.number@),
            decreases self.pile_infos.len() - k,
        {
            k += 1;
        }
        proof {
            lemma_with_pile(before, k as int, pile);
            crate::scheduler::queue_model::lemma_with_pile_keeps(before, k as int, pile);
        }
        if k < self.pile_infos.len() && crate::models::same_text(
            self.pile_infos[k].pile.number.as_str(),
            pile.number.as_str(),
        ) {
            if !self.pile_infos[k].is_idle() {
                return Err(SchedulerError::PileUnavailable);
            }
            self.pile_infos[k] = PileInfo::new(pile);
            assert(self@.slots =~= before.slots.update(k as int, PileSlot::vacant(pile)));
        } else {
            self.pile_infos.insert(k, PileInfo::new(pile));
            assert(self@.slots =~= before.slots.insert(k as int, PileSlot::vacant(pile)));
        }
        Ok(k)
    }

    /// Gives a station without piles its default piles: the fast piles `F1`
    /// and `F2` and the slow piles `T1`, `T2` and `T3`, in this order, each
    /// available, empty and without a completed session. A station that has
    /// piles is left as it is.
    pub(crate) fn initialize_piles(&mut self)
        requires
            old(self)@.wf(),
        ensures
            final(self)@.wf(),
            final(self)@.waiting == old(self)@.waiting,
            old(self)@.slots.len() > 0 ==> final(self)@ == old(self)@,
            old(self)@.slots.len() == 0 ==> final(self)@.slots.len() == FAST_CHARGING_PILES
                + SLOW_CHARGING_PILES,
            forall|p: int|
                0 <= p < final(self)@.slots.len() && old(self)@.slots.len() == 0 ==>
                    is_default_slot(
                    #[trigger] final(self)@.slots[p],
                    p,
                ),
    {
        if self.pile_infos.len() > 0 {
            return ;
        }
        let ghost before = self@;
        let mut i: usize = 0;
        while i < FAST_CHARGING_PILES + SLOW_CHARGING_PILES
            invariant
                i <= FAST_CHARGING_PILES + SLOW_CHARGING_PILES,
                self@.wf(),
                self@.waiting == before.waiting,
                self@.slots.len() == i,
                forall|p: int| 0 <= p < i ==> is_default_slot(#[trigger] self@.slots[p], p),
            decreases FAST_CHARGING_PILES + SLOW_CHARGING_PILES - i,
        {
            let (mode, place) = if i < FAST_CHARGING_PILES {
                (ChargingMode::Fast, i)
            } else {
                (ChargingMode::Slow, i - FAST_CHARGING_PILES)
            };
            let pile = ChargingPile::new(generate_queue_number(mode, place), mode);
            let ghost held = self@;
            proof {
                assert forall|j: int| 0 <= j < i implies precedes(
                    (#[trigger] held.slots[j]).pile.number@,
                    pile.number@,
                ) by {
                    assert(is_default_slot(held.slots[j], j));
                    lemma_default_numbers_ascend(j, i as int);
                }
                assert(held.is_rank(pile.number@, i as int));
                crate::scheduler::queue_model::lemma_with_pile_keeps(held, i as int, pile);
            }
            let added = self.add_pile(pile);
            proof {
                let k = added.unwrap() as int;
                assert(k == i) by {
                    if k < i {
                        assert(precedes(held.slots[k].pile.number@, pile.number@));
                    }
                }
                assert forall|p: int| 0 <= p < i + 1 implies is_default_slot(
                    #[trigger] self@.slots[p],
                    p,
                ) by {
                    if p < i {
                        assert(self@.slots[p] == held.slots[p]);
                    }
                }
            }
            i += 1;
        }
    }

    /// Says whether a request can be admitted, with the error of `admission`
    /// where it cannot.
    pub(crate) fn check_admission(&self, request: &ChargingRequest) -> (r: Result<(), SchedulerError>)
        ensures
            r == self@.admission(*request),
    {
        if request.amount == 0 {
            return Err(SchedulerError::InvalidAmount);
        }
        if request.status != RequestStatus::Waiting {
            return Err(SchedulerError::CannotModify);
        }
        if self.tracks(request.id) {
            return Err(SchedulerError::DuplicateRequest);
        }
        if self.waiting_queue.len() >= WAITING_AREA_CAPACITY {
            return Err(SchedulerError::WaitingAreaFull);
        }
        Ok(())
    }

    /// Admits a request to the end of the waiting area. A request that asks
    /// for no energy, does not wait, carries a tracked identifier or finds
    /// the waiting area full is refused with the error of `admission`, and
    /// nothing changes.
    pub(crate) fn add_to_waiting_queue(&mut self, request: ChargingRequest) -> (r: Result<
        (),
        SchedulerError,
    >)
        requires
            old(self)@.wf(),
        ensures
            r == old(self)@.admission(request),
            r.is_ok() ==> final(self)@ == old(self)@.joined(request),
            r.is_err() ==> final(self)@ == old(self)@,
            final(self)@.slots == old(self)@.slots,
            final(self)@.wf(),
            old(self)@.within_capacity() ==> final(self)@.within_capacity(),
    {
        if request.amount == 0 {
            return Err(SchedulerError::InvalidAmount);
        }
        if request.status != RequestStatus::Waiting {
            return Err(SchedulerError::CannotModify);
        }
        if self.tracks(request.id) {
            return Err(SchedulerError::DuplicateRequest);
        }
        if self.waiting_queue.len() >= WAITING_AREA_CAPACITY {
            return Err(SchedulerError::WaitingAreaFull);
        }
        proof {
            lemma_joined(self@, request);
        }
        self.waiting_queue.push_back(request);
        Ok(())
    }

    /// Puts a request at the end of the queue of the pile that goes by the
    /// number. Without such a pile the answer is `NotFound`; a request that
    /// cannot join the queue is refused with the error of `assignment`; in
    /// both cases nothing changes.
    pub(crate) fn assign_to_pile(&mut self, number: &str, request: ChargingRequest) -> (r: Result<
        (),
        SchedulerError,
    >)
        requires
            old(self)@.wf(),
        ensures
            final(self)@.wf(),
            final(self)@.waiting == old(self)@.waiting,
            pile_index(old(self)@.slots, number@) >= old(self)@.slots.len() ==> r == Err::<
                (),
                SchedulerError,
            >(SchedulerError::NotFound),
            pile_index(old(self)@.slots, number@) < old(self)@.slots.len() ==> r
                == old(self)@.assignment(pile_index(old(self)@.slots, number@),
                request,
            ),
            r.is_ok() ==> final(self)@ == old(self)@.enqueue_at(
                pile_index(old(self)@.slots, number@),
                request,
            ),
            r.is_err() ==> final(self)@ == old(self)@,
    {
        let p = self.find_pile(number);
        if p >= self.pile_infos.len() {
            return Err(SchedulerError::NotFound);
        }
        if request.amount == 0 {
            return Err(SchedulerError::InvalidAmount);
        }
        if request.status != RequestStatus::Waiting {
            return Err(SchedulerError::CannotModify);
        }
        if request.mode != self.pile_infos[p].pile.mode {
            return Err(SchedulerError::InvalidMode);
        }
        if self.tracks(request.id) {
            return Err(SchedulerError::DuplicateRequest);
        }
        if self.pile_infos[p].pile.status != PileStatus::Available && self.pile_infos[p].pile.status
            != PileStatus::Charging {
            return Err(SchedulerError::PileUnavailable);
        }
        if !self.pile_infos[p].has_space() {
            return Err(SchedulerError::PileQueueFull);
        }
        let ghost before = self@;
        proof {
            lemma_enqueue_at(before, p as int, request);
        }
        self.pile_infos[p].queue.push_back(request);
        assert(self@.slots =~= before.slots.update(p as int, before.slots[p as int].enqueue(request)));
        Ok(())
    }

    /// The slot to which a request goes at `now`, with the seconds after
    /// which the request would be charged in full there: the best slot for
    /// the request's mode, or nothing where no slot accepts the mode.
    pub(crate) fn find_best_pile(&self, request: &ChargingRequest, now: i64) -> (best: Option<
        (usize, u128),
    >)
        ensures
            match best {
                Some((p, seconds)) => {
                    &&& self@.best_pile(request.mode, now) == Some(p as int)
                    &&& p < self@.slots.len()
                    &&& self@.is_best(request.mode, now, p as int)
                    &&& seconds == self@.slots[p as int].completion_seconds(request.amount, now)
                },
                None => self@.best_pile(request.mode, now).is_none(),
            },
    {
        let ghost slots = self@.slots;
        let mode = request.mode;
        let mut best: Option<(usize, u128)> = None;
        let mut q: usize = 0;
        while q < self.pile_infos.len()
            invariant
                q <= self.pile_infos.len(),
                slots == slot_views(self.pile_infos@),
                mode == request.mode,
                match best {
                    Some((p, energy)) => {
                        &&& p < q
                        &&& slots[p as int].accepts(mode)
                        &&& energy == slots[p as int].pending_energy(now)
                        &&& forall|j: int|
                            0 <= j < q && (#[trigger] slots[j]).accepts(mode) ==> {
                                &&& slots[j].pending_energy(now) >= energy
                                &&& j < p ==> slots[j].pending_energy(now) > energy
                            }
                    },
                    None => forall|j: int| 0 <= j < q ==> !(#[trigger] slots[j]).accepts(mode),
                },
            decreases self.pile_infos.len() - q,
        {
            if self.pile_infos[q].accepts(mode) {
                let energy = self.pile_infos[q].pending_energy(now);
                let better = match best {
                    Some((_, least)) => energy < least,
                    None => true,
                };
                if better {
                    best = Some((q, energy));
                }
            }
            q += 1;
        }
        match best {
            Some((p, _)) => {
                proof {
                    lemma_best_unique(self@, mode, now, p as int);
                }
                let seconds = self.pile_infos[p].calculate_completion_time(request, now);
                Some((p, seconds))
            },
            None => {
                proof {
                    lemma_best_none(self@, mode, now);
                }
                None
            },
        }
    }

    /// Takes the request of the given identifier out of the waiting area and
    /// returns it, if it waits there; else nothing changes and nothing is
    /// returned.
    pub(crate) fn remove_from_waiting(&mut self, id: u128) -> (removed: Option<ChargingRequest>)
        requires
            old(self)@.wf(),
        ensures
            final(self)@.wf(),
            final(self)@.slots == old(self)@.slots,
            match removed {
                Some(request) => {
                    &&& old(self)@.waits(id)
                    &&& request == old(self)@.waiting[position(old(self)@.waiting, id)]
                    &&& request.id == id
                    &&& final(self)@.waiting == old(self)@.waiting.remove(
                        position(old(self)@.waiting, id),
                    )
                    &&& !final(self)@.tracks(id)
                },
                None => !old(self)@.waits(id) && final(self)@ == old(self)@,
            },
    {
        let ghost before = self@;
        proof {
            lemma_cancel(before, id, 0);
            lemma_position(before.waiting, id);
        }
        let at = find_request(&self.waiting_queue, id);
        self.waiting_queue.remove(at)
    }

    /// Lets the head of the queue of the pile that goes by the number begin
    /// to charge at `now`, if the pile is available, charges nothing and has
    /// a queue, and returns a copy of the request that began; else nothing
    /// changes and nothing is returned.
    pub(crate) fn promote_next(&mut self, number: &str, now: i64) -> (started: Option<ChargingRequest>)
        requires
            old(self)@.wf(),
        ensures
            final(self)@.wf(),
            final(self)@.waiting == old(self)@.waiting,
            pile_index(old(self)@.slots, number@) >= old(self)@.slots.len() ==> started.is_none()
                && final(self)@ == old(self)@,
            pile_index(old(self)@.slots, number@) < old(self)@.slots.len() ==> {
                let p = pile_index(old(self)@.slots, number@);
                &&& final(self)@.slots == old(self)@.slots.update(
                    p,
                    old(self)@.slots[p].promoted(now),
                )
                &&& old(self)@.slots[p].can_promote() ==> started
                    == final(self)@.slots[p].current_charging
                &&& !old(self)@.slots[p].can_promote() ==> started.is_none() && final(self)@
                    == old(self)@
            },
    {
        let p = self.find_pile(number);
        if p >= self.pile_infos.len() {
            return None;
        }
        let ghost before = self@;
        proof {
            let slot = before.slots[p as int];
            assert(slot.wf());
            crate::scheduler::pile_info::lemma_slot_promoted(slot, now);
            let next = QueueModel {
                slots: before.slots.update(p as int, slot.promoted(now)),
                ..before
            };
            assert forall|q: int| 0 <= q < next.slots.len() implies (#[trigger] next.slots[q]).wf()
                && next.slots[q].ids().subset_of(before.slots[q].ids())
                && next.slots[q].pile.number == before.slots[q].pile.number by {
                if q != p {
                    assert(before.slots[q].wf());
                }
            }
            crate::scheduler::queue_model::lemma_shrink(before, next);
            if !slot.can_promote() {
                assert(next.slots =~= before.slots);
            }
        }
        let started = self.pile_infos[p].start_next_charging(now);
        assert(self@.slots =~= before.slots.update(p as int, before.slots[p as int].promoted(now)));
        started
    }

    /// Cancels the request of the given identifier at `now`, wherever it
    /// stands. A waiting or queued request is taken out; a charging one has
    /// its session called off without a record, its pile becomes available,
    /// and the head of the pile's queue begins to charge. An identifier that
    /// is not tracked, as that of a completed or cancelled request, is
    /// answered with `NotFound`, and nothing changes.
    pub(crate) fn cancel_request(&mut self, id: u128, now: i64) -> (r: Result<(), SchedulerError>)
        requires
            old(self)@.wf(),
        ensures
            final(self)@ == old(self)@.cancel(id, now),
            final(self)@.wf(),
            !final(self)@.tracks(id),
            old(self)@.tracks(id) ==> r.is_ok(),
            !old(self)@.tracks(id) ==> r == Err::<(), SchedulerError>(SchedulerError::NotFound)
                && final(self)@ == old(self)@,
            old(self)@.within_capacity() ==> final(self)@.within_capacity(),
    {
        let ghost before = self@;
        proof {
            lemma_cancel(before, id, now);
        }
        let at = find_request(&self.waiting_queue, id);
        if at < self.waiting_queue.len() {
            let gone = self.waiting_queue.remove(at);
            return Ok(());
        }
        let p = self.find_holder(id);
        if p < self.pile_infos.len() {
            let removed = self.pile_infos[p].remove_request(id, now);
            assert(self@.slots =~= before.slots.update(
                p as int,
                before.slots[p as int].without(id, now),
            ));
            Ok(())
        } else {
            Err(SchedulerError::NotFound)
        }
    }

    /// Cancels every request of a user at `now`, each as `cancel_request`
    /// does. A user without a request is answered with `NotFound`, and
    /// nothing changes.
    pub(crate) fn cancel_request_by_user(&mut self, user_id: u128, now: i64) -> (r: Result<
        (),
        SchedulerError,
    >)
        requires
            old(self)@.wf(),
        ensures
            final(self)@ == old(self)@.cancel_user(user_id, now),
            final(self)@.wf(),
            !final(self)@.serves(user_id),
            old(self)@.serves(user_id) ==> r.is_ok(),
            !old(self)@.serves(user_id) ==> r == Err::<(), SchedulerError>(
                SchedulerError::NotFound,
            ) && final(self)@ == old(self)@,
            old(self)@.within_capacity() ==> final(self)@.within_capacity(),
    {
        let ghost before = self@;
        proof {
            lemma_cancel_user(before, user_id, now);
            lemma_without_user(before.waiting, user_id);
        }
        let kept = requests_of_others(&self.waiting_queue, user_id);
        let mut found = kept.len() < self.waiting_queue.len();
        self.waiting_queue = kept;
        let mut p: usize = 0;
        while p < self.pile_infos.len()
            invariant
                p <= self.pile_infos.len(),
                self@.waiting == before.cancel_user(user_id, now).waiting,
                self@.slots.len() == before.slots.len(),
                forall|j: int|
                    0 <= j < p ==> (#[trigger] self@.slots[j]) == before.slots[j].without_user(
                        user_id,
                        now,
                    ),
                forall|j: int| p <= j < before.slots.len() ==>
                    (#[trigger] self@.slots[j]) == before.slots[j],
                found == (has_user(before.waiting, user_id) || exists|j: int|
                    0 <= j < p && (#[trigger] before.slots[j]).serves(user_id)),
            decreases self.pile_infos.len() - p,
        {
            let ghost held = self@;
            proof {
                assert(self@.slots[p as int] == before.slots[p as int]);
            }
            let removed = self.pile_infos[p].remove_user(user_id, now);
            if removed {
                found = true;
            }
            proof {
                assert forall|j: int| 0 <= j < p + 1 implies (#[trigger] self@.slots[j])
                    == before.slots[j].without_user(user_id, now) by {
                    if j < p {
                        assert(self@.slots[j] == held.slots[j]);
                    }
                }
                assert forall|j: int| p + 1 <= j < before.slots.len() implies (
                #[trigger] self@.slots[j]) == before.slots[j] by {
                    assert(self@.slots[j] == held.slots[j]);
                }
                if removed {
                    assert(before.slots[p as int].serves(user_id));
                }
            }
            p += 1;
        }
        proof {
            assert(self@.slots =~= before.cancel_user(user_id, now).slots);
        }
        if found {
            Ok(())
        } else {
            Err(SchedulerError::NotFound)
        }
    }

    /// Gives the request of the given identifier another amount at `now`,
    /// where it waits or is queued. An amount of nothing, an untracked
    /// identifier or a charging request is refused with the error of
    /// `resizing`, and nothing changes.
    pub(crate) fn update_request_amount(&mut self, id: u128, new_amount: u32, now: i64) -> (r: Result<
        (),
        SchedulerError,
    >)
        requires
            old(self)@.wf(),
        ensures
            r == old(self)@.resizing(id, new_amount),
            r.is_ok() ==> final(self)@ == old(self)@.resize(id, new_amount, now),
            r.is_err() ==> final(self)@ == old(self)@,
            final(self)@.wf(),
            final(self)@.waiting.len() == old(self)@.waiting.len(),
    {
        if new_amount == 0 {
            return Err(SchedulerError::InvalidAmount);
        }
        let ghost before = self@;
        proof {
            lemma_resize(before, id, new_amount, now);
        }
        let at = find_request(&self.waiting_queue, id);
        if at < self.waiting_queue.len() {
            match self.waiting_queue.remove(at) {
                Some(found) => {
                    let mut request = found;
                    request.amount = new_amount;
                    request.updated_at = now;
                    self.waiting_queue.insert(at, request);
                },
                None => {},
            }
            assert(self@.waiting =~= before.waiting.update(
                at as int,
                resized(before.waiting[at as int], new_amount, now),
            ));
            return Ok(());
        }
        let p = self.find_holder(id);
        if p >= self.pile_infos.len() {
            return Err(SchedulerError::NotFound);
        }
        if self.pile_infos[p].charges(id) {
            return Err(SchedulerError::CannotModify);
        }
        let changed = self.pile_infos[p].resize_request(id, new_amount, now);
        assert(self@.slots =~= before.slots.update(
            p as int,
            before.slots[p as int].resize(id, new_amount, now),
        ));
        Ok(())
    }

    /// Says whether the mode of the request of the given identifier can be
    /// changed, with the error of `requeueing` where it cannot.
    pub(crate) fn check_requeue(&self, id: u128) -> (r: Result<(), SchedulerError>)
        ensures
            r == self@.requeueing(id),
    {
        let at = find_request(&self.waiting_queue, id);
        if at < self.waiting_queue.len() {
            return Ok(());
        }
        let p = self.find_holder(id);
        if p >= self.pile_infos.len() {
            return Err(SchedulerError::NotFound);
        }
        if self.pile_infos[p].charges(id) {
            return Err(SchedulerError::CannotModify);
        }
        if self.waiting_queue.len() >= WAITING_AREA_CAPACITY {
            return Err(SchedulerError::WaitingAreaFull);
        }
        Ok(())
    }

    /// Gives the request of the given identifier another mode and another
    /// queue number at `now`: it leaves the waiting area or the queue in
    /// which it stands and joins the end of the waiting area. Where that
    /// cannot be, the error of `requeueing` is returned and nothing changes.
    pub(crate) fn update_request_mode(
        &mut self,
        id: u128,
        new_mode: ChargingMode,
        new_queue_number: String,
        now: i64,
    ) -> (r: Result<(), SchedulerError>)
        requires
            old(self)@.wf(),
        ensures
            r == old(self)@.requeueing(id),
            r.is_ok() ==> final(self)@ == old(self)@.requeue(id, new_mode, new_queue_number, now),
            r.is_err() ==> final(self)@ == old(self)@,
            final(self)@.wf(),
            old(self)@.within_capacity() ==> final(self)@.within_capacity(),
    {
        let checked = self.check_requeue(id);
        if checked.is_err() {
            return checked;
        }
        let ghost before = self@;
        proof {
            lemma_requeue(before, id, new_mode, new_queue_number, now);
            lemma_holder(before.slots, id);
        }
        let at = find_request(&self.waiting_queue, id);
        let mut request = if at < self.waiting_queue.len() {
            self.waiting_queue.remove(at).unwrap()
        } else {
            let p = self.find_holder(id);
            let taken = self.pile_infos[p].take_queued(id);
            proof {
                crate::scheduler::pile_info::lemma_slot_holds(before.slots[p as int], id);
                assert(self@.slots =~= before.slots.update(
                    p as int,
                    before.slots[p as int].unqueue(id),
                ));
            }
            taken.unwrap()
        };
        request.update_mode_at(new_mode, new_queue_number, now);
        self.waiting_queue.push_back(request);
        Ok(())
    }

    /// Settles the session of every pile at `now`: a session that has
    /// delivered all that was asked for ends, its request leaves as
    /// completed, one record is made of it, the pile's counters grow by what
    /// the record says, and the pile is available again. Returns the
    /// completed requests and their records, in the order of the piles.
    pub(crate) fn settle_sessions(&mut self, now: i64) -> (done: (Vec<ChargingRequest>, Vec<ChargingRecord>))
        requires
            old(self)@.wf(),
        ensures
            final(self)@ == old(self)@.settle_all(now),
            final(self)@.wf(),
            done.0@ == completed_of(old(self)@.slots, now),
            done.1@ == records_of(old(self)@.slots, now),
    {
        let ghost before = self@;
        let mut completed: Vec<ChargingRequest> = Vec::new();
        let mut records: Vec<ChargingRecord> = Vec::new();
        let mut p: usize = 0;
        while p < self.pile_infos.len()
            invariant
                p <= self.pile_infos.len(),
                before.wf(),
                self@.waiting == before.waiting,
                self@.slots.len() == before.slots.len(),
                forall|j: int| 0 <= j < p ==>
                    (#[trigger] self@.slots[j]) == before.slots[j].settled(now),
                forall|j: int| p <= j < before.slots.len() ==>
                    (#[trigger] self@.slots[j]) == before.slots[j],
                completed@ == completed_of(before.slots.take(p as int), now),
                records@ == records_of(before.slots.take(p as int), now),
            decreases self.pile_infos.len() - p,
        {
            proof {
                assert(before.slots.take(p + 1).drop_last() =~= before.slots.take(p as int));
                assert(self@.slots[p as int] == before.slots[p as int]);
                assert(before.slots[p as int].wf());
            }
            let ghost held = self@;
            let done = self.pile_infos[p].check_charging_completion(now);
            match done {
                Some((request, record)) => {
                    completed.push(request);
                    records.push(record);
                },
                None => {},
            }
            proof {
                assert forall|j: int| 0 <= j < p + 1 implies (#[trigger] self@.slots[j])
                    == before.slots[j].settled(now) by {
                    if j < p {
                        assert(self@.slots[j] == held.slots[j]);
                    }
                }
                assert forall|j: int| p + 1 <= j < before.slots.len() implies (
                #[trigger] self@.slots[j]) == before.slots[j] by {
                    assert(self@.slots[j] == held.slots[j]);
                }
            }
            p += 1;
        }
        proof {
            assert(before.slots.take(p as int) =~= before.slots);
            assert(self@.slots =~= before.settle_all(now).slots);
            lemma_settle_all(before, now);
        }
        (completed, records)
    }

    /// Lets every pile that is available, charges nothing and has a queue
    /// begin the session of the head of its queue at `now`.
    pub(crate) fn promote_idle(&mut self, now: i64)
        requires
            old(self)@.wf(),
        ensures
            final(self)@ == old(self)@.promote_all(now),
            final(self)@.wf(),
    {
        let ghost before = self@;
        let mut p: usize = 0;
        while p < self.pile_infos.len()
            invariant
                p <= self.pile_infos.len(),
                self@.waiting == before.waiting,
                self@.slots.len() == before.slots.len(),
                forall|j: int| 0 <= j < p ==>
                    (#[trigger] self@.slots[j]) == before.slots[j].promoted(now),
                forall|j: int| p <= j < before.slots.len() ==>
                    (#[trigger] self@.slots[j]) == before.slots[j],
            decreases self.pile_infos.len() - p,
        {
            let ghost held = self@;
            proof {
                assert(self@.slots[p as int] == before.slots[p as int]);
            }
            let started = self.pile_infos[p].start_next_charging(now);
            proof {
                assert forall|j: int| 0 <= j < p + 1 implies (#[trigger] self@.slots[j])
                    == before.slots[j].promoted(now) by {
                    if j < p {
                        assert(self@.slots[j] == held.slots[j]);
                    }
                }
                assert forall|j: int| p + 1 <= j < before.slots.len() implies (
                #[trigger] self@.slots[j]) == before.slots[j] by {
                    assert(self@.slots[j] == held.slots[j]);
                }
            }
            p += 1;
        }
        proof {
            assert(self@.slots =~= before.promote_all(now).slots);
            lemma_promote_all(before, now);
        }
    }

    /// Settles the session of every pile at `now` and then lets every idle
    /// pile with a queue begin its next session. Returns the requests that
    /// were completed and the records of their sessions.
    pub(crate) fn tick(&mut self, now: i64) -> (report: TickReport)
        requires
            old(self)@.wf(),
        ensures
            final(self)@ == old(self)@.advance(now),
            final(self)@.wf(),
            report.completed@ == completed_of(old(self)@.slots, now),
            report.records@ == records_of(old(self)@.slots, now),
            report.dispatched == 0,
    {
        let (completed, records) = self.settle_sessions(now);
        self.promote_idle(now);
        TickReport { completed, records, dispatched: 0 }
    }

    /// Places requests at `now`, one after the other: each goes to the end
    /// of the queue of the best slot for its mode, or, where no slot accepts
    /// the mode, to the head of the waiting area behind those that went
    /// there before it. Returns how many went to the waiting area.
    pub(crate) fn redistribute(&mut self, pending: &Vec<ChargingRequest>, now: i64) -> (returned: usize)
        ensures
            final(self)@ == old(self)@.redistribute(pending@, now, 0),
    {
        let ghost before = self@;
        let mut k: usize = 0;
        let mut returned: usize = 0;
        assert(pending@.skip(0) =~= pending@);
        while k < pending.len()
            invariant
                k <= pending.len(),
                returned <= k,
                returned <= self@.waiting.len(),
                self@.redistribute(pending@.skip(k as int), now, returned as int)
                    == before.redistribute(pending@, now, 0),
            decreases pending.len() - k,
        {
            let ghost held = self@;
            let request = pending[k].clone();
            proof {
                assert(pending@.skip(k as int)[0] == request);
                assert(pending@.skip(k as int).skip(1) =~= pending@.skip(k + 1));
            }
            match self.find_best_pile(&request, now) {
                Some((p, _)) => {
                    self.pile_infos[p].queue.push_back(request);
                    assert(self@.slots =~= held.slots.update(
                        p as int,
                        held.slots[p as int].enqueue(request),
                    ));
                    assert(self@ == held.place(request, now, returned as int));
                },
                None => {
                    self.waiting_queue.insert(returned, request);
                    assert(self@ == held.place(request, now, returned as int));
                    returned += 1;
                },
            }
            k += 1;
        }
        proof {
            assert(pending@.skip(k as int).len() == 0);
        }
        returned
    }

    /// Takes pile `p` out of order at `now`: its slot is emptied, the
    /// requests it held are placed on the other piles in the order of their
    /// queue numbers or go to the head of the waiting area, and every idle
    /// pile begins its next session.
    pub(crate) fn fault_pile(&mut self, p: usize, now: i64)
        requires
            old(self)@.wf(),
            p < old(self)@.slots.len(),
        ensures
            final(self)@ == old(self)@.fault(p as int, now),
            final(self)@.wf(),
    {
        let ghost before = self@;
        proof {
            lemma_fault(before, p as int, now);
            crate::scheduler::queue_model::lemma_fault_redistributed(before, p as int, now);
        }
        let displaced = self.pile_infos[p].evict();
        assert(self@.slots =~= before.slots.update(p as int, before.slots[p as int].faulted()));
        let pending = sort_requests(&displaced);
        let returned = self.redistribute(&pending, now);
        self.promote_idle(now);
    }

    /// Puts pile `p` back in service at `now`: the pile is available, the
    /// queues of all piles of its mode are emptied, and their requests are
    /// placed anew in the order of their queue numbers or go to the head of
    /// the waiting area. No session begins: that is left to the next tick.
    pub(crate) fn repair_pile(&mut self, p: usize, now: i64)
        requires
            old(self)@.wf(),
            p < old(self)@.slots.len(),
        ensures
            final(self)@ == old(self)@.repair(p as int, now),
            final(self)@.wf(),
    {
        let ghost before = self@;
        let mode = self.pile_infos[p].pile.mode;
        proof {
            lemma_repair(before, p as int, now);
        }
        let repaired = self.pile_infos[p].pile.repair();
        let ghost opened = before.slots.update(p as int, before.slots[p as int].repaired());
        assert(self@.slots =~= opened);
        let mut queues: VecDeque<ChargingRequest> = VecDeque::new();
        let mut q: usize = 0;
        while q < self.pile_infos.len()
            invariant
                q <= self.pile_infos.len(),
                self@.waiting == before.waiting,
                self@.slots.len() == opened.len(),
                forall|j: int| 0 <= j < q ==>
                    (#[trigger] self@.slots[j]) == drained_of(opened, mode)[j],
                forall|j: int| q <= j < opened.len() ==> (#[trigger] self@.slots[j]) == opened[j],
                queues@ == gathered(opened.take(q as int), mode),
            decreases self.pile_infos.len() - q,
        {
            let ghost held = self@;
            proof {
                assert(opened.take(q + 1).drop_last() =~= opened.take(q as int));
                assert(self@.slots[q as int] == opened[q as int]);
            }
            if self.pile_infos[q].pile.mode == mode {
                let mut queued = self.pile_infos[q].drain_queue();
                queues.append(&mut queued);
            }
            proof {
                assert forall|j: int| 0 <= j < q + 1 implies (#[trigger] self@.slots[j])
                    == drained_of(opened, mode)[j] by {
                    if j < q {
                        assert(self@.slots[j] == held.slots[j]);
                    }
                }
                assert forall|j: int| q + 1 <= j < opened.len() implies (
                #[trigger] self@.slots[j]) == opened[j] by {
                    assert(self@.slots[j] == held.slots[j]);
                }
            }
            q += 1;
        }
        proof {
            assert(opened.take(q as int) =~= opened);
            assert(self@.slots =~= drained_of(opened, mode));
        }
        let pending = sort_requests(&queues);
        let returned = self.redistribute(&pending, now);
    }

    /// Switches the pile that goes by the number off. Only an available
    /// pile can be switched off; its queue stays and waits until the pile is
    /// switched on again. Where that cannot be, the error of `switching` is
    /// returned and nothing changes.
    pub(crate) fn shutdown_pile(&mut self, number: &str) -> (r: Result<(), SchedulerError>)
        requires
            old(self)@.wf(),
        ensures
            final(self)@.wf(),
            r == old(self)@.switching(number@, PileStatus::Available),
            r.is_ok() ==> final(self)@ == (QueueModel {
                slots: old(self)@.slots.update(
                    pile_index(old(self)@.slots, number@),
                    old(self)@.slots[pile_index(old(self)@.slots, number@)].with_status(
                        PileStatus::Shutdown,
                    ),
                ),
                ..old(self)@
            }),
            r.is_err() ==> final(self)@ == old(self)@,
    {
        let p = self.find_pile(number);
        if p >= self.pile_infos.len() {
            return Err(SchedulerError::NotFound);
        }
        if self.pile_infos[p].pile.status != PileStatus::Available {
            return Err(SchedulerError::PileUnavailable);
        }
        let ghost before = self@;
        proof {
            lemma_switch(before, p as int, PileStatus::Shutdown);
        }
        let switched = self.pile_infos[p].pile.shutdown();
        assert(self@.slots =~= before.slots.update(
            p as int,
            before.slots[p as int].with_status(PileStatus::Shutdown),
        ));
        Ok(())
    }

    /// Switches the pile that goes by the number on again. Only a pile that
    /// is switched off can be switched on. Where that cannot be, the error
    /// of `switching` is returned and nothing changes.
    pub(crate) fn startup_pile(&mut self, number: &str) -> (r: Result<(), SchedulerError>)
        requires
            old(self)@.wf(),
        ensures
            final(self)@.wf(),
            r == old(self)@.switching(number@, PileStatus::Shutdown),
            r.is_ok() ==> final(self)@ == (QueueModel {
                slots: old(self)@.slots.update(
                    pile_index(old(self)@.slots, number@),
                    old(self)@.slots[pile_index(old(self)@.slots, number@)].with_status(
                        PileStatus::Available,
                    ),
                ),
                ..old(self)@
            }),
            r.is_err() ==> final(self)@ == old(self)@,
    {
        let p = self.find_pile(number);
        if p >= self.pile_infos.len() {
            return Err(SchedulerError::NotFound);
        }
        if self.pile_infos[p].pile.status != PileStatus::Shutdown {
            return Err(SchedulerError::PileUnavailable);
        }
        let ghost before = self@;
        proof {
            lemma_switch(before, p as int, PileStatus::Available);
        }
        let switched = self.pile_infos[p].pile.startup();
        assert(self@.slots =~= before.slots.update(
            p as int,
            before.slots[p as int].with_status(PileStatus::Available),
        ));
        Ok(())
    }

    /// Takes the pile that goes by the number out of order at `now`: its
    /// slot is emptied, the requests it held are placed on the other piles
    /// in the order of their queue numbers or go to the head of the waiting
    /// area, and every idle pile begins its next session. Without such a
    /// pile the answer is `NotFound`, and nothing changes.
    pub(crate) fn handle_pile_fault(&mut self, number: &str, now: i64) -> (r: Result<(), SchedulerError>)
        requires
            old(self)@.wf(),
        ensures
            final(self)@.wf(),
            pile_index(old(self)@.slots, number@) < old(self)@.slots.len() ==> r.is_ok()
                && final(self)@ == old(self)@.fault(pile_index(old(self)@.slots, number@), now),
            pile_index(old(self)@.slots, number@) >= old(self)@.slots.len() ==> r == Err::<
                (),
                SchedulerError,
            >(SchedulerError::NotFound) && final(self)@ == old(self)@,
    {
        let p = self.find_pile(number);
        if p >= self.pile_infos.len() {
            return Err(SchedulerError::NotFound);
        }
        self.fault_pile(p, now);
        Ok(())
    }

    /// Puts the pile that goes by the number back in service at `now`: the
    /// pile is available, the queues of all piles of its mode are emptied,
    /// and their requests are placed anew in the order of their queue
    /// numbers, the repaired pile among the candidates, or go to the head of
    /// the waiting area. No session begins: that is left to the next tick.
    /// Where the pile cannot be repaired, the error of `repairing` is
    /// returned and nothing changes.
    pub(crate) fn handle_pile_recovery(&mut self, number: &str, now: i64) -> (r: Result<
        (),
        SchedulerError,
    >)
        requires
            old(self)@.wf(),
        ensures
            final(self)@.wf(),
            r == old(self)@.repairing(number@),
            r.is_ok() ==> final(self)@ == old(self)@.repair(
                pile_index(old(self)@.slots, number@),
                now,
            ),
            r.is_ok() ==> final(self)@.after_repair_of(
                old(self)@,
                pile_index(old(self)@.slots, number@),
            ),
            r.is_err() ==> final(self)@ == old(self)@,
    {
        let p = self.find_pile(number);
        if p >= self.pile_infos.len() {
            return Err(SchedulerError::NotFound);
        }
        if self.pile_infos[p].pile.status != PileStatus::Fault {
            return Err(SchedulerError::PileUnavailable);
        }
        proof {
            crate::scheduler::queue_model::lemma_repair_outcome(self@, p as int, now);
        }
        self.repair_pile(p, now);
        Ok(())
    }

    /// Sends the requests of the waiting area to piles at `now`, one after
    /// the other from the first on, each to the best slot for its mode,
    /// until the waiting area is empty or no slot accepts the first request.
    /// Returns how many requests left the waiting area.
    pub(crate) fn dispatch_waiting(&mut self, now: i64) -> (moved: usize)
        requires
            old(self)@.wf(),
        ensures
            final(self)@ == old(self)@.dispatch(now),
            final(self)@.wf(),
            moved == old(self)@.waiting.len() - final(self)@.waiting.len(),
    {
        let ghost before = self@;
        let mut moved: usize = 0;
        assert(before.waiting.len() == self.waiting_queue.len());
        loop
            invariant
                self@.wf(),
                self@.dispatch(now) == before.dispatch(now),
                moved == before.waiting.len() - self@.waiting.len(),
                before.waiting.len() <= usize::MAX,
            ensures
                self@ == before.dispatch(now),
            decreases self.waiting_queue.len(),
        {
            if self.waiting_queue.len() == 0 {
                break ;
            }
            let found = self.find_best_pile(&self.waiting_queue[0], now);
            match found {
                None => {
                    break ;
                },
                Some((p, _)) => {
                    let ghost held = self@;
                    proof {
                        lemma_assign_head(held, p as int);
                    }
                    let request = self.waiting_queue.pop_front().unwrap();
                    self.pile_infos[p].queue.push_back(request);
                    proof {
                        assert(self@.waiting =~= held.waiting.skip(1));
                        assert(self@.slots =~= held.slots.update(
                            p as int,
                            held.slots[p as int].enqueue(held.waiting[0]),
                        ));
                        assert(self@ == held.assign_head(p as int));
                    }
                    moved += 1;
                },
            }
        }
        proof {
            lemma_dispatch(before, now);
        }
        moved
    }
}

/// A valid model stays valid when a pile that is not charging takes another
/// status than `Charging`.
pub proof fn lemma_switch(model: QueueModel, p: int, status: PileStatus)
    requires
        model.wf(),
        0 <= p < model.slots.len(),
        model.slots[p].pile.status != PileStatus::Charging,
        status != PileStatus::Charging,
    ensures
        (QueueModel {
            slots: model.slots.update(p, model.slots[p].with_status(status)),
            ..model
        }).wf(),
{
    let slot = model.slots[p];
    let next = QueueModel { slots: model.slots.update(p, slot.with_status(status)), ..model };
    assert(slot.wf());
    crate::scheduler::pile_info::lemma_accounts_kept(slot, slot.with_status(status));
    assert(slot.with_status(status).requests() == slot.requests());
    assert forall|q: int| 0 <= q < next.slots.len() implies (#[trigger] next.slots[q]).wf()
        && next.slots[q].ids().subset_of(model.slots[q].ids()) && next.slots[q].pile.number
        == model.slots[q].pile.number by {
        if q != p {
            assert(model.slots[q].wf());
        }
    }
    crate::scheduler::queue_model::lemma_shrink(model, next);
}

/// The mode of the default pile at place `p`: the fast piles come first.
pub open spec fn default_mode(p: int) -> ChargingMode {
    if p < FAST_CHARGING_PILES {
        ChargingMode::Fast
    } else {
        ChargingMode::Slow
    }
}

/// The number of the default pile at place `p`: `F1`, `F2`, `T1`, `T2`, `T3`.
pub open spec fn default_number(p: int) -> Seq<char> {
    if p < FAST_CHARGING_PILES {
        queue_label(ChargingMode::Fast, (p + 1) as nat)
    } else {
        queue_label(ChargingMode::Slow, (p - FAST_CHARGING_PILES + 1) as nat)
    }
}

/// Whether the slot is that of the default pile at place `p`, as the
/// station has it before anything has happened.
pub open spec fn is_default_slot(slot: PileSlot, p: int) -> bool {
    &&& slot == PileSlot::vacant(slot.pile)
    &&& slot.pile == ChargingPile::with_id(slot.pile.id, slot.pile.number, default_mode(p))
    &&& slot.pile.number@ == default_number(p)
}

/// The numbers of the default piles ascend with their places.
pub proof fn lemma_default_numbers_ascend(p: int, q: int)
    requires
        0 <= p < q < FAST_CHARGING_PILES + SLOW_CHARGING_PILES,
    ensures
        precedes(default_number(p), default_number(q)),
{
    let a = default_number(p);
    let b = default_number(q);
    reveal_with_fuel(crate::text::decimal, 2);
    assert(a.len() == 2 && b.len() == 2);
    if default_mode(p) == default_mode(q) {
        assert(crate::text::differ_first_at(a, b, 1));
        assert((a[1] as int) < (b[1] as int));
    } else {
        assert(crate::text::differ_first_at(a, b, 0));
        assert((a[0] as int) < (b[0] as int));
    }
}

/// A pile found among the first piles is the pile found among all.
pub proof fn lemma_pile_index_prefix(slots: Seq<PileSlot>, number: Seq<char>, n: int)
    requires
        0 <= n <= slots.len(),
        pile_index(slots.take(n), number) < n,
    ensures
        pile_index(slots, number) == pile_index(slots.take(n), number),
    decreases slots.len() - n,
{
    if n < slots.len() {
        assert(slots.take(n + 1).drop_last() =~= slots.take(n));
        lemma_pile_index_prefix(slots, number, n + 1);
    } else {
        assert(slots.take(n) =~= slots);
    }
}

/// A holder found among the first slots is the holder found among all.
pub proof fn lemma_holder_prefix(slots: Seq<PileSlot>, id: u128, n: int)
    requires
        0 <= n <= slots.len(),
        holder(slots.take(n), id) < n,
    ensures
        holder(slots, id) == holder(slots.take(n), id),
    decreases slots.len() - n,
{
    if n < slots.len() {
        assert(slots.take(n + 1).drop_last() =~= slots.take(n));
        lemma_holder_prefix(slots, id, n + 1);
    } else {
        assert(slots.take(n) =~= slots);
    }
}

} // verus!
