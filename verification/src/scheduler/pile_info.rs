//! One pile with its charging slot and its queue.

use std::collections::VecDeque;
use vstd::prelude::*;
use crate::billing::fee_calculator::{
    electricity_fee,
    lemma_electricity_fee_bounds,
    service_fee,
    whole_minutes,
};
use crate::billing::FeeCalculator;
use crate::models::{
    ChargingMode,
    ChargingPile,
    ChargingRecord,
    ChargingRequest,
    PileStatus,
    PileTotals,
    RequestStatus,
    PILE_QUEUE_CAPACITY,
};
use crate::scheduler::requests::{
    all_waiting,
    find_request,
    has_request,
    has_user,
    id_set,
    lemma_ids_concat,
    lemma_ids_empty,
    lemma_ids_push,
    lemma_ids_remove,
    lemma_ids_update,
    lemma_position,
    lemma_without_user,
    lemma_without_user_drawn,
    lemma_without_user_ids,
    lemma_without_user_waiting,
    no_repeat,
    position,
    requests_of_others,
    resized,
    total_amount,
    without_user,
};

verus! {

/// A completed session: the request as it left, and the record made of it.
pub struct Session {
    /// The request, completed.
    pub request: ChargingRequest,
    /// The record of the session.
    pub record: ChargingRecord,
}

impl Session {
    /// The record is that of the request: it carries the request's
    /// identifier, user and amount, the request is completed, and the
    /// record's total is the sum of its two fees.
    pub open spec fn consistent(self) -> bool {
        &&& self.request.status == RequestStatus::Completed
        &&& self.record.id == self.request.id
        &&& self.record.user_id == self.request.user_id
        &&& self.record.charging_amount == self.request.amount
        &&& self.record.total_fee == self.record.charging_fee + self.record.service_fee
    }
}

/// The counters that start at `opening` and grow by each session in turn.
pub open spec fn tally(opening: PileTotals, sessions: Seq<Session>) -> PileTotals
    decreases sessions.len(),
{
    if sessions.len() == 0 {
        opening
    } else {
        tally(opening, sessions.drop_last()).credit(
            sessions.last().record.charging_time,
            sessions.last().record.charging_amount,
            sessions.last().record.charging_fee,
            sessions.last().record.service_fee,
        )
    }
}

/// A pile with the request it is charging, the instant at which that
/// session began, and the requests that queue behind it.
pub struct PileInfo {
    /// The pile.
    pub pile: ChargingPile,
    /// The requests that wait at the pile, first come first.
    pub queue: VecDeque<ChargingRequest>,
    /// The request that the pile is charging.
    pub current_charging: Option<ChargingRequest>,
    /// When the session of that request began.
    pub charging_start_time: Option<i64>,
    /// The sessions that the pile has completed since it joined the
    /// station, in their order.
    pub sessions: Ghost<Seq<Session>>,
    /// The counters with which the pile joined the station.
    pub opening: Ghost<PileTotals>,
}

/// What a `PileInfo` holds, as a mathematical value.
pub struct PileSlot {
    /// The pile.
    pub pile: ChargingPile,
    /// The requests that wait at the pile, first come first.
    pub queue: Seq<ChargingRequest>,
    /// The request that the pile is charging.
    pub current_charging: Option<ChargingRequest>,
    /// When the session of that request began.
    pub charging_start_time: Option<i64>,
    /// The sessions that the pile has completed since it joined the
    /// station, in their order.
    pub sessions: Seq<Session>,
    /// The counters with which the pile joined the station.
    pub opening: PileTotals,
}

impl View for PileInfo {
    type V = PileSlot;

    open spec fn view(&self) -> PileSlot {
        PileSlot {
            pile: self.pile,
            queue: self.queue@,
            current_charging: self.current_charging,
            charging_start_time: self.charging_start_time,
            sessions: self.sessions@,
            opening: self.opening@,
        }
    }
}

/// Hundredths of a percent in the whole.
pub const FULL_PROGRESS: u32 = 10_000;

impl PileSlot {
    /// The slot of a pile that holds no request.
    pub open spec fn vacant(pile: ChargingPile) -> PileSlot {
        PileSlot {
            pile,
            queue: Seq::empty(),
            current_charging: None,
            charging_start_time: None,
            sessions: Seq::empty(),
            opening: pile.totals(),
        }
    }

    /// The requests at the pile: the one that is charging, then the queue.
    pub open spec fn requests(self) -> Seq<ChargingRequest> {
        match self.current_charging {
            Some(current) => seq![current] + self.queue,
            None => self.queue,
        }
    }

    /// The identifiers of the requests at the pile.
    pub open spec fn ids(self) -> Set<u128> {
        id_set(self.requests())
    }

    /// Validity of a slot: the queue is within its capacity; there is a
    /// start time exactly when a request is charging, and that is exactly
    /// when the pile's status is `Charging`; the queued requests wait and the
    /// charging one charges; each asks for some energy in the pile's mode;
    /// no identifier occurs twice; every completed session has the record
    /// of its request; and the pile's counters are those with which it
    /// joined, grown by the records of its completed sessions.
    pub open spec fn wf(self) -> bool {
        &&& self.holds_well()
        &&& self.accounts_well()
    }

    /// The part of validity that speaks of the completed sessions.
    #[verifier::opaque]
    pub open spec fn accounts_well(self) -> bool {
        &&& forall|k: int| 0 <= k < self.sessions.len() ==>
            (#[trigger] self.sessions[k]).consistent()
        &&& self.pile.totals() == tally(self.opening, self.sessions)
    }

    /// The part of validity that speaks of the requests at the pile.
    pub open spec fn holds_well(self) -> bool {
        &&& self.queue.len() <= PILE_QUEUE_CAPACITY
        &&& self.current_charging.is_some() == self.charging_start_time.is_some()
        &&& self.current_charging.is_some() == (self.pile.status == PileStatus::Charging)
        &&& all_waiting(self.queue)
        &&& forall|i: int| 0 <= i < self.queue.len() ==>
            (#[trigger] self.queue[i]).mode == self.pile.mode
        &&& self.current_charging matches Some(current) ==> {
            &&& current.status == RequestStatus::Charging
            &&& current.amount > 0
            &&& current.mode == self.pile.mode
        }
        &&& no_repeat(self.requests())
    }

    /// Whether the queue has room for one more request.
    pub open spec fn has_space(self) -> bool {
        self.queue.len() < PILE_QUEUE_CAPACITY
    }

    /// Whether the pile neither charges nor has anyone queued.
    pub open spec fn is_idle(self) -> bool {
        self.current_charging.is_none() && self.queue.len() == 0
    }

    /// Whether a request of the given mode may be sent to the pile: the mode
    /// is the pile's, the pile is available or charging, and its queue has
    /// room.
    pub open spec fn accepts(self, mode: ChargingMode) -> bool {
        &&& self.pile.mode == mode
        &&& (self.pile.status == PileStatus::Available || self.pile.status
            == PileStatus::Charging)
        &&& self.has_space()
    }

    /// The energy that the present session has still to deliver at `now`,
    /// in watt-seconds: the amount asked for, less what the pile's power has
    /// delivered since the start, and never less than nothing.
    pub open spec fn remaining_energy(self, now: i64) -> int {
        match (self.current_charging, self.charging_start_time) {
            (Some(current), Some(start)) => {
                let left = current.amount * 3_600 - (now - start) * self.pile.mode.power();
                if left < 0 {
                    0
                } else {
                    left
                }
            },
            _ => 0,
        }
    }

    /// The energy that the pile has still to deliver at `now` to the
    /// requests it holds, in watt-seconds.
    pub open spec fn pending_energy(self, now: i64) -> int {
        self.remaining_energy(now) + 3_600 * total_amount(self.queue)
    }

    /// The seconds from `now` after which a request for `amount` watt-hours
    /// would be charged in full if it joined the queue now, rounded down.
    pub open spec fn completion_seconds(self, amount: u32, now: i64) -> int {
        (self.pending_energy(now) + 3_600 * amount) / (self.pile.mode.power() as int)
    }

    /// Whether the present session has delivered all that was asked for by
    /// `now`.
    pub open spec fn session_done(self, now: i64) -> bool {
        match (self.current_charging, self.charging_start_time) {
            (Some(current), Some(start)) => (now - start) * self.pile.mode.power()
                >= current.amount * 3_600,
            _ => false,
        }
    }

    /// How far the present session has come at `now`, in hundredths of a
    /// percent and at most the whole; nothing where no request is charging.
    pub open spec fn progress(self, now: i64) -> Option<u32> {
        match (self.current_charging, self.charging_start_time) {
            (Some(current), Some(start)) => Some(
                if now <= start {
                    0u32
                } else if self.session_done(now) {
                    FULL_PROGRESS
                } else {
                    ((10_000 * ((now - start) * self.pile.mode.power())) / (current.amount
                        * 3_600)) as u32
                },
            ),
            _ => None,
        }
    }

    /// The slot with one more request at the end of its queue.
    pub open spec fn enqueue(self, request: ChargingRequest) -> PileSlot {
        PileSlot { queue: self.queue.push(request), ..self }
    }

    /// Whether the head of the queue can begin to charge: nothing is
    /// charging, someone is queued, and the pile is available.
    pub open spec fn can_promote(self) -> bool {
        &&& self.current_charging.is_none()
        &&& self.queue.len() > 0
        &&& self.pile.status == PileStatus::Available
    }

    /// The slot after the head of its queue has begun to charge at `now`, or
    /// the slot as it is where that cannot be.
    pub open spec fn promoted(self, now: i64) -> PileSlot {
        if self.can_promote() {
            PileSlot {
                pile: self.pile.charging_from(now),
                queue: self.queue.skip(1),
                current_charging: Some(self.queue[0].with_status(RequestStatus::Charging)),
                charging_start_time: Some(now),
                ..self
            }
        } else {
            self
        }
    }

    /// The record of the present session if it ends at `now`.
    pub open spec fn session_record(self, now: i64) -> ChargingRecord {
        let current = self.current_charging.unwrap();
        let start = self.charging_start_time.unwrap();
        ChargingRecord::of(
            current.id,
            current.user_id,
            self.pile.number,
            current.mode,
            current.amount,
            whole_minutes(start as int, now as int) as u64,
            electricity_fee(current.amount as int, start as int, now as int) as u64,
            service_fee(current.amount as int) as u64,
            start,
            now,
            now,
        )
    }

    /// The session that ends if the present session ends at `now`.
    pub open spec fn session_ended(self, now: i64) -> Session {
        Session {
            request: self.current_charging.unwrap().with_status(RequestStatus::Completed),
            record: self.session_record(now),
        }
    }

    /// The slot after a look at the present session at `now`: if it has
    /// delivered all that was asked for, the charging slot is empty, the
    /// pile is available, its counters have grown by one session, the
    /// minutes, the energy and the two fees of the record, and the session
    /// is the last of the completed ones; else nothing has changed.
    pub open spec fn settled(self, now: i64) -> PileSlot {
        if self.session_done(now) {
            let record = self.session_record(now);
            PileSlot {
                pile: self.pile.after_session(record.charging_time, record.charging_amount).with_fees(
                    record.charging_fee,
                    record.service_fee,
                ),
                current_charging: None,
                charging_start_time: None,
                sessions: self.sessions.push(self.session_ended(now)),
                ..self
            }
        } else {
            self
        }
    }

    /// The slot with its charging slot emptied and the pile available, as
    /// after the session was called off; the slot as it is where nothing is
    /// charging.
    pub open spec fn released(self) -> PileSlot {
        if self.current_charging.is_some() {
            PileSlot {
                pile: ChargingPile { status: PileStatus::Available, ..self.pile },
                current_charging: None,
                charging_start_time: None,
                ..self
            }
        } else {
            self
        }
    }

    /// Whether the request that is charging carries the identifier.
    pub open spec fn charges(self, id: u128) -> bool {
        self.current_charging matches Some(current) && current.id == id
    }

    /// Whether a queued request carries the identifier.
    pub open spec fn queues(self, id: u128) -> bool {
        position(self.queue, id) < self.queue.len()
    }

    /// The slot without the request of the given identifier, at `now`: if it
    /// was charging, the session is called off and the head of the queue
    /// begins to charge; if it was queued, it leaves the queue; else nothing
    /// has changed.
    pub open spec fn without(self, id: u128, now: i64) -> PileSlot {
        if self.charges(id) {
            self.released().promoted(now)
        } else if self.queues(id) {
            PileSlot { queue: self.queue.remove(position(self.queue, id)), ..self }
        } else {
            self
        }
    }

    /// The part of the slot that is in front of the queue: the request that
    /// is charging, as a sequence of one, or nothing.
    pub open spec fn front(self) -> Seq<ChargingRequest> {
        match self.current_charging {
            Some(current) => seq![current],
            None => Seq::empty(),
        }
    }

    /// Whether a request at the pile belongs to the user.
    pub open spec fn serves(self, user_id: u128) -> bool {
        has_user(self.requests(), user_id)
    }

    /// The slot without the requests of a user, at `now`: they leave the
    /// queue, and if the user's request was charging, the session is called
    /// off and the head of what is left of the queue begins to charge.
    pub open spec fn without_user(self, user_id: u128, now: i64) -> PileSlot {
        let trimmed = PileSlot { queue: without_user(self.queue, user_id), ..self };
        if self.current_charging matches Some(current) && current.user_id == user_id {
            trimmed.released().promoted(now)
        } else {
            trimmed
        }
    }

    /// The slot with another amount for the queued request of the given
    /// identifier, changed at `now`; the slot as it is where no queued
    /// request carries the identifier.
    pub open spec fn resize(self, id: u128, amount: u32, now: i64) -> PileSlot {
        if self.queues(id) {
            let at = position(self.queue, id);
            PileSlot { queue: self.queue.update(at, resized(self.queue[at], amount, now)), ..self }
        } else {
            self
        }
    }

    /// The slot without the queued request of the given identifier; the
    /// slot as it is where no queued request carries the identifier.
    pub open spec fn unqueue(self, id: u128) -> PileSlot {
        if self.queues(id) {
            PileSlot { queue: self.queue.remove(position(self.queue, id)), ..self }
        } else {
            self
        }
    }

    /// The requests that a pile sends away when it goes out of order: the
    /// one that was charging, waiting again, and then the queue.
    pub open spec fn displaced(self) -> Seq<ChargingRequest> {
        match self.current_charging {
            Some(current) => seq![current.with_status(RequestStatus::Waiting)] + self.queue,
            None => self.queue,
        }
    }

    /// The slot of the pile back in service after a fault; the slot as it is
    /// where the pile is not out of order.
    pub open spec fn repaired(self) -> PileSlot {
        if self.pile.status == PileStatus::Fault {
            PileSlot { pile: ChargingPile { status: PileStatus::Available, ..self.pile }, ..self }
        } else {
            self
        }
    }

    /// The slot of the pile with another status.
    pub open spec fn with_status(self, status: PileStatus) -> PileSlot {
        PileSlot { pile: ChargingPile { status, ..self.pile }, ..self }
    }

    /// The slot with its queue emptied.
    pub open spec fn drained(self) -> PileSlot {
        PileSlot { queue: Seq::empty(), ..self }
    }

    /// The slot with its charging slot and its queue emptied and the pile
    /// out of order.
    pub open spec fn faulted(self) -> PileSlot {
        PileSlot {
            pile: ChargingPile { status: PileStatus::Fault, ..self.pile },
            queue: Seq::empty(),
            current_charging: None,
            charging_start_time: None,
            ..self
        }
    }
}

/// The sum of what a function makes of the record of each session.
pub open spec fn sum_over(sessions: Seq<Session>, of: spec_fn(ChargingRecord) -> int) -> int
    decreases sessions.len(),
{
    if sessions.len() == 0 {
        0
    } else {
        sum_over(sessions.drop_last(), of) + of(sessions.last().record)
    }
}

/// The counters that have grown by a run of sessions are the sums over the
/// records of those sessions, added to the opening counters and held at the
/// largest `u64`: one for each session, and its minutes, its energy and its
/// two fees.
pub proof fn lemma_tally_sums(opening: PileTotals, sessions: Seq<Session>)
    ensures
        tally(opening, sessions).charge_count == crate::models::charging_pile::capped_sum(
            opening.charge_count as int,
            sessions.len() as int,
        ),
        tally(opening, sessions).charge_time == crate::models::charging_pile::capped_sum(
            opening.charge_time as int,
            sum_over(sessions, |record: ChargingRecord| record.charging_time as int),
        ),
        tally(opening, sessions).charge_amount == crate::models::charging_pile::capped_sum(
            opening.charge_amount as int,
            sum_over(sessions, |record: ChargingRecord| record.charging_amount as int),
        ),
        tally(opening, sessions).charging_fee == crate::models::charging_pile::capped_sum(
            opening.charging_fee as int,
            sum_over(sessions, |record: ChargingRecord| record.charging_fee as int),
        ),
        tally(opening, sessions).service_fee == crate::models::charging_pile::capped_sum(
            opening.service_fee as int,
            sum_over(sessions, |record: ChargingRecord| record.service_fee as int),
        ),
        0 <= sum_over(sessions, |record: ChargingRecord| record.charging_time as int),
        0 <= sum_over(sessions, |record: ChargingRecord| record.charging_amount as int),
        0 <= sum_over(sessions, |record: ChargingRecord| record.charging_fee as int),
        0 <= sum_over(sessions, |record: ChargingRecord| record.service_fee as int),
    decreases sessions.len(),
{
    if sessions.len() > 0 {
        lemma_tally_sums(opening, sessions.drop_last());
    }
}

/// In a valid slot every completed session has the record of its request,
/// and the counters of the pile are those with which it joined the station,
/// grown by the records of its completed sessions.
pub proof fn lemma_slot_accounts(slot: PileSlot)
    requires
        slot.wf(),
    ensures
        forall|k: int| 0 <= k < slot.sessions.len() ==> (#[trigger] slot.sessions[k]).consistent(),
        slot.pile.totals() == tally(slot.opening, slot.sessions),
{
    reveal(PileSlot::accounts_well);
}

/// A pile that is out of order or switched off charges nothing: in a valid
/// slot a request is charging exactly while the pile's status says so.
pub proof fn lemma_out_of_service_charges_nothing(slot: PileSlot)
    requires
        slot.wf(),
        slot.pile.status == PileStatus::Fault || slot.pile.status == PileStatus::Shutdown,
    ensures
        slot.current_charging.is_none(),
        slot.charging_start_time.is_none(),
        forall|mode: ChargingMode| !slot.accepts(mode),
{
}

/// The accounts of a slot stay in order while its completed sessions, its
/// opening counters and the counters of its pile stay as they are.
pub proof fn lemma_accounts_kept(slot: PileSlot, next: PileSlot)
    requires
        slot.accounts_well(),
        next.sessions == slot.sessions,
        next.opening == slot.opening,
        next.pile.totals() == slot.pile.totals(),
    ensures
        next.accounts_well(),
{
    reveal(PileSlot::accounts_well);
}

/// Whether a request may join the queue of a pile of the given mode: it
/// waits, asks for some energy, and asks for it in that mode.
pub open spec fn fit_for_queue(request: ChargingRequest, mode: ChargingMode) -> bool {
    &&& request.status == RequestStatus::Waiting
    &&& request.amount > 0
    &&& request.mode == mode
}

/// A valid slot with room stays valid when a fitting request with a new
/// identifier joins its queue, and holds that identifier besides the others.
pub proof fn lemma_slot_enqueue(slot: PileSlot, request: ChargingRequest)
    requires
        slot.wf(),
        slot.has_space(),
        fit_for_queue(request, slot.pile.mode),
        !slot.ids().contains(request.id),
    ensures
        slot.enqueue(request).wf(),
        slot.enqueue(request).ids() == slot.ids().insert(request.id),
        slot.enqueue(request).pile == slot.pile,
{
    let next = slot.enqueue(request);
    lemma_accounts_kept(slot, next);
    assert(next.requests() =~= slot.requests().push(request));
    lemma_ids_push(slot.requests(), request);
    assert forall|i: int| 0 <= i < next.queue.len() implies (#[trigger] next.queue[i]).status
        == RequestStatus::Waiting && next.queue[i].amount > 0 && next.queue[i].mode
        == next.pile.mode by {
        if i < slot.queue.len() {
            assert(next.queue[i] == slot.queue[i]);
        }
    }
}

/// A valid slot stays valid when the head of its queue begins to charge,
/// and holds the same identifiers.
pub proof fn lemma_slot_promoted(slot: PileSlot, now: i64)
    requires
        slot.wf(),
    ensures
        slot.promoted(now).wf(),
        slot.promoted(now).ids() == slot.ids(),
        slot.promoted(now).pile.number == slot.pile.number,
        slot.promoted(now).pile.mode == slot.pile.mode,
{
    if slot.can_promote() {
        let next = slot.promoted(now);
        lemma_accounts_kept(slot, next);
        let head = slot.queue[0].with_status(RequestStatus::Charging);
        assert(next.requests() =~= slot.requests().update(0, head));
        lemma_ids_update(slot.requests(), 0, head);
        assert forall|i: int| 0 <= i < next.queue.len() implies (#[trigger] next.queue[i]).status
            == RequestStatus::Waiting && next.queue[i].amount > 0 && next.queue[i].mode
            == next.pile.mode by {
            assert(next.queue[i] == slot.queue[i + 1]);
        }
    }
}

/// A valid slot stays valid when its session is settled; it then holds the
/// same identifiers but that of a request that left as completed.
pub proof fn lemma_slot_settled(slot: PileSlot, now: i64)
    requires
        slot.wf(),
    ensures
        slot.settled(now).wf(),
        slot.session_done(now) ==> slot.settled(now).ids() == slot.ids().remove(
            slot.current_charging.unwrap().id,
        ),
        !slot.session_done(now) ==> slot.settled(now) == slot,
        slot.settled(now).ids().subset_of(slot.ids()),
        slot.settled(now).pile.number == slot.pile.number,
        slot.settled(now).pile.mode == slot.pile.mode,
        slot.settled(now).queue == slot.queue,
        slot.session_done(now) ==> slot.session_ended(now).consistent(),
{
    if slot.session_done(now) {
        let next = slot.settled(now);
        assert(next.requests() =~= slot.requests().remove(0));
        lemma_ids_remove(slot.requests(), 0);
        let current = slot.current_charging.unwrap();
        let start = slot.charging_start_time.unwrap();
        let power = slot.pile.mode.power();
        assert(now > start) by (nonlinear_arith)
            requires
                (now - start) * power >= current.amount * 3_600,
                current.amount > 0,
                power > 0,
        ;
        lemma_electricity_fee_bounds(current.amount as int, start as int, now as int);
        reveal(PileSlot::accounts_well);
        assert(next.sessions.drop_last() =~= slot.sessions);
        assert forall|k: int| 0 <= k < next.sessions.len() implies (
        #[trigger] next.sessions[k]).consistent() by {
            if k < slot.sessions.len() {
                assert(next.sessions[k] == slot.sessions[k]);
            }
        }
    }
}

/// A valid slot stays valid when its session is called off; it then holds
/// the same identifiers but that of the request that was charging.
pub proof fn lemma_slot_released(slot: PileSlot)
    requires
        slot.wf(),
    ensures
        slot.released().wf(),
        slot.current_charging matches Some(current) ==> slot.released().ids() == slot.ids().remove(
            current.id,
        ),
        slot.current_charging.is_none() ==> slot.released() == slot,
        slot.released().pile.number == slot.pile.number,
        slot.released().pile.mode == slot.pile.mode,
{
    if slot.current_charging.is_some() {
        let next = slot.released();
        lemma_accounts_kept(slot, next);
        assert(next.requests() =~= slot.requests().remove(0));
        lemma_ids_remove(slot.requests(), 0);
    }
}

/// A valid slot holds an identifier exactly if the request that is charging
/// or a queued request carries it.
pub proof fn lemma_slot_holds(slot: PileSlot, id: u128)
    ensures
        slot.ids().contains(id) <==> slot.charges(id) || slot.queues(id),
{
    lemma_position(slot.queue, id);
    crate::scheduler::requests::lemma_ids_concat(
        match slot.current_charging {
            Some(current) => seq![current],
            None => Seq::empty(),
        },
        slot.queue,
    );
    match slot.current_charging {
        Some(current) => {
            let one = seq![current];
            assert(slot.requests() == one + slot.queue);
            if current.id == id {
                assert(one[0].id == id);
                assert(crate::scheduler::requests::holds_id(one, id));
            }
            if crate::scheduler::requests::holds_id(one, id) {
            }
        },
        None => {
            assert(slot.requests() == slot.queue);
        },
    }
}

/// A valid slot stays valid when the request of an identifier is taken from
/// it, and holds the same identifiers but that one.
pub proof fn lemma_slot_without(slot: PileSlot, id: u128, now: i64)
    requires
        slot.wf(),
    ensures
        slot.without(id, now).wf(),
        slot.without(id, now).ids() == slot.ids().remove(id),
        !slot.ids().contains(id) ==> slot.without(id, now) == slot,
        slot.without(id, now).pile.number == slot.pile.number,
        slot.without(id, now).pile.mode == slot.pile.mode,
{
    lemma_slot_holds(slot, id);
    lemma_position(slot.queue, id);
    if slot.charges(id) {
        lemma_slot_released(slot);
        lemma_slot_promoted(slot.released(), now);
    } else if slot.queues(id) {
        let at = position(slot.queue, id);
        let next = slot.without(id, now);
        lemma_accounts_kept(slot, next);
        match slot.current_charging {
            Some(current) => {
                assert(next.requests() =~= slot.requests().remove(at + 1));
                lemma_ids_remove(slot.requests(), at + 1);
                assert(slot.requests()[at + 1] == slot.queue[at]);
            },
            None => {
                assert(next.requests() =~= slot.requests().remove(at));
                lemma_ids_remove(slot.requests(), at);
            },
        }
        assert forall|i: int| 0 <= i < next.queue.len() implies (#[trigger] next.queue[i]).status
            == RequestStatus::Waiting && next.queue[i].amount > 0 && next.queue[i].mode
            == next.pile.mode by {
            if i < at {
                assert(next.queue[i] == slot.queue[i]);
            } else {
                assert(next.queue[i] == slot.queue[i + 1]);
            }
        }
    } else {
        assert(slot.ids().remove(id) =~= slot.ids());
    }
}

/// The slot of a pile that was taken out of order is valid and holds no
/// request.
pub proof fn lemma_slot_faulted(slot: PileSlot)
    requires
        slot.wf(),
    ensures
        slot.faulted().wf(),
        slot.faulted().ids() == Set::<u128>::empty(),
{
    lemma_accounts_kept(slot, slot.faulted());
    crate::scheduler::requests::lemma_ids_empty();
    assert(slot.faulted().requests() =~= Seq::<ChargingRequest>::empty());
}

/// The slot of a pile that is not charging and holds no request is valid.
pub proof fn lemma_slot_vacant(pile: ChargingPile)
    requires
        pile.status != PileStatus::Charging,
    ensures
        PileSlot::vacant(pile).wf(),
        PileSlot::vacant(pile).ids() == Set::<u128>::empty(),
{
    reveal(PileSlot::accounts_well);
    crate::scheduler::requests::lemma_ids_empty();
    assert(PileSlot::vacant(pile).requests() =~= Seq::<ChargingRequest>::empty());
}

/// The requests of a slot are its front and then its queue.
pub proof fn lemma_slot_parts(slot: PileSlot)
    ensures
        slot.requests() == slot.front() + slot.queue,
        slot.ids() == id_set(slot.front()).union(id_set(slot.queue)),
        no_repeat(slot.front()),
        no_repeat(slot.requests()) <==> no_repeat(slot.queue) && id_set(slot.front()).disjoint(
            id_set(slot.queue),
        ),
{
    lemma_ids_concat(slot.front(), slot.queue);
    assert(slot.requests() =~= slot.front() + slot.queue);
}

/// A valid slot stays valid when its queue is replaced by requests that fit
/// the pile, are no more than before, and carry identifiers of the old
/// queue only, none twice.
pub proof fn lemma_slot_requeue(slot: PileSlot, queue: Seq<ChargingRequest>)
    requires
        slot.wf(),
        queue.len() <= slot.queue.len(),
        forall|i: int| 0 <= i < queue.len() ==> fit_for_queue(#[trigger] queue[i], slot.pile.mode),
        id_set(queue).subset_of(id_set(slot.queue)),
        no_repeat(queue),
    ensures
        (PileSlot { queue, ..slot }).wf(),
        (PileSlot { queue, ..slot }).ids().subset_of(slot.ids()),
        (PileSlot { queue, ..slot }).ids() == id_set(slot.front()).union(id_set(queue)),
{
    let next = PileSlot { queue, ..slot };
    lemma_accounts_kept(slot, next);
    lemma_slot_parts(slot);
    lemma_slot_parts(next);
    assert(next.front() == slot.front());
}

/// A valid slot stays valid when the requests of a user are taken from it;
/// it then holds none of the user's requests and no identifier that it did
/// not hold before.
pub proof fn lemma_slot_without_user(slot: PileSlot, user_id: u128, now: i64)
    requires
        slot.wf(),
    ensures
        slot.without_user(user_id, now).wf(),
        slot.without_user(user_id, now).ids().subset_of(slot.ids()),
        !slot.without_user(user_id, now).serves(user_id),
        !slot.serves(user_id) ==> slot.without_user(user_id, now) == slot,
        slot.without_user(user_id, now).pile.number == slot.pile.number,
        slot.without_user(user_id, now).pile.mode == slot.pile.mode,
{
    let queue = without_user(slot.queue, user_id);
    let trimmed = PileSlot { queue, ..slot };
    lemma_slot_parts(slot);
    lemma_without_user(slot.queue, user_id);
    lemma_without_user_drawn(slot.queue, user_id);
    lemma_without_user_ids(slot.queue, user_id);
    lemma_without_user_waiting(slot.queue, user_id);
    assert forall|i: int| 0 <= i < queue.len() implies fit_for_queue(
        #[trigger] queue[i],
        slot.pile.mode,
    ) by {
        assert(has_request(slot.queue, queue[i]));
        let j = choose|j: int| 0 <= j < slot.queue.len() && #[trigger] slot.queue[j] == queue[i];
    }
    lemma_slot_requeue(slot, queue);
    lemma_slot_released(trimmed);
    lemma_slot_promoted(trimmed.released(), now);
    let next = slot.without_user(user_id, now);
    lemma_slot_parts(slot);
    lemma_slot_parts(trimmed);
    lemma_slot_parts(next);
    // No request of the user is left.
    if next.serves(user_id) {
        let i = choose|i: int|
            0 <= i < next.requests().len() && (#[trigger] next.requests()[i]).user_id == user_id;
        if slot.current_charging matches Some(current) && current.user_id == user_id {
            let released = trimmed.released();
            if released.can_promote() {
                if i > 0 {
                    assert(next.requests()[i] == queue[i]);
                    assert(queue[i].user_id == user_id);
                } else {
                    assert(queue[0].user_id == user_id);
                }
            } else {
                assert(next.requests()[i] == queue[i]);
                assert(queue[i].user_id == user_id);
            }
        } else {
            match slot.current_charging {
                Some(current) => {
                    if i > 0 {
                        assert(next.requests()[i] == queue[i - 1]);
                        assert(queue[i - 1].user_id == user_id);
                    }
                },
                None => {
                    assert(queue[i].user_id == user_id);
                },
            }
        }
    }
    if !slot.serves(user_id) {
        if has_user(slot.queue, user_id) {
            let j = choose|j: int|
                0 <= j < slot.queue.len() && (#[trigger] slot.queue[j]).user_id == user_id;
            let k = if slot.current_charging.is_some() { j + 1 } else { j };
            assert(slot.requests()[k].user_id == user_id);
        }
        if slot.current_charging matches Some(current) && current.user_id == user_id {
            assert(slot.requests()[0].user_id == user_id);
        }
        assert(trimmed == slot);
    }
}

/// A valid slot stays valid when a queued request gets another amount that
/// is not nothing, and holds the same identifiers.
pub proof fn lemma_slot_resize(slot: PileSlot, id: u128, amount: u32, now: i64)
    requires
        slot.wf(),
        amount > 0,
    ensures
        slot.resize(id, amount, now).wf(),
        slot.resize(id, amount, now).ids() == slot.ids(),
        slot.resize(id, amount, now).pile == slot.pile,
{
    lemma_position(slot.queue, id);
    if slot.queues(id) {
        let at = position(slot.queue, id);
        let changed = resized(slot.queue[at], amount, now);
        let next = slot.resize(id, amount, now);
        lemma_accounts_kept(slot, next);
        lemma_ids_update(slot.queue, at, changed);
        lemma_slot_parts(slot);
        lemma_slot_parts(next);
        assert forall|i: int| 0 <= i < next.queue.len() implies (#[trigger] next.queue[i]).status
            == RequestStatus::Waiting && next.queue[i].amount > 0 && next.queue[i].mode
            == next.pile.mode by {
            if i != at {
                assert(next.queue[i] == slot.queue[i]);
            }
        }
    }
}

/// A valid slot stays valid when a queued request is taken from its queue;
/// it then holds the same identifiers but that one.
pub proof fn lemma_slot_unqueue(slot: PileSlot, id: u128)
    requires
        slot.wf(),
        slot.queues(id),
    ensures
        slot.unqueue(id).wf(),
        slot.unqueue(id).ids() == slot.ids().remove(id),
        slot.unqueue(id).pile == slot.pile,
        slot.ids().contains(id),
        !slot.charges(id),
        fit_for_queue(slot.queue[position(slot.queue, id)], slot.pile.mode),
        slot.queue[position(slot.queue, id)].id == id,
{
    lemma_position(slot.queue, id);
    lemma_slot_holds(slot, id);
    let at = position(slot.queue, id);
    let next = slot.unqueue(id);
    lemma_accounts_kept(slot, next);
    lemma_slot_parts(slot);
    lemma_slot_parts(next);
    lemma_ids_remove(slot.queue, at);
    assert(!slot.charges(id)) by {
        if slot.charges(id) {
            assert(slot.front()[0].id == id);
            assert(crate::scheduler::requests::holds_id(slot.front(), id));
            assert(id_set(slot.front()).contains(id));
            assert(id_set(slot.queue).contains(id));
        }
    }
    assert(!id_set(slot.front()).contains(id)) by {
        if id_set(slot.front()).contains(id) {
            assert(id_set(slot.queue).contains(id));
        }
    }
    assert(next.ids() =~= slot.ids().remove(id));
    assert forall|i: int| 0 <= i < next.queue.len() implies (#[trigger] next.queue[i]).status
        == RequestStatus::Waiting && next.queue[i].amount > 0 && next.queue[i].mode
        == next.pile.mode by {
        if i < at {
            assert(next.queue[i] == slot.queue[i]);
        } else {
            assert(next.queue[i] == slot.queue[i + 1]);
        }
    }
}

/// A valid slot stays valid when its queue is emptied, and holds no
/// identifier that it did not hold before.
pub proof fn lemma_slot_drained(slot: PileSlot)
    requires
        slot.wf(),
    ensures
        slot.drained().wf(),
        slot.drained().ids() == id_set(slot.front()),
        slot.ids() == id_set(slot.front()).union(id_set(slot.queue)),
        id_set(slot.front()).disjoint(id_set(slot.queue)),
        slot.drained().pile == slot.pile,
{
    lemma_ids_empty();
    lemma_accounts_kept(slot, slot.drained());
    lemma_slot_parts(slot);
    lemma_slot_parts(slot.drained());
    assert(slot.drained().ids() =~= id_set(slot.front()));
}

/// The requests that a valid slot sends away all wait, ask for some energy
/// in the pile's mode, and carry the identifiers of the slot, none twice.
pub proof fn lemma_slot_displaced(slot: PileSlot)
    requires
        slot.wf(),
    ensures
        id_set(slot.displaced()) == slot.ids(),
        no_repeat(slot.displaced()),
        forall|i: int|
            0 <= i < slot.displaced().len() ==> fit_for_queue(
                #[trigger] slot.displaced()[i],
                slot.pile.mode,
            ),
        slot.displaced().len() == slot.requests().len(),
{
    match slot.current_charging {
        Some(current) => {
            let back = current.with_status(RequestStatus::Waiting);
            assert(slot.displaced() =~= slot.requests().update(0, back));
            lemma_ids_update(slot.requests(), 0, back);
            assert forall|i: int| 0 <= i < slot.displaced().len() implies fit_for_queue(
                #[trigger] slot.displaced()[i],
                slot.pile.mode,
            ) by {
                if i > 0 {
                    assert(slot.displaced()[i] == slot.queue[i - 1]);
                }
            }
        },
        None => {},
    }
}

/// A valid slot stays valid when its pile comes back in service, and holds
/// the same requests.
pub proof fn lemma_slot_repaired(slot: PileSlot)
    requires
        slot.wf(),
    ensures
        slot.repaired().wf(),
        slot.repaired().ids() == slot.ids(),
        slot.repaired().queue == slot.queue,
        slot.repaired().pile.number == slot.pile.number,
        slot.repaired().pile.mode == slot.pile.mode,
{
    lemma_accounts_kept(slot, slot.repaired());
    assert(slot.repaired().requests() == slot.requests());
}

impl PileInfo {
    /// The slot of a pile that holds no request.
    pub fn new(pile: ChargingPile) -> (info: Self)
        ensures
            info@ == PileSlot::vacant(pile),
    {
        let ghost opening = pile.totals();
        PileInfo {
            pile,
            queue: VecDeque::new(),
            current_charging: None,
            charging_start_time: None,
            sessions: Ghost(Seq::empty()),
            opening: Ghost(opening),
        }
    }

    /// The power at which the pile charges, in watts.
    pub fn get_charging_power(&self) -> (power: u32)
        ensures
            power == self@.pile.mode.power(),
            power == 30_000 || power == 7_000,
    {
        self.pile.get_power()
    }

    /// The energy that the pile has still to deliver at `now` to the
    /// requests it holds, in watt-seconds.
    pub fn pending_energy(&self, now: i64) -> (energy: u128)
        ensures
            energy == self@.pending_energy(now),
            energy <= 3_600 * u32::MAX * (self.queue.len() + 1) +
                0x1_0000_0000 * 0x1_0000_0000_0000_0000,
    {
        let power = self.get_charging_power();
        let remaining: u128 = match (&self.current_charging, self.charging_start_time) {
            (Some(current), Some(start)) => {
                let asked: i128 = current.amount as i128 * 3_600;
                let elapsed: i128 = now as i128 - start as i128;
                assert(-0x1_0000_0000_0000_0000 * 30_000 <= elapsed * power
                    <= 0x1_0000_0000_0000_0000 * 30_000) by (nonlinear_arith)
                    requires
                        -0x1_0000_0000_0000_0000 <= elapsed <= 0x1_0000_0000_0000_0000,
                        0 <= power <= 30_000,
                ;
                let delivered: i128 = elapsed * power as i128;
                let left: i128 = asked - delivered;
                if left < 0 {
                    0
                } else {
                    left as u128
                }
            },
            _ => 0,
        };
        let mut queued: u128 = 0;
        let mut i: usize = 0;
        while i < self.queue.len()
            invariant
                i <= self.queue.len(),
                queued == total_amount(self.queue@.take(i as int)),
                queued <= i * u32::MAX,
            decreases self.queue.len() - i,
        {
            proof {
                assert(self.queue@.take(i + 1).drop_last() =~= self.queue@.take(i as int));
                assert((i + 1) * u32::MAX == i * u32::MAX + u32::MAX) by (nonlinear_arith);
                assert(i * u32::MAX <= 0x1_0000_0000_0000_0000 * u32::MAX) by (nonlinear_arith)
                    requires
                        i <= 0x1_0000_0000_0000_0000,
                ;
            }
            queued = queued + self.queue[i].amount as u128;
            i += 1;
        }
        proof {
            assert(self.queue@.take(i as int) =~= self.queue@);
            assert(i * u32::MAX <= 0x1_0000_0000_0000_0000 * u32::MAX) by (nonlinear_arith)
                requires
                    i <= 0x1_0000_0000_0000_0000,
            ;
            assert(3_600 * (i * u32::MAX) == 3_600 * u32::MAX * i) by (nonlinear_arith);
        }
        remaining + 3_600 * queued
    }

    /// The seconds from `now` after which `new_request` would be charged in
    /// full if it joined the queue now, rounded down.
    pub fn calculate_completion_time(&self, new_request: &ChargingRequest, now: i64) -> (seconds:
        u128)
        ensures
            seconds == self@.completion_seconds(new_request.amount, now),
    {
        let power = self.get_charging_power();
        let pending = self.pending_energy(now);
        proof {
            assert(3_600 * u32::MAX * (self.queue.len() + 1) <= 3_600 * u32::MAX
                * 0x1_0000_0000_0000_0001) by (nonlinear_arith)
                requires
                    self.queue.len() <= 0x1_0000_0000_0000_0000,
            ;
        }
        (pending + 3_600 * new_request.amount as u128) / power as u128
    }

    /// Whether the queue has room for one more request.
    pub fn has_space(&self) -> (space: bool)
        ensures
            space == self@.has_space(),
    {
        self.queue.len() < PILE_QUEUE_CAPACITY
    }

    /// Whether the pile neither charges nor has anyone queued.
    pub fn is_idle(&self) -> (idle: bool)
        ensures
            idle == self@.is_idle(),
    {
        self.current_charging.is_none() && self.queue.len() == 0
    }

    /// Whether a request of the given mode may be sent to the pile.
    pub fn accepts(&self, mode: ChargingMode) -> (yes: bool)
        ensures
            yes == self@.accepts(mode),
    {
        self.pile.mode == mode && (self.pile.status == PileStatus::Available || self.pile.status
            == PileStatus::Charging) && self.has_space()
    }

    /// Whether a request at the pile carries the identifier.
    pub fn holds(&self, id: u128) -> (yes: bool)
        ensures
            yes == self@.ids().contains(id),
    {
        proof {
            lemma_slot_holds(self@, id);
        }
        let charging = match &self.current_charging {
            Some(current) => current.id == id,
            None => false,
        };
        charging || find_request(&self.queue, id) < self.queue.len()
    }

    /// Whether the request that is charging carries the identifier.
    pub fn charges(&self, id: u128) -> (yes: bool)
        ensures
            yes == self@.charges(id),
    {
        match &self.current_charging {
            Some(current) => current.id == id,
            None => false,
        }
    }

    /// Calls the present session off, if there is one: the charging slot is
    /// emptied and the pile is available again. No record is made.
    pub fn release(&mut self)
        ensures
            final(self)@ == old(self)@.released(),
    {
        if self.current_charging.is_some() {
            self.current_charging = None;
            self.charging_start_time = None;
            self.pile.status = PileStatus::Available;
        }
    }

    /// Takes the request of the given identifier from the pile at `now` and
    /// says whether there was one. If it was charging, the session is called
    /// off and the head of the queue begins to charge.
    pub fn remove_request(&mut self, id: u128, now: i64) -> (removed: bool)
        ensures
            final(self)@ == old(self)@.without(id, now),
            removed == old(self)@.ids().contains(id),
    {
        proof {
            lemma_slot_holds(self@, id);
        }
        if self.charges(id) {
            self.release();
            let started = self.start_next_charging(now);
            true
        } else {
            let at = find_request(&self.queue, id);
            if at < self.queue.len() {
                let gone = self.queue.remove(at);
                true
            } else {
                false
            }
        }
    }

    /// Takes the requests of a user from the pile at `now` and says whether
    /// there was one. If the user's request was charging, the session is
    /// called off and the head of what is left of the queue begins to charge.
    pub fn remove_user(&mut self, user_id: u128, now: i64) -> (removed: bool)
        ensures
            final(self)@ == old(self)@.without_user(user_id, now),
            removed == old(self)@.serves(user_id),
    {
        let kept = requests_of_others(&self.queue, user_id);
        let fewer = kept.len() < self.queue.len();
        let charging = match &self.current_charging {
            Some(current) => current.user_id == user_id,
            None => false,
        };
        proof {
            let slot = self@;
            lemma_without_user(slot.queue, user_id);
            lemma_slot_parts(slot);
            if slot.serves(user_id) {
                let i = choose|i: int|
                    0 <= i < slot.requests().len() && (#[trigger] slot.requests()[i]).user_id
                        == user_id;
                if i >= slot.front().len() {
                    assert(slot.queue[i - slot.front().len()].user_id == user_id);
                }
            }
            if has_user(slot.queue, user_id) {
                let j = choose|j: int|
                    0 <= j < slot.queue.len() && (#[trigger] slot.queue[j]).user_id == user_id;
                assert(slot.requests()[j + slot.front().len()].user_id == user_id);
            }
            if charging {
                assert(slot.requests()[0].user_id == user_id);
            }
        }
        self.queue = kept;
        if charging {
            self.release();
            let started = self.start_next_charging(now);
        }
        fewer || charging
    }

    /// Gives the queued request of the given identifier another amount at
    /// `now` and says whether there was one.
    pub fn resize_request(&mut self, id: u128, amount: u32, now: i64) -> (changed: bool)
        ensures
            final(self)@ == old(self)@.resize(id, amount, now),
            changed == old(self)@.queues(id),
    {
        let at = find_request(&self.queue, id);
        match self.queue.remove(at) {
            Some(found) => {
                let mut request = found;
                request.amount = amount;
                request.updated_at = now;
                self.queue.insert(at, request);
                assert(self.queue@ =~= old(self).queue@.update(
                    at as int,
                    resized(old(self).queue@[at as int], amount, now),
                ));
                true
            },
            None => false,
        }
    }

    /// Takes the queued request of the given identifier from the queue and
    /// returns it, if there is one.
    pub fn take_queued(&mut self, id: u128) -> (taken: Option<ChargingRequest>)
        ensures
            final(self)@ == old(self)@.unqueue(id),
            match taken {
                Some(request) => old(self)@.queues(id) && request == old(self)@.queue[position(
                    old(self)@.queue,
                    id,
                )],
                None => !old(self)@.queues(id),
            },
    {
        let at = find_request(&self.queue, id);
        self.queue.remove(at)
    }

    /// Takes the pile out of order and returns the requests it held: the
    /// one that was charging, waiting again, and then the queue.
    pub fn evict(&mut self) -> (displaced: VecDeque<ChargingRequest>)
        ensures
            final(self)@ == old(self)@.faulted(),
            displaced@ == old(self)@.displaced(),
    {
        let mut displaced: VecDeque<ChargingRequest> = VecDeque::new();
        match self.current_charging.take() {
            Some(current) => {
                let mut back = current;
                back.status = RequestStatus::Waiting;
                displaced.push_back(back);
            },
            None => {},
        }
        let ghost front = displaced@;
        displaced.append(&mut self.queue);
        self.charging_start_time = None;
        self.pile.report_fault();
        proof {
            assert(displaced@ =~= old(self)@.displaced());
            assert(self.queue@ =~= Seq::<ChargingRequest>::empty());
        }
        displaced
    }

    /// Empties the queue and returns the requests that stood in it.
    pub fn drain_queue(&mut self) -> (queued: VecDeque<ChargingRequest>)
        ensures
            final(self)@ == old(self)@.drained(),
            queued@ == old(self)@.queue,
    {
        let mut queued: VecDeque<ChargingRequest> = VecDeque::new();
        queued.append(&mut self.queue);
        proof {
            assert(queued@ =~= old(self)@.queue);
            assert(self.queue@ =~= Seq::<ChargingRequest>::empty());
        }
        queued
    }

    /// Whether the present session has delivered all that was asked for by
    /// `now`.
    pub fn session_done(&self, now: i64) -> (done: bool)
        ensures
            done == self@.session_done(now),
    {
        let power = self.get_charging_power();
        match (&self.current_charging, self.charging_start_time) {
            (Some(current), Some(start)) => {
                let elapsed: i128 = now as i128 - start as i128;
                assert(-0x1_0000_0000_0000_0000 * 30_000 <= elapsed * power
                    <= 0x1_0000_0000_0000_0000 * 30_000) by (nonlinear_arith)
                    requires
                        -0x1_0000_0000_0000_0000 <= elapsed <= 0x1_0000_0000_0000_0000,
                        0 <= power <= 30_000,
                ;
                elapsed * power as i128 >= current.amount as i128 * 3_600
            },
            _ => false,
        }
    }

    /// Looks at the present session at `now`. If it has delivered all that
    /// was asked for, the request leaves as completed together with the
    /// record of the session, and the slot is settled; else nothing changes
    /// and nothing is returned. The request that is charging must ask for
    /// some energy, as every request of a valid slot does.
    pub fn check_charging_completion(&mut self, now: i64) -> (done: Option<
        (ChargingRequest, ChargingRecord),
    >)
        requires
            old(self)@.current_charging matches Some(current) ==> current.amount > 0,
        ensures
            final(self)@ == old(self)@.settled(now),
            old(self)@.session_done(now) ==> done == Some(
                (
                    old(self)@.current_charging.unwrap().with_status(RequestStatus::Completed),
                    old(self)@.session_record(now),
                ),
            ),
            !old(self)@.session_done(now) ==> done.is_none(),
    {
        if !self.session_done(now) {
            return None;
        }
        let start = self.charging_start_time.unwrap();
        let mut completed = self.current_charging.take().unwrap();
        let ghost power = self.pile.mode.power();
        let ghost asked = completed.amount;
        assert(now > start) by (nonlinear_arith)
            requires
                (now - start) * power >= asked * 3_600,
                asked > 0,
                power > 0,
        ;
        proof {
            lemma_electricity_fee_bounds(completed.amount as int, start as int, now as int);
        }
        self.charging_start_time = None;
        completed.status = RequestStatus::Completed;
        let billed = FeeCalculator::calculate_fee(
            completed.user_id,
            self.pile.number.clone(),
            completed.amount,
            start,
            now,
        );
        match billed {
            Ok(bill) => {
                let record = ChargingRecord::assemble(
                    completed.id,
                    completed.user_id,
                    bill.pile_id,
                    completed.mode,
                    completed.amount,
                    bill.charge_time,
                    bill.electricity_fee,
                    bill.service_fee,
                    start,
                    now,
                    now,
                );
                self.pile.close_session(
                    record.charging_time,
                    record.charging_amount,
                    record.charging_fee,
                    record.service_fee,
                );
                proof {
                    self.sessions@ = self.sessions@.push(Session { request: completed, record });
                }
                Some((completed, record))
            },
            Err(_) => {
                proof {
                    assert(false);
                }
                None
            },
        }
    }

    /// Lets the head of the queue begin to charge at `now` if nothing is
    /// charging, someone is queued and the pile is available, and returns a
    /// copy of the request that began; else nothing changes and nothing is
    /// returned.
    pub fn start_next_charging(&mut self, now: i64) -> (started: Option<ChargingRequest>)
        ensures
            final(self)@ == old(self)@.promoted(now),
            old(self)@.can_promote() ==> started == final(self)@.current_charging,
            !old(self)@.can_promote() ==> started.is_none(),
    {
        if self.current_charging.is_none() && self.queue.len() > 0 && self.pile.status
            == PileStatus::Available {
            match self.queue.pop_front() {
                Some(head) => {
                    let mut next = head;
                    next.status = RequestStatus::Charging;
                    let copy = next.clone();
                    self.current_charging = Some(next);
                    self.charging_start_time = Some(now);
                    let begun = self.pile.start_charging_at(now);
                    assert(self.queue@ =~= old(self).queue@.skip(1));
                    Some(copy)
                },
                None => None,
            }
        } else {
            None
        }
    }

    /// How far the present session has come at `now`, in hundredths of a
    /// percent and at most the whole; nothing where no request is charging.
    pub fn get_charging_progress(&self, now: i64) -> (progress: Option<u32>)
        ensures
            progress == self@.progress(now),
    {
        let power = self.get_charging_power();
        match (&self.current_charging, self.charging_start_time) {
            (Some(current), Some(start)) => {
                if now <= start {
                    Some(0)
                } else if self.session_done(now) {
                    Some(FULL_PROGRESS)
                } else {
                    let elapsed: u128 = (now as i128 - start as i128) as u128;
                    let asked: u128 = current.amount as u128 * 3_600;
                    assert(elapsed * power <= 0x1_0000_0000_0000_0000 * 30_000) by (nonlinear_arith)
                        requires
                            0 <= elapsed <= 0x1_0000_0000_0000_0000,
                            0 <= power <= 30_000,
                    ;
                    let delivered: u128 = elapsed * power as u128;
                    assert((10_000 * delivered) / (asked as int) < 10_000) by (nonlinear_arith)
                        requires
                            0 <= delivered < asked,
                    ;
                    Some(((10_000 * delivered) / asked) as u32)
                }
            },
            _ => None,
        }
    }
}

} // verus!
