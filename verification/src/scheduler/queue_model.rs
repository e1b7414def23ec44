//! The queue model as a mathematical value: the waiting area and the slots
//! of the piles, what makes it valid, and what each operation of the
//! scheduler makes of it.

use vstd::prelude::*;
use crate::error::SchedulerError;
use crate::models::{
    ChargingMode,
    ChargingPile,
    ChargingRecord,
    ChargingRequest,
    PileStatus,
    RequestStatus,
    WAITING_AREA_CAPACITY,
};
use crate::scheduler::pile_info::{
    fit_for_queue,
    lemma_slot_displaced,
    lemma_slot_drained,
    lemma_slot_enqueue,
    lemma_slot_faulted,
    lemma_slot_holds,
    lemma_slot_repaired,
    lemma_slot_promoted,
    lemma_slot_resize,
    lemma_slot_settled,
    lemma_slot_unqueue,
    lemma_slot_vacant,
    lemma_slot_without,
    lemma_slot_without_user,
    PileSlot,
};
use crate::scheduler::requests::{
    all_waiting,
    has_user,
    holds_id,
    id_set,
    lemma_ids_insert,
    lemma_ids_push,
    lemma_ids_remove,
    lemma_ids_update,
    lemma_position,
    has_request,
    lemma_ids_concat,
    lemma_ids_empty,
    lemma_sort_by_number,
    lemma_without_user,
    lemma_without_user_ids,
    lemma_without_user_waiting,
    no_repeat,
    ordered_by_arrival,
    position,
    resized,
    sort_by_number,
    without_user,
};
use crate::text::{lemma_precedes_irreflexive, lemma_precedes_total, lemma_precedes_transitive, precedes};

verus! {

/// The waiting area and the slots of the piles, the piles in ascending order
/// of their numbers.
pub struct QueueModel {
    /// The requests in the waiting area, first come first.
    pub waiting: Seq<ChargingRequest>,
    /// The slots of the piles.
    pub slots: Seq<PileSlot>,
}

/// The first slot that holds a request with the identifier, or the number
/// of slots if none does.
pub open spec fn holder(slots: Seq<PileSlot>, id: u128) -> int
    decreases slots.len(),
{
    if slots.len() == 0 {
        0
    } else {
        let before = holder(slots.drop_last(), id);
        if before < slots.len() - 1 {
            before
        } else if slots.last().ids().contains(id) {
            slots.len() - 1
        } else {
            slots.len() as int
        }
    }
}

/// The first slot whose pile goes by the number, or the number of slots if
/// none does.
pub open spec fn pile_index(slots: Seq<PileSlot>, number: Seq<char>) -> int
    decreases slots.len(),
{
    if slots.len() == 0 {
        0
    } else {
        let before = pile_index(slots.drop_last(), number);
        if before < slots.len() - 1 {
            before
        } else if slots.last().pile.number@ == number {
            slots.len() - 1
        } else {
            slots.len() as int
        }
    }
}

/// The requests that leave as completed when the sessions of the slots are
/// settled at `now`, in the order of the piles.
pub open spec fn completed_of(slots: Seq<PileSlot>, now: i64) -> Seq<ChargingRequest>
    decreases slots.len(),
{
    if slots.len() == 0 {
        Seq::empty()
    } else {
        let before = completed_of(slots.drop_last(), now);
        if slots.last().session_done(now) {
            before.push(
                slots.last().current_charging.unwrap().with_status(RequestStatus::Completed),
            )
        } else {
            before
        }
    }
}

/// The records of the sessions that end when the slots are settled at
/// `now`, in the order of the piles.
pub open spec fn records_of(slots: Seq<PileSlot>, now: i64) -> Seq<ChargingRecord>
    decreases slots.len(),
{
    if slots.len() == 0 {
        Seq::empty()
    } else {
        let before = records_of(slots.drop_last(), now);
        if slots.last().session_done(now) {
            before.push(slots.last().session_record(now))
        } else {
            before
        }
    }
}

impl QueueModel {
    /// Validity of the model: the requests in the waiting area wait and ask
    /// for some energy; every slot is valid; no identifier occurs twice,
    /// neither within the waiting area or a slot nor in two of them; and the
    /// piles stand in ascending order of their numbers.
    pub open spec fn wf(self) -> bool {
        &&& all_waiting(self.waiting)
        &&& no_repeat(self.waiting)
        &&& forall|p: int| 0 <= p < self.slots.len() ==> (#[trigger] self.slots[p]).wf()
        &&& forall|p: int|
            0 <= p < self.slots.len() ==> (#[trigger] self.slots[p]).ids().disjoint(
                id_set(self.waiting),
            )
        &&& forall|p: int, q: int|
            0 <= p < q < self.slots.len() ==> (#[trigger] self.slots[p]).ids().disjoint(
                (#[trigger] self.slots[q]).ids(),
            )
        &&& forall|p: int, q: int|
            0 <= p < q < self.slots.len() ==> precedes(
                (#[trigger] self.slots[p]).pile.number@,
                (#[trigger] self.slots[q]).pile.number@,
            )
    }

    /// Whether the waiting area is within its capacity.
    pub open spec fn within_capacity(self) -> bool {
        self.waiting.len() <= WAITING_AREA_CAPACITY
    }

    /// Whether a request in the waiting area carries the identifier.
    pub open spec fn waits(self, id: u128) -> bool {
        position(self.waiting, id) < self.waiting.len()
    }

    /// Whether a request at some pile carries the identifier.
    pub open spec fn placed(self, id: u128) -> bool {
        holder(self.slots, id) < self.slots.len()
    }

    /// Whether the model holds a request with the identifier.
    pub open spec fn tracks(self, id: u128) -> bool {
        self.waits(id) || self.placed(id)
    }

    /// The model with one more request at the end of the waiting area.
    pub open spec fn joined(self, request: ChargingRequest) -> QueueModel {
        QueueModel { waiting: self.waiting.push(request), ..self }
    }

    /// Why a request cannot be admitted, if it cannot: it asks for no
    /// energy, it does not wait, its identifier is already tracked, or the
    /// waiting area is full, in this order.
    pub open spec fn admission(self, request: ChargingRequest) -> Result<(), SchedulerError> {
        if request.amount == 0 {
            Err(SchedulerError::InvalidAmount)
        } else if request.status != RequestStatus::Waiting {
            Err(SchedulerError::CannotModify)
        } else if self.tracks(request.id) {
            Err(SchedulerError::DuplicateRequest)
        } else if self.waiting.len() >= WAITING_AREA_CAPACITY {
            Err(SchedulerError::WaitingAreaFull)
        } else {
            Ok(())
        }
    }

    /// The model with one more request at the end of the queue of slot `p`.
    pub open spec fn enqueue_at(self, p: int, request: ChargingRequest) -> QueueModel {
        QueueModel { slots: self.slots.update(p, self.slots[p].enqueue(request)), ..self }
    }

    /// The model after the first request of the waiting area has moved to
    /// the end of the queue of slot `p`.
    pub open spec fn assign_head(self, p: int) -> QueueModel {
        QueueModel {
            waiting: self.waiting.skip(1),
            slots: self.slots.update(p, self.slots[p].enqueue(self.waiting[0])),
        }
    }

    /// The model after the session of every slot has been settled at `now`.
    pub open spec fn settle_all(self, now: i64) -> QueueModel {
        QueueModel { slots: self.slots.map_values(|slot: PileSlot| slot.settled(now)), ..self }
    }

    /// The model after every slot that can has let the head of its queue
    /// begin to charge at `now`.
    pub open spec fn promote_all(self, now: i64) -> QueueModel {
        QueueModel { slots: self.slots.map_values(|slot: PileSlot| slot.promoted(now)), ..self }
    }

    /// The model with the slot of a new pile put in at place `k`, or, where
    /// the pile at `k` goes by the same number, put in its stead. A pile is
    /// put in the stead of an idle pile only, so that no request is lost.
    pub open spec fn with_pile_at(self, k: int, pile: ChargingPile) -> QueueModel {
        if k < self.slots.len() && self.slots[k].pile.number@ == pile.number@ {
            QueueModel { slots: self.slots.update(k, PileSlot::vacant(pile)), ..self }
        } else {
            QueueModel { slots: self.slots.insert(k, PileSlot::vacant(pile)), ..self }
        }
    }

    /// Whether the model is what `before` was after the repair of pile `p`
    /// as far as piles and sessions go: the same piles, pile `p` available,
    /// every other pile as it was, every slot charging the request it
    /// charged from the same start, the slots of the other mode as a whole
    /// as they were, the waiting area what it was behind the requests that
    /// came back to it, and the same identifiers tracked.
    pub open spec fn after_repair_of(self, before: QueueModel, p: int) -> bool {
        &&& self.slots.len() == before.slots.len()
        &&& self.slots[p].pile == (ChargingPile {
            status: PileStatus::Available,
            ..before.slots[p].pile
        })
        &&& forall|q: int|
            0 <= q < before.slots.len() ==> {
                &&& (#[trigger] self.slots[q]).current_charging == before.slots[q].current_charging
                &&& self.slots[q].charging_start_time == before.slots[q].charging_start_time
                &&& self.slots[q].sessions == before.slots[q].sessions
                &&& q != p ==> self.slots[q].pile == before.slots[q].pile
                &&& before.slots[q].pile.mode != before.slots[p].pile.mode ==> self.slots[q]
                    == before.slots[q]
            }
        &&& self.waiting.len() >= before.waiting.len()
        &&& self.waiting.skip(self.waiting.len() - before.waiting.len()) == before.waiting
        &&& forall|id: u128| #[trigger] self.tracks(id) <==> before.tracks(id)
    }

    /// Whether a pile that holds a request goes by the number.
    pub open spec fn number_in_use(self, number: Seq<char>) -> bool {
        exists|q: int|
            0 <= q < self.slots.len() && (#[trigger] self.slots[q]).pile.number@ == number
                && !self.slots[q].is_idle()
    }

    /// Why a pile cannot join the station, if it cannot: it is charging, or
    /// a pile that holds requests goes by its number.
    pub open spec fn adding(self, pile: ChargingPile) -> Result<(), SchedulerError> {
        if pile.status == PileStatus::Charging || self.number_in_use(pile.number@) {
            Err(SchedulerError::PileUnavailable)
        } else {
            Ok(())
        }
    }

    /// `k` is the place of a pile number among the piles: the numbers of
    /// all piles before `k` precede it, and that of the pile at `k` does not.
    pub open spec fn is_rank(self, number: Seq<char>, k: int) -> bool {
        &&& 0 <= k <= self.slots.len()
        &&& forall|j: int| 0 <= j < k ==> precedes((#[trigger] self.slots[j]).pile.number@, number)
        &&& k < self.slots.len() ==> !precedes(self.slots[k].pile.number@, number)
    }
}

/// `holder` finds the first slot that holds the identifier if there is one.
pub proof fn lemma_holder(slots: Seq<PileSlot>, id: u128)
    ensures
        0 <= holder(slots, id) <= slots.len(),
        holder(slots, id) < slots.len() ==> slots[holder(slots, id)].ids().contains(id),
        forall|j: int| 0 <= j < holder(slots, id) ==> !(#[trigger] slots[j]).ids().contains(id),
    decreases slots.len(),
{
    if slots.len() > 0 {
        let t = slots.drop_last();
        lemma_holder(t, id);
        assert forall|j: int| 0 <=
            j < holder(slots, id) implies !(#[trigger] slots[j]).ids().contains(
            id,
        ) by {
            if j < t.len() {
                assert(t[j] == slots[j]);
            }
        }
    }
}

/// `pile_index` finds the first pile that goes by the number if there is
/// one.
pub proof fn lemma_pile_index(slots: Seq<PileSlot>, number: Seq<char>)
    ensures
        0 <= pile_index(slots, number) <= slots.len(),
        pile_index(slots, number) < slots.len() ==> slots[pile_index(slots, number)].pile.number@
            == number,
        forall|j: int|
            0 <= j < pile_index(slots, number) ==> (#[trigger] slots[j]).pile.number@ != number,
    decreases slots.len(),
{
    if slots.len() > 0 {
        let t = slots.drop_last();
        lemma_pile_index(t, number);
        assert forall|j: int| 0 <= j < pile_index(slots, number) implies (
        #[trigger] slots[j]).pile.number@ != number by {
            if j < t.len() {
                assert(t[j] == slots[j]);
            }
        }
    }
}

/// In a valid model a request stands in one place only: an identifier that
/// waits is at no pile, an identifier at a pile is at no other pile, and
/// within the waiting area or a slot it occurs once.
pub proof fn lemma_one_place(model: QueueModel, id: u128)
    requires
        model.wf(),
    ensures
        !(model.waits(id) && model.placed(id)),
        forall|p: int, q: int|
            0 <= p < model.slots.len() && 0 <= q < model.slots.len() && (
            #[trigger] model.slots[p]).ids().contains(id) &&
                (#[trigger] model.slots[q]).ids().contains(
                id,
            ) ==> p == q,
        forall|i: int, j: int|
            0 <= i < model.waiting.len() && 0 <= j < model.waiting.len() && (
            #[trigger] model.waiting[i]).id == id && (#[trigger] model.waiting[j]).id == id ==> i
                == j,
        forall|p: int, i: int, j: int|
            0 <= p < model.slots.len() && 0 <= i < model.slots[p].requests().len() && 0 <= j
                < model.slots[p].requests().len() && (#[trigger] model.slots[p].requests()[i]).id
                == id && (#[trigger] model.slots[p].requests()[j]).id == id ==> i == j,
{
    lemma_position(model.waiting, id);
    lemma_holder(model.slots, id);
    assert forall|p: int, q: int|
        0 <= p < model.slots.len() && 0 <= q < model.slots.len() && (
        #[trigger] model.slots[p]).ids().contains(id) && (#[trigger] model.slots[q]).ids().contains(
            id,
        ) implies p == q by {
        if p < q {
            assert(model.slots[p].ids().disjoint(model.slots[q].ids()));
        } else if q < p {
            assert(model.slots[q].ids().disjoint(model.slots[p].ids()));
        }
    }
    assert forall|i: int, j: int|
        0 <= i < model.waiting.len() && 0 <= j < model.waiting.len() && (
        #[trigger] model.waiting[i]).id == id && (#[trigger] model.waiting[j]).id == id implies i
        == j by {
        if i < j {
            assert(model.waiting[i].id != model.waiting[j].id);
        } else if j < i {
            assert(model.waiting[j].id != model.waiting[i].id);
        }
    }
    assert forall|p: int, i: int, j: int|
        0 <= p < model.slots.len() && 0 <= i < model.slots[p].requests().len() && 0 <= j
            < model.slots[p].requests().len() && (#[trigger] model.slots[p].requests()[i]).id == id
            && (#[trigger] model.slots[p].requests()[j]).id == id implies i == j by {
        assert(model.slots[p].wf());
        let r = model.slots[p].requests();
        if i < j {
            assert(r[i].id != r[j].id);
        } else if j < i {
            assert(r[j].id != r[i].id);
        }
    }
    if model.waits(id) && model.placed(id) {
        let p = holder(model.slots, id);
        assert(model.slots[p].ids().disjoint(id_set(model.waiting)));
    }
}

/// A valid model tracks an identifier exactly if the waiting area or some
/// slot holds it.
pub proof fn lemma_tracks(model: QueueModel, id: u128)
    ensures
        model.waits(id) <==> id_set(model.waiting).contains(id),
        model.placed(id) <==> exists|p: int|
            0 <= p < model.slots.len() && (#[trigger] model.slots[p]).ids().contains(id),
{
    lemma_position(model.waiting, id);
    lemma_holder(model.slots, id);
    if model.placed(id) {
        assert(model.slots[holder(model.slots, id)].ids().contains(id));
    }
}

/// A valid model stays valid when a request that can be admitted joins the
/// waiting area, and the waiting area stays within its capacity.
pub proof fn lemma_joined(model: QueueModel, request: ChargingRequest)
    requires
        model.wf(),
        model.admission(request).is_ok(),
    ensures
        model.joined(request).wf(),
        model.within_capacity() ==> model.joined(request).within_capacity(),
        model.joined(request).tracks(request.id),
{
    let next = model.joined(request);
    lemma_tracks(model, request.id);
    lemma_ids_push(model.waiting, request);
    assert forall|i: int| 0 <= i < next.waiting.len() implies (#[trigger] next.waiting[i]).status
        == RequestStatus::Waiting && next.waiting[i].amount > 0 by {
        if i < model.waiting.len() {
            assert(next.waiting[i] == model.waiting[i]);
        }
    }
    assert forall|p: int| 0 <=
        p < next.slots.len() implies (#[trigger] next.slots[p]).ids().disjoint(
        id_set(next.waiting),
    ) by {
        assert(model.slots[p].ids().disjoint(id_set(model.waiting)));
    }
    lemma_tracks(next, request.id);
}

/// A valid model stays valid when a fitting request with an untracked
/// identifier joins the queue of a slot that has room.
pub proof fn lemma_enqueue_at(model: QueueModel, p: int, request: ChargingRequest)
    requires
        model.wf(),
        0 <= p < model.slots.len(),
        model.slots[p].has_space(),
        fit_for_queue(request, model.slots[p].pile.mode),
        !model.tracks(request.id),
    ensures
        model.enqueue_at(p, request).wf(),
        model.enqueue_at(p, request).slots[p].ids() == model.slots[p].ids().insert(request.id),
{
    let next = model.enqueue_at(p, request);
    lemma_tracks(model, request.id);
    assert(model.slots[p].wf());
    lemma_slot_enqueue(model.slots[p], request);
    assert forall|q: int| 0 <= q < next.slots.len() implies (#[trigger] next.slots[q]).wf() by {
        if q != p {
            assert(model.slots[q].wf());
        }
    }
    assert forall|q: int| 0 <=
        q < next.slots.len() implies (#[trigger] next.slots[q]).ids().disjoint(
        id_set(next.waiting),
    ) by {
        assert(model.slots[q].ids().disjoint(id_set(model.waiting)));
    }
    assert forall|a: int, b: int| 0 <= a < b < next.slots.len() implies (
    #[trigger] next.slots[a]).ids().disjoint((#[trigger] next.slots[b]).ids()) by {
        assert(model.slots[a].ids().disjoint(model.slots[b].ids()));
        assert(!model.slots[a].ids().contains(request.id));
        assert(!model.slots[b].ids().contains(request.id));
    }
    assert forall|a: int, b: int| 0 <= a < b < next.slots.len() implies precedes(
        (#[trigger] next.slots[a]).pile.number@,
        (#[trigger] next.slots[b]).pile.number@,
    ) by {
        assert(precedes(model.slots[a].pile.number@, model.slots[b].pile.number@));
    }
}

/// A valid model stays valid when the first request of the waiting area
/// moves to a slot that accepts it; it tracks the same identifiers as
/// before, and its waiting area is one shorter.
pub proof fn lemma_assign_head(model: QueueModel, p: int)
    requires
        model.wf(),
        model.waiting.len() > 0,
        0 <= p < model.slots.len(),
        model.slots[p].accepts(model.waiting[0].mode),
    ensures
        model.assign_head(p).wf(),
        model.assign_head(p).waiting.len() == model.waiting.len() - 1,
{
    let head = model.waiting[0];
    let rest = QueueModel { waiting: model.waiting.skip(1), ..model };
    assert(model.waiting.skip(1) =~= model.waiting.remove(0));
    lemma_ids_remove(model.waiting, 0);
    assert(id_set(model.waiting).contains(head.id)) by {
        assert(model.waiting[0].id == head.id);
        assert(crate::scheduler::requests::holds_id(model.waiting, head.id));
    }
    assert(rest.wf()) by {
        assert forall|i: int| 0 <= i < rest.waiting.len() implies (
        #[trigger] rest.waiting[i]).status == RequestStatus::Waiting && rest.waiting[i].amount
            > 0 by {
            assert(rest.waiting[i] == model.waiting[i + 1]);
        }
        assert forall|q: int| 0 <= q < rest.slots.len() implies (
        #[trigger] rest.slots[q]).ids().disjoint(id_set(rest.waiting)) by {
            assert(model.slots[q].ids().disjoint(id_set(model.waiting)));
        }
    }
    lemma_tracks(rest, head.id);
    assert(!rest.tracks(head.id)) by {
        if rest.placed(head.id) {
            let q = holder(rest.slots, head.id);
            lemma_holder(rest.slots, head.id);
            assert(model.slots[q].ids().disjoint(id_set(model.waiting)));
        }
    }
    lemma_enqueue_at(rest, p, head);
    assert(rest.enqueue_at(p, head) == model.assign_head(p));
}

/// A valid model stays valid when the sessions of all slots are settled;
/// the waiting area is untouched.
pub proof fn lemma_settle_all(model: QueueModel, now: i64)
    requires
        model.wf(),
    ensures
        model.settle_all(now).wf(),
        model.settle_all(now).waiting == model.waiting,
        model.settle_all(now).slots.len() == model.slots.len(),
{
    let next = model.settle_all(now);
    assert forall|p: int| 0 <= p < next.slots.len() implies (#[trigger] next.slots[p]).wf() && (
    next.slots[p]).ids().subset_of(model.slots[p].ids()) && next.slots[p].pile.number
        == model.slots[p].pile.number by {
        assert(model.slots[p].wf());
        lemma_slot_settled(model.slots[p], now);
    }
    assert forall|p: int| 0 <=
        p < next.slots.len() implies (#[trigger] next.slots[p]).ids().disjoint(
        id_set(next.waiting),
    ) by {
        assert(model.slots[p].ids().disjoint(id_set(model.waiting)));
    }
    assert forall|a: int, b: int| 0 <= a < b < next.slots.len() implies (
    #[trigger] next.slots[a]).ids().disjoint((#[trigger] next.slots[b]).ids()) by {
        assert(model.slots[a].ids().disjoint(model.slots[b].ids()));
    }
    assert forall|a: int, b: int| 0 <= a < b < next.slots.len() implies precedes(
        (#[trigger] next.slots[a]).pile.number@,
        (#[trigger] next.slots[b]).pile.number@,
    ) by {
        assert(precedes(model.slots[a].pile.number@, model.slots[b].pile.number@));
    }
}

/// A valid model stays valid when the slots that can let the next request
/// begin to charge; the waiting area is untouched.
pub proof fn lemma_promote_all(model: QueueModel, now: i64)
    requires
        model.wf(),
    ensures
        model.promote_all(now).wf(),
        model.promote_all(now).waiting == model.waiting,
        model.promote_all(now).slots.len() == model.slots.len(),
        forall|id: u128| #[trigger] model.promote_all(now).tracks(id) <==> model.tracks(id),
{
    let next = model.promote_all(now);
    assert forall|p: int| 0 <= p < next.slots.len() implies (#[trigger] next.slots[p]).wf() && (
    next.slots[p]).ids() == model.slots[p].ids() && next.slots[p].pile.number
        == model.slots[p].pile.number by {
        assert(model.slots[p].wf());
        lemma_slot_promoted(model.slots[p], now);
    }
    assert forall|p: int| 0 <=
        p < next.slots.len() implies (#[trigger] next.slots[p]).ids().disjoint(
        id_set(next.waiting),
    ) by {
        assert(model.slots[p].ids().disjoint(id_set(model.waiting)));
    }
    assert forall|a: int, b: int| 0 <= a < b < next.slots.len() implies (
    #[trigger] next.slots[a]).ids().disjoint((#[trigger] next.slots[b]).ids()) by {
        assert(model.slots[a].ids().disjoint(model.slots[b].ids()));
    }
    assert forall|a: int, b: int| 0 <= a < b < next.slots.len() implies precedes(
        (#[trigger] next.slots[a]).pile.number@,
        (#[trigger] next.slots[b]).pile.number@,
    ) by {
        assert(precedes(model.slots[a].pile.number@, model.slots[b].pile.number@));
    }
    assert forall|id: u128| #[trigger] next.tracks(id) <==> model.tracks(id) by {
        lemma_tracks(model, id);
        lemma_tracks(next, id);
        if model.placed(id) {
            let q = choose|q: int|
                0 <= q < model.slots.len() && (#[trigger] model.slots[q]).ids().contains(id);
            assert(next.slots[q].ids().contains(id));
        }
        if next.placed(id) {
            let q = choose|q: int|
                0 <= q < next.slots.len() && (#[trigger] next.slots[q]).ids().contains(id);
            assert(model.slots[q].ids().contains(id));
        }
    }
}

/// A valid model stays valid when the slot of a pile that is not charging
/// is put in at the place of its number.
pub proof fn lemma_with_pile(model: QueueModel, k: int, pile: ChargingPile)
    requires
        model.wf(),
        model.is_rank(pile.number@, k),
        pile.status != PileStatus::Charging,
    ensures
        model.with_pile_at(k, pile).wf(),
        model.with_pile_at(k, pile).waiting == model.waiting,
{
    let next = model.with_pile_at(k, pile);
    let slot = PileSlot::vacant(pile);
    lemma_slot_vacant(pile);
    let replaced = k < model.slots.len() && model.slots[k].pile.number@ == pile.number@;
    // Where each slot of the new model comes from.
    let origin = |q: int| if replaced || q < k { q } else { q - 1 };
    assert forall|q: int| 0 <= q < next.slots.len() && q != k implies next.slots[q]
        == model.slots[origin(q)] by {}
    assert forall|q: int| 0 <= q < next.slots.len() implies (#[trigger] next.slots[q]).wf() by {
        if q != k {
            assert(model.slots[origin(q)].wf());
        }
    }
    assert forall|q: int| 0 <=
        q < next.slots.len() implies (#[trigger] next.slots[q]).ids().disjoint(
        id_set(next.waiting),
    ) by {
        if q != k {
            assert(model.slots[origin(q)].ids().disjoint(id_set(model.waiting)));
        }
    }
    assert forall|a: int, b: int| 0 <= a < b < next.slots.len() implies (
    #[trigger] next.slots[a]).ids().disjoint((#[trigger] next.slots[b]).ids()) by {
        if a != k && b != k {
            assert(model.slots[origin(a)].ids().disjoint(model.slots[origin(b)].ids()));
        }
    }
    assert forall|a: int, b: int| 0 <= a < b < next.slots.len() implies precedes(
        (#[trigger] next.slots[a]).pile.number@,
        (#[trigger] next.slots[b]).pile.number@,
    ) by {
        if a != k && b != k {
            assert(precedes(
                model.slots[origin(a)].pile.number@,
                model.slots[origin(b)].pile.number@,
            ));
        } else if b == k {
            assert(precedes(model.slots[a].pile.number@, pile.number@));
        } else {
            // a == k: the pile at `k` of the old model does not precede the new
            // number, so the new number precedes it or is equal to it.
            let ob = origin(b);
            if replaced {
                assert(precedes(model.slots[k].pile.number@, model.slots[ob].pile.number@));
            } else {
                lemma_precedes_total(model.slots[k].pile.number@, pile.number@);
                if ob > k {
                    assert(precedes(model.slots[k].pile.number@, model.slots[ob].pile.number@));
                    lemma_precedes_transitive(
                        pile.number@,
                        model.slots[k].pile.number@,
                        model.slots[ob].pile.number@,
                    );
                }
            }
        }
    }
}

impl QueueModel {
    /// Slot `p` is where a request of the mode goes at `now`: it accepts the
    /// mode, no accepting slot has less energy still to deliver, and every
    /// accepting slot of a pile with a lower number has more.
    pub open spec fn is_best(self, mode: ChargingMode, now: i64, p: int) -> bool {
        &&& 0 <= p < self.slots.len()
        &&& self.slots[p].accepts(mode)
        &&& forall|q: int|
            0 <= q < self.slots.len() && (#[trigger] self.slots[q]).accepts(mode) ==> {
                &&& self.slots[q].pending_energy(now) >= self.slots[p].pending_energy(now)
                &&& q < p ==> self.slots[q].pending_energy(now) > self.slots[p].pending_energy(now)
            }
    }

    /// The slot to which a request of the mode goes at `now`, if any slot
    /// accepts the mode.
    pub open spec fn best_pile(self, mode: ChargingMode, now: i64) -> Option<int> {
        if exists|p: int| self.is_best(mode, now, p) {
            Some(choose|p: int| self.is_best(mode, now, p))
        } else {
            None
        }
    }

    /// The model after the requests of the waiting area have been sent to
    /// piles at `now`, one after the other from the first on, each to the
    /// best slot for its mode, until the waiting area is empty or no slot
    /// accepts the first request.
    pub open spec fn dispatch(self, now: i64) -> QueueModel
        decreases self.waiting.len(),
    {
        if self.waiting.len() == 0 {
            self
        } else {
            match self.best_pile(self.waiting[0].mode, now) {
                Some(p) => self.assign_head(p).dispatch(now),
                None => self,
            }
        }
    }

    /// The model after the sessions have been settled and the idle piles
    /// have let their next request begin to charge at `now`.
    pub open spec fn advance(self, now: i64) -> QueueModel {
        self.settle_all(now).promote_all(now)
    }

    /// The model after one tick at `now`: sessions settled, next requests
    /// begun, and, where dispatch is enabled, waiting requests sent to piles.
    pub open spec fn tick(self, now: i64, calling: bool) -> QueueModel {
        if calling {
            self.advance(now).dispatch(now)
        } else {
            self.advance(now)
        }
    }
}

/// There is one best slot at most.
pub proof fn lemma_best_unique(model: QueueModel, mode: ChargingMode, now: i64, p: int)
    requires
        model.is_best(mode, now, p),
    ensures
        model.best_pile(mode, now) == Some(p),
{
    let q = choose|q: int| model.is_best(mode, now, q);
    assert(model.is_best(mode, now, q));
    assert(model.slots[p].accepts(mode));
    assert(model.slots[q].accepts(mode));
}

/// Where no slot accepts the mode there is no best slot, and where one does
/// there is one.
pub proof fn lemma_best_none(model: QueueModel, mode: ChargingMode, now: i64)
    requires
        forall|q: int| 0 <= q < model.slots.len() ==> !(#[trigger] model.slots[q]).accepts(mode),
    ensures
        model.best_pile(mode, now).is_none(),
{
}

/// The best slot accepts the mode, and no accepting slot would finish a
/// request of any size sooner.
pub proof fn lemma_best_is_soonest(
    model: QueueModel,
    mode: ChargingMode,
    now: i64,
    amount: u32,
    q: int,
)
    requires
        model.best_pile(mode, now).is_some(),
        0 <= q < model.slots.len(),
        model.slots[q].accepts(mode),
    ensures
        0 <= model.best_pile(mode, now).unwrap() < model.slots.len(),
        model.slots[model.best_pile(mode, now).unwrap()].accepts(mode),
        model.slots[model.best_pile(mode, now).unwrap()].completion_seconds(amount, now)
            <= model.slots[q].completion_seconds(amount, now),
        model.slots[model.best_pile(mode, now).unwrap()].completion_seconds(amount, now)
            == model.slots[q].completion_seconds(amount, now) && q
            < model.best_pile(mode, now).unwrap() ==> model.slots[q].pending_energy(now)
            > model.slots[model.best_pile(mode, now).unwrap()].pending_energy(now),
{
    let p = model.best_pile(mode, now).unwrap();
    assert(model.is_best(mode, now, p));
    let a = model.slots[p].pending_energy(now) + 3_600 * amount;
    let b = model.slots[q].pending_energy(now) + 3_600 * amount;
    let w = mode.power() as int;
    assert(a / w <= b / w) by (nonlinear_arith)
        requires
            a <= b,
            w > 0,
    ;
}

/// A valid model stays valid when its waiting requests are sent to piles.
/// The requests that leave the waiting area are its first ones: what stays
/// is what stood behind them, in the same order. No pile is added or taken
/// away, and the waiting area does not grow.
pub proof fn lemma_dispatch(model: QueueModel, now: i64)
    requires
        model.wf(),
    ensures
        model.dispatch(now).wf(),
        model.dispatch(now).slots.len() == model.slots.len(),
        model.dispatch(now).waiting.len() <= model.waiting.len(),
        model.dispatch(now).waiting == model.waiting.skip(
            model.waiting.len() - model.dispatch(now).waiting.len(),
        ),
    decreases model.waiting.len(),
{
    if model.waiting.len() > 0 {
        match model.best_pile(model.waiting[0].mode, now) {
            Some(p) => {
                assert(model.is_best(model.waiting[0].mode, now, p));
                lemma_assign_head(model, p);
                let next = model.assign_head(p);
                lemma_dispatch(next, now);
                let left = next.dispatch(now).waiting;
                let gone = next.waiting.len() - left.len();
                assert(model.waiting.skip(1).skip(gone) =~= model.waiting.skip(gone + 1));
            },
            None => {
                assert(model.waiting.skip(0) =~= model.waiting);
            },
        }
    } else {
        assert(model.waiting.skip(0) =~= model.waiting);
    }
}

/// After a dispatch the waiting area is empty or no slot accepts its first
/// request: dispatching again changes nothing.
pub proof fn lemma_dispatch_settles(model: QueueModel, now: i64)
    ensures
        model.dispatch(now).dispatch(now) == model.dispatch(now),
        model.dispatch(now).waiting.len() > 0 ==> model.dispatch(now).best_pile(
            model.dispatch(now).waiting[0].mode,
            now,
        ).is_none(),
    decreases model.waiting.len(),
{
    if model.waiting.len() > 0 {
        match model.best_pile(model.waiting[0].mode, now) {
            Some(p) => {
                lemma_dispatch_settles(model.assign_head(p), now);
            },
            None => {},
        }
    }
}

/// A valid model stays valid through a tick, whether dispatch is enabled or
/// not, and its waiting area does not grow.
pub proof fn lemma_tick(model: QueueModel, now: i64, calling: bool)
    requires
        model.wf(),
    ensures
        model.tick(now, calling).wf(),
        model.tick(now, calling).slots.len() == model.slots.len(),
        model.tick(now, calling).waiting.len() <= model.waiting.len(),
        model.within_capacity() ==> model.tick(now, calling).within_capacity(),
{
    lemma_settle_all(model, now);
    lemma_promote_all(model.settle_all(now), now);
    lemma_dispatch(model.advance(now), now);
}

/// The sessions that end at a tick give one record each: the records and
/// the completed requests stand side by side, each record carries the
/// identifier, the user and the amount of its request, and its total is the
/// sum of its two fees.
pub proof fn lemma_one_record_each(slots: Seq<PileSlot>, now: i64)
    requires
        forall|p: int| 0 <= p < slots.len() ==> (#[trigger] slots[p]).wf(),
    ensures
        records_of(slots, now).len() == completed_of(slots, now).len(),
        records_of(slots, now).len() <= slots.len(),
        forall|k: int|
            0 <= k < records_of(slots, now).len() ==> {
                &&& (#[trigger] records_of(slots, now)[k]).id == completed_of(slots, now)[k].id
                &&& records_of(slots, now)[k].user_id == completed_of(slots, now)[k].user_id
                &&& records_of(slots, now)[k].charging_amount == completed_of(slots, now)[k].amount
                &&& records_of(slots, now)[k].total_fee == records_of(slots, now)[k].charging_fee
                    + records_of(slots, now)[k].service_fee
                &&& completed_of(slots, now)[k].status == RequestStatus::Completed
            },
    decreases slots.len(),
{
    if slots.len() > 0 {
        let t = slots.drop_last();
        assert forall|p: int| 0 <= p < t.len() implies (#[trigger] t[p]).wf() by {
            assert(t[p] == slots[p]);
        }
        lemma_one_record_each(t, now);
        let last = slots.last();
        if last.session_done(now) {
            assert(last.wf());
            let current = last.current_charging.unwrap();
            let start = last.charging_start_time.unwrap();
            let power = last.pile.mode.power();
            assert(now > start) by (nonlinear_arith)
                requires
                    (now - start) * power >= current.amount * 3_600,
                    current.amount > 0,
                    power > 0,
            ;
            crate::billing::fee_calculator::lemma_electricity_fee_bounds(
                current.amount as int,
                start as int,
                now as int,
            );
        }
    }
}

impl QueueModel {
    /// The model without the request of the given identifier, at `now`: a
    /// waiting request leaves the waiting area; a request at a pile leaves
    /// its slot, and if it was charging, the session is called off without
    /// a record and the head of the pile's queue begins to charge. A model
    /// that does not track the identifier is left as it is.
    pub open spec fn cancel(self, id: u128, now: i64) -> QueueModel {
        if self.waits(id) {
            QueueModel { waiting: self.waiting.remove(position(self.waiting, id)), ..self }
        } else if self.placed(id) {
            let p = holder(self.slots, id);
            QueueModel { slots: self.slots.update(p, self.slots[p].without(id, now)), ..self }
        } else {
            self
        }
    }

    /// Whether the model holds a request of the user.
    pub open spec fn serves(self, user_id: u128) -> bool {
        has_user(self.waiting, user_id) || exists|p: int|
            0 <= p < self.slots.len() && (#[trigger] self.slots[p]).serves(user_id)
    }

    /// The model without the requests of a user, at `now`, each of them
    /// cancelled as `cancel` does.
    pub open spec fn cancel_user(self, user_id: u128, now: i64) -> QueueModel {
        QueueModel {
            waiting: without_user(self.waiting, user_id),
            slots: self.slots.map_values(|slot: PileSlot| slot.without_user(user_id, now)),
        }
    }

    /// Whether the request of the given identifier is charging.
    pub open spec fn charging(self, id: u128) -> bool {
        self.placed(id) && self.slots[holder(self.slots, id)].charges(id)
    }

    /// Why the amount of a request cannot be changed, if it cannot: the new
    /// amount is nothing, the request is not tracked, or it is charging, in
    /// this order.
    pub open spec fn resizing(self, id: u128, amount: u32) -> Result<(), SchedulerError> {
        if amount == 0 {
            Err(SchedulerError::InvalidAmount)
        } else if self.waits(id) {
            Ok(())
        } else if !self.placed(id) {
            Err(SchedulerError::NotFound)
        } else if self.charging(id) {
            Err(SchedulerError::CannotModify)
        } else {
            Ok(())
        }
    }

    /// The model with another amount for the request of the given
    /// identifier, changed at `now`, where the request waits or is queued.
    pub open spec fn resize(self, id: u128, amount: u32, now: i64) -> QueueModel {
        if self.waits(id) {
            let at = position(self.waiting, id);
            QueueModel {
                waiting: self.waiting.update(at, resized(self.waiting[at], amount, now)),
                ..self
            }
        } else if self.placed(id) {
            let p = holder(self.slots, id);
            QueueModel { slots: self.slots.update(p, self.slots[p].resize(id, amount, now)), ..self }
        } else {
            self
        }
    }

    /// Why the mode of a request cannot be changed, if it cannot: the
    /// request is not tracked, it is charging, or it is queued at a pile and
    /// the waiting area has no room to take it back, in this order.
    pub open spec fn requeueing(self, id: u128) -> Result<(), SchedulerError> {
        if self.waits(id) {
            Ok(())
        } else if !self.placed(id) {
            Err(SchedulerError::NotFound)
        } else if self.charging(id) {
            Err(SchedulerError::CannotModify)
        } else if self.waiting.len() >= WAITING_AREA_CAPACITY {
            Err(SchedulerError::WaitingAreaFull)
        } else {
            Ok(())
        }
    }

    /// The request of the given identifier, where it waits or is queued.
    pub open spec fn pending(self, id: u128) -> ChargingRequest {
        if self.waits(id) {
            self.waiting[position(self.waiting, id)]
        } else {
            let slot = self.slots[holder(self.slots, id)];
            slot.queue[position(slot.queue, id)]
        }
    }

    /// The model after the request of the given identifier has left its
    /// place and joined the end of the waiting area with another mode and
    /// another queue number, changed at `now`.
    pub open spec fn requeue(
        self,
        id: u128,
        mode: ChargingMode,
        queue_number: String,
        now: i64,
    ) -> QueueModel {
        let changed = self.pending(id).with_mode(mode, queue_number, now);
        if self.waits(id) {
            QueueModel {
                waiting: self.waiting.remove(position(self.waiting, id)).push(changed),
                ..self
            }
        } else {
            let p = holder(self.slots, id);
            QueueModel {
                waiting: self.waiting.push(changed),
                slots: self.slots.update(p, self.slots[p].unqueue(id)),
            }
        }
    }
}

/// A valid model stays valid when its waiting area and its slots are
/// replaced by valid ones that hold no identifier that their old selves did
/// not hold, the piles being the same.
pub proof fn lemma_shrink(model: QueueModel, next: QueueModel)
    requires
        model.wf(),
        next.slots.len() == model.slots.len(),
        all_waiting(next.waiting),
        no_repeat(next.waiting),
        id_set(next.waiting).subset_of(id_set(model.waiting)),
        forall|p: int|
            0 <= p < next.slots.len() ==> {
                &&& (#[trigger] next.slots[p]).wf()
                &&& next.slots[p].ids().subset_of(model.slots[p].ids())
                &&& next.slots[p].pile.number == model.slots[p].pile.number
            },
    ensures
        next.wf(),
        forall|id: u128| next.tracks(id) ==> model.tracks(id),
{
    assert forall|p: int| 0 <=
        p < next.slots.len() implies (#[trigger] next.slots[p]).ids().disjoint(
        id_set(next.waiting),
    ) by {
        assert(model.slots[p].ids().disjoint(id_set(model.waiting)));
    }
    assert forall|a: int, b: int| 0 <= a < b < next.slots.len() implies (
    #[trigger] next.slots[a]).ids().disjoint((#[trigger] next.slots[b]).ids()) by {
        assert(model.slots[a].ids().disjoint(model.slots[b].ids()));
    }
    assert forall|a: int, b: int| 0 <= a < b < next.slots.len() implies precedes(
        (#[trigger] next.slots[a]).pile.number@,
        (#[trigger] next.slots[b]).pile.number@,
    ) by {
        assert(precedes(model.slots[a].pile.number@, model.slots[b].pile.number@));
    }
    assert forall|id: u128| next.tracks(id) implies model.tracks(id) by {
        lemma_tracks(next, id);
        lemma_tracks(model, id);
        if next.placed(id) {
            let p = holder(next.slots, id);
            lemma_holder(next.slots, id);
            assert(model.slots[p].ids().contains(id));
        }
    }
}

/// A valid model stays valid when a waiting request with an untracked
/// identifier that asks for some energy is put into the waiting area at any
/// place.
pub proof fn lemma_wait_at(model: QueueModel, at: int, request: ChargingRequest)
    requires
        model.wf(),
        0 <= at <= model.waiting.len(),
        request.status == RequestStatus::Waiting,
        request.amount > 0,
        !model.tracks(request.id),
    ensures
        (QueueModel { waiting: model.waiting.insert(at, request), ..model }).wf(),
        id_set(model.waiting.insert(at, request)) == id_set(model.waiting).insert(request.id),
{
    let next = QueueModel { waiting: model.waiting.insert(at, request), ..model };
    lemma_tracks(model, request.id);
    lemma_ids_insert(model.waiting, at, request);
    assert forall|i: int| 0 <= i < next.waiting.len() implies (#[trigger] next.waiting[i]).status
        == RequestStatus::Waiting && next.waiting[i].amount > 0 by {
        if i < at {
            assert(next.waiting[i] == model.waiting[i]);
        } else if i > at {
            assert(next.waiting[i] == model.waiting[i - 1]);
        }
    }
    assert forall|p: int| 0 <=
        p < next.slots.len() implies (#[trigger] next.slots[p]).ids().disjoint(
        id_set(next.waiting),
    ) by {
        assert(model.slots[p].ids().disjoint(id_set(model.waiting)));
    }
}

/// A valid model stays valid when a request is cancelled and does not track
/// the request's identifier any more; every other identifier is tracked as
/// before, and the waiting area does not grow. Cancelling an identifier
/// that is not tracked changes nothing: a request that was completed or
/// cancelled cannot be cancelled again.
pub proof fn lemma_cancel(model: QueueModel, id: u128, now: i64)
    requires
        model.wf(),
    ensures
        model.cancel(id, now).wf(),
        !model.cancel(id, now).tracks(id),
        !model.tracks(id) ==> model.cancel(id, now) == model,
        forall|other: u128| model.cancel(id, now).tracks(other) ==> model.tracks(other),
        model.cancel(id, now).waiting.len() <= model.waiting.len(),
        model.cancel(id, now).slots.len() == model.slots.len(),
        model.cancel(id, now).cancel(id, now) == model.cancel(id, now),
{
    let next = model.cancel(id, now);
    lemma_position(model.waiting, id);
    lemma_holder(model.slots, id);
    lemma_one_place(model, id);
    if model.waits(id) {
        let at = position(model.waiting, id);
        lemma_ids_remove(model.waiting, at);
        assert forall|i: int| 0 <= i < next.waiting.len() implies (
        #[trigger] next.waiting[i]).status == RequestStatus::Waiting && next.waiting[i].amount
            > 0 by {
            if i < at {
                assert(next.waiting[i] == model.waiting[i]);
            } else {
                assert(next.waiting[i] == model.waiting[i + 1]);
            }
        }
        lemma_shrink(model, next);
    } else if model.placed(id) {
        let p = holder(model.slots, id);
        assert(model.slots[p].wf());
        lemma_slot_without(model.slots[p], id, now);
        assert forall|q: int| 0 <= q < next.slots.len() implies (#[trigger] next.slots[q]).wf()
            && next.slots[q].ids().subset_of(model.slots[q].ids()) && next.slots[q].pile.number
            == model.slots[q].pile.number by {
            if q != p {
                assert(model.slots[q].wf());
            }
        }
        lemma_shrink(model, next);
    }
    lemma_tracks(next, id);
    lemma_tracks(model, id);
    assert(!next.tracks(id)) by {
        if next.placed(id) {
            let q = holder(next.slots, id);
            lemma_holder(next.slots, id);
            if model.waits(id) {
                assert(model.slots[q].ids().disjoint(id_set(model.waiting)));
            } else if model.placed(id) {
                let p = holder(model.slots, id);
                if q != p {
                    assert(model.slots[q].ids().contains(id));
                }
            }
        }
    }
}

/// A valid model stays valid when the requests of a user are cancelled and
/// holds none of them any more; it tracks no identifier that it did not
/// track before, and its waiting area does not grow. Where the user has no
/// request nothing changes.
pub proof fn lemma_cancel_user(model: QueueModel, user_id: u128, now: i64)
    requires
        model.wf(),
    ensures
        model.cancel_user(user_id, now).wf(),
        !model.cancel_user(user_id, now).serves(user_id),
        !model.serves(user_id) ==> model.cancel_user(user_id, now) == model,
        forall|other: u128| model.cancel_user(user_id, now).tracks(other) ==> model.tracks(other),
        model.cancel_user(user_id, now).waiting.len() <= model.waiting.len(),
        model.cancel_user(user_id, now).slots.len() == model.slots.len(),
{
    let next = model.cancel_user(user_id, now);
    lemma_without_user(model.waiting, user_id);
    lemma_without_user_ids(model.waiting, user_id);
    lemma_without_user_waiting(model.waiting, user_id);
    assert forall|p: int| 0 <= p < next.slots.len() implies (#[trigger] next.slots[p]).wf()
        && next.slots[p].ids().subset_of(model.slots[p].ids()) && next.slots[p].pile.number
        == model.slots[p].pile.number && !next.slots[p].serves(user_id) && (!model.slots[p].serves(
        user_id,
    ) ==> next.slots[p] == model.slots[p]) by {
        assert(model.slots[p].wf());
        lemma_slot_without_user(model.slots[p], user_id, now);
    }
    lemma_shrink(model, next);
    if !model.serves(user_id) {
        assert forall|p: int| 0 <= p < next.slots.len() implies next.slots[p]
            == model.slots[p] by {
            assert(!model.slots[p].serves(user_id));
        }
        assert(next.slots =~= model.slots);
    }
}

/// A valid model stays valid when a request that waits or is queued gets
/// another amount that is not nothing; it tracks the same identifiers, and
/// its waiting area and its queues keep their lengths.
pub proof fn lemma_resize(model: QueueModel, id: u128, amount: u32, now: i64)
    requires
        model.wf(),
        amount > 0,
    ensures
        model.resize(id, amount, now).wf(),
        model.resize(id, amount, now).waiting.len() == model.waiting.len(),
        model.resize(id, amount, now).slots.len() == model.slots.len(),
        !model.tracks(id) ==> model.resize(id, amount, now) == model,
{
    let next = model.resize(id, amount, now);
    lemma_position(model.waiting, id);
    lemma_holder(model.slots, id);
    if model.waits(id) {
        let at = position(model.waiting, id);
        let changed = resized(model.waiting[at], amount, now);
        lemma_ids_update(model.waiting, at, changed);
        assert forall|i: int| 0 <= i < next.waiting.len() implies (
        #[trigger] next.waiting[i]).status == RequestStatus::Waiting && next.waiting[i].amount
            > 0 by {
            if i != at {
                assert(next.waiting[i] == model.waiting[i]);
            }
        }
        lemma_shrink(model, next);
    } else if model.placed(id) {
        let p = holder(model.slots, id);
        assert(model.slots[p].wf());
        lemma_slot_resize(model.slots[p], id, amount, now);
        assert forall|q: int| 0 <= q < next.slots.len() implies (#[trigger] next.slots[q]).wf()
            && next.slots[q].ids().subset_of(model.slots[q].ids()) && next.slots[q].pile.number
            == model.slots[q].pile.number by {
            if q != p {
                assert(model.slots[q].wf());
            }
        }
        lemma_shrink(model, next);
    }
}

/// A valid model stays valid when a request that waits or is queued takes
/// another mode and goes to the end of the waiting area; the waiting area
/// stays within its capacity.
pub proof fn lemma_requeue(
    model: QueueModel,
    id: u128,
    mode: ChargingMode,
    queue_number: String,
    now: i64,
)
    requires
        model.wf(),
        model.requeueing(id).is_ok(),
    ensures
        model.requeue(id, mode, queue_number, now).wf(),
        model.within_capacity() ==> model.requeue(id, mode, queue_number, now).within_capacity(),
        model.requeue(id, mode, queue_number, now).slots.len() == model.slots.len(),
        model.requeue(id, mode, queue_number, now).waiting.len() > 0,
        model.requeue(id, mode, queue_number, now).waiting.last() == model.pending(id).with_mode(
            mode,
            queue_number,
            now,
        ),
        model.pending(id).id == id,
{
    let next = model.requeue(id, mode, queue_number, now);
    let changed = model.pending(id).with_mode(mode, queue_number, now);
    // The model once the request has left its place.
    let without = model.cancel(id, now);
    lemma_cancel(model, id, now);
    lemma_position(model.waiting, id);
    lemma_holder(model.slots, id);
    if model.waits(id) {
        lemma_wait_at(without, without.waiting.len() as int, changed);
        assert(without.waiting.insert(without.waiting.len() as int, changed)
            =~= without.waiting.push(changed));
    } else {
        let p = holder(model.slots, id);
        let slot = model.slots[p];
        assert(slot.wf());
        lemma_slot_holds(slot, id);
        lemma_slot_unqueue(slot, id);
        assert(slot.without(id, now) == slot.unqueue(id));
        lemma_wait_at(without, without.waiting.len() as int, changed);
        assert(without.waiting.insert(without.waiting.len() as int, changed)
            =~= without.waiting.push(changed));
    }
}

/// The queues of the piles of a mode, one behind the other in the order of
/// the piles.
pub open spec fn gathered(slots: Seq<PileSlot>, mode: ChargingMode) -> Seq<ChargingRequest>
    decreases slots.len(),
{
    if slots.len() == 0 {
        Seq::empty()
    } else if slots.last().pile.mode == mode {
        gathered(slots.drop_last(), mode) + slots.last().queue
    } else {
        gathered(slots.drop_last(), mode)
    }
}

/// The slots with the queues of the piles of a mode emptied.
pub open spec fn drained_of(slots: Seq<PileSlot>, mode: ChargingMode) -> Seq<PileSlot> {
    slots.map_values(
        |slot: PileSlot|
            if slot.pile.mode == mode {
                slot.drained()
            } else {
                slot
            },
    )
}

impl QueueModel {
    /// The model after one request has been placed at `now`: at the end of
    /// the queue of the best slot for its mode, or, where no slot accepts
    /// the mode, in the waiting area at place `returned`.
    pub open spec fn place(self, request: ChargingRequest, now: i64, returned: int) -> QueueModel {
        match self.best_pile(request.mode, now) {
            Some(p) => self.enqueue_at(p, request),
            None => QueueModel { waiting: self.waiting.insert(returned, request), ..self },
        }
    }

    /// The model after the requests of `pending` have been placed at `now`,
    /// one after the other. Those that no slot accepts go to the waiting
    /// area, in their order, behind the first `returned` requests of it.
    pub open spec fn redistribute(
        self,
        pending: Seq<ChargingRequest>,
        now: i64,
        returned: int,
    ) -> QueueModel
        decreases pending.len(),
    {
        if pending.len() == 0 {
            self
        } else {
            self.place(pending[0], now, returned).redistribute(
                pending.skip(1),
                now,
                if self.best_pile(pending[0].mode, now).is_some() {
                    returned
                } else {
                    returned + 1
                },
            )
        }
    }

    /// The model after pile `p` has gone out of order at `now`: its slot is
    /// emptied; the requests it held, the charging one waiting again, are
    /// placed on the other piles in the order of their queue numbers, and
    /// those that no pile accepts go to the head of the waiting area; then
    /// every idle pile lets its next request begin to charge.
    pub open spec fn fault(self, p: int, now: i64) -> QueueModel {
        let cleared = QueueModel { slots: self.slots.update(p, self.slots[p].faulted()), ..self };
        cleared.redistribute(sort_by_number(self.slots[p].displaced()), now, 0).promote_all(now)
    }

    /// The model after pile `p` has come back in service at `now`: the pile
    /// is available; the queues of all piles of its mode are emptied; the
    /// requests that stood in them are placed anew in the order of their
    /// queue numbers, the repaired pile among the candidates, and those that
    /// no pile accepts go to the head of the waiting area. No session begins
    /// or ends: the queued requests wait for the next tick.
    pub open spec fn repair(self, p: int, now: i64) -> QueueModel {
        let mode = self.slots[p].pile.mode;
        let opened = self.slots.update(p, self.slots[p].repaired());
        let cleared = QueueModel { waiting: self.waiting, slots: drained_of(opened, mode) };
        cleared.redistribute(sort_by_number(gathered(opened, mode)), now, 0)
    }

    /// Whether the model tracks none of the requests.
    pub open spec fn tracks_none(self, pending: Seq<ChargingRequest>) -> bool {
        forall|i: int| 0 <= i < pending.len() ==> !self.tracks((#[trigger] pending[i]).id)
    }
}

/// Whether every request of the sequence waits and asks for some energy.
pub open spec fn all_fit(pending: Seq<ChargingRequest>) -> bool {
    forall|i: int|
        0 <= i < pending.len() ==> (#[trigger] pending[i]).status == RequestStatus::Waiting
            && pending[i].amount > 0
}

/// What a model tracks after a request joined a queue: what it tracked
/// before, and the request.
pub proof fn lemma_enqueue_tracks(model: QueueModel, p: int, request: ChargingRequest, id: u128)
    requires
        model.wf(),
        0 <= p < model.slots.len(),
        model.slots[p].has_space(),
        fit_for_queue(request, model.slots[p].pile.mode),
        !model.tracks(request.id),
        model.enqueue_at(p, request).tracks(id),
    ensures
        model.tracks(id) || id == request.id,
{
    let next = model.enqueue_at(p, request);
    lemma_enqueue_at(model, p, request);
    lemma_tracks(model, id);
    lemma_tracks(next, id);
    if next.placed(id) {
        let q = holder(next.slots, id);
        lemma_holder(next.slots, id);
        if q != p {
            assert(model.slots[q].ids().contains(id));
        } else if id != request.id {
            assert(model.slots[p].ids().contains(id));
        }
    }
}

/// What a model tracks after a request was put into the waiting area: what
/// it tracked before, and the request.
pub proof fn lemma_wait_tracks(model: QueueModel, at: int, request: ChargingRequest, id: u128)
    requires
        model.wf(),
        0 <= at <= model.waiting.len(),
        request.status == RequestStatus::Waiting,
        request.amount > 0,
        !model.tracks(request.id),
        (QueueModel { waiting: model.waiting.insert(at, request), ..model }).tracks(id),
    ensures
        model.tracks(id) || id == request.id,
{
    let next = QueueModel { waiting: model.waiting.insert(at, request), ..model };
    lemma_wait_at(model, at, request);
    lemma_tracks(model, id);
    lemma_tracks(next, id);
    if next.placed(id) {
        let q = holder(next.slots, id);
        lemma_holder(next.slots, id);
        assert(model.slots[q].ids().contains(id));
    }
}

/// What a model tracks after one request was placed: what it tracked
/// before, and the request.
pub proof fn lemma_place_tracks(
    model: QueueModel,
    request: ChargingRequest,
    now: i64,
    returned: int,
    id: u128,
)
    requires
        model.wf(),
        request.status == RequestStatus::Waiting,
        request.amount > 0,
        !model.tracks(request.id),
        0 <= returned <= model.waiting.len(),
    ensures
        model.place(request, now, returned).wf(),
        model.place(request, now, returned).tracks(id) <==> model.tracks(id) || id == request.id,
{
    let next = model.place(request, now, returned);
    lemma_tracks(model, id);
    lemma_tracks(next, id);
    match model.best_pile(request.mode, now) {
        Some(p) => {
            assert(model.is_best(request.mode, now, p));
            lemma_enqueue_at(model, p, request);
            if next.tracks(id) {
                lemma_enqueue_tracks(model, p, request, id);
            }
            if model.placed(id) {
                let q = choose|q: int|
                    0 <= q < model.slots.len() && (#[trigger] model.slots[q]).ids().contains(id);
                assert(next.slots[q].ids().contains(id));
            }
            if id == request.id {
                assert(next.slots[p].ids().contains(id));
            }
        },
        None => {
            lemma_wait_at(model, returned, request);
            if next.tracks(id) {
                lemma_wait_tracks(model, returned, request, id);
            }
            if model.placed(id) {
                let q = choose|q: int|
                    0 <= q < model.slots.len() && (#[trigger] model.slots[q]).ids().contains(id);
                assert(next.slots[q].ids().contains(id));
            }
        },
    }
}

/// After the first of the pending requests was placed, the model and the
/// requests that are left are as the placing of requests asks them to be.
pub proof fn lemma_place_step(
    model: QueueModel,
    pending: Seq<ChargingRequest>,
    now: i64,
    returned: int,
)
    requires
        model.wf(),
        all_fit(pending),
        no_repeat(pending),
        model.tracks_none(pending),
        0 <= returned <= model.waiting.len(),
        pending.len() > 0,
    ensures
        model.place(pending[0], now, returned).wf(),
        model.place(pending[0], now, returned).slots.len() == model.slots.len(),
        all_fit(pending.skip(1)),
        no_repeat(pending.skip(1)),
        model.place(pending[0], now, returned).tracks_none(pending.skip(1)),
        model.best_pile(pending[0].mode, now).is_some() ==> model.place(
            pending[0],
            now,
            returned,
        ).waiting == model.waiting,
        model.best_pile(pending[0].mode, now).is_none() ==> model.place(
            pending[0],
            now,
            returned,
        ).waiting.len() == model.waiting.len() + 1,
        forall|id: u128|
            id_set(pending).contains(id) <==> id == pending[0].id || id_set(
                pending.skip(1),
            ).contains(id),
{
    let head = pending[0];
    let rest = pending.skip(1);
    let next = model.place(head, now, returned);
    assert(!model.tracks(head.id));
    lemma_place_tracks(model, head, now, returned, head.id);
    match model.best_pile(head.mode, now) {
        Some(p) => {
            assert(model.is_best(head.mode, now, p));
        },
        None => {},
    }
    assert forall|i: int| 0 <= i < rest.len() implies (#[trigger] rest[i]).status
        == RequestStatus::Waiting && rest[i].amount > 0 by {
        assert(rest[i] == pending[i + 1]);
    }
    assert forall|i: int, j: int| 0 <= i < j < rest.len() implies #[trigger] rest[i].id
        != #[trigger] rest[j].id by {
        assert(pending[i + 1].id != pending[j + 1].id);
    }
    assert forall|i: int| 0 <= i < rest.len() implies !next.tracks((#[trigger] rest[i]).id) by {
        assert(rest[i] == pending[i + 1]);
        assert(pending[0].id != pending[i + 1].id);
        assert(!model.tracks(pending[i + 1].id));
        lemma_place_tracks(model, head, now, returned, rest[i].id);
    }
    assert forall|id: u128|
        id_set(pending).contains(id) <==> id == pending[0].id || id_set(rest).contains(id) by {
        if holds_id(pending, id) {
            let i = choose|i: int| 0 <= i < pending.len() && #[trigger] pending[i].id == id;
            if i > 0 {
                assert(rest[i - 1].id == id);
            }
        }
        if holds_id(rest, id) {
            let i = choose|i: int| 0 <= i < rest.len() && #[trigger] rest[i].id == id;
            assert(pending[i + 1].id == id);
        }
        if id == pending[0].id {
            assert(holds_id(pending, id));
        }
    }
}

/// A valid model stays valid when requests that it does not track, that
/// wait and ask for some energy and of which none carries the identifier of
/// another are placed. No pile is added or taken away, and the waiting area
/// grows by the requests that no pile accepted, at most by all of them. No
/// request is lost and none is made: the model then tracks what it tracked
/// before and the placed requests, and nothing else.
pub proof fn lemma_redistribute(
    model: QueueModel,
    pending: Seq<ChargingRequest>,
    now: i64,
    returned: int,
)
    requires
        model.wf(),
        all_fit(pending),
        no_repeat(pending),
        model.tracks_none(pending),
        0 <= returned <= model.waiting.len(),
    ensures
        model.redistribute(pending, now, returned).wf(),
        model.redistribute(pending, now, returned).slots.len() == model.slots.len(),
        model.waiting.len() <= model.redistribute(pending, now, returned).waiting.len()
            <= model.waiting.len() + pending.len(),
        forall|id: u128|
            #[trigger] model.redistribute(pending, now, returned).tracks(id) <==> model.tracks(id)
                || id_set(pending).contains(id),
    decreases pending.len(),
{
    let out = model.redistribute(pending, now, returned);
    if pending.len() > 0 {
        let head = pending[0];
        let rest = pending.skip(1);
        let next = model.place(head, now, returned);
        let after = if model.best_pile(head.mode, now).is_some() {
            returned
        } else {
            returned + 1
        };
        lemma_place_step(model, pending, now, returned);
        lemma_redistribute(next, rest, now, after);
        assert forall|id: u128| #[trigger] out.tracks(id) <==> model.tracks(id) || id_set(
            pending,
        ).contains(id) by {
            lemma_place_tracks(model, head, now, returned, id);
        }
    } else {
        assert forall|id: u128| #[trigger] out.tracks(id) <==> model.tracks(id) || id_set(
            pending,
        ).contains(id) by {
            assert(!holds_id(pending, id));
        }
    }
}

/// The queues gathered from valid slots that share no identifier hold
/// requests that wait and ask for some energy, none twice; each stands in
/// the queue of a pile of the mode.
pub proof fn lemma_gathered(slots: Seq<PileSlot>, mode: ChargingMode)
    requires
        forall|p: int| 0 <= p < slots.len() ==> (#[trigger] slots[p]).wf(),
        forall|p: int, q: int|
            0 <= p < q < slots.len() ==> (#[trigger] slots[p]).ids().disjoint(
                (#[trigger] slots[q]).ids(),
            ),
    ensures
        all_fit(gathered(slots, mode)),
        no_repeat(gathered(slots, mode)),
        forall|id: u128|
            id_set(gathered(slots, mode)).contains(id) ==> exists|p: int|
                0 <= p < slots.len() && (#[trigger] slots[p]).pile.mode == mode && id_set(
                    slots[p].queue,
                ).contains(id),
    decreases slots.len(),
{
    if slots.len() == 0 {
        lemma_ids_empty();
        assert(gathered(slots, mode) =~= Seq::<ChargingRequest>::empty());
    } else {
        let t = slots.drop_last();
        let last = slots.last();
        assert forall|p: int| 0 <= p < t.len() implies (#[trigger] t[p]).wf() by {
            assert(t[p] == slots[p]);
        }
        assert forall|p: int, q: int| 0 <= p < q < t.len() implies (#[trigger] t[p]).ids().disjoint(
            (#[trigger] t[q]).ids(),
        ) by {
            assert(t[p] == slots[p] && t[q] == slots[q]);
        }
        lemma_gathered(t, mode);
        let before = gathered(t, mode);
        let all = gathered(slots, mode);
        assert forall|id: u128| id_set(before).contains(id) implies exists|p: int|
            0 <= p < slots.len() && (#[trigger] slots[p]).pile.mode == mode && id_set(
                slots[p].queue,
            ).contains(id) by {
            let p = choose|p: int|
                0 <= p < t.len() && (#[trigger] t[p]).pile.mode == mode && id_set(
                    t[p].queue,
                ).contains(id);
            assert(slots[p] == t[p]);
        }
        if last.pile.mode == mode {
            assert(last.wf());
            lemma_slot_drained(last);
            crate::scheduler::pile_info::lemma_slot_parts(last);
            lemma_ids_concat(before, last.queue);
            assert(id_set(before).disjoint(id_set(last.queue))) by {
                assert forall|id: u128|
                    !(id_set(before).contains(id) && id_set(last.queue).contains(id)) by {
                    if id_set(before).contains(id) && id_set(last.queue).contains(id) {
                        let p = choose|p: int|
                            0 <= p < t.len() && (#[trigger] t[p]).pile.mode == mode && id_set(
                                t[p].queue,
                            ).contains(id);
                        assert(slots[p] == t[p]);
                        lemma_slot_drained(slots[p]);
                        assert(slots[p].ids().contains(id));
                        assert(last.ids().contains(id));
                        assert(slots[p].ids().disjoint(slots[slots.len() - 1].ids()));
                    }
                }
            }
            assert forall|i: int| 0 <= i < all.len() implies (#[trigger] all[i]).status
                == RequestStatus::Waiting && all[i].amount > 0 by {
                if i < before.len() {
                    assert(all[i] == before[i]);
                } else {
                    assert(all[i] == last.queue[i - before.len()]);
                }
            }
            assert forall|id: u128| id_set(all).contains(id) implies exists|p: int|
                0 <= p < slots.len() && (#[trigger] slots[p]).pile.mode == mode && id_set(
                    slots[p].queue,
                ).contains(id) by {
                if !id_set(before).contains(id) {
                    assert(slots[slots.len() - 1].pile.mode == mode);
                }
            }
        }
    }
}

/// A valid model stays valid when a pile goes out of order. No pile is
/// added or taken away; the pile is out of order and holds no request; and
/// the waiting area grows at most by the requests that the pile held. No
/// request is lost and none is made: the model tracks the same identifiers
/// as before.
pub proof fn lemma_fault(model: QueueModel, p: int, now: i64)
    requires
        model.wf(),
        0 <= p < model.slots.len(),
    ensures
        model.fault(p, now).wf(),
        model.fault(p, now).slots.len() == model.slots.len(),
        model.waiting.len() <= model.fault(p, now).waiting.len() <= model.waiting.len()
            + model.slots[p].requests().len(),
        model.fault(p, now).slots[p].pile.status == PileStatus::Fault,
        model.fault(p, now).slots[p].requests().len() == 0,
        model.waiting.len() + model.slots[p].requests().len() <= WAITING_AREA_CAPACITY
            ==> model.fault(p, now).within_capacity(),
        forall|id: u128| #[trigger] model.fault(p, now).tracks(id) <==> model.tracks(id),
{
    let slot = model.slots[p];
    let cleared = QueueModel { slots: model.slots.update(p, slot.faulted()), ..model };
    let pending = sort_by_number(slot.displaced());
    lemma_fault_redistributed(model, p, now);
    let placed = cleared.redistribute(pending, now, 0);
    lemma_promote_all(placed, now);
    lemma_fault_pile(cleared, pending, now, 0, p);
    assert(placed.slots[p].promoted(now) == placed.slots[p]);
}

/// A pile that is out of order and empty is still so after requests have
/// been placed: no request is sent to it.
pub proof fn lemma_fault_pile(
    model: QueueModel,
    pending: Seq<ChargingRequest>,
    now: i64,
    returned: int,
    p: int,
)
    requires
        0 <= p < model.slots.len(),
        model.slots[p].pile.status == PileStatus::Fault,
    ensures
        model.redistribute(pending, now, returned).slots.len() == model.slots.len(),
        model.redistribute(pending, now, returned).slots[p] == model.slots[p],
    decreases pending.len(),
{
    if pending.len() > 0 {
        let head = pending[0];
        let next = model.place(head, now, returned);
        match model.best_pile(head.mode, now) {
            Some(q) => {
                assert(model.is_best(head.mode, now, q));
            },
            None => {},
        }
        lemma_fault_pile(
            next,
            pending.skip(1),
            now,
            if model.best_pile(head.mode, now).is_some() {
                returned
            } else {
                returned + 1
            },
            p,
        );
    }
}

/// Before the requests of a repair are placed again, the queues are valid
/// and emptied of them, and the requests wait, ask for some energy, differ
/// in their identifiers and are tracked nowhere.
pub proof fn lemma_repair_parts(model: QueueModel, p: int, now: i64)
    requires
        model.wf(),
        0 <= p < model.slots.len(),
    ensures
        (QueueModel {
            waiting: model.waiting,
            slots: drained_of(
                model.slots.update(p, model.slots[p].repaired()),
                model.slots[p].pile.mode,
            ),
        }).wf(),
        all_fit(
            sort_by_number(
                gathered(model.slots.update(p, model.slots[p].repaired()), model.slots[p].pile.mode),
            ),
        ),
        no_repeat(
            sort_by_number(
                gathered(model.slots.update(p, model.slots[p].repaired()), model.slots[p].pile.mode),
            ),
        ),
        (QueueModel {
            waiting: model.waiting,
            slots: drained_of(
                model.slots.update(p, model.slots[p].repaired()),
                model.slots[p].pile.mode,
            ),
        }).tracks_none(
            sort_by_number(
                gathered(model.slots.update(p, model.slots[p].repaired()), model.slots[p].pile.mode),
            ),
        ),
{
    lemma_gathered_same(model.slots, p);
    let mode = model.slots[p].pile.mode;
    let opened = model.slots.update(p, model.slots[p].repaired());
    let open_model = QueueModel { waiting: model.waiting, slots: opened };
    assert(model.slots[p].wf());
    lemma_slot_repaired(model.slots[p]);
    assert forall|q: int| 0 <= q < opened.len() implies (#[trigger] opened[q]).wf()
        && opened[q].ids().subset_of(model.slots[q].ids()) && opened[q].pile.number
        == model.slots[q].pile.number by {
        if q != p {
            assert(model.slots[q].wf());
        }
    }
    lemma_shrink(model, open_model);
    let cleared = QueueModel { waiting: model.waiting, slots: drained_of(opened, mode) };
    assert forall|q: int| 0 <= q < cleared.slots.len() implies (#[trigger] cleared.slots[q]).wf()
        && cleared.slots[q].ids().subset_of(opened[q].ids()) && cleared.slots[q].pile.number
        == opened[q].pile.number by {
        assert(opened[q].wf());
        lemma_slot_drained(opened[q]);
    }
    lemma_shrink(open_model, cleared);
    let queues = gathered(opened, mode);
    let pending = sort_by_number(queues);
    assert forall|a: int, b: int| 0 <=
        a < b < opened.len() implies (#[trigger] opened[a]).ids().disjoint(
        (#[trigger] opened[b]).ids(),
    ) by {
        assert(open_model.slots[a].ids().disjoint(open_model.slots[b].ids()));
    }
    lemma_gathered(opened, mode);
    lemma_sort_by_number(queues);
    assert(all_fit(pending)) by {
        assert forall|i: int| 0 <= i < pending.len() implies (#[trigger] pending[i]).status
            == RequestStatus::Waiting && pending[i].amount > 0 by {
            assert(has_request(queues, pending[i]));
            let j = choose|j: int| 0 <= j < queues.len() && #[trigger] queues[j] == pending[i];
        }
    }
    assert(cleared.tracks_none(pending)) by {
        assert forall|i: int| 0 <= i < pending.len() implies !cleared.tracks(
            (#[trigger] pending[i]).id,
        ) by {
            let id = pending[i].id;
            assert(holds_id(pending, id));
            assert(id_set(pending).contains(id));
            assert(id_set(queues).contains(id));
            let a = choose|a: int|
                0 <= a < opened.len() && (#[trigger] opened[a]).pile.mode == mode && id_set(
                    opened[a].queue,
                ).contains(id);
            assert(opened[a].wf());
            lemma_slot_drained(opened[a]);
            assert(opened[a].ids().contains(id));
            lemma_tracks(cleared, id);
            assert(open_model.slots[a].ids().disjoint(id_set(open_model.waiting)));
            if cleared.placed(id) {
                let q = holder(cleared.slots, id);
                lemma_holder(cleared.slots, id);
                assert(opened[q].wf());
                lemma_slot_drained(opened[q]);
                if q < a {
                    assert(open_model.slots[q].ids().disjoint(open_model.slots[a].ids()));
                } else if q > a {
                    assert(open_model.slots[a].ids().disjoint(open_model.slots[q].ids()));
                }
            }
        }
    }
}

/// A valid model stays valid when a pile comes back in service. No pile is
/// added or taken away, and the waiting area does not shrink: it grows by
/// the requests that no pile accepted. No request is lost and none is made:
/// the model tracks the same identifiers as before.
pub proof fn lemma_repair(model: QueueModel, p: int, now: i64)
    requires
        model.wf(),
        0 <= p < model.slots.len(),
    ensures
        model.repair(p, now).wf(),
        model.repair(p, now).slots.len() == model.slots.len(),
        model.waiting.len() <= model.repair(p, now).waiting.len() <= model.waiting.len()
            + gathered(model.slots, model.slots[p].pile.mode).len(),
        model.waiting.len() + gathered(model.slots, model.slots[p].pile.mode).len()
            <= WAITING_AREA_CAPACITY ==> model.repair(p, now).within_capacity(),
        forall|id: u128| #[trigger] model.repair(p, now).tracks(id) <==> model.tracks(id),
{
    lemma_gathered_same(model.slots, p);
    let mode = model.slots[p].pile.mode;
    let opened = model.slots.update(p, model.slots[p].repaired());
    let cleared = QueueModel { waiting: model.waiting, slots: drained_of(opened, mode) };
    let queues = gathered(opened, mode);
    let pending = sort_by_number(queues);
    lemma_repair_parts(model, p, now);
    lemma_sort_by_number(queues);
    assert(model.slots[p].wf());
    lemma_slot_repaired(model.slots[p]);
    assert forall|q: int| 0 <= q < opened.len() implies (#[trigger] opened[q]).wf() by {
        if q != p {
            assert(model.slots[q].wf());
        }
    }
    lemma_redistribute(cleared, pending, now, 0);
    let out = model.repair(p, now);
    assert forall|id: u128| #[trigger] out.tracks(id) <==> model.tracks(id) by {
        lemma_tracks(model, id);
        lemma_tracks(cleared, id);
        lemma_gathered_ids(opened, mode, id);
        if cleared.placed(id) {
            let q = choose|q: int|
                0 <= q < cleared.slots.len() && (#[trigger] cleared.slots[q]).ids().contains(id);
            assert(opened[q].wf());
            lemma_slot_drained(opened[q]);
            assert(opened[q].ids().contains(id));
            assert(model.slots[q].ids().contains(id));
        }
        if id_set(queues).contains(id) {
            let q = choose|q: int|
                0 <= q < opened.len() && (#[trigger] opened[q]).pile.mode == mode && id_set(
                    opened[q].queue,
                ).contains(id);
            assert(opened[q].wf());
            lemma_slot_drained(opened[q]);
            assert(opened[q].ids().contains(id));
            assert(model.slots[q].ids().contains(id));
        }
        if model.placed(id) {
            let q = choose|q: int|
                0 <= q < model.slots.len() && (#[trigger] model.slots[q]).ids().contains(id);
            assert(opened[q].wf());
            assert(opened[q].ids() == model.slots[q].ids());
            lemma_slot_drained(opened[q]);
            if opened[q].pile.mode == mode {
                if id_set(opened[q].queue).contains(id) {
                    assert(id_set(queues).contains(id));
                } else {
                    assert(cleared.slots[q].ids().contains(id));
                }
            } else {
                assert(cleared.slots[q].ids().contains(id));
            }
        }
    }
}

/// The model between the placing and the promoting of a fault is valid.
pub proof fn lemma_fault_redistributed(model: QueueModel, p: int, now: i64)
    requires
        model.wf(),
        0 <= p < model.slots.len(),
    ensures
        (QueueModel {
            slots: model.slots.update(p, model.slots[p].faulted()),
            ..model
        }).redistribute(sort_by_number(model.slots[p].displaced()), now, 0).wf(),
        (QueueModel {
            slots: model.slots.update(p, model.slots[p].faulted()),
            ..model
        }).redistribute(sort_by_number(model.slots[p].displaced()), now, 0).slots.len()
            == model.slots.len(),
        model.waiting.len() <= (QueueModel {
            slots: model.slots.update(p, model.slots[p].faulted()),
            ..model
        }).redistribute(sort_by_number(model.slots[p].displaced()), now, 0).waiting.len()
            <= model.waiting.len() + model.slots[p].requests().len(),
        forall|id: u128|
            #[trigger] (QueueModel {
                slots: model.slots.update(p, model.slots[p].faulted()),
                ..model
            }).redistribute(sort_by_number(model.slots[p].displaced()), now, 0).tracks(id)
                <==> model.tracks(id),
{
    let slot = model.slots[p];
    let cleared = QueueModel { slots: model.slots.update(p, slot.faulted()), ..model };
    let pending = sort_by_number(slot.displaced());
    assert(slot.wf());
    lemma_slot_faulted(slot);
    lemma_slot_displaced(slot);
    lemma_sort_by_number(slot.displaced());
    assert forall|q: int| 0 <= q < cleared.slots.len() implies (#[trigger] cleared.slots[q]).wf()
        && cleared.slots[q].ids().subset_of(model.slots[q].ids()) && cleared.slots[q].pile.number
        == model.slots[q].pile.number by {
        if q != p {
            assert(model.slots[q].wf());
        }
    }
    lemma_shrink(model, cleared);
    assert(all_fit(pending)) by {
        assert forall|i: int| 0 <= i < pending.len() implies (#[trigger] pending[i]).status
            == RequestStatus::Waiting && pending[i].amount > 0 by {
            assert(has_request(slot.displaced(), pending[i]));
            let j = choose|j: int|
                0 <= j < slot.displaced().len() && #[trigger] slot.displaced()[j] == pending[i];
            assert(fit_for_queue(slot.displaced()[j], slot.pile.mode));
        }
    }
    assert(cleared.tracks_none(pending)) by {
        assert forall|i: int| 0 <= i < pending.len() implies !cleared.tracks(
            (#[trigger] pending[i]).id,
        ) by {
            let id = pending[i].id;
            assert(holds_id(pending, id));
            assert(id_set(pending).contains(id));
            assert(slot.ids().contains(id));
            lemma_tracks(cleared, id);
            assert(model.slots[p].ids().disjoint(id_set(model.waiting)));
            if cleared.placed(id) {
                let q = holder(cleared.slots, id);
                lemma_holder(cleared.slots, id);
                if q < p {
                    assert(model.slots[q].ids().disjoint(model.slots[p].ids()));
                } else if q > p {
                    assert(model.slots[p].ids().disjoint(model.slots[q].ids()));
                }
            }
        }
    }
    lemma_redistribute(cleared, pending, now, 0);
    let out = cleared.redistribute(pending, now, 0);
    assert forall|id: u128| #[trigger] out.tracks(id) <==> model.tracks(id) by {
        lemma_tracks(model, id);
        lemma_tracks(cleared, id);
        if cleared.placed(id) {
            let q = choose|q: int|
                0 <= q < cleared.slots.len() && (#[trigger] cleared.slots[q]).ids().contains(id);
            assert(model.slots[q].ids().contains(id));
        }
        if id_set(pending).contains(id) {
            assert(model.slots[p].ids().contains(id));
        }
        if model.placed(id) {
            let q = choose|q: int|
                0 <= q < model.slots.len() && (#[trigger] model.slots[q]).ids().contains(id);
            if q != p {
                assert(cleared.slots[q].ids().contains(id));
            }
        }
    }
}

/// Putting a pile back in service does not change what stands in the queues
/// of its mode.
pub proof fn lemma_gathered_same(slots: Seq<PileSlot>, p: int)
    requires
        0 <= p < slots.len(),
    ensures
        gathered(slots.update(p, slots[p].repaired()), slots[p].pile.mode) == gathered(
            slots,
            slots[p].pile.mode,
        ),
    decreases slots.len(),
{
    let mode = slots[p].pile.mode;
    let opened = slots.update(p, slots[p].repaired());
    if p == slots.len() - 1 {
        assert(opened.drop_last() =~= slots.drop_last());
    } else {
        assert(opened.drop_last() =~= slots.drop_last().update(p, slots[p].repaired()));
        assert(slots.drop_last()[p] == slots[p]);
        lemma_gathered_same(slots.drop_last(), p);
    }
}

/// First come, first served: when a dispatch sends a waiting request to a
/// pile, it sends every request that stood before it in the waiting area to
/// a pile as well. Where the waiting area stands in the order in which the
/// requests were made, a request that was made earlier than another thus
/// leaves the waiting area no later than the other.
pub proof fn lemma_dispatch_first_come(model: QueueModel, now: i64, i: int, j: int)
    requires
        model.wf(),
        0 <= i < model.waiting.len(),
        0 <= j < model.waiting.len(),
        i < j || (ordered_by_arrival(model.waiting) && model.waiting[i].created_at
            < model.waiting[j].created_at),
        !model.dispatch(now).waits(model.waiting[j].id),
    ensures
        !model.dispatch(now).waits(model.waiting[i].id),
{
    let next = model.dispatch(now);
    lemma_dispatch(model, now);
    let gone = model.waiting.len() - next.waiting.len();
    lemma_position(next.waiting, model.waiting[j].id);
    lemma_position(next.waiting, model.waiting[i].id);
    if j >= gone {
        assert(next.waiting[j - gone] == model.waiting[j]);
        assert(holds_id(next.waiting, model.waiting[j].id));
    }
    if i >= j {
        assert(model.waiting[j].created_at <= model.waiting[i].created_at);
    }
    if next.waits(model.waiting[i].id) {
        let at = position(next.waiting, model.waiting[i].id);
        assert(next.waiting[at] == model.waiting[at + gone]);
        assert(model.waiting[i].id != model.waiting[at + gone].id);
    }
}

/// In a valid model the counters of every pile are those with which it
/// joined the station, grown by the records of its completed sessions, and
/// every completed session has the record of its request.
pub proof fn lemma_counters_recorded(model: QueueModel, p: int)
    requires
        model.wf(),
        0 <= p < model.slots.len(),
    ensures
        model.slots[p].pile.totals() == crate::scheduler::pile_info::tally(
            model.slots[p].opening,
            model.slots[p].sessions,
        ),
        forall|k: int|
            0 <= k < model.slots[p].sessions.len() ==> (
            #[trigger] model.slots[p].sessions[k]).consistent(),
{
    assert(model.slots[p].wf());
    crate::scheduler::pile_info::lemma_slot_accounts(model.slots[p]);
}

/// In a valid model no two piles go by the same number: the pile that
/// `pile_index` finds is the only one of its number.
pub proof fn lemma_pile_found(model: QueueModel, number: Seq<char>, q: int)
    requires
        model.wf(),
        0 <= q < model.slots.len(),
        model.slots[q].pile.number@ == number,
    ensures
        pile_index(model.slots, number) == q,
{
    let p = pile_index(model.slots, number);
    lemma_pile_index(model.slots, number);
    lemma_precedes_irreflexive(number);
    if p < q {
        assert(precedes(model.slots[p].pile.number@, model.slots[q].pile.number@));
    } else if q < p {
        assert(model.slots[q].pile.number@ != number);
    }
}

/// In a valid model the queue of every pile is within its capacity.
pub proof fn lemma_queues_within_capacity(model: QueueModel, p: int)
    requires
        model.wf(),
        0 <= p < model.slots.len(),
    ensures
        model.slots[p].queue.len() <= crate::models::PILE_QUEUE_CAPACITY,
{
    assert(model.slots[p].wf());
}

impl QueueModel {
    /// Why a request cannot join the queue of slot `p`, if it cannot: the
    /// request asks for no energy, does not wait, is of another mode than
    /// the pile, or carries a tracked identifier; the pile is neither
    /// available nor charging; or its queue is full, in this order.
    pub open spec fn assignment(self, p: int, request: ChargingRequest) -> Result<
        (),
        SchedulerError,
    > {
        if request.amount == 0 {
            Err(SchedulerError::InvalidAmount)
        } else if request.status != RequestStatus::Waiting {
            Err(SchedulerError::CannotModify)
        } else if request.mode != self.slots[p].pile.mode {
            Err(SchedulerError::InvalidMode)
        } else if self.tracks(request.id) {
            Err(SchedulerError::DuplicateRequest)
        } else if self.slots[p].pile.status != PileStatus::Available
            && self.slots[p].pile.status != PileStatus::Charging {
            Err(SchedulerError::PileUnavailable)
        } else if !self.slots[p].has_space() {
            Err(SchedulerError::PileQueueFull)
        } else {
            Ok(())
        }
    }

    /// Why the status of a pile cannot go from `from` to another, if it
    /// cannot: no pile goes by the number, or the pile's status is not
    /// `from`.
    pub open spec fn switching(self, number: Seq<char>, from: PileStatus) -> Result<
        (),
        SchedulerError,
    > {
        let p = pile_index(self.slots, number);
        if p >= self.slots.len() {
            Err(SchedulerError::NotFound)
        } else if self.slots[p].pile.status != from {
            Err(SchedulerError::PileUnavailable)
        } else {
            Ok(())
        }
    }

    /// Why a pile cannot be put back in service, if it cannot: no pile goes
    /// by the number, or the pile is not out of order.
    pub open spec fn repairing(self, number: Seq<char>) -> Result<(), SchedulerError> {
        let p = pile_index(self.slots, number);
        if p >= self.slots.len() {
            Err(SchedulerError::NotFound)
        } else if self.slots[p].pile.status != PileStatus::Fault {
            Err(SchedulerError::PileUnavailable)
        } else {
            Ok(())
        }
    }
}

impl QueueModel {
    /// The least loaded of the first `n` slots that accept the mode, the
    /// first of them where several are equally loaded, or -1 where none of
    /// the first `n` slots accepts the mode.
    pub open spec fn least_loaded(self, mode: ChargingMode, now: i64, n: int) -> int
        decreases n,
    {
        if n <= 0 {
            -1
        } else {
            let before = self.least_loaded(mode, now, n - 1);
            if !self.slots[n - 1].accepts(mode) {
                before
            } else if before < 0 {
                n - 1
            } else if self.slots[n - 1].pending_energy(now) < self.slots[before].pending_energy(
                now,
            ) {
                n - 1
            } else {
                before
            }
        }
    }
}

/// Among the first `n` slots, `least_loaded` finds none exactly where none
/// accepts the mode, and else the accepting slot that no other undercuts and
/// no earlier one equals.
pub proof fn lemma_least_loaded(model: QueueModel, mode: ChargingMode, now: i64, n: int)
    requires
        0 <= n <= model.slots.len(),
    ensures
        -1 <= model.least_loaded(mode, now, n) < n,
        model.least_loaded(mode, now, n) < 0 ==> forall|q: int|
            0 <= q < n ==> !(#[trigger] model.slots[q]).accepts(mode),
        model.least_loaded(mode, now, n) >= 0 ==> {
            &&& model.slots[model.least_loaded(mode, now, n)].accepts(mode)
            &&& forall|q: int|
                0 <= q < n && (#[trigger] model.slots[q]).accepts(mode) ==> {
                    &&& model.slots[q].pending_energy(now) >= model.slots[model.least_loaded(
                        mode,
                        now,
                        n,
                    )].pending_energy(now)
                    &&& q < model.least_loaded(mode, now, n) ==> model.slots[q].pending_energy(now)
                        > model.slots[model.least_loaded(mode, now, n)].pending_energy(now)
                }
        },
    decreases n,
{
    if n > 0 {
        lemma_least_loaded(model, mode, now, n - 1);
    }
}

/// The best slot is the least loaded of all that accept the mode, the first
/// of them where several are equally loaded; there is a best slot exactly
/// where some slot accepts the mode.
pub proof fn lemma_best_is_least_loaded(model: QueueModel, mode: ChargingMode, now: i64)
    ensures
        model.least_loaded(mode, now, model.slots.len() as int) >= 0 ==> model.best_pile(mode, now)
            == Some(model.least_loaded(mode, now, model.slots.len() as int)),
        model.least_loaded(mode, now, model.slots.len() as int) < 0 ==> model.best_pile(
            mode,
            now,
        ).is_none(),
        model.best_pile(mode, now).is_some() <==> exists|q: int|
            0 <= q < model.slots.len() && (#[trigger] model.slots[q]).accepts(mode),
{
    let n = model.slots.len() as int;
    let b = model.least_loaded(mode, now, n);
    lemma_least_loaded(model, mode, now, n);
    if b >= 0 {
        assert(model.is_best(mode, now, b));
        lemma_best_unique(model, mode, now, b);
        assert(model.slots[b].accepts(mode));
    } else {
        lemma_best_none(model, mode, now);
    }
}

/// Where some slot accepts the mode, a request of the mode finds a pile.
pub proof fn lemma_best_exists(model: QueueModel, mode: ChargingMode, now: i64, q: int)
    requires
        0 <= q < model.slots.len(),
        model.slots[q].accepts(mode),
    ensures
        model.best_pile(mode, now).is_some(),
        0 <= model.best_pile(mode, now).unwrap() < model.slots.len(),
        model.slots[model.best_pile(mode, now).unwrap()].accepts(mode),
{
    lemma_best_is_least_loaded(model, mode, now);
    let p = model.best_pile(mode, now).unwrap();
    assert(model.is_best(mode, now, p));
}

/// Where some slot accepts the first waiting request, a dispatch moves it:
/// the waiting area is shorter afterwards.
pub proof fn lemma_dispatch_moves_head(model: QueueModel, now: i64, q: int)
    requires
        model.wf(),
        model.waiting.len() > 0,
        0 <= q < model.slots.len(),
        model.slots[q].accepts(model.waiting[0].mode),
    ensures
        model.dispatch(now).waiting.len() < model.waiting.len(),
        !model.dispatch(now).waits(model.waiting[0].id),
{
    lemma_best_exists(model, model.waiting[0].mode, now, q);
    let p = model.best_pile(model.waiting[0].mode, now).unwrap();
    lemma_assign_head(model, p);
    lemma_dispatch(model.assign_head(p), now);
    lemma_dispatch(model, now);
    let next = model.dispatch(now);
    let gone = model.waiting.len() - next.waiting.len();
    lemma_position(next.waiting, model.waiting[0].id);
    if next.waits(model.waiting[0].id) {
        let at = position(next.waiting, model.waiting[0].id);
        assert(next.waiting[at] == model.waiting[at + gone]);
        assert(model.waiting[0].id != model.waiting[at + gone].id);
    }
}

/// Whether two slots hold the same pile, the same charging request with
/// its start, and the same completed sessions: they differ in their queues
/// at most.
pub open spec fn same_sessions(a: PileSlot, b: PileSlot) -> bool {
    &&& a.pile == b.pile
    &&& a.current_charging == b.current_charging
    &&& a.charging_start_time == b.charging_start_time
    &&& a.sessions == b.sessions
    &&& a.opening == b.opening
}

/// Whether no request of the sequence asks for the mode.
pub open spec fn none_of_mode(pending: Seq<ChargingRequest>, mode: ChargingMode) -> bool {
    forall|i: int| 0 <= i < pending.len() ==> (#[trigger] pending[i]).mode != mode
}

/// Placing requests touches nothing but queues and the waiting area: every
/// pile, charging request and start time stays; a slot of a mode that no
/// placed request asks for stays as a whole; and the waiting area is what
/// it was, with the requests that no pile accepted put in behind its first
/// `returned` requests.
pub proof fn lemma_redistribute_keeps(
    model: QueueModel,
    pending: Seq<ChargingRequest>,
    now: i64,
    returned: int,
)
    requires
        0 <= returned <= model.waiting.len(),
    ensures
        model.redistribute(pending, now, returned).slots.len() == model.slots.len(),
        forall|q: int|
            0 <= q < model.slots.len() ==> same_sessions(
                #[trigger] model.redistribute(pending, now, returned).slots[q],
                model.slots[q],
            ),
        forall|q: int|
            0 <= q < model.slots.len() && none_of_mode(pending, model.slots[q].pile.mode)
                ==> #[trigger] model.redistribute(pending, now, returned).slots[q]
                == model.slots[q],
        model.redistribute(pending, now, returned).waiting.len() >= model.waiting.len(),
        model.redistribute(pending, now, returned).waiting.take(returned) == model.waiting.take(
            returned,
        ),
        model.redistribute(pending, now, returned).waiting.skip(
            returned + model.redistribute(pending, now, returned).waiting.len()
                - model.waiting.len(),
        ) == model.waiting.skip(returned),
    decreases pending.len(),
{
    let out = model.redistribute(pending, now, returned);
    if pending.len() == 0 {
        assert(out.waiting.skip(returned) == model.waiting.skip(returned));
    } else {
        let head = pending[0];
        let rest = pending.skip(1);
        let next = model.place(head, now, returned);
        match model.best_pile(head.mode, now) {
            Some(p) => {
                assert(model.is_best(head.mode, now, p));
                lemma_redistribute_keeps(next, rest, now, returned);
                assert forall|q: int| 0 <= q < model.slots.len() implies same_sessions(
                    #[trigger] out.slots[q],
                    model.slots[q],
                ) by {
                    assert(same_sessions(out.slots[q], next.slots[q]));
                }
                assert forall|q: int|
                    0 <= q < model.slots.len() && none_of_mode(
                        pending,
                        model.slots[q].pile.mode,
                    ) implies #[trigger] out.slots[q] == model.slots[q] by {
                    assert(pending[0].mode != model.slots[q].pile.mode);
                    assert(q != p);
                    assert(next.slots[q] == model.slots[q]);
                    assert(none_of_mode(rest, next.slots[q].pile.mode)) by {
                        assert forall|i: int| 0 <= i < rest.len() implies (
                        #[trigger] rest[i]).mode != next.slots[q].pile.mode by {
                            assert(rest[i] == pending[i + 1]);
                        }
                    }
                }
            },
            None => {
                lemma_redistribute_keeps(next, rest, now, returned + 1);
                assert forall|q: int|
                    0 <= q < model.slots.len() && none_of_mode(
                        pending,
                        model.slots[q].pile.mode,
                    ) implies #[trigger] out.slots[q] == model.slots[q] by {
                    assert(none_of_mode(rest, next.slots[q].pile.mode)) by {
                        assert forall|i: int| 0 <= i < rest.len() implies (
                        #[trigger] rest[i]).mode != next.slots[q].pile.mode by {
                            assert(rest[i] == pending[i + 1]);
                        }
                    }
                }
                let grown = out.waiting.len() - next.waiting.len();
                assert(out.waiting.take(returned) =~= model.waiting.take(returned)) by {
                    assert forall|i: int| 0 <= i < returned implies out.waiting.take(returned)[i]
                        == model.waiting.take(returned)[i] by {
                        assert(out.waiting.take(returned + 1)[i] == next.waiting.take(
                            returned + 1,
                        )[i]);
                    }
                }
                assert(next.waiting.skip(returned + 1) =~= model.waiting.skip(returned));
            },
        }
    }
}

/// The queues gathered from valid slots hold requests of the mode only.
pub proof fn lemma_gathered_mode(slots: Seq<PileSlot>, mode: ChargingMode)
    requires
        forall|p: int| 0 <= p < slots.len() ==> (#[trigger] slots[p]).wf(),
    ensures
        forall|i: int|
            0 <= i < gathered(slots, mode).len() ==> (#[trigger] gathered(slots, mode)[i]).mode
                == mode,
    decreases slots.len(),
{
    if slots.len() > 0 {
        let t = slots.drop_last();
        assert forall|p: int| 0 <= p < t.len() implies (#[trigger] t[p]).wf() by {
            assert(t[p] == slots[p]);
        }
        lemma_gathered_mode(t, mode);
        let before = gathered(t, mode);
        let all = gathered(slots, mode);
        let last = slots.last();
        assert(last.wf());
        assert forall|i: int| 0 <= i < all.len() implies (#[trigger] all[i]).mode == mode by {
            if i < before.len() {
                assert(all[i] == before[i]);
            } else {
                assert(all[i] == last.queue[i - before.len()]);
            }
        }
    }
}

/// A repair starts and ends no session. The repaired pile is available;
/// every other pile is as it was; every slot charges the request it
/// charged, from the same start; the slots of the other mode stay as a
/// whole; and the waiting area is what it was, behind the requests that no
/// pile accepted.
pub proof fn lemma_repair_keeps_sessions(model: QueueModel, p: int, now: i64)
    requires
        model.wf(),
        0 <= p < model.slots.len(),
    ensures
        model.repair(p, now).slots.len() == model.slots.len(),
        model.slots[p].pile.status == PileStatus::Fault ==> model.repair(
            p,
            now,
        ).slots[p].pile.status == PileStatus::Available,
        model.repair(p, now).slots[p].pile == model.slots[p].repaired().pile,
        forall|q: int|
            0 <= q < model.slots.len() ==> {
                &&& (#[trigger] model.repair(p, now).slots[q]).current_charging
                    == model.slots[q].current_charging
                &&& model.repair(p, now).slots[q].charging_start_time
                    == model.slots[q].charging_start_time
                &&& model.repair(p, now).slots[q].sessions == model.slots[q].sessions
                &&& q != p ==> model.repair(p, now).slots[q].pile == model.slots[q].pile
                &&& model.slots[q].pile.mode != model.slots[p].pile.mode ==> model.repair(
                    p,
                    now,
                ).slots[q] == model.slots[q]
            },
        model.repair(p, now).waiting.len() >= model.waiting.len(),
        model.repair(p, now).waiting.skip(
            model.repair(p, now).waiting.len() - model.waiting.len(),
        ) == model.waiting,
{
    let mode = model.slots[p].pile.mode;
    let opened = model.slots.update(p, model.slots[p].repaired());
    let cleared = QueueModel { waiting: model.waiting, slots: drained_of(opened, mode) };
    let queues = gathered(opened, mode);
    let pending = sort_by_number(queues);
    let out = model.repair(p, now);
    assert(model.slots[p].wf());
    lemma_slot_repaired(model.slots[p]);
    assert forall|q: int| 0 <= q < opened.len() implies (#[trigger] opened[q]).wf() by {
        if q != p {
            assert(model.slots[q].wf());
        }
    }
    lemma_gathered_mode(opened, mode);
    lemma_sort_by_number(queues);
    assert forall|i: int| 0 <= i < pending.len() implies (#[trigger] pending[i]).mode
        == mode by {
        assert(has_request(queues, pending[i]));
        let j = choose|j: int| 0 <= j < queues.len() && #[trigger] queues[j] == pending[i];
    }
    lemma_redistribute_keeps(cleared, pending, now, 0);
    assert(model.waiting.skip(0) =~= model.waiting);
    assert forall|q: int| 0 <= q < model.slots.len() implies {
        &&& (#[trigger] out.slots[q]).current_charging == model.slots[q].current_charging
        &&& out.slots[q].charging_start_time == model.slots[q].charging_start_time
        &&& out.slots[q].sessions == model.slots[q].sessions
        &&& q != p ==> out.slots[q].pile == model.slots[q].pile
        &&& model.slots[q].pile.mode != mode ==> out.slots[q] == model.slots[q]
    } by {
        assert(same_sessions(out.slots[q], cleared.slots[q]));
        if model.slots[q].pile.mode != mode {
            assert(q != p);
            assert(cleared.slots[q] == model.slots[q]);
            assert(none_of_mode(pending, cleared.slots[q].pile.mode));
        }
    }
    assert(same_sessions(out.slots[p], cleared.slots[p]));
}

/// A request that asks for some energy, waits and carries an identifier
/// that is not tracked is refused exactly where the waiting area is at its
/// capacity, and then with `WaitingAreaFull`; else it joins the end of the
/// waiting area. Whatever the request, the waiting area stays within its
/// capacity and no pile is touched.
pub proof fn lemma_admission_at_capacity(model: QueueModel, request: ChargingRequest)
    requires
        model.wf(),
        model.within_capacity(),
    ensures
        request.amount > 0 && request.status == RequestStatus::Waiting && !model.tracks(
            request.id,
        ) ==> (model.admission(request) == Err::<(), SchedulerError>(
            SchedulerError::WaitingAreaFull,
        ) <==> model.waiting.len() == WAITING_AREA_CAPACITY),
        request.amount > 0 && request.status == RequestStatus::Waiting && !model.tracks(
            request.id,
        ) ==> (model.admission(request).is_ok() <==> model.waiting.len()
            < WAITING_AREA_CAPACITY),
        model.admission(request).is_ok() ==> model.joined(request).within_capacity()
            && model.joined(request).wf() && model.joined(request).slots == model.slots
            && model.joined(request).waiting == model.waiting.push(request),
{
    if model.admission(request).is_ok() {
        lemma_joined(model, request);
    }
}

/// The queues gathered from the piles of a mode hold an identifier exactly
/// if the queue of some pile of the mode holds it.
pub proof fn lemma_gathered_ids(slots: Seq<PileSlot>, mode: ChargingMode, id: u128)
    ensures
        id_set(gathered(slots, mode)).contains(id) <==> exists|q: int|
            0 <= q < slots.len() && (#[trigger] slots[q]).pile.mode == mode && id_set(
                slots[q].queue,
            ).contains(id),
    decreases slots.len(),
{
    if slots.len() == 0 {
        assert(!holds_id(gathered(slots, mode), id));
    } else {
        let t = slots.drop_last();
        let last = slots.last();
        lemma_gathered_ids(t, mode, id);
        lemma_ids_concat(gathered(t, mode), last.queue);
        if id_set(gathered(t, mode)).contains(id) {
            let q = choose|q: int|
                0 <= q < t.len() && (#[trigger] t[q]).pile.mode == mode && id_set(
                    t[q].queue,
                ).contains(id);
            assert(slots[q] == t[q]);
        }
        if last.pile.mode == mode && id_set(last.queue).contains(id) {
            assert(slots[slots.len() - 1].pile.mode == mode);
        }
        if exists|q: int|
            0 <= q < slots.len() && (#[trigger] slots[q]).pile.mode == mode && id_set(
                slots[q].queue,
            ).contains(id) {
            let q = choose|q: int|
                0 <= q < slots.len() && (#[trigger] slots[q]).pile.mode == mode && id_set(
                    slots[q].queue,
                ).contains(id);
            if q < t.len() {
                assert(t[q] == slots[q]);
            }
        }
    }
}

/// Where the pile at the place of a number does not go by the number, no
/// pile does.
pub proof fn lemma_rank_absent(model: QueueModel, number: Seq<char>, k: int, q: int)
    requires
        model.wf(),
        model.is_rank(number, k),
        k == model.slots.len() || model.slots[k].pile.number@ != number,
        0 <= q < model.slots.len(),
    ensures
        model.slots[q].pile.number@ != number,
{
    lemma_precedes_irreflexive(number);
    if q < k {
        assert(precedes(model.slots[q].pile.number@, number));
    } else if q > k {
        lemma_precedes_total(model.slots[k].pile.number@, number);
        assert(precedes(model.slots[k].pile.number@, model.slots[q].pile.number@));
        lemma_precedes_transitive(
            number,
            model.slots[k].pile.number@,
            model.slots[q].pile.number@,
        );
    }
}

/// At the place of its number a pile can join the station exactly where
/// the pile that stands there does not go by the number or is idle; and
/// where it joins, no request is lost and none is made.
pub proof fn lemma_with_pile_keeps(model: QueueModel, k: int, pile: ChargingPile)
    requires
        model.wf(),
        model.is_rank(pile.number@, k),
    ensures
        model.number_in_use(pile.number@) <==> k < model.slots.len() && model.slots[k].pile.number@
            == pile.number@ && !model.slots[k].is_idle(),
        !model.number_in_use(pile.number@) ==> forall|id: u128|
            #[trigger] model.with_pile_at(k, pile).tracks(id) <==> model.tracks(id),
{
    let number = pile.number@;
    let replaced = k < model.slots.len() && model.slots[k].pile.number@ == number;
    if model.number_in_use(number) {
        let q = choose|q: int|
            0 <= q < model.slots.len() && (#[trigger] model.slots[q]).pile.number@ == number
                && !model.slots[q].is_idle();
        if replaced {
            lemma_pile_found(model, number, q);
            lemma_pile_found(model, number, k);
        } else {
            lemma_rank_absent(model, number, k, q);
        }
    }
    if replaced && !model.slots[k].is_idle() {
        assert(model.slots[k].pile.number@ == number);
    }
    if !model.number_in_use(number) {
        let next = model.with_pile_at(k, pile);
        lemma_ids_empty();
        assert(PileSlot::vacant(pile).requests() =~= Seq::<ChargingRequest>::empty());
        if replaced {
            assert(model.slots[k].is_idle());
            assert(model.slots[k].requests() =~= Seq::<ChargingRequest>::empty());
        }
        assert forall|id: u128| #[trigger] next.tracks(id) <==> model.tracks(id) by {
            lemma_tracks(model, id);
            lemma_tracks(next, id);
            if model.placed(id) {
                let q = choose|q: int|
                    0 <= q < model.slots.len() && (#[trigger] model.slots[q]).ids().contains(id);
                let n = if replaced || q < k { q } else { q + 1 };
                assert(next.slots[n] == model.slots[q]);
                assert(next.slots[n].ids().contains(id));
            }
            if next.placed(id) {
                let n = choose|n: int|
                    0 <= n < next.slots.len() && (#[trigger] next.slots[n]).ids().contains(id);
                let q = if replaced || n < k { n } else { n - 1 };
                assert(n != k);
                assert(next.slots[n] == model.slots[q]);
                assert(model.slots[q].ids().contains(id));
            }
        }
    }
}

/// Whether the pile of the slot is in service: available or charging.
pub open spec fn in_service(slot: PileSlot) -> bool {
    slot.pile.status == PileStatus::Available || slot.pile.status == PileStatus::Charging
}

/// The room that the queues of the piles of a mode have left: the places
/// that are free in the queues of those that are in service.
pub open spec fn room(slots: Seq<PileSlot>, mode: ChargingMode) -> int
    decreases slots.len(),
{
    if slots.len() == 0 {
        0
    } else if slots.last().pile.mode == mode && in_service(slots.last()) {
        room(slots.drop_last(), mode) + crate::models::PILE_QUEUE_CAPACITY
            - slots.last().queue.len()
    } else {
        room(slots.drop_last(), mode)
    }
}

/// A request that joins the queue of a slot that accepts it takes one place
/// of the room of its mode.
pub proof fn lemma_room_taken(
    slots: Seq<PileSlot>,
    mode: ChargingMode,
    q: int,
    request: ChargingRequest,
)
    requires
        0 <= q < slots.len(),
        slots[q].accepts(mode),
    ensures
        room(slots.update(q, slots[q].enqueue(request)), mode) == room(slots, mode) - 1,
    decreases slots.len(),
{
    let next = slots.update(q, slots[q].enqueue(request));
    if q == slots.len() - 1 {
        assert(next.drop_last() =~= slots.drop_last());
    } else {
        assert(next.drop_last() =~= slots.drop_last().update(
            q,
            slots.drop_last()[q].enqueue(request),
        ));
        lemma_room_taken(slots.drop_last(), mode, q, request);
    }
}

/// Where the queues are within their capacity and the mode has room left,
/// some slot accepts the mode; and the room is never negative.
pub proof fn lemma_room_left(slots: Seq<PileSlot>, mode: ChargingMode)
    requires
        forall|q: int|
            0 <= q < slots.len() ==> (#[trigger] slots[q]).queue.len()
                <= crate::models::PILE_QUEUE_CAPACITY,
    ensures
        room(slots, mode) >= 0,
        room(slots, mode) > 0 ==> exists|q: int|
            0 <= q < slots.len() && (#[trigger] slots[q]).accepts(mode),
    decreases slots.len(),
{
    if slots.len() > 0 {
        let t = slots.drop_last();
        assert forall|q: int| 0 <= q < t.len() implies (#[trigger] t[q]).queue.len()
            <= crate::models::PILE_QUEUE_CAPACITY by {
            assert(t[q] == slots[q]);
        }
        lemma_room_left(t, mode);
        let last = slots[slots.len() - 1];
        if room(slots, mode) > 0 {
            if room(t, mode) > 0 {
                let q = choose|q: int| 0 <= q < t.len() && (#[trigger] t[q]).accepts(mode);
                assert(slots[q] == t[q]);
            } else {
                assert(last.accepts(mode));
            }
        }
    }
}

/// Requests of one mode that are no more than the room of the mode all find
/// a pile: none goes to the waiting area.
pub proof fn lemma_redistribute_fits(
    model: QueueModel,
    pending: Seq<ChargingRequest>,
    now: i64,
    returned: int,
    mode: ChargingMode,
)
    requires
        model.wf(),
        all_fit(pending),
        no_repeat(pending),
        model.tracks_none(pending),
        0 <= returned <= model.waiting.len(),
        forall|i: int| 0 <= i < pending.len() ==> (#[trigger] pending[i]).mode == mode,
        pending.len() <= room(model.slots, mode),
    ensures
        model.redistribute(pending, now, returned).waiting == model.waiting,
    decreases pending.len(),
{
    if pending.len() > 0 {
        let head = pending[0];
        let rest = pending.skip(1);
        assert forall|q: int| 0 <= q < model.slots.len() implies (
        #[trigger] model.slots[q]).queue.len() <= crate::models::PILE_QUEUE_CAPACITY by {
            assert(model.slots[q].wf());
        }
        lemma_room_left(model.slots, mode);
        let q = choose|q: int| 0 <= q < model.slots.len() && (#[trigger] model.slots[q]).accepts(
            mode,
        );
        lemma_best_exists(model, mode, now, q);
        let p = model.best_pile(head.mode, now).unwrap();
        lemma_room_taken(model.slots, mode, p, head);
        lemma_place_step(model, pending, now, returned);
        let next = model.place(head, now, returned);
        assert forall|i: int| 0 <= i < rest.len() implies (#[trigger] rest[i]).mode == mode by {
            assert(rest[i] == pending[i + 1]);
        }
        lemma_redistribute_fits(next, rest, now, returned, mode);
    }
}

/// The queues gathered from the piles of a mode fit into the room that the
/// emptied queues leave, where all piles of the mode are in service.
pub proof fn lemma_gathered_fits(slots: Seq<PileSlot>, mode: ChargingMode)
    requires
        forall|q: int|
            0 <= q < slots.len() ==> (#[trigger] slots[q]).queue.len()
                <= crate::models::PILE_QUEUE_CAPACITY,
        forall|q: int|
            0 <= q < slots.len() && (#[trigger] slots[q]).pile.mode == mode ==> in_service(
                slots[q],
            ),
    ensures
        gathered(slots, mode).len() <= room(drained_of(slots, mode), mode),
    decreases slots.len(),
{
    if slots.len() > 0 {
        let t = slots.drop_last();
        assert forall|q: int| 0 <= q < t.len() implies (#[trigger] t[q]).queue.len()
            <= crate::models::PILE_QUEUE_CAPACITY by {
            assert(t[q] == slots[q]);
        }
        assert forall|q: int| 0 <= q < t.len() && (#[trigger] t[q]).pile.mode
            == mode implies in_service(t[q]) by {
            assert(t[q] == slots[q]);
        }
        lemma_gathered_fits(t, mode);
        assert(drained_of(slots, mode).drop_last() =~= drained_of(t, mode));
        let last = slots[slots.len() - 1];
        assert(drained_of(slots, mode).last() == if last.pile.mode == mode {
            last.drained()
        } else {
            last
        });
    }
}

/// Where all piles of the repaired pile's mode are in service after the
/// repair, every gathered request finds a pile again: the waiting area is
/// as it was.
pub proof fn lemma_repair_returns_nothing(model: QueueModel, p: int, now: i64)
    requires
        model.wf(),
        0 <= p < model.slots.len(),
        model.slots[p].pile.status == PileStatus::Fault,
        forall|q: int|
            0 <= q < model.slots.len() && q != p && (#[trigger] model.slots[q]).pile.mode
                == model.slots[p].pile.mode ==> in_service(model.slots[q]),
    ensures
        model.repair(p, now).waiting == model.waiting,
{
    let mode = model.slots[p].pile.mode;
    let opened = model.slots.update(p, model.slots[p].repaired());
    let cleared = QueueModel { waiting: model.waiting, slots: drained_of(opened, mode) };
    let queues = gathered(opened, mode);
    let pending = sort_by_number(queues);
    lemma_repair_parts(model, p, now);
    assert forall|q: int| 0 <= q < opened.len() implies (#[trigger] opened[q]).queue.len()
        <= crate::models::PILE_QUEUE_CAPACITY by {
        assert(model.slots[q].wf());
    }
    assert forall|q: int| 0 <= q < opened.len() && (#[trigger] opened[q]).pile.mode
        == mode implies in_service(opened[q]) by {
        if q != p {
            assert(in_service(model.slots[q]));
        }
    }
    lemma_gathered_fits(opened, mode);
    lemma_sort_by_number(queues);
    assert forall|q: int| 0 <= q < opened.len() implies (#[trigger] opened[q]).wf() by {
        assert(model.slots[q].wf());
        if q == p {
            lemma_slot_repaired(model.slots[p]);
        }
    }
    lemma_gathered_mode(opened, mode);
    assert forall|i: int| 0 <= i < pending.len() implies (#[trigger] pending[i]).mode
        == mode by {
        assert(has_request(queues, pending[i]));
        let j = choose|j: int| 0 <= j < queues.len() && #[trigger] queues[j] == pending[i];
    }
    lemma_redistribute_fits(cleared, pending, now, 0, mode);
}

/// The repair of a pile that is out of order leaves the model as
/// `after_repair_of` says.
pub proof fn lemma_repair_outcome(model: QueueModel, p: int, now: i64)
    requires
        model.wf(),
        0 <= p < model.slots.len(),
        model.slots[p].pile.status == PileStatus::Fault,
    ensures
        model.repair(p, now).after_repair_of(model, p),
{
    lemma_repair(model, p, now);
    lemma_repair_keeps_sessions(model, p, now);
}

} // verus!
