//! Read-only views of the station for the control surface.

use std::collections::VecDeque;
use vstd::prelude::*;
use crate::models::{ChargingMode, ChargingRequest, PileStatus, PileTotals, RequestStatus};
use crate::scheduler::pile_info::{PileInfo, PileSlot};
use crate::scheduler::queue_manager::{slot_views, QueueManager};
use crate::scheduler::queue_model::QueueModel;
use crate::scheduler::requests::{
    has_user,
    of_user,
    requests_of_user,
    sort_by_arrival,
    sort_by_created,
};

verus! {

/// The requests of the sequence that ask for the mode, in their order.
pub open spec fn of_mode(s: Seq<ChargingRequest>, mode: ChargingMode) -> Seq<ChargingRequest>
    decreases s.len(),
{
    if s.len() == 0 {
        s
    } else if s.last().mode == mode {
        of_mode(s.drop_last(), mode).push(s.last())
    } else {
        of_mode(s.drop_last(), mode)
    }
}

/// The users of the requests of a sequence, in the order of the requests.
pub open spec fn user_ids(s: Seq<ChargingRequest>) -> Seq<u128> {
    s.map_values(|request: ChargingRequest| request.user_id)
}

/// Copies the requests that ask for the mode, in their order.
pub fn requests_of_mode(requests: &VecDeque<ChargingRequest>, mode: ChargingMode) -> (chosen: Vec<
    ChargingRequest,
>)
    ensures
        chosen@ == of_mode(requests@, mode),
{
    let mut chosen: Vec<ChargingRequest> = Vec::new();
    let mut i: usize = 0;
    while i < requests.len()
        invariant
            i <= requests.len(),
            chosen@ == of_mode(requests@.take(i as int), mode),
        decreases requests.len() - i,
    {
        proof {
            assert(requests@.take(i + 1).drop_last() =~= requests@.take(i as int));
        }
        if requests[i].mode == mode {
            chosen.push(requests[i].clone());
        }
        i += 1;
    }
    proof {
        assert(requests@.take(i as int) =~= requests@);
    }
    chosen
}

/// Copies requests.
pub fn copy_requests(requests: &VecDeque<ChargingRequest>) -> (copies: Vec<ChargingRequest>)
    ensures
        copies@ == requests@,
{
    let mut copies: Vec<ChargingRequest> = Vec::new();
    let mut i: usize = 0;
    while i < requests.len()
        invariant
            i <= requests.len(),
            copies@ == requests@.take(i as int),
        decreases requests.len() - i,
    {
        copies.push(requests[i].clone());
        proof {
            assert(requests@.take(i + 1) =~= requests@.take(i as int).push(requests@[i as int]));
        }
        i += 1;
    }
    proof {
        assert(requests@.take(i as int) =~= requests@);
    }
    copies
}

/// The users of requests, in the order of the requests.
pub fn users_of(requests: &Vec<ChargingRequest>) -> (users: Vec<u128>)
    ensures
        users@ == user_ids(requests@),
{
    let mut users: Vec<u128> = Vec::new();
    let mut i: usize = 0;
    while i < requests.len()
        invariant
            i <= requests.len(),
            users@ == user_ids(requests@.take(i as int)),
        decreases requests.len() - i,
    {
        users.push(requests[i].user_id);
        proof {
            assert(requests@.take(i + 1) =~= requests@.take(i as int).push(requests@[i as int]));
            assert(user_ids(requests@.take(i + 1)) =~= user_ids(requests@.take(i as int)).push(
                requests@[i as int].user_id,
            ));
        }
        i += 1;
    }
    proof {
        assert(requests@.take(i as int) =~= requests@);
        assert(user_ids(requests@.take(0)) =~= Seq::<u128>::empty());
    }
    users
}

/// A pile as the control surface sees it.
#[derive(Debug)]
pub struct PileRealTimeStatus {
    /// Number of the pile.
    pub pile_number: String,
    /// Mode of the pile.
    pub pile_mode: ChargingMode,
    /// State of the pile.
    pub pile_status: PileStatus,
    /// Whether the pile neither charges nor has anyone queued.
    pub is_idle: bool,
    /// The user whose request is charging.
    pub current_charging_user: Option<u128>,
    /// The request that is charging.
    pub current_request: Option<ChargingRequest>,
    /// How many requests are queued.
    pub queue_count: usize,
    /// The queued requests, first come first.
    pub queue_requests: Vec<ChargingRequest>,
    /// How far the present session has come, in hundredths of a percent.
    pub charging_progress: Option<u32>,
    /// The cumulative counters of the pile.
    pub totals: PileTotals,
}

impl PileRealTimeStatus {
    /// Whether the status shows the slot as it is at `now`.
    pub open spec fn shows(self, slot: PileSlot, now: i64) -> bool {
        &&& self.pile_number@ == slot.pile.number@
        &&& self.pile_mode == slot.pile.mode
        &&& self.pile_status == slot.pile.status
        &&& self.is_idle == slot.is_idle()
        &&& self.current_charging_user == match slot.current_charging {
            Some(current) => Some(current.user_id),
            None => None,
        }
        &&& self.current_request == slot.current_charging
        &&& self.queue_count == slot.queue.len()
        &&& self.queue_requests@ == slot.queue
        &&& self.charging_progress == slot.progress(now)
        &&& self.totals == slot.pile.totals()
    }

    /// The status of a pile at `now`.
    pub fn of(info: &PileInfo, now: i64) -> (status: Self)
        ensures
            status.shows(info@, now),
    {
        let current_request = match &info.current_charging {
            Some(current) => Some(current.clone()),
            None => None,
        };
        let current_charging_user = match &info.current_charging {
            Some(current) => Some(current.user_id),
            None => None,
        };
        PileRealTimeStatus {
            pile_number: info.pile.number.clone(),
            pile_mode: info.pile.mode,
            pile_status: info.pile.status,
            is_idle: info.is_idle(),
            current_charging_user,
            current_request,
            queue_count: info.queue.len(),
            queue_requests: copy_requests(&info.queue),
            charging_progress: info.get_charging_progress(now),
            totals: info.pile.get_totals(),
        }
    }
}

/// The station as the control surface sees it, with the requests in full.
#[derive(Debug)]
pub struct SystemRealTimeStatusForQueue {
    /// The piles, in ascending order of their numbers.
    pub pile_statuses: Vec<PileRealTimeStatus>,
    /// How many fast requests wait.
    pub fast_waiting_count: usize,
    /// How many slow requests wait.
    pub slow_waiting_count: usize,
    /// The fast requests of the waiting area, first come first.
    pub fast_waiting_requests: Vec<ChargingRequest>,
    /// The slow requests of the waiting area, first come first.
    pub slow_waiting_requests: Vec<ChargingRequest>,
}

impl SystemRealTimeStatusForQueue {
    /// Whether the status shows the model as it is at `now`.
    pub open spec fn shows(self, model: QueueModel, now: i64) -> bool {
        &&& self.pile_statuses.len() == model.slots.len()
        &&& forall|p: int|
            0 <= p < model.slots.len() ==> (#[trigger] self.pile_statuses[p]).shows(
                model.slots[p],
                now,
            )
        &&& self.fast_waiting_requests@ == of_mode(model.waiting, ChargingMode::Fast)
        &&& self.slow_waiting_requests@ == of_mode(model.waiting, ChargingMode::Slow)
        &&& self.fast_waiting_count == self.fast_waiting_requests.len()
        &&& self.slow_waiting_count == self.slow_waiting_requests.len()
    }
}

/// A request as the front end sees it.
#[derive(Debug)]
pub struct ChargingRequestInfo {
    /// Identifier of the request.
    pub id: u128,
    /// Identifier of the user who made it.
    pub user_id: u128,
    /// Mode asked for.
    pub mode: ChargingMode,
    /// Energy asked for, in watt-hours.
    pub amount: u32,
    /// Queue number.
    pub queue_number: String,
    /// Where the request stands in its life.
    pub status: RequestStatus,
    /// When the request was made.
    pub created_at: i64,
}

impl ChargingRequestInfo {
    /// Whether the information is that of the request.
    pub open spec fn shows(self, request: ChargingRequest) -> bool {
        &&& self.id == request.id
        &&& self.user_id == request.user_id
        &&& self.mode == request.mode
        &&& self.amount == request.amount
        &&& self.queue_number == request.queue_number
        &&& self.status == request.status
        &&& self.created_at == request.created_at
    }

    /// The information of a request.
    pub fn of(request: &ChargingRequest) -> (info: Self)
        ensures
            info.shows(*request),
    {
        ChargingRequestInfo {
            id: request.id,
            user_id: request.user_id,
            mode: request.mode,
            amount: request.amount,
            queue_number: request.queue_number.clone(),
            status: request.status,
            created_at: request.created_at,
        }
    }
}

/// The information of each request of a queue, in their order.
pub fn infos_of(requests: &VecDeque<ChargingRequest>) -> (infos: Vec<ChargingRequestInfo>)
    ensures
        infos.len() == requests.len(),
        forall|i: int| 0 <= i < requests.len() ==> (#[trigger] infos[i]).shows(requests@[i]),
{
    let mut infos: Vec<ChargingRequestInfo> = Vec::new();
    let mut i: usize = 0;
    while i < requests.len()
        invariant
            i <= requests.len(),
            infos.len() == i,
            forall|j: int| 0 <= j < i ==> (#[trigger] infos[j]).shows(requests@[j]),
        decreases requests.len() - i,
    {
        infos.push(ChargingRequestInfo::of(&requests[i]));
        i += 1;
    }
    infos
}

/// A pile as the front end sees it.
#[derive(Debug)]
pub struct PileStatusInfo {
    /// Number of the pile.
    pub pile_number: String,
    /// Mode of the pile.
    pub pile_mode: ChargingMode,
    /// The user whose request is charging.
    pub current_charging_user: Option<u128>,
    /// The users whose requests are queued, first come first.
    pub queue_users: Vec<u128>,
    /// How many requests are queued.
    pub queue_count: usize,
    /// Whether the pile neither charges nor has anyone queued.
    pub is_idle: bool,
    /// How far the present session has come, in hundredths of a percent.
    pub charging_progress: Option<u32>,
    /// The request that is charging.
    pub current_request: Option<ChargingRequestInfo>,
    /// The queued requests, first come first.
    pub queue_requests: Vec<ChargingRequestInfo>,
}

impl PileStatusInfo {
    /// Whether the status shows the slot as it is at `now`.
    pub open spec fn shows(self, slot: PileSlot, now: i64) -> bool {
        &&& self.pile_number@ == slot.pile.number@
        &&& self.pile_mode == slot.pile.mode
        &&& self.current_charging_user == match slot.current_charging {
            Some(current) => Some(current.user_id),
            None => None,
        }
        &&& self.queue_users@ == user_ids(slot.queue)
        &&& self.queue_count == slot.queue.len()
        &&& self.is_idle == slot.is_idle()
        &&& self.charging_progress == slot.progress(now)
        &&& match (self.current_request, slot.current_charging) {
            (Some(info), Some(current)) => info.shows(current),
            (None, None) => true,
            _ => false,
        }
        &&& self.queue_requests.len() == slot.queue.len()
        &&& forall|i: int|
            0 <= i < slot.queue.len() ==> (#[trigger] self.queue_requests[i]).shows(slot.queue[i])
    }

    /// The status of a pile at `now`.
    pub fn of(info: &PileInfo, now: i64) -> (status: Self)
        ensures
            status.shows(info@, now),
    {
        let current_request = match &info.current_charging {
            Some(current) => Some(ChargingRequestInfo::of(current)),
            None => None,
        };
        let current_charging_user = match &info.current_charging {
            Some(current) => Some(current.user_id),
            None => None,
        };
        PileStatusInfo {
            pile_number: info.pile.number.clone(),
            pile_mode: info.pile.mode,
            current_charging_user,
            queue_users: users_of(&copy_requests(&info.queue)),
            queue_count: info.queue.len(),
            is_idle: info.is_idle(),
            charging_progress: info.get_charging_progress(now),
            current_request,
            queue_requests: infos_of(&info.queue),
        }
    }
}

/// The station as the front end sees it.
#[derive(Debug)]
pub struct SystemStatus {
    /// The simulated instant of the view.
    pub current_time: i64,
    /// How many fast requests wait.
    pub fast_waiting_count: usize,
    /// How many slow requests wait.
    pub slow_waiting_count: usize,
    /// The users of the fast requests of the waiting area, first come first.
    pub fast_waiting_requests: Vec<u128>,
    /// The users of the slow requests of the waiting area, first come first.
    pub slow_waiting_requests: Vec<u128>,
    /// The piles, in ascending order of their numbers.
    pub pile_statuses: Vec<PileStatusInfo>,
}

impl SystemStatus {
    /// Whether the status shows the model as it is at `now`.
    pub open spec fn shows(self, model: QueueModel, now: i64) -> bool {
        &&& self.current_time == now
        &&& self.pile_statuses.len() == model.slots.len()
        &&& forall|p: int|
            0 <= p < model.slots.len() ==> (#[trigger] self.pile_statuses[p]).shows(
                model.slots[p],
                now,
            )
        &&& self.fast_waiting_requests@ == user_ids(of_mode(model.waiting, ChargingMode::Fast))
        &&& self.slow_waiting_requests@ == user_ids(of_mode(model.waiting, ChargingMode::Slow))
        &&& self.fast_waiting_count == self.fast_waiting_requests.len()
        &&& self.slow_waiting_count == self.slow_waiting_requests.len()
    }
}

impl QueueManager {
    /// The station at `now`, with the requests in full: every pile with its
    /// number, mode, state, present request, progress, queue and counters,
    /// and the waiting requests of each mode.
    pub fn get_status(&self, now: i64) -> (status: SystemRealTimeStatusForQueue)
        ensures
            status.shows(self@, now),
    {
        let piles = self.pile_infos();
        let waiting = self.waiting_queue();
        let mut pile_statuses: Vec<PileRealTimeStatus> = Vec::new();
        let mut p: usize = 0;
        while p < piles.len()
            invariant
                p <= piles.len(),
                slot_views(piles@) == self@.slots,
                pile_statuses.len() == p,
                forall|j: int| 0 <= j < p ==>
                    (#[trigger] pile_statuses[j]).shows(self@.slots[j], now),
            decreases piles.len() - p,
        {
            proof {
                assert(slot_views(piles@)[p as int] == piles@[p as int]@);
            }
            pile_statuses.push(PileRealTimeStatus::of(&piles[p], now));
            p += 1;
        }
        let fast_waiting_requests = requests_of_mode(waiting, ChargingMode::Fast);
        let slow_waiting_requests = requests_of_mode(waiting, ChargingMode::Slow);
        SystemRealTimeStatusForQueue {
            pile_statuses,
            fast_waiting_count: fast_waiting_requests.len(),
            slow_waiting_count: slow_waiting_requests.len(),
            fast_waiting_requests,
            slow_waiting_requests,
        }
    }

    /// The station at `now` as the front end sees it: every pile with its
    /// number, mode, present request, progress and queue, and the users of
    /// the waiting requests of each mode.
    pub fn get_system_status(&self, now: i64) -> (status: SystemStatus)
        ensures
            status.shows(self@, now),
    {
        let piles = self.pile_infos();
        let waiting = self.waiting_queue();
        let mut pile_statuses: Vec<PileStatusInfo> = Vec::new();
        let mut p: usize = 0;
        while p < piles.len()
            invariant
                p <= piles.len(),
                slot_views(piles@) == self@.slots,
                pile_statuses.len() == p,
                forall|j: int| 0 <= j < p ==>
                    (#[trigger] pile_statuses[j]).shows(self@.slots[j], now),
            decreases piles.len() - p,
        {
            proof {
                assert(slot_views(piles@)[p as int] == piles@[p as int]@);
            }
            pile_statuses.push(PileStatusInfo::of(&piles[p], now));
            p += 1;
        }
        let fast = requests_of_mode(waiting, ChargingMode::Fast);
        let slow = requests_of_mode(waiting, ChargingMode::Slow);
        let fast_waiting_requests = users_of(&fast);
        let slow_waiting_requests = users_of(&slow);
        SystemStatus {
            current_time: now,
            fast_waiting_count: fast_waiting_requests.len(),
            slow_waiting_count: slow_waiting_requests.len(),
            fast_waiting_requests,
            slow_waiting_requests,
            pile_statuses,
        }
    }
}

/// The requests at the piles, pile after pile: the one that is charging,
/// then the queue.
pub open spec fn placed_requests(slots: Seq<PileSlot>) -> Seq<ChargingRequest>
    decreases slots.len(),
{
    if slots.len() == 0 {
        Seq::empty()
    } else {
        placed_requests(slots.drop_last()) + slots.last().requests()
    }
}

impl QueueModel {
    /// All requests that the model holds: the waiting area, then the piles.
    pub open spec fn all_requests(self) -> Seq<ChargingRequest> {
        self.waiting + placed_requests(self.slots)
    }

    /// Whether the user has a request in the waiting area and none at a
    /// pile.
    pub open spec fn user_only_waits(self, user_id: u128) -> bool {
        has_user(self.waiting, user_id) && !has_user(placed_requests(self.slots), user_id)
    }
}

impl QueueManager {
    /// Copies of all requests that the station holds: those of the waiting
    /// area, then those of each pile, the charging one before the queued
    /// ones.
    pub fn all_requests(&self) -> (requests: Vec<ChargingRequest>)
        ensures
            requests@ == self@.all_requests(),
    {
        let piles = self.pile_infos();
        let mut requests = copy_requests(self.waiting_queue());
        let ghost slots = self@.slots;
        let mut p: usize = 0;
        while p < piles.len()
            invariant
                p <= piles.len(),
                slots == slot_views(piles@),
                slots == self@.slots,
                requests@ == self@.waiting + placed_requests(slots.take(p as int)),
            decreases piles.len() - p,
        {
            proof {
                assert(slots.take(p + 1).drop_last() =~= slots.take(p as int));
                assert(slots[p as int] == piles@[p as int]@);
            }
            let ghost held = requests@;
            match &piles[p].current_charging {
                Some(current) => {
                    requests.push(current.clone());
                },
                None => {},
            }
            let mut queued = copy_requests(&piles[p].queue);
            requests.append(&mut queued);
            proof {
                assert(requests@ =~= held + slots[p as int].requests());
                assert(requests@ =~= self@.waiting + placed_requests(slots.take(p + 1)));
            }
            p += 1;
        }
        proof {
            assert(slots.take(p as int) =~= slots);
            assert(placed_requests(slots.take(0)) =~= Seq::<ChargingRequest>::empty());
        }
        requests
    }

    /// Copies of the requests of a user, in the order of `all_requests`.
    pub fn user_requests(&self, user_id: u128) -> (requests: Vec<ChargingRequest>)
        ensures
            requests@ == of_user(self@.all_requests(), user_id),
    {
        let all = self.all_requests();
        requests_of_user(&all, user_id)
    }

    /// Copies of the waiting requests of a mode, in the order in which they
    /// were made.
    pub fn charging_queue(&self, mode: ChargingMode) -> (requests: Vec<ChargingRequest>)
        ensures
            requests@ == sort_by_arrival(of_mode(self@.waiting, mode)),
    {
        let chosen = requests_of_mode(self.waiting_queue(), mode);
        sort_by_created(&chosen)
    }

    /// Whether the user has a request in the waiting area and none at a
    /// pile.
    pub fn is_user_in_waiting_area(&self, user_id: u128) -> (yes: bool)
        ensures
            yes == self@.user_only_waits(user_id),
    {
        let waiting = requests_of_user(&copy_requests(self.waiting_queue()), user_id);
        let all = self.user_requests(user_id);
        proof {
            lemma_of_user(self@.waiting, user_id);
            lemma_of_user(self@.all_requests(), user_id);
            lemma_of_user(placed_requests(self@.slots), user_id);
            lemma_of_user_concat(self@.waiting, placed_requests(self@.slots), user_id);
        }
        waiting.len() > 0 && all.len() == waiting.len()
    }
}

/// The requests of a user are none exactly if the sequence holds none of
/// the user.
pub proof fn lemma_of_user(s: Seq<ChargingRequest>, user_id: u128)
    ensures
        of_user(s, user_id).len() > 0 <==> has_user(s, user_id),
    decreases s.len(),
{
    if s.len() > 0 {
        let t = s.drop_last();
        lemma_of_user(t, user_id);
        if has_user(t, user_id) {
            let i = choose|i: int| 0 <= i < t.len() && (#[trigger] t[i]).user_id == user_id;
            assert(s[i].user_id == user_id);
        }
        if s.last().user_id == user_id {
            assert(s[s.len() - 1].user_id == user_id);
        }
        if has_user(s, user_id) {
            let i = choose|i: int| 0 <= i < s.len() && (#[trigger] s[i]).user_id == user_id;
            if i < t.len() {
                assert(t[i].user_id == user_id);
            }
        }
    }
}

/// The requests of a user in two sequences one behind the other are those
/// in the first and then those in the second.
pub proof fn lemma_of_user_concat(a: Seq<ChargingRequest>, b: Seq<ChargingRequest>, user_id: u128)
    ensures
        of_user(a + b, user_id) == of_user(a, user_id) + of_user(b, user_id),
    decreases b.len(),
{
    if b.len() == 0 {
        assert(a + b =~= a);
        assert(of_user(a, user_id) + of_user(b, user_id) =~= of_user(a, user_id));
    } else {
        assert((a + b).drop_last() =~= a + b.drop_last());
        lemma_of_user_concat(a, b.drop_last(), user_id);
        if b.last().user_id == user_id {
            assert(of_user(a, user_id) + of_user(b, user_id) =~= (of_user(a, user_id) + of_user(
                b.drop_last(),
                user_id,
            )).push(b.last()));
        }
    }
}

} // verus!
