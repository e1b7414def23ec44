//! Sequences of requests: which identifiers they hold, where a request
//! stands in them, and how much energy they ask for.

use std::collections::VecDeque;
use vstd::prelude::*;
use crate::models::{ChargingRequest, RequestStatus};
use crate::text::{label_precedes, precedes};

verus! {

/// Whether a request of the sequence carries the identifier.
pub open spec fn holds_id(s: Seq<ChargingRequest>, id: u128) -> bool {
    exists|i: int| 0 <= i < s.len() && #[trigger] s[i].id == id
}

/// The identifiers that the requests of a sequence carry.
pub open spec fn id_set(s: Seq<ChargingRequest>) -> Set<u128> {
    Set::new(|id: u128| holds_id(s, id))
}

/// No two requests of the sequence carry the same identifier.
pub open spec fn no_repeat(s: Seq<ChargingRequest>) -> bool {
    forall|i: int, j: int| 0 <= i < j < s.len() ==> #[trigger] s[i].id != #[trigger] s[j].id
}

/// The place of the first request that carries the identifier, or the
/// length of the sequence if none does.
pub open spec fn position(s: Seq<ChargingRequest>, id: u128) -> int
    decreases s.len(),
{
    if s.len() == 0 {
        0
    } else {
        let before = position(s.drop_last(), id);
        if before < s.len() - 1 {
            before
        } else if s.last().id == id {
            s.len() - 1
        } else {
            s.len() as int
        }
    }
}

/// Whether every request of the sequence waits, asks for some energy, and
/// asks for it in the given mode.
pub open spec fn all_waiting(s: Seq<ChargingRequest>) -> bool {
    forall|i: int| 0 <= i < s.len() ==>
        (#[trigger] s[i]).status == RequestStatus::Waiting && s[i].amount > 0
}

/// The energy that the requests of a sequence ask for together, in
/// watt-hours.
pub open spec fn total_amount(s: Seq<ChargingRequest>) -> int
    decreases s.len(),
{
    if s.len() == 0 {
        0
    } else {
        total_amount(s.drop_last()) + s.last().amount
    }
}

/// `position` finds the first request with the identifier if there is one.
pub proof fn lemma_position(s: Seq<ChargingRequest>, id: u128)
    ensures
        0 <= position(s, id) <= s.len(),
        position(s, id) < s.len() ==> s[position(s, id)].id == id,
        forall|j: int| 0 <= j < position(s, id) ==> (#[trigger] s[j]).id != id,
        position(s, id) < s.len() <==> id_set(s).contains(id),
    decreases s.len(),
{
    if s.len() > 0 {
        let t = s.drop_last();
        lemma_position(t, id);
        assert forall|j: int| 0 <= j < position(s, id) implies (#[trigger] s[j]).id != id by {
            if j < t.len() {
                assert(t[j] == s[j]);
            }
        }
        if position(s, id) < s.len() {
            assert(s[position(s, id)].id == id);
            assert(holds_id(s, id));
        }
        if holds_id(s, id) {
            let i = choose|i: int| 0 <= i < s.len() && #[trigger] s[i].id == id;
            if i < t.len() {
                assert(t[i].id == id);
                assert(holds_id(t, id));
            }
        }
    }
}

/// An empty sequence holds no identifier.
pub proof fn lemma_ids_empty()
    ensures
        id_set(Seq::<ChargingRequest>::empty()) == Set::<u128>::empty(),
        no_repeat(Seq::<ChargingRequest>::empty()),
{
    assert(id_set(Seq::<ChargingRequest>::empty()) =~= Set::<u128>::empty());
}

/// Appending a request adds its identifier; no identifier repeats if none
/// did and the new one was not held.
pub proof fn lemma_ids_push(s: Seq<ChargingRequest>, r: ChargingRequest)
    ensures
        id_set(s.push(r)) == id_set(s).insert(r.id),
        no_repeat(s) && !id_set(s).contains(r.id) ==> no_repeat(s.push(r)),
{
    let t = s.push(r);
    assert forall|id: u128| id_set(t).contains(id) <==> id_set(s).insert(r.id).contains(id) by {
        if holds_id(t, id) {
            let i = choose|i: int| 0 <= i < t.len() && #[trigger] t[i].id == id;
            if i < s.len() {
                assert(s[i].id == id);
            }
        }
        if holds_id(s, id) {
            let i = choose|i: int| 0 <= i < s.len() && #[trigger] s[i].id == id;
            assert(t[i].id == id);
        }
        if id == r.id {
            assert(t[s.len() as int].id == id);
        }
    }
    assert(id_set(t) =~= id_set(s).insert(r.id));
    if no_repeat(s) && !id_set(s).contains(r.id) {
        assert forall|i: int, j: int| 0 <= i < j < t.len() implies #[trigger] t[i].id
            != #[trigger] t[j].id by {
            assert(t[i] == s[i]);
            if j < s.len() {
                assert(t[j] == s[j]);
            } else {
                assert(holds_id(s, s[i].id));
            }
        }
    }
}

/// Putting a request in at a place adds its identifier; no identifier
/// repeats if none did and the new one was not held.
pub proof fn lemma_ids_insert(s: Seq<ChargingRequest>, at: int, r: ChargingRequest)
    requires
        0 <= at <= s.len(),
    ensures
        id_set(s.insert(at, r)) == id_set(s).insert(r.id),
        no_repeat(s) && !id_set(s).contains(r.id) ==> no_repeat(s.insert(at, r)),
{
    let t = s.insert(at, r);
    assert forall|id: u128| id_set(t).contains(id) <==> id_set(s).insert(r.id).contains(id) by {
        if holds_id(t, id) {
            let i = choose|i: int| 0 <= i < t.len() && #[trigger] t[i].id == id;
            if i < at {
                assert(s[i].id == id);
            } else if i > at {
                assert(s[i - 1].id == id);
            }
        }
        if holds_id(s, id) {
            let i = choose|i: int| 0 <= i < s.len() && #[trigger] s[i].id == id;
            if i < at {
                assert(t[i].id == id);
            } else {
                assert(t[i + 1].id == id);
            }
        }
        if id == r.id {
            assert(t[at].id == id);
        }
    }
    assert(id_set(t) =~= id_set(s).insert(r.id));
    if no_repeat(s) && !id_set(s).contains(r.id) {
        assert forall|i: int, j: int| 0 <= i < j < t.len() implies #[trigger] t[i].id
            != #[trigger] t[j].id by {
            let oi = if i < at { i } else { i - 1 };
            let oj = if j < at { j } else { j - 1 };
            if i != at && j != at {
                assert(t[i] == s[oi]);
                assert(t[j] == s[oj]);
            } else if i == at {
                assert(t[j] == s[oj]);
                assert(holds_id(s, s[oj].id));
            } else {
                assert(t[i] == s[oi]);
                assert(holds_id(s, s[oi].id));
            }
        }
    }
}

/// Taking a request out of a sequence without repeats takes its identifier
/// out and leaves the sequence without repeats.
pub proof fn lemma_ids_remove(s: Seq<ChargingRequest>, at: int)
    requires
        0 <= at < s.len(),
        no_repeat(s),
    ensures
        id_set(s.remove(at)) == id_set(s).remove(s[at].id),
        no_repeat(s.remove(at)),
{
    let t = s.remove(at);
    assert forall|id: u128| id_set(t).contains(id) <==> id_set(s).remove(s[at].id).contains(
        id,
    ) by {
        if holds_id(t, id) {
            let i = choose|i: int| 0 <= i < t.len() && #[trigger] t[i].id == id;
            if i < at {
                assert(s[i].id == id);
            } else {
                assert(s[i + 1].id == id);
            }
        }
        if holds_id(s, id) && id != s[at].id {
            let i = choose|i: int| 0 <= i < s.len() && #[trigger] s[i].id == id;
            if i < at {
                assert(t[i].id == id);
            } else {
                assert(t[i - 1].id == id);
            }
        }
    }
    assert(id_set(t) =~= id_set(s).remove(s[at].id));
    assert forall|i: int, j: int| 0 <= i < j < t.len() implies #[trigger] t[i].id
        != #[trigger] t[j].id by {
        let oi = if i < at { i } else { i + 1 };
        let oj = if j < at { j } else { j + 1 };
        assert(t[i] == s[oi]);
        assert(t[j] == s[oj]);
    }
}

/// Replacing a request by one with the same identifier changes neither the
/// identifiers held nor whether any repeats.
pub proof fn lemma_ids_update(s: Seq<ChargingRequest>, at: int, r: ChargingRequest)
    requires
        0 <= at < s.len(),
        r.id == s[at].id,
    ensures
        id_set(s.update(at, r)) == id_set(s),
        no_repeat(s) ==> no_repeat(s.update(at, r)),
{
    let t = s.update(at, r);
    assert forall|id: u128| id_set(t).contains(id) <==> id_set(s).contains(id) by {
        if holds_id(t, id) {
            let i = choose|i: int| 0 <= i < t.len() && #[trigger] t[i].id == id;
            assert(s[i].id == id);
        }
        if holds_id(s, id) {
            let i = choose|i: int| 0 <= i < s.len() && #[trigger] s[i].id == id;
            assert(t[i].id == id);
        }
    }
    assert(id_set(t) =~= id_set(s));
    if no_repeat(s) {
        assert forall|i: int, j: int| 0 <= i < j < t.len() implies #[trigger] t[i].id
            != #[trigger] t[j].id by {
            assert(t[i].id == s[i].id);
            assert(t[j].id == s[j].id);
        }
    }
}

/// Two sequences one behind the other hold the identifiers of both, and none
/// repeats if none repeats in either and they share none.
pub proof fn lemma_ids_concat(a: Seq<ChargingRequest>, b: Seq<ChargingRequest>)
    ensures
        id_set(a + b) == id_set(a).union(id_set(b)),
        no_repeat(a) && no_repeat(b) && id_set(a).disjoint(id_set(b)) ==> no_repeat(a + b),
        no_repeat(a + b) ==> no_repeat(a) && no_repeat(b) && id_set(a).disjoint(id_set(b)),
{
    let t = a + b;
    assert forall|id: u128| id_set(t).contains(id) <==> id_set(a).union(id_set(b)).contains(
        id,
    ) by {
        if holds_id(t, id) {
            let i = choose|i: int| 0 <= i < t.len() && #[trigger] t[i].id == id;
            if i < a.len() {
                assert(a[i].id == id);
            } else {
                assert(b[i - a.len()].id == id);
            }
        }
        if holds_id(a, id) {
            let i = choose|i: int| 0 <= i < a.len() && #[trigger] a[i].id == id;
            assert(t[i].id == id);
        }
        if holds_id(b, id) {
            let i = choose|i: int| 0 <= i < b.len() && #[trigger] b[i].id == id;
            assert(t[i + a.len()].id == id);
        }
    }
    assert(id_set(t) =~= id_set(a).union(id_set(b)));
    if no_repeat(a) && no_repeat(b) && id_set(a).disjoint(id_set(b)) {
        assert forall|i: int, j: int| 0 <= i < j < t.len() implies #[trigger] t[i].id
            != #[trigger] t[j].id by {
            if j < a.len() {
                assert(t[i] == a[i] && t[j] == a[j]);
            } else if i >= a.len() {
                assert(t[i] == b[i - a.len()] && t[j] == b[j - a.len()]);
            } else {
                assert(t[i] == a[i] && t[j] == b[j - a.len()]);
                assert(holds_id(a, a[i].id));
                assert(holds_id(b, b[j - a.len()].id));
                assert(id_set(a).contains(a[i].id));
                assert(id_set(b).contains(b[j - a.len()].id));
            }
        }
    }
    if no_repeat(t) {
        assert forall|i: int, j: int| 0 <= i < j < a.len() implies #[trigger] a[i].id
            != #[trigger] a[j].id by {
            assert(t[i] == a[i] && t[j] == a[j]);
        }
        assert forall|i: int, j: int| 0 <= i < j < b.len() implies #[trigger] b[i].id
            != #[trigger] b[j].id by {
            assert(t[i + a.len()] == b[i] && t[j + a.len()] == b[j]);
        }
        assert forall|id: u128| !(id_set(a).contains(id) && id_set(b).contains(id)) by {
            if holds_id(a, id) && holds_id(b, id) {
                let i = choose|i: int| 0 <= i < a.len() && #[trigger] a[i].id == id;
                let j = choose|j: int| 0 <= j < b.len() && #[trigger] b[j].id == id;
                assert(t[i] == a[i] && t[j + a.len()] == b[j]);
            }
        }
    }
}

/// The place of the first request that carries the identifier, or the
/// length of the queue if none does.
pub fn find_request(requests: &VecDeque<ChargingRequest>, id: u128) -> (at: usize)
    ensures
        at == position(requests@, id),
{
    let mut i: usize = 0;
    while i < requests.len()
        invariant
            i <= requests.len(),
            position(requests@.take(i as int), id) == i,
        decreases requests.len() - i,
    {
        proof {
            assert(requests@.take(i + 1).drop_last() =~= requests@.take(i as int));
        }
        if requests[i].id == id {
            proof {
                lemma_position_prefix(requests@, id, i + 1);
            }
            return i;
        }
        i += 1;
    }
    proof {
        assert(requests@.take(i as int) =~= requests@);
    }
    i
}

/// A place found in the beginning of a sequence is the place in the whole.
pub proof fn lemma_position_prefix(s: Seq<ChargingRequest>, id: u128, n: int)
    requires
        0 <= n <= s.len(),
        position(s.take(n), id) < n,
    ensures
        position(s, id) == position(s.take(n), id),
    decreases s.len() - n,
{
    if n < s.len() {
        assert(s.take(n + 1).drop_last() =~= s.take(n));
        lemma_position_prefix(s, id, n + 1);
    } else {
        assert(s.take(n) =~= s);
    }
}

/// Whether a request of the sequence belongs to the user.
pub open spec fn has_user(s: Seq<ChargingRequest>, user_id: u128) -> bool {
    exists|i: int| 0 <= i < s.len() && (#[trigger] s[i]).user_id == user_id
}

/// The requests of the sequence that do not belong to the user, in their
/// order.
pub open spec fn without_user(s: Seq<ChargingRequest>, user_id: u128) -> Seq<ChargingRequest>
    decreases s.len(),
{
    if s.len() == 0 {
        s
    } else {
        let before = without_user(s.drop_last(), user_id);
        if s.last().user_id == user_id {
            before
        } else {
            before.push(s.last())
        }
    }
}

/// The request with another amount, changed at `now`.
pub open spec fn resized(request: ChargingRequest, amount: u32, now: i64) -> ChargingRequest {
    ChargingRequest { amount, updated_at: now, ..request }
}

/// Whether the request stands somewhere in the sequence.
pub open spec fn has_request(s: Seq<ChargingRequest>, request: ChargingRequest) -> bool {
    exists|j: int| 0 <= j < s.len() && #[trigger] s[j] == request
}

/// What is left when the requests of a user are taken out holds only
/// requests of the sequence.
pub proof fn lemma_without_user_drawn(s: Seq<ChargingRequest>, user_id: u128)
    ensures
        forall|i: int|
            0 <= i < without_user(s, user_id).len() ==> has_request(
                s,
                #[trigger] without_user(s, user_id)[i],
            ),
    decreases s.len(),
{
    let out = without_user(s, user_id);
    if s.len() > 0 {
        let t = s.drop_last();
        let before = without_user(t, user_id);
        lemma_without_user_drawn(t, user_id);
        assert forall|i: int| 0 <= i < out.len() implies has_request(s, #[trigger] out[i]) by {
            if i < before.len() {
                assert(has_request(t, before[i]));
                let j = choose|j: int| 0 <= j < t.len() && #[trigger] t[j] == before[i];
                assert(s[j] == out[i]);
            } else {
                assert(s[s.len() - 1] == out[i]);
            }
        }
    }
}

/// What is left when the requests of a user are taken out holds none of
/// the user; it is the whole sequence if the user had none, and shorter if
/// the user had one.
pub proof fn lemma_without_user(s: Seq<ChargingRequest>, user_id: u128)
    ensures
        without_user(s, user_id).len() <= s.len(),
        !has_user(without_user(s, user_id), user_id),
        !has_user(s, user_id) ==> without_user(s, user_id) == s,
        has_user(s, user_id) ==> without_user(s, user_id).len() < s.len(),
    decreases s.len(),
{
    let out = without_user(s, user_id);
    if s.len() > 0 {
        let t = s.drop_last();
        let before = without_user(t, user_id);
        lemma_without_user(t, user_id);
        if has_user(out, user_id) {
            let i = choose|i: int| 0 <= i < out.len() && (#[trigger] out[i]).user_id == user_id;
            if i < before.len() {
                assert(before[i].user_id == user_id);
            }
        }
        if !has_user(s, user_id) {
            assert(s[s.len() - 1].user_id != user_id);
            if has_user(t, user_id) {
                let i = choose|i: int| 0 <= i < t.len() && (#[trigger] t[i]).user_id == user_id;
                assert(s[i].user_id == user_id);
            }
            assert(out =~= s);
        } else {
            let i = choose|i: int| 0 <= i < s.len() && (#[trigger] s[i]).user_id == user_id;
            if i < t.len() {
                assert(t[i].user_id == user_id);
            }
        }
    }
}

/// Taking the requests of a user out adds no identifier and lets none
/// repeat that did not repeat before.
pub proof fn lemma_without_user_ids(s: Seq<ChargingRequest>, user_id: u128)
    ensures
        id_set(without_user(s, user_id)).subset_of(id_set(s)),
        no_repeat(s) ==> no_repeat(without_user(s, user_id)),
    decreases s.len(),
{
    let out = without_user(s, user_id);
    lemma_without_user_drawn(s, user_id);
    assert forall|id: u128| id_set(out).contains(id) implies id_set(s).contains(id) by {
        let i = choose|i: int| 0 <= i < out.len() && #[trigger] out[i].id == id;
        assert(has_request(s, out[i]));
        let j = choose|j: int| 0 <= j < s.len() && #[trigger] s[j] == out[i];
        assert(s[j].id == id);
    }
    if s.len() > 0 && no_repeat(s) {
        let t = s.drop_last();
        let before = without_user(t, user_id);
        assert(no_repeat(t)) by {
            assert forall|i: int, j: int| 0 <= i < j < t.len() implies #[trigger] t[i].id
                != #[trigger] t[j].id by {
                assert(s[i].id != s[j].id);
            }
        }
        lemma_without_user_ids(t, user_id);
        if s.last().user_id != user_id {
            if id_set(before).contains(s.last().id) {
                assert(id_set(t).contains(s.last().id));
                let i = choose|i: int| 0 <= i < t.len() && #[trigger] t[i].id == s.last().id;
                assert(s[i].id != s[s.len() - 1].id);
            }
            lemma_ids_push(before, s.last());
        }
    }
}

/// Taking the requests of a user out of requests that all wait leaves
/// requests that all wait.
pub proof fn lemma_without_user_waiting(s: Seq<ChargingRequest>, user_id: u128)
    requires
        all_waiting(s),
    ensures
        all_waiting(without_user(s, user_id)),
{
    let out = without_user(s, user_id);
    lemma_without_user_drawn(s, user_id);
    assert forall|i: int| 0 <= i < out.len() implies (#[trigger] out[i]).status
        == RequestStatus::Waiting && out[i].amount > 0 by {
        assert(has_request(s, out[i]));
        let j = choose|j: int| 0 <= j < s.len() && #[trigger] s[j] == out[i];
    }
}

/// Copies the requests that do not belong to the user, in their order.
pub fn requests_of_others(requests: &VecDeque<ChargingRequest>, user_id: u128) -> (kept: VecDeque<
    ChargingRequest,
>)
    ensures
        kept@ == without_user(requests@, user_id),
{
    let mut kept: VecDeque<ChargingRequest> = VecDeque::new();
    let mut i: usize = 0;
    while i < requests.len()
        invariant
            i <= requests.len(),
            kept@ == without_user(requests@.take(i as int), user_id),
        decreases requests.len() - i,
    {
        proof {
            assert(requests@.take(i + 1).drop_last() =~= requests@.take(i as int));
        }
        if requests[i].user_id != user_id {
            kept.push_back(requests[i].clone());
        }
        i += 1;
    }
    proof {
        assert(requests@.take(i as int) =~= requests@);
    }
    kept
}

/// The sequence with one more request, put in behind the last request whose
/// queue number does not come after its own.
pub open spec fn insert_by_number(s: Seq<ChargingRequest>, request: ChargingRequest) -> Seq<
    ChargingRequest,
>
    decreases s.len(),
{
    if s.len() == 0 {
        seq![request]
    } else if precedes(request.queue_number@, s.last().queue_number@) {
        insert_by_number(s.drop_last(), request).push(s.last())
    } else {
        s.push(request)
    }
}

/// The requests of the sequence in ascending order of their queue numbers;
/// requests with the same queue number keep their order.
pub open spec fn sort_by_number(s: Seq<ChargingRequest>) -> Seq<ChargingRequest>
    decreases s.len(),
{
    if s.len() == 0 {
        s
    } else {
        insert_by_number(sort_by_number(s.drop_last()), s.last())
    }
}

/// No request of the sequence has a queue number that comes before that of
/// a request in front of it.
pub open spec fn ordered_by_number(s: Seq<ChargingRequest>) -> bool {
    forall|i: int, j: int|
        0 <= i < j < s.len() ==> !precedes(
            (#[trigger] s[j]).queue_number@,
            (#[trigger] s[i]).queue_number@,
        )
}

/// `insert_by_number` puts the request in at the place behind which every
/// queue number comes after its own and in front of which stands one that
/// does not.
pub proof fn lemma_insert_by_number_at(s: Seq<ChargingRequest>, request: ChargingRequest, at: int)
    requires
        0 <= at <= s.len(),
        forall|j: int| at <= j < s.len() ==>
            precedes(request.queue_number@, (#[trigger] s[j]).queue_number@),
        at > 0 ==> !precedes(request.queue_number@, s[at - 1].queue_number@),
    ensures
        insert_by_number(s, request) == s.insert(at, request),
    decreases s.len(),
{
    if s.len() == 0 {
        assert(s.insert(at, request) =~= seq![request]);
    } else if at == s.len() {
        assert(s.insert(at, request) =~= s.push(request));
    } else {
        let t = s.drop_last();
        assert(precedes(request.queue_number@, s[s.len() - 1].queue_number@));
        assert forall|j: int| at <= j < t.len() implies precedes(
            request.queue_number@,
            (#[trigger] t[j]).queue_number@,
        ) by {
            assert(t[j] == s[j]);
        }
        lemma_insert_by_number_at(t, request, at);
        assert(t.insert(at, request).push(s.last()) =~= s.insert(at, request));
    }
}

/// Putting a request in by its queue number puts it in somewhere.
pub proof fn lemma_insert_by_number(s: Seq<ChargingRequest>, request: ChargingRequest)
    ensures
        exists|at: int| 0 <= at <= s.len() && insert_by_number(s, request) == s.insert(at, request),
        ordered_by_number(s) ==> ordered_by_number(insert_by_number(s, request)),
    decreases s.len(),
{
    if s.len() == 0 {
        assert(s.insert(0, request) =~= seq![request]);
    } else if precedes(request.queue_number@, s.last().queue_number@) {
        let t = s.drop_last();
        lemma_insert_by_number(t, request);
        let at = choose|at: int|
            0 <= at <= t.len() && insert_by_number(t, request) == t.insert(at, request);
        assert(t.insert(at, request).push(s.last()) =~= s.insert(at, request));
        if ordered_by_number(s) {
            assert(ordered_by_number(t)) by {
                assert forall|i: int, j: int| 0 <= i < j < t.len() implies !precedes(
                    (#[trigger] t[j]).queue_number@,
                    (#[trigger] t[i]).queue_number@,
                ) by {
                    assert(t[i] == s[i] && t[j] == s[j]);
                }
            }
            let mid = insert_by_number(t, request);
            let out = insert_by_number(s, request);
            assert forall|i: int, j: int| 0 <= i < j < out.len() implies !precedes(
                (#[trigger] out[j]).queue_number@,
                (#[trigger] out[i]).queue_number@,
            ) by {
                if j < mid.len() {
                    assert(out[i] == mid[i] && out[j] == mid[j]);
                } else {
                    assert(out[j] == s.last());
                    assert(out[i] == mid[i]);
                    if i == at {
                        crate::text::lemma_precedes_total(
                            request.queue_number@,
                            s.last().queue_number@,
                        );
                    } else {
                        let oi = if i < at { i } else { i - 1 };
                        assert(mid[i] == s[oi]);
                        assert(!precedes(s[s.len() - 1].queue_number@, s[oi].queue_number@));
                    }
                }
            }
        }
    } else {
        assert(s.insert(s.len() as int, request) =~= s.push(request));
        if ordered_by_number(s) {
            let out = s.push(request);
            assert forall|i: int, j: int| 0 <= i < j < out.len() implies !precedes(
                (#[trigger] out[j]).queue_number@,
                (#[trigger] out[i]).queue_number@,
            ) by {
                if j < s.len() {
                    assert(out[i] == s[i] && out[j] == s[j]);
                } else {
                    assert(out[i] == s[i]);
                    if i < s.len() - 1 {
                        assert(!precedes(s[s.len() - 1].queue_number@, s[i].queue_number@));
                        if precedes(request.queue_number@, s[i].queue_number@) {
                            // request < s[i] and not (last < s[i]): then last is not
                            // before request either, a contradiction with the order.
                            crate::text::lemma_precedes_total(
                                s[s.len() - 1].queue_number@,
                                s[i].queue_number@,
                            );
                            crate::text::lemma_precedes_total(
                                request.queue_number@,
                                s[s.len() - 1].queue_number@,
                            );
                            if s[s.len() - 1].queue_number@ == s[i].queue_number@ {
                            } else if request.queue_number@ == s[s.len() - 1].queue_number@ {
                            } else {
                                crate::text::lemma_precedes_transitive(
                                    request.queue_number@,
                                    s[i].queue_number@,
                                    s[s.len() - 1].queue_number@,
                                );
                            }
                        }
                    }
                }
            }
        }
    }
}

/// Sorting by queue number keeps the requests: the same identifiers, the
/// same length, every request one of the sequence, none repeated that was
/// not; and it puts them in order.
pub proof fn lemma_sort_by_number(s: Seq<ChargingRequest>)
    ensures
        sort_by_number(s).len() == s.len(),
        id_set(sort_by_number(s)) == id_set(s),
        no_repeat(s) ==> no_repeat(sort_by_number(s)),
        forall|i: int|
            0 <= i < sort_by_number(s).len() ==> has_request(s, #[trigger] sort_by_number(s)[i]),
        ordered_by_number(sort_by_number(s)),
    decreases s.len(),
{
    if s.len() == 0 {
    } else {
        let t = s.drop_last();
        let sorted = sort_by_number(t);
        let out = sort_by_number(s);
        lemma_sort_by_number(t);
        lemma_insert_by_number(sorted, s.last());
        let at = choose|at: int|
            0 <= at <= sorted.len() && insert_by_number(sorted, s.last()) == sorted.insert(
                at,
                s.last(),
            );
        lemma_ids_insert(sorted, at, s.last());
        assert(s =~= t.push(s.last()));
        lemma_ids_push(t, s.last());
        if no_repeat(s) {
            assert(no_repeat(t)) by {
                assert forall|i: int, j: int| 0 <= i < j < t.len() implies #[trigger] t[i].id
                    != #[trigger] t[j].id by {
                    assert(s[i].id != s[j].id);
                }
            }
            if id_set(t).contains(s.last().id) {
                let i = choose|i: int| 0 <= i < t.len() && #[trigger] t[i].id == s.last().id;
                assert(s[i].id != s[s.len() - 1].id);
            }
        }
        assert forall|i: int| 0 <= i < out.len() implies has_request(s, #[trigger] out[i]) by {
            if i == at {
                assert(s[s.len() - 1] == out[i]);
            } else {
                let oi = if i < at { i } else { i - 1 };
                assert(out[i] == sorted[oi]);
                assert(has_request(t, sorted[oi]));
                let j = choose|j: int| 0 <= j < t.len() && #[trigger] t[j] == sorted[oi];
                assert(s[j] == out[i]);
            }
        }
    }
}

/// Sorts requests by their queue numbers; requests with the same queue
/// number keep their order.
pub fn sort_requests(requests: &VecDeque<ChargingRequest>) -> (sorted: Vec<ChargingRequest>)
    ensures
        sorted@ == sort_by_number(requests@),
{
    let mut sorted: Vec<ChargingRequest> = Vec::new();
    let mut i: usize = 0;
    while i < requests.len()
        invariant
            i <= requests.len(),
            sorted@ == sort_by_number(requests@.take(i as int)),
            sorted.len() == i,
        decreases requests.len() - i,
    {
        proof {
            assert(requests@.take(i + 1).drop_last() =~= requests@.take(i as int));
            lemma_sort_by_number(requests@.take(i as int));
        }
        let request = requests[i].clone();
        let mut at: usize = sorted.len();
        while at > 0 && label_precedes(
            request.queue_number.as_str(),
            sorted[at - 1].queue_number.as_str(),
        )
            invariant
                at <= sorted.len(),
                forall|j: int|
                    at <= j < sorted.len() ==> precedes(
                        request.queue_number@,
                        (#[trigger] sorted@[j]).queue_number@,
                    ),
            decreases at,
        {
            at -= 1;
        }
        proof {
            lemma_insert_by_number_at(sorted@, request, at as int);
        }
        sorted.insert(at, request);
        i += 1;
    }
    proof {
        assert(requests@.take(i as int) =~= requests@);
    }
    sorted
}

/// Whether the requests stand in the order in which they were made.
pub open spec fn ordered_by_arrival(s: Seq<ChargingRequest>) -> bool {
    forall|i: int, j: int|
        0 <= i < j < s.len() ==> (#[trigger] s[i]).created_at <= (#[trigger] s[j]).created_at
}

/// The sequence with one more request, put in behind the last request that
/// was not made after it.
pub open spec fn insert_by_arrival(s: Seq<ChargingRequest>, request: ChargingRequest) -> Seq<
    ChargingRequest,
>
    decreases s.len(),
{
    if s.len() == 0 {
        seq![request]
    } else if request.created_at < s.last().created_at {
        insert_by_arrival(s.drop_last(), request).push(s.last())
    } else {
        s.push(request)
    }
}

/// The requests of the sequence in the order in which they were made;
/// requests made at the same instant keep their order.
pub open spec fn sort_by_arrival(s: Seq<ChargingRequest>) -> Seq<ChargingRequest>
    decreases s.len(),
{
    if s.len() == 0 {
        s
    } else {
        insert_by_arrival(sort_by_arrival(s.drop_last()), s.last())
    }
}

/// `insert_by_arrival` puts the request in at the place behind which every
/// request was made after it and in front of which stands one that was not.
pub proof fn lemma_insert_by_arrival_at(s: Seq<ChargingRequest>, request: ChargingRequest, at: int)
    requires
        0 <= at <= s.len(),
        forall|j: int| at <= j < s.len() ==> request.created_at < (#[trigger] s[j]).created_at,
        at > 0 ==> request.created_at >= s[at - 1].created_at,
    ensures
        insert_by_arrival(s, request) == s.insert(at, request),
    decreases s.len(),
{
    if s.len() == 0 {
        assert(s.insert(at, request) =~= seq![request]);
    } else if at == s.len() {
        assert(s.insert(at, request) =~= s.push(request));
    } else {
        let t = s.drop_last();
        assert(request.created_at < s[s.len() - 1].created_at);
        assert forall|j: int| at <= j < t.len() implies request.created_at < (
        #[trigger] t[j]).created_at by {
            assert(t[j] == s[j]);
        }
        lemma_insert_by_arrival_at(t, request, at);
        assert(t.insert(at, request).push(s.last()) =~= s.insert(at, request));
    }
}

/// Putting a request in by the instant at which it was made puts it in
/// somewhere, and keeps requests in order that were in order.
pub proof fn lemma_insert_by_arrival(s: Seq<ChargingRequest>, request: ChargingRequest)
    ensures
        exists|at: int|
            0 <= at <= s.len() && insert_by_arrival(s, request) == s.insert(at, request),
        ordered_by_arrival(s) ==> ordered_by_arrival(insert_by_arrival(s, request)),
    decreases s.len(),
{
    if s.len() == 0 {
        assert(s.insert(0, request) =~= seq![request]);
    } else if request.created_at < s.last().created_at {
        let t = s.drop_last();
        lemma_insert_by_arrival(t, request);
        let at = choose|at: int|
            0 <= at <= t.len() && insert_by_arrival(t, request) == t.insert(at, request);
        assert(t.insert(at, request).push(s.last()) =~= s.insert(at, request));
        if ordered_by_arrival(s) {
            assert(ordered_by_arrival(t)) by {
                assert forall|i: int, j: int| 0 <= i < j < t.len() implies (
                #[trigger] t[i]).created_at <= (#[trigger] t[j]).created_at by {
                    assert(t[i] == s[i] && t[j] == s[j]);
                }
            }
            let mid = insert_by_arrival(t, request);
            let out = insert_by_arrival(s, request);
            assert forall|i: int, j: int| 0 <= i < j < out.len() implies (
            #[trigger] out[i]).created_at <= (#[trigger] out[j]).created_at by {
                if j < mid.len() {
                    assert(out[i] == mid[i] && out[j] == mid[j]);
                } else {
                    assert(out[j] == s.last());
                    assert(out[i] == mid[i]);
                    if i != at {
                        let oi = if i < at { i } else { i - 1 };
                        assert(mid[i] == s[oi]);
                        assert(s[oi].created_at <= s[s.len() - 1].created_at);
                    }
                }
            }
        }
    } else {
        assert(s.insert(s.len() as int, request) =~= s.push(request));
        if ordered_by_arrival(s) {
            let out = s.push(request);
            assert forall|i: int, j: int| 0 <= i < j < out.len() implies (
            #[trigger] out[i]).created_at <= (#[trigger] out[j]).created_at by {
                if j < s.len() {
                    assert(out[i] == s[i] && out[j] == s[j]);
                } else {
                    assert(out[i] == s[i]);
                    if i < s.len() - 1 {
                        assert(s[i].created_at <= s[s.len() - 1].created_at);
                    }
                }
            }
        }
    }
}

/// Sorting by the instant of making keeps the requests: the same length and
/// the same identifiers, every request one of the sequence; and it puts
/// them in order.
pub proof fn lemma_sort_by_arrival(s: Seq<ChargingRequest>)
    ensures
        sort_by_arrival(s).len() == s.len(),
        id_set(sort_by_arrival(s)) == id_set(s),
        forall|i: int|
            0 <= i < sort_by_arrival(s).len() ==> has_request(s, #[trigger] sort_by_arrival(s)[i]),
        ordered_by_arrival(sort_by_arrival(s)),
    decreases s.len(),
{
    if s.len() > 0 {
        let t = s.drop_last();
        let sorted = sort_by_arrival(t);
        let out = sort_by_arrival(s);
        lemma_sort_by_arrival(t);
        lemma_insert_by_arrival(sorted, s.last());
        let at = choose|at: int|
            0 <= at <= sorted.len() && insert_by_arrival(sorted, s.last()) == sorted.insert(
                at,
                s.last(),
            );
        lemma_ids_insert(sorted, at, s.last());
        assert(s =~= t.push(s.last()));
        lemma_ids_push(t, s.last());
        assert forall|i: int| 0 <= i < out.len() implies has_request(s, #[trigger] out[i]) by {
            if i == at {
                assert(s[s.len() - 1] == out[i]);
            } else {
                let oi = if i < at { i } else { i - 1 };
                assert(out[i] == sorted[oi]);
                assert(has_request(t, sorted[oi]));
                let j = choose|j: int| 0 <= j < t.len() && #[trigger] t[j] == sorted[oi];
                assert(s[j] == out[i]);
            }
        }
    }
}

/// Sorts requests by the instants at which they were made; requests made at
/// the same instant keep their order.
pub fn sort_by_created(requests: &Vec<ChargingRequest>) -> (sorted: Vec<ChargingRequest>)
    ensures
        sorted@ == sort_by_arrival(requests@),
{
    let mut sorted: Vec<ChargingRequest> = Vec::new();
    let mut i: usize = 0;
    while i < requests.len()
        invariant
            i <= requests.len(),
            sorted@ == sort_by_arrival(requests@.take(i as int)),
            sorted.len() == i,
        decreases requests.len() - i,
    {
        proof {
            assert(requests@.take(i + 1).drop_last() =~= requests@.take(i as int));
            lemma_sort_by_arrival(requests@.take(i as int));
        }
        let request = requests[i].clone();
        let mut at: usize = sorted.len();
        while at > 0 && request.created_at < sorted[at - 1].created_at
            invariant
                at <= sorted.len(),
                forall|j: int|
                    at <= j < sorted.len() ==>
                        request.created_at < (#[trigger] sorted@[j]).created_at,
            decreases at,
        {
            at -= 1;
        }
        proof {
            lemma_insert_by_arrival_at(sorted@, request, at as int);
        }
        sorted.insert(at, request);
        i += 1;
    }
    proof {
        assert(requests@.take(i as int) =~= requests@);
    }
    sorted
}

/// The requests of the sequence that belong to the user, in their order.
pub open spec fn of_user(s: Seq<ChargingRequest>, user_id: u128) -> Seq<ChargingRequest>
    decreases s.len(),
{
    if s.len() == 0 {
        s
    } else if s.last().user_id == user_id {
        of_user(s.drop_last(), user_id).push(s.last())
    } else {
        of_user(s.drop_last(), user_id)
    }
}

/// Copies the requests that belong to the user, in their order.
pub fn requests_of_user(requests: &Vec<ChargingRequest>, user_id: u128) -> (chosen: Vec<
    ChargingRequest,
>)
    ensures
        chosen@ == of_user(requests@, user_id),
{
    let mut chosen: Vec<ChargingRequest> = Vec::new();
    let mut i: usize = 0;
    while i < requests.len()
        invariant
            i <= requests.len(),
            chosen@ == of_user(requests@.take(i as int), user_id),
        decreases requests.len() - i,
    {
        proof {
            assert(requests@.take(i + 1).drop_last() =~= requests@.take(i as int));
        }
        if requests[i].user_id == user_id {
            chosen.push(requests[i].clone());
        }
        i += 1;
    }
    proof {
        assert(requests@.take(i as int) =~= requests@);
    }
    chosen
}

} // verus!
