//! What holds of the store of urgent tasks across several operations.

use vstd::prelude::*;

use crate::models::UnassignedTaskView;
use crate::mq::urgent::{
    after_assign, after_complete, after_update, can_assign, can_complete, can_update,
    distinct_ids, entry_of, first_match, holds, slot_of, surviving, UrgentEntryView,
};
use crate::schema::TaskIdView;

verus! {

/// In a store without repeated names, the entry found under a name is the
/// entry at any position that bears the name.
pub proof fn lemma_entry_of(s: Seq<UrgentEntryView>, i: int)
    requires
        distinct_ids(s),
        0 <= i < s.len(),
    ensures
        holds(s, s[i].task.id),
        slot_of(s, s[i].task.id) == i,
        entry_of(s, s[i].task.id) == Some(s[i]),
{
    let j = slot_of(s, s[i].task.id);
    assert(s[j].task.id == s[i].task.id);
}

/// A request for a task changes no name and no position, and leaves every
/// other task as it was.
pub proof fn lemma_after_assign_shape(
    s: Seq<UrgentEntryView>,
    id: TaskIdView,
    agent_id: Seq<char>,
    now: i64,
)
    requires
        distinct_ids(s),
    ensures
        after_assign(s, id, agent_id, now).len() == s.len(),
        distinct_ids(after_assign(s, id, agent_id, now)),
        forall|i: int|
            0 <= i < s.len() ==>
                (#[trigger] after_assign(s, id, agent_id, now)[i]).task == s[i].task,
        forall|i: int|
            0 <= i < s.len() && s[i].task.id != id ==> #[trigger] after_assign(
                s,
                id,
                agent_id,
                now,
            )[i] == s[i],
        holds(after_assign(s, id, agent_id, now), id) == holds(s, id),
{
    let t = after_assign(s, id, agent_id, now);
    if can_assign(s, id) {
        let p = slot_of(s, id);
        assert forall|i: int, j: int|
            0 <= i < t.len() && 0 <= j < t.len() && i != j implies (#[trigger] t[i]).task.id != (
        #[trigger] t[j]).task.id by {
            assert(t[i].task.id == s[i].task.id && t[j].task.id == s[j].task.id);
        }
        assert(t[p].task.id == id);
    }
}

/// The stores that a run of requests for one task leads through: the store
/// after each of `requests`, an agent and the time of its request, has been
/// served in turn.
pub open spec fn after_requests(
    s: Seq<UrgentEntryView>,
    id: TaskIdView,
    requests: Seq<(Seq<char>, i64)>,
) -> Seq<UrgentEntryView>
    decreases requests.len(),
{
    if requests.len() == 0 {
        s
    } else {
        after_assign(
            after_requests(s, id, requests.drop_last()),
            id,
            requests.last().0,
            requests.last().1,
        )
    }
}

/// The answer that the request at position `k` of a run gets.
pub open spec fn answer(
    s: Seq<UrgentEntryView>,
    id: TaskIdView,
    requests: Seq<(Seq<char>, i64)>,
    k: int,
) -> bool {
    can_assign(after_requests(s, id, requests.take(k)), id)
}

/// At most one assignment: of any number of requests for a pending urgent
/// task, served in any order, exactly the first is granted. Every later one
/// is refused, and the task stays with the agent of the first.
pub proof fn lemma_exactly_one_winner(
    s: Seq<UrgentEntryView>,
    id: TaskIdView,
    requests: Seq<(Seq<char>, i64)>,
)
    requires
        distinct_ids(s),
        can_assign(s, id),
        requests.len() > 0,
    ensures
        answer(s, id, requests, 0),
        forall|k: int| 1 <= k < requests.len() ==> !answer(s, id, requests, k),
        entry_of(after_requests(s, id, requests), id) == Some(
            s[slot_of(s, id)].taken_by(requests[0].0, requests[0].1),
        ),
        entry_of(after_requests(s, id, requests), id)->0.status is Assigned,
        entry_of(after_requests(s, id, requests), id)->0.assigned_task matches Some(copy)
            && copy.agent_id == requests[0].0 && copy.id == id,
{
    assert(requests.take(0) =~= Seq::empty());
    lemma_requests_after_first(s, id, requests, requests.len() as int);
    assert(requests.take(requests.len() as int) =~= requests);
    assert forall|k: int| 1 <= k < requests.len() implies !answer(s, id, requests, k) by {
        lemma_requests_after_first(s, id, requests, k);
    }
}

/// After the first `k >= 1` requests of a run for a pending task, the store
/// is what the first request made of it.
proof fn lemma_requests_after_first(
    s: Seq<UrgentEntryView>,
    id: TaskIdView,
    requests: Seq<(Seq<char>, i64)>,
    k: int,
)
    requires
        distinct_ids(s),
        can_assign(s, id),
        1 <= k <= requests.len(),
    ensures
        after_requests(s, id, requests.take(k)) == s.update(
            slot_of(s, id),
            s[slot_of(s, id)].taken_by(requests[0].0, requests[0].1),
        ),
        !can_assign(after_requests(s, id, requests.take(k)), id),
        entry_of(after_requests(s, id, requests.take(k)), id) == Some(
            s[slot_of(s, id)].taken_by(requests[0].0, requests[0].1),
        ),
    decreases k,
{
    let p = slot_of(s, id);
    let won = s.update(p, s[p].taken_by(requests[0].0, requests[0].1));
    let upto = requests.take(k);
    assert(upto.drop_last() =~= requests.take(k - 1));
    assert(upto.last() == requests[k - 1]);
    if k == 1 {
        assert(requests.take(0) =~= Seq::empty());
        assert(after_requests(s, id, requests.take(0)) == s);
    } else {
        lemma_requests_after_first(s, id, requests, k - 1);
    }
    assert(after_requests(s, id, upto) == won) by {
        lemma_after_assign_shape(s, id, requests[0].0, requests[0].1);
        assert(won == after_assign(s, id, requests[0].0, requests[0].1));
        lemma_entry_of(won, p);
    }
    lemma_after_assign_shape(s, id, requests[0].0, requests[0].1);
    lemma_entry_of(won, p);
}

/// Terminal states are absorbing: once a task has ended, no request for it,
/// no progress note and no report changes anything in the store, and each of
/// them is turned down.
pub proof fn lemma_terminal_is_absorbing(
    s: Seq<UrgentEntryView>,
    id: TaskIdView,
    agent_id: Seq<char>,
    now: i64,
    log: Option<Seq<char>>,
    stage: Option<Seq<char>>,
    success: bool,
    payload: serde_json::Value,
)
    requires
        entry_of(s, id) matches Some(e) && e.status.terminal(),
    ensures
        !can_assign(s, id),
        !can_update(s, id),
        !can_complete(s, id),
        after_assign(s, id, agent_id, now) == s,
        after_update(s, id, log, stage) == s,
        after_complete(s, id, success, payload) == s,
{
}

/// A task changes its status only along the arrows of its life: a request
/// makes a pending task assigned, a report makes an assigned task completed
/// or failed, and a progress note changes no status at all.
pub proof fn lemma_status_moves_forward(
    s: Seq<UrgentEntryView>,
    id: TaskIdView,
    agent_id: Seq<char>,
    now: i64,
    log: Option<Seq<char>>,
    stage: Option<Seq<char>>,
    success: bool,
    payload: serde_json::Value,
)
    requires
        distinct_ids(s),
        holds(s, id),
    ensures
        entry_of(after_assign(s, id, agent_id, now), id)->0.status == (if entry_of(
            s,
            id,
        )->0.status is Pending {
            crate::schema::TaskStatus::Assigned
        } else {
            entry_of(s, id)->0.status
        }),
        entry_of(after_update(s, id, log, stage), id)->0.status == entry_of(s, id)->0.status,
        entry_of(after_complete(s, id, success, payload), id)->0.status == (if entry_of(
            s,
            id,
        )->0.status is Assigned {
            if success {
                crate::schema::TaskStatus::Completed
            } else {
                crate::schema::TaskStatus::Failed
            }
        } else {
            entry_of(s, id)->0.status
        }),
{
    let p = slot_of(s, id);
    lemma_entry_of(s, p);
    if can_assign(s, id) {
        let t = after_assign(s, id, agent_id, now);
        lemma_after_assign_shape(s, id, agent_id, now);
        lemma_entry_of(t, p);
    }
    if can_update(s, id) {
        let t = after_update(s, id, log, stage);
        assert(distinct_ids(t)) by {
            assert forall|i: int, j: int|
                0 <= i < t.len() && 0 <= j < t.len() && i != j implies (#[trigger] t[i]).task.id
                != (#[trigger] t[j]).task.id by {
                assert(t[i].task.id == s[i].task.id && t[j].task.id == s[j].task.id);
            }
        }
        lemma_entry_of(t, p);
    }
    if can_complete(s, id) {
        let t = after_complete(s, id, success, payload);
        assert(distinct_ids(t)) by {
            assert forall|i: int, j: int|
                0 <= i < t.len() && 0 <= j < t.len() && i != j implies (#[trigger] t[i]).task.id
                != (#[trigger] t[j]).task.id by {
                assert(t[i].task.id == s[i].task.id && t[j].task.id == s[j].task.id);
            }
        }
        lemma_entry_of(t, p);
    }
}

/// A task that an agent has taken is never offered again: whatever
/// capabilities a later search is made with, it does not find the task.
pub proof fn lemma_taken_is_never_offered(s: Seq<UrgentEntryView>, caps: Seq<Seq<char>>, i: int)
    requires
        0 <= i < s.len(),
        s[i].assigned_task is Some,
    ensures
        first_match(s, caps) != Some(i),
{
    lemma_first_match_is_earliest(s, caps);
}

/// After a request for a task has been granted, no search finds the task,
/// so the agents that lost the race do not see it again.
pub proof fn lemma_granted_task_is_hidden(
    s: Seq<UrgentEntryView>,
    id: TaskIdView,
    agent_id: Seq<char>,
    now: i64,
    caps: Seq<Seq<char>>,
)
    requires
        distinct_ids(s),
        can_assign(s, id),
    ensures
        first_match(after_assign(s, id, agent_id, now), caps) matches Some(j) ==> after_assign(
            s,
            id,
            agent_id,
            now,
        )[j].task.id != id,
{
    let t = after_assign(s, id, agent_id, now);
    let p = slot_of(s, id);
    lemma_after_assign_shape(s, id, agent_id, now);
    lemma_first_match_is_earliest(t, caps);
    lemma_taken_is_never_offered(t, caps, p);
    if first_match(t, caps) is Some {
        let j = first_match(t, caps)->0;
        if t[j].task.id == id {
            lemma_entry_of(t, j);
            lemma_entry_of(t, p);
        }
    }
}

/// A task that nobody takes leaves the store with the first sweep that comes
/// after its time to live has run out, and with no earlier one.
pub proof fn lemma_unclaimed_task_is_swept(
    s: Seq<UrgentEntryView>,
    task: UnassignedTaskView,
    added: i64,
    ttl: i64,
    now: i64,
)
    requires
        distinct_ids(s),
        !holds(s, task.id),
    ensures
        holds(surviving(s.push(UrgentEntryView::fresh(task, added, ttl)), now), task.id) <==> now
            - added <= ttl * 1000,
{
    let entry = UrgentEntryView::fresh(task, added, ttl);
    let t = s.push(entry);
    assert(distinct_ids(t)) by {
        assert forall|i: int, j: int|
            0 <= i < t.len() && 0 <= j < t.len() && i != j implies (#[trigger] t[i]).task.id != (
        #[trigger] t[j]).task.id by {
            if i < s.len() && j < s.len() {
                assert(t[i] == s[i] && t[j] == s[j]);
            } else if i < s.len() {
                assert(t[i] == s[i]);
            } else {
                assert(t[j] == s[j]);
            }
        }
    }
    lemma_entry_of(t, s.len() as int);
    lemma_sweep_removes_expired(t, task.id, now);
}

/// First come, first served: the task that an agent is shown is the earliest
/// one in the store that is on offer and that the agent can run. If none is
/// shown, the store holds no such task.
pub proof fn lemma_first_match_is_earliest(s: Seq<UrgentEntryView>, caps: Seq<Seq<char>>)
    ensures
        match first_match(s, caps) {
            Some(i) => {
                &&& 0 <= i < s.len()
                &&& s[i].matches_caps(caps)
                &&& forall|j: int| 0 <= j < i ==> !(#[trigger] s[j]).matches_caps(caps)
            },
            None => forall|j: int| 0 <= j < s.len() ==> !(#[trigger] s[j]).matches_caps(caps),
        },
    decreases s.len(),
{
    if s.len() > 0 {
        let front = s.drop_last();
        lemma_first_match_is_earliest(front, caps);
        match first_match(front, caps) {
            Some(i) => {
                assert(front[i] == s[i]);
                assert forall|j: int| 0 <= j < i implies !(#[trigger] s[j]).matches_caps(caps) by {
                    assert(front[j] == s[j]);
                }
            },
            None => {
                assert forall|j: int| 0 <= j < s.len() - 1 implies !(#[trigger] s[j]).matches_caps(
                    caps,
                ) by {
                    assert(front[j] == s[j]);
                }
            },
        }
    }
}

/// An earliest match is the first match: a position whose task the agent may
/// be shown, with no such task before it, is what the search returns.
pub proof fn lemma_earliest_is_first_match(s: Seq<UrgentEntryView>, caps: Seq<Seq<char>>, i: int)
    requires
        0 <= i < s.len(),
        s[i].matches_caps(caps),
        forall|j: int| 0 <= j < i ==> !(#[trigger] s[j]).matches_caps(caps),
    ensures
        first_match(s, caps) == Some(i),
{
    lemma_first_match_is_earliest(s, caps);
}

/// Two tasks that an agent can run are added, one after the other, to a store
/// that held nothing for the agent. Then the agent is shown the first of the
/// two, and is shown it again for as long as nobody takes it.
pub proof fn lemma_fifo_discovery(
    s: Seq<UrgentEntryView>,
    caps: Seq<Seq<char>>,
    first: UnassignedTaskView,
    second: UnassignedTaskView,
    t1: i64,
    t2: i64,
    ttl: i64,
)
    requires
        first_match(s, caps) is None,
        caps.contains(first.data.capability),
        caps.contains(second.data.capability),
    ensures
        first_match(
            s.push(UrgentEntryView::fresh(first, t1, ttl)).push(
                UrgentEntryView::fresh(second, t2, ttl),
            ),
            caps,
        ) == Some(s.len() as int),
{
    let t = s.push(UrgentEntryView::fresh(first, t1, ttl)).push(
        UrgentEntryView::fresh(second, t2, ttl),
    );
    lemma_first_match_is_earliest(s, caps);
    assert forall|j: int| 0 <= j < s.len() implies !(#[trigger] t[j]).matches_caps(caps) by {
        assert(t[j] == s[j]);
    }
    lemma_earliest_is_first_match(t, caps, s.len() as int);
}

/// A task that nobody took expires as soon as it has waited longer than its
/// time to live, and not before.
pub proof fn lemma_fresh_task_expires(task: UnassignedTaskView, added: i64, ttl: i64, now: i64)
    ensures
        UrgentEntryView::fresh(task, added, ttl).expired_at(now) <==> now - added > ttl * 1000,
{
}

/// A sweep removes every task that has expired and no other: a task is in the
/// store after the sweep exactly when it was there before and has not
/// expired. In particular a task that an agent has taken is never swept.
pub proof fn lemma_sweep_removes_expired(s: Seq<UrgentEntryView>, id: TaskIdView, now: i64)
    requires
        distinct_ids(s),
    ensures
        entry_of(surviving(s, now), id) == match entry_of(s, id) {
            Some(e) => if e.expired_at(now) {
                None
            } else {
                Some(e)
            },
            None => None,
        },
        (entry_of(s, id) is Some && !(entry_of(s, id)->0.status is Pending)) ==> entry_of(
            surviving(s, now),
            id,
        ) == entry_of(s, id),
{
    broadcast use vstd::seq_lib::group_filter_ensures;

    let stays = |e: UrgentEntryView| !e.expired_at(now);
    let t = surviving(s, now);
    lemma_filter_keeps_distinct(s, now);
    if holds(t, id) {
        let j = slot_of(t, id);
        assert(t.contains(t[j]));
        s.lemma_filter_contains_rev(stays, t[j]);
        let i = choose|i: int| 0 <= i < s.len() && s[i] == t[j];
        lemma_entry_of(s, i);
        lemma_entry_of(t, j);
        assert(stays(t[j]));
    } else if holds(s, id) {
        let i = slot_of(s, id);
        if stays(s[i]) {
            assert(t.contains(s[i]));
            let j = choose|j: int| 0 <= j < t.len() && t[j] == s[i];
            assert(t[j].task.id == id);
        }
    }
}

/// A sweep leaves no name twice in the store.
pub proof fn lemma_filter_keeps_distinct(s: Seq<UrgentEntryView>, now: i64)
    requires
        distinct_ids(s),
    ensures
        distinct_ids(surviving(s, now)),
    decreases s.len(),
{
    let stays = |e: UrgentEntryView| !e.expired_at(now);
    let t = surviving(s, now);
    if s.len() > 0 {
        let front = s.drop_last();
        assert(front.push(s.last()) =~= s);
        front.lemma_filter_push(s.last(), stays);
        assert(distinct_ids(front)) by {
            assert forall|i: int, j: int|
                0 <= i < front.len() && 0 <= j < front.len() && i != j implies (
            #[trigger] front[i]).task.id != (#[trigger] front[j]).task.id by {
                assert(front[i] == s[i] && front[j] == s[j]);
            }
        }
        lemma_filter_keeps_distinct(front, now);
        let ft = surviving(front, now);
        if stays(s.last()) {
            assert(t == ft.push(s.last()));
            assert forall|i: int, j: int|
                0 <= i < t.len() && 0 <= j < t.len() && i != j implies (#[trigger] t[i]).task.id
                != (#[trigger] t[j]).task.id by {
                if i < ft.len() && j < ft.len() {
                    assert(t[i] == ft[i] && t[j] == ft[j]);
                } else {
                    let k = if i < ft.len() {
                        i
                    } else {
                        j
                    };
                    assert(ft.contains(ft[k]));
                    front.lemma_filter_contains_rev(stays, ft[k]);
                    let m = choose|m: int| 0 <= m < front.len() && front[m] == ft[k];
                    assert(s[m] == front[m]);
                    assert(s[m].task.id != s[s.len() - 1].task.id);
                }
            }
        }
    } else {
        reveal(Seq::filter);
    }
}

} // verus!
