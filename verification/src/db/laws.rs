//! What holds of the store of regular tasks across several operations.

use vstd::prelude::*;

use crate::db::persistent_task_storage::{fresh_entries, promoted, stale_entries, task_key};
use crate::db::tree::{
    ascending, filed, filed_all, has_key, lemma_filed, lemma_filed_all, lemma_filed_all_holds,
    lemma_filter_keeps_order, lemma_position_unique, lemma_unfiled, record_at, unfiled,
};
use crate::models::{AssignedTaskView, UnassignedTaskView};
use crate::schema::TaskIdView;

verus! {

/// A task that an agent with an identifier takes is sound when it is filed:
/// it names the agent, and it is stamped no earlier than its creation.
pub proof fn lemma_promoted_is_sound(task: UnassignedTaskView, agent_id: Seq<char>, now: i64)
    requires
        agent_id.len() > 0,
    ensures
        promoted(task, agent_id, now).wf(),
        promoted(task, agent_id, now).id == task.id,
        promoted(task, agent_id, now).agent_id == agent_id,
        promoted(task, agent_id, now).assigned_at >= task.created_at,
        promoted(task, agent_id, now).status is Queued,
{
}

/// Promotion is one step: a task that is taken out of the waiting tasks and
/// filed among the taken ones is afterwards in the second table and not in
/// the first, and every other task is where it was, in both.
pub proof fn lemma_promotion_moves_one_task(
    waiting: Seq<(Seq<u8>, UnassignedTaskView)>,
    taken: Seq<(Seq<u8>, AssignedTaskView)>,
    key: Seq<u8>,
    assigned: AssignedTaskView,
)
    requires
        ascending(waiting),
        ascending(taken),
    ensures
        !has_key(unfiled(waiting, key), key),
        has_key(filed(taken, key, assigned), key),
        record_at(filed(taken, key, assigned), key) == Some(assigned),
        forall|other: Seq<u8>|
            other != key ==> record_at(unfiled(waiting, key), other) == record_at(waiting, other),
        forall|other: Seq<u8>|
            other != key ==> record_at(filed(taken, key, assigned), other) == record_at(
                taken,
                other,
            ),
{
    lemma_unfiled(waiting, key);
    lemma_filed(taken, key, assigned);
}

/// The pick-up of a waiting task, seen from its name: where the task found
/// under the key of `id` bears that name, an agent with an identifier gets a
/// record of that name that names the agent, the task no longer waits, the
/// record is what is found among the taken tasks, and a second request for
/// the name finds nothing to take.
pub proof fn lemma_promotion_of_named_task(
    waiting: Seq<(Seq<u8>, UnassignedTaskView)>,
    taken: Seq<(Seq<u8>, AssignedTaskView)>,
    id: TaskIdView,
    agent_id: Seq<char>,
    now: i64,
)
    requires
        ascending(waiting),
        ascending(taken),
        agent_id.len() > 0,
        record_at(waiting, task_key(id)) matches Some(task) && task.id == id,
    ensures
        promoted(record_at(waiting, task_key(id))->0, agent_id, now).id == id,
        promoted(record_at(waiting, task_key(id))->0, agent_id, now).agent_id == agent_id,
        promoted(record_at(waiting, task_key(id))->0, agent_id, now).wf(),
        record_at(unfiled(waiting, task_key(id)), task_key(id)) is None,
        record_at(
            filed(
                taken,
                task_key(id),
                promoted(record_at(waiting, task_key(id))->0, agent_id, now),
            ),
            task_key(id),
        ) == Some(promoted(record_at(waiting, task_key(id))->0, agent_id, now)),
{
    let task = record_at(waiting, task_key(id))->0;
    lemma_promoted_is_sound(task, agent_id, now);
    lemma_promotion_moves_one_task(
        waiting,
        taken,
        task_key(id),
        promoted(task, agent_id, now),
    );
}

/// The waiting tasks after a run of pick-up requests, each a key, an agent
/// and an instant, has been served in turn.
pub open spec fn waiting_after(
    waiting: Seq<(Seq<u8>, UnassignedTaskView)>,
    requests: Seq<(Seq<u8>, Seq<char>, i64)>,
) -> Seq<(Seq<u8>, UnassignedTaskView)>
    decreases requests.len(),
{
    if requests.len() == 0 {
        waiting
    } else {
        unfiled(waiting_after(waiting, requests.drop_last()), requests.last().0)
    }
}

/// The taken tasks after a run of pick-up requests has been served in turn.
pub open spec fn taken_after(
    waiting: Seq<(Seq<u8>, UnassignedTaskView)>,
    taken: Seq<(Seq<u8>, AssignedTaskView)>,
    requests: Seq<(Seq<u8>, Seq<char>, i64)>,
) -> Seq<(Seq<u8>, AssignedTaskView)>
    decreases requests.len(),
{
    if requests.len() == 0 {
        taken
    } else {
        let before = taken_after(waiting, taken, requests.drop_last());
        let last = requests.last();
        match record_at(waiting_after(waiting, requests.drop_last()), last.0) {
            Some(task) => filed(before, last.0, promoted(task, last.1, last.2)),
            None => before,
        }
    }
}

/// Whether the request at position `k` of a run is granted: the task it asks
/// for still waits when its turn comes.
pub open spec fn granted(
    waiting: Seq<(Seq<u8>, UnassignedTaskView)>,
    requests: Seq<(Seq<u8>, Seq<char>, i64)>,
    k: int,
) -> bool {
    has_key(waiting_after(waiting, requests.take(k)), requests[k].0)
}

/// How many requests of a run are granted.
pub open spec fn grants(
    waiting: Seq<(Seq<u8>, UnassignedTaskView)>,
    requests: Seq<(Seq<u8>, Seq<char>, i64)>,
) -> nat
    decreases requests.len(),
{
    if requests.len() == 0 {
        0
    } else {
        grants(waiting, requests.drop_last()) + if has_key(
            waiting_after(waiting, requests.drop_last()),
            requests.last().0,
        ) {
            1nat
        } else {
            0nat
        }
    }
}

/// Whether every waiting task is asked for by some request of the run.
pub open spec fn all_requested(
    waiting: Seq<(Seq<u8>, UnassignedTaskView)>,
    requests: Seq<(Seq<u8>, Seq<char>, i64)>,
) -> bool {
    forall|j: int|
        0 <= j < waiting.len() ==> exists|i: int|
            0 <= i < requests.len() && (#[trigger] requests[i]).0 == (#[trigger] waiting[j]).0
}

/// A run of pick-up requests, however many agents make them and however
/// often a task is asked for: every granted request takes exactly one task
/// out of the waiting ones, no task that was asked for waits afterwards, and
/// no task waits afterwards that did not wait before.
pub proof fn lemma_run_of_requests(
    waiting: Seq<(Seq<u8>, UnassignedTaskView)>,
    requests: Seq<(Seq<u8>, Seq<char>, i64)>,
)
    requires
        ascending(waiting),
    ensures
        ascending(waiting_after(waiting, requests)),
        waiting_after(waiting, requests).len() + grants(waiting, requests) == waiting.len(),
        forall|i: int|
            0 <= i < requests.len() ==> !has_key(
                waiting_after(waiting, requests),
                (#[trigger] requests[i]).0,
            ),
        forall|key: Seq<u8>|
            has_key(waiting_after(waiting, requests), key) ==> record_at(
                waiting_after(waiting, requests),
                key,
            ) == record_at(waiting, key),
    decreases requests.len(),
{
    if requests.len() > 0 {
        let front = requests.drop_last();
        let last = requests.last();
        let before = waiting_after(waiting, front);
        let after = waiting_after(waiting, requests);
        lemma_run_of_requests(waiting, front);
        lemma_unfiled(before, last.0);
        assert forall|i: int| 0 <= i < requests.len() implies !has_key(
            after,
            (#[trigger] requests[i]).0,
        ) by {
            if i < front.len() {
                assert(front[i] == requests[i]);
                if requests[i].0 != last.0 {
                    assert(record_at(after, requests[i].0) == record_at(before, requests[i].0));
                }
            }
        }
        assert forall|key: Seq<u8>| has_key(after, key) implies record_at(after, key)
            == record_at(waiting, key) by {
            if key != last.0 {
                assert(record_at(after, key) == record_at(before, key));
            }
        }
    }
}

/// At most one winner for each task: of two requests of a run for the same
/// task, the later one is refused.
pub proof fn lemma_one_grant_for_each_task(
    waiting: Seq<(Seq<u8>, UnassignedTaskView)>,
    requests: Seq<(Seq<u8>, Seq<char>, i64)>,
    i: int,
    k: int,
)
    requires
        ascending(waiting),
        0 <= i < k < requests.len(),
        requests[i].0 == requests[k].0,
    ensures
        !granted(waiting, requests, k),
{
    let upto = requests.take(k);
    lemma_run_of_requests(waiting, upto);
    assert(upto[i] == requests[i]);
}

/// The first request of a run for a task that waits is granted.
pub proof fn lemma_first_request_is_granted(
    waiting: Seq<(Seq<u8>, UnassignedTaskView)>,
    requests: Seq<(Seq<u8>, Seq<char>, i64)>,
    k: int,
)
    requires
        ascending(waiting),
        0 <= k < requests.len(),
        has_key(waiting, requests[k].0),
        forall|i: int| 0 <= i < k ==> (#[trigger] requests[i]).0 != requests[k].0,
    ensures
        granted(waiting, requests, k),
{
    lemma_key_survives_other_requests(waiting, requests.take(k), requests[k].0);
}

/// A task that no request of a run asks for waits afterwards as it did
/// before.
pub proof fn lemma_key_survives_other_requests(
    waiting: Seq<(Seq<u8>, UnassignedTaskView)>,
    requests: Seq<(Seq<u8>, Seq<char>, i64)>,
    key: Seq<u8>,
)
    requires
        ascending(waiting),
        forall|i: int| 0 <= i < requests.len() ==> (#[trigger] requests[i]).0 != key,
    ensures
        record_at(waiting_after(waiting, requests), key) == record_at(waiting, key),
    decreases requests.len(),
{
    if requests.len() > 0 {
        let front = requests.drop_last();
        let last = requests.last();
        assert(requests[requests.len() - 1].0 != key);
        assert forall|i: int| 0 <= i < front.len() implies (#[trigger] front[i]).0 != key by {
            assert(front[i] == requests[i]);
        }
        lemma_key_survives_other_requests(waiting, front, key);
        lemma_run_of_requests(waiting, front);
        lemma_unfiled(waiting_after(waiting, front), last.0);
    }
}

/// Where every waiting task is asked for, every task is handed out exactly
/// once: as many requests are granted as tasks waited, and no task waits
/// afterwards.
pub proof fn lemma_every_task_is_handed_out_once(
    waiting: Seq<(Seq<u8>, UnassignedTaskView)>,
    requests: Seq<(Seq<u8>, Seq<char>, i64)>,
)
    requires
        ascending(waiting),
        all_requested(waiting, requests),
    ensures
        waiting_after(waiting, requests).len() == 0,
        grants(waiting, requests) == waiting.len(),
{
    let after = waiting_after(waiting, requests);
    lemma_run_of_requests(waiting, requests);
    if after.len() > 0 {
        let key = after[0].0;
        assert(has_key(after, key));
        assert(record_at(after, key) == record_at(waiting, key));
        assert(has_key(waiting, key));
        let j = choose|j: int| 0 <= j < waiting.len() && (#[trigger] waiting[j]).0 == key;
        let i = choose|i: int|
            0 <= i < requests.len() && (#[trigger] requests[i]).0 == (#[trigger] waiting[j]).0;
        assert(!has_key(after, requests[i].0));
    }
}

/// A run of pick-up requests files one task among the taken ones for each
/// request that is granted, provided that no task was both waiting and
/// taken before: the taken tasks grow by the number of grants.
pub proof fn lemma_taken_grow_by_grants(
    waiting: Seq<(Seq<u8>, UnassignedTaskView)>,
    taken: Seq<(Seq<u8>, AssignedTaskView)>,
    requests: Seq<(Seq<u8>, Seq<char>, i64)>,
)
    requires
        ascending(waiting),
        ascending(taken),
        forall|k: Seq<u8>| !(has_key(waiting, k) && has_key(taken, k)),
    ensures
        ascending(taken_after(waiting, taken, requests)),
        forall|k: Seq<u8>|
            !(has_key(waiting_after(waiting, requests), k) && has_key(
                taken_after(waiting, taken, requests),
                k,
            )),
        taken_after(waiting, taken, requests).len() == taken.len() + grants(waiting, requests),
    decreases requests.len(),
{
    if requests.len() > 0 {
        let front = requests.drop_last();
        let last = requests.last();
        let w = waiting_after(waiting, front);
        let t = taken_after(waiting, taken, front);
        lemma_taken_grow_by_grants(waiting, taken, front);
        lemma_run_of_requests(waiting, front);
        lemma_unfiled(w, last.0);
        match record_at(w, last.0) {
            Some(task) => {
                let record = promoted(task, last.1, last.2);
                lemma_filed(t, last.0, record);
                lemma_promotion_keeps_tables_apart(w, t, last.0, record);
                assert(!has_key(t, last.0));
                crate::db::tree::lemma_place_of(t, last.0);
            },
            None => {
                assert forall|k: Seq<u8>|
                    !(has_key(waiting_after(waiting, requests), k) && has_key(t, k)) by {
                    assert(unfiled(w, last.0) == w);
                }
            },
        }
    }
}

/// Promotion keeps the two tables apart: where no task was both waiting and
/// taken before a task is promoted, none is afterwards.
pub proof fn lemma_promotion_keeps_tables_apart(
    waiting: Seq<(Seq<u8>, UnassignedTaskView)>,
    taken: Seq<(Seq<u8>, AssignedTaskView)>,
    key: Seq<u8>,
    assigned: AssignedTaskView,
)
    requires
        ascending(waiting),
        ascending(taken),
        forall|k: Seq<u8>| !(has_key(waiting, k) && has_key(taken, k)),
    ensures
        forall|k: Seq<u8>|
            !(has_key(unfiled(waiting, key), k) && has_key(filed(taken, key, assigned), k)),
{
    lemma_promotion_moves_one_task(waiting, taken, key, assigned);
    assert forall|k: Seq<u8>|
        !(has_key(unfiled(waiting, key), k) && has_key(filed(taken, key, assigned), k)) by {
        if k != key {
            assert(record_at(unfiled(waiting, key), k) == record_at(waiting, k));
            assert(record_at(filed(taken, key, assigned), k) == record_at(taken, k));
            assert(!(has_key(waiting, k) && has_key(taken, k)));
        }
    }
}

/// Every entry that archival leaves in place is not stale, and every entry
/// that it moves is.
pub proof fn lemma_archival_splits(s: Seq<(Seq<u8>, AssignedTaskView)>, now: i64)
    ensures
        forall|i: int|
            0 <= i < fresh_entries(s, now).len() ==> !(#[trigger] fresh_entries(
                s,
                now,
            )[i]).1.stale_at(now),
        forall|i: int|
            0 <= i < stale_entries(s, now).len() ==> (#[trigger] stale_entries(
                s,
                now,
            )[i]).1.stale_at(now),
        forall|i: int|
            0 <= i < stale_entries(s, now).len() ==> !((#[trigger] stale_entries(
                s,
                now,
            )[i]).1.status is Running),
{
    broadcast use vstd::seq_lib::group_filter_ensures;

}

/// Archival never touches a running task: a running task that was among the
/// taken ones is still among them afterwards, however old it is.
pub proof fn lemma_archival_spares_running(s: Seq<(Seq<u8>, AssignedTaskView)>, now: i64, i: int)
    requires
        0 <= i < s.len(),
        s[i].1.status is Running,
    ensures
        fresh_entries(s, now).contains(s[i]),
{
    broadcast use vstd::seq_lib::group_filter_ensures;

}

/// Archival moves each stale task: a task that was taken and is stale is
/// afterwards found among the tasks put aside, as it was, and no longer
/// among the taken ones; a task that is not stale stays where it was.
pub proof fn lemma_archival_moves_stale(
    taken: Seq<(Seq<u8>, AssignedTaskView)>,
    aside: Seq<(Seq<u8>, AssignedTaskView)>,
    now: i64,
    i: int,
)
    requires
        ascending(taken),
        ascending(aside),
        0 <= i < taken.len(),
    ensures
        taken[i].1.stale_at(now) ==> {
            &&& record_at(filed_all(aside, stale_entries(taken, now)), taken[i].0) == Some(
                taken[i].1,
            )
            &&& !has_key(fresh_entries(taken, now), taken[i].0)
        },
        !taken[i].1.stale_at(now) ==> {
            &&& record_at(fresh_entries(taken, now), taken[i].0) == Some(taken[i].1)
            &&& record_at(filed_all(aside, stale_entries(taken, now)), taken[i].0) == record_at(
                aside,
                taken[i].0,
            )
        },
{
    let stale = |e: (Seq<u8>, AssignedTaskView)| e.1.stale_at(now);
    let fresh = |e: (Seq<u8>, AssignedTaskView)| !e.1.stale_at(now);
    let moved = stale_entries(taken, now);
    let left = fresh_entries(taken, now);
    lemma_filter_keeps_order(taken, stale);
    lemma_filter_keeps_order(taken, fresh);
    lemma_filed_all(aside, moved);
    lemma_position_unique(taken, taken[i].0, i);
    if taken[i].1.stale_at(now) {
        assert(moved.contains(taken[i]));
        let j = choose|j: int| 0 <= j < moved.len() && moved[j] == taken[i];
        lemma_filed_all_holds(aside, moved, j);
        if has_key(left, taken[i].0) {
            let k = choose|k: int| 0 <= k < left.len() && #[trigger] left[k].0 == taken[i].0;
            assert(taken.contains(left[k]));
            let m = choose|m: int| 0 <= m < taken.len() && taken[m] == left[k];
            lemma_position_unique(taken, taken[i].0, m);
        }
    } else {
        assert(left.contains(taken[i]));
        let j = choose|j: int| 0 <= j < left.len() && left[j] == taken[i];
        lemma_position_unique(left, taken[i].0, j);
        if has_key(moved, taken[i].0) {
            let k = choose|k: int| 0 <= k < moved.len() && #[trigger] moved[k].0 == taken[i].0;
            assert(taken.contains(moved[k]));
            let m = choose|m: int| 0 <= m < taken.len() && taken[m] == moved[k];
            lemma_position_unique(taken, taken[i].0, m);
        }
    }
}

/// Archival keeps the two tables apart: where no task was both taken and put
/// aside before, none is afterwards.
pub proof fn lemma_archival_keeps_tables_apart(
    taken: Seq<(Seq<u8>, AssignedTaskView)>,
    aside: Seq<(Seq<u8>, AssignedTaskView)>,
    now: i64,
)
    requires
        ascending(taken),
        ascending(aside),
        forall|k: Seq<u8>| !(has_key(taken, k) && has_key(aside, k)),
    ensures
        forall|k: Seq<u8>|
            !(has_key(fresh_entries(taken, now), k) && has_key(
                filed_all(aside, stale_entries(taken, now)),
                k,
            )),
{
    let stale = |e: (Seq<u8>, AssignedTaskView)| e.1.stale_at(now);
    let fresh = |e: (Seq<u8>, AssignedTaskView)| !e.1.stale_at(now);
    let moved = stale_entries(taken, now);
    let left = fresh_entries(taken, now);
    lemma_filter_keeps_order(taken, stale);
    lemma_filter_keeps_order(taken, fresh);
    lemma_filed_all(aside, moved);
    assert forall|k: Seq<u8>| !(has_key(left, k) && has_key(filed_all(aside, moved), k)) by {
        if has_key(left, k) && has_key(filed_all(aside, moved), k) {
            let a = choose|a: int| 0 <= a < left.len() && #[trigger] left[a].0 == k;
            assert(taken.contains(left[a]));
            let m = choose|m: int| 0 <= m < taken.len() && taken[m] == left[a];
            assert(taken[m].0 == k);
            assert(has_key(taken, k));
            assert(!has_key(aside, k));
            let b = choose|b: int| 0 <= b < moved.len() && #[trigger] moved[b].0 == k;
            assert(taken.contains(moved[b]));
            let n = choose|n: int| 0 <= n < taken.len() && taken[n] == moved[b];
            lemma_position_unique(taken, k, m);
            lemma_position_unique(taken, k, n);
        }
    }
}

/// Filtering a sequence all of whose members pass the test changes nothing.
proof fn lemma_filter_all<A>(s: Seq<A>, pred: spec_fn(A) -> bool)
    requires
        forall|i: int| 0 <= i < s.len() ==> pred(#[trigger] s[i]),
    ensures
        s.filter(pred) == s,
    decreases s.len(),
{
    reveal(Seq::filter);
    if s.len() > 0 {
        lemma_filter_all(s.drop_last(), pred);
        assert(s.drop_last().push(s.last()) =~= s);
    }
}

/// Filtering a sequence none of whose members pass the test leaves nothing.
proof fn lemma_filter_none<A>(s: Seq<A>, pred: spec_fn(A) -> bool)
    requires
        forall|i: int| 0 <= i < s.len() ==> !pred(#[trigger] s[i]),
    ensures
        s.filter(pred).len() == 0,
    decreases s.len(),
{
    reveal(Seq::filter);
    if s.len() > 0 {
        lemma_filter_none(s.drop_last(), pred);
    }
}

/// Archival, run again at the same instant, does nothing: after a first run
/// no taken task is stale, so a second run moves none and leaves both tables
/// as the first run left them.
pub proof fn lemma_archival_is_idempotent(
    taken: Seq<(Seq<u8>, AssignedTaskView)>,
    aside: Seq<(Seq<u8>, AssignedTaskView)>,
    now: i64,
)
    ensures
        stale_entries(fresh_entries(taken, now), now).len() == 0,
        fresh_entries(fresh_entries(taken, now), now) == fresh_entries(taken, now),
        filed_all(
            filed_all(aside, stale_entries(taken, now)),
            stale_entries(fresh_entries(taken, now), now),
        ) == filed_all(aside, stale_entries(taken, now)),
{
    let left = fresh_entries(taken, now);
    lemma_archival_splits(taken, now);
    lemma_filter_all(left, |e: (Seq<u8>, AssignedTaskView)| !e.1.stale_at(now));
    lemma_filter_none(left, |e: (Seq<u8>, AssignedTaskView)| e.1.stale_at(now));
}

} // verus!
