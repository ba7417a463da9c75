//! The store of regular tasks: three tables keyed by `capability|id`.
//!
//! A task waits in `unassigned` until an agent takes it, lives in `assigned`
//! while the agent works on it and for a week after, and ends in `archived`.
//! Each operation changes the tables in one step, so that a task is never
//! seen in two of them, or in none, on the way from one to the next.

use vstd::prelude::*;
use vstd::string::*;
use vstd::utf8::encode_utf8;

use crate::clock;
use crate::db::tree::{
    ascending, filed, filed_all, has_key, lemma_filed, lemma_records_step, lemma_under_prefix_step,
    lemma_unfiled, lemma_views_push, opt_view, record_at, records, under_prefix, unfiled, views,
    Tree,
};
use crate::error::AppError;
use crate::models::{AssignedTask, AssignedTaskView, UnassignedTask, UnassignedTaskView};
use crate::schema::{texts, TaskId, TaskIdView, TaskStatus};
use crate::utils::append_bytes;

verus! {

/// The key a task is filed under: its capability, a bar, and its identifier,
/// as UTF-8.
pub open spec fn task_key(id: TaskIdView) -> Seq<u8> {
    encode_utf8(id.cap) + seq![0x7Cu8] + encode_utf8(id.id)
}

/// The prefix shared by the keys of a capability's tasks: the capability and
/// a bar, as UTF-8.
pub open spec fn capability_prefix(cap: Seq<char>) -> Seq<u8> {
    encode_utf8(cap) + seq![0x7Cu8]
}

/// Every waiting task is filed under the key of its own name.
pub open spec fn unassigned_keyed(s: Seq<(Seq<u8>, UnassignedTaskView)>) -> bool {
    forall|i: int| 0 <= i < s.len() ==> (#[trigger] s[i]).0 == task_key(s[i].1.id)
}

/// Every taken task is filed under the key of its own name, was taken by
/// somebody, and not before it was created.
pub open spec fn assigned_sound(s: Seq<(Seq<u8>, AssignedTaskView)>) -> bool {
    forall|i: int|
        0 <= i < s.len() ==> (#[trigger] s[i]).0 == task_key(s[i].1.id) && s[i].1.wf()
}

/// Every one of `tasks` was taken by somebody, and not before it was
/// created.
pub open spec fn all_taken_soundly(tasks: Seq<AssignedTask>) -> bool {
    forall|i: int| 0 <= i < tasks.len() ==> (#[trigger] tasks[i])@.wf()
}

/// A task as the store files it on pick-up: taken by the agent at `now` and
/// queued with it.
pub open spec fn promoted(task: UnassignedTaskView, agent_id: Seq<char>, now: i64) -> AssignedTaskView {
    task.assigned_to(agent_id, now).with_status(TaskStatus::Queued)
}

/// The tasks found by scanning for each of `caps` in turn, one scan after the
/// other. A task that several scans find is listed once per scan.
pub open spec fn under_capabilities(
    s: Seq<(Seq<u8>, UnassignedTaskView)>,
    caps: Seq<Seq<char>>,
) -> Seq<UnassignedTaskView>
    decreases caps.len(),
{
    if caps.len() == 0 {
        Seq::empty()
    } else {
        under_capabilities(s, caps.drop_last()) + under_prefix(s, capability_prefix(caps.last()))
    }
}

/// The entries of `s` that may be archived at `now`.
pub open spec fn stale_entries(
    s: Seq<(Seq<u8>, AssignedTaskView)>,
    now: i64,
) -> Seq<(Seq<u8>, AssignedTaskView)> {
    s.filter(|e: (Seq<u8>, AssignedTaskView)| e.1.stale_at(now))
}

/// The entries of `s` that may not be archived at `now`.
pub open spec fn fresh_entries(
    s: Seq<(Seq<u8>, AssignedTaskView)>,
    now: i64,
) -> Seq<(Seq<u8>, AssignedTaskView)> {
    s.filter(|e: (Seq<u8>, AssignedTaskView)| !e.1.stale_at(now))
}

/// The prefix shared by the keys of the tasks of `capability`.
pub fn make_prefix(capability: &str) -> (prefix: Vec<u8>)
    ensures
        prefix@ == capability_prefix(capability@),
{
    let mut prefix: Vec<u8> = Vec::new();
    append_bytes(&mut prefix, capability.as_bytes());
    prefix.push(0x7C);
    prefix
}

/// Waiting tasks, each with the key it is filed under.
pub open spec fn keyed_unassigned(tasks: Seq<UnassignedTask>) -> Seq<(Seq<u8>, UnassignedTaskView)> {
    Seq::new(tasks.len(), |i: int| (task_key(tasks[i]@.id), tasks[i]@))
}

/// Taken tasks, each with the key it is filed under.
pub open spec fn keyed_assigned(tasks: Seq<AssignedTask>) -> Seq<(Seq<u8>, AssignedTaskView)> {
    Seq::new(tasks.len(), |i: int| (task_key(tasks[i]@.id), tasks[i]@))
}

/// The three tables of regular tasks.
pub struct TaskStorage {
    unassigned: Tree<UnassignedTask>,
    assigned: Tree<AssignedTask>,
    archived: Tree<AssignedTask>,
}

impl TaskStorage {
    /// The tasks that wait for an agent, with their keys, in key order.
    pub closed spec fn unassigned(&self) -> Seq<(Seq<u8>, UnassignedTaskView)> {
        self.unassigned.entries()
    }

    /// The tasks that agents have taken, with their keys, in key order.
    pub closed spec fn assigned(&self) -> Seq<(Seq<u8>, AssignedTaskView)> {
        self.assigned.entries()
    }

    /// The tasks that were put aside, with their keys, in key order.
    pub closed spec fn archived(&self) -> Seq<(Seq<u8>, AssignedTaskView)> {
        self.archived.entries()
    }

    /// The store's invariant: each table is in strictly ascending key order,
    /// each task is filed under the key of its own name, and each taken task
    /// was taken by somebody, and not before it was created.
    pub open spec fn wf(&self) -> bool {
        &&& ascending(self.unassigned())
        &&& ascending(self.assigned())
        &&& ascending(self.archived())
        &&& unassigned_keyed(self.unassigned())
        &&& assigned_sound(self.assigned())
        &&& assigned_sound(self.archived())
    }

    /// Whether a task named `id` waits for an agent.
    pub open spec fn is_unassigned(&self, id: TaskIdView) -> bool {
        has_key(self.unassigned(), task_key(id))
    }

    /// Whether a task named `id` has been taken by an agent.
    pub open spec fn is_assigned(&self, id: TaskIdView) -> bool {
        has_key(self.assigned(), task_key(id))
    }

    /// Whether a task named `id` has been put aside.
    pub open spec fn is_archived(&self, id: TaskIdView) -> bool {
        has_key(self.archived(), task_key(id))
    }

    /// An empty store.
    pub fn new() -> (store: Self)
        ensures
            store.wf(),
            store.unassigned().len() == 0,
            store.assigned().len() == 0,
            store.archived().len() == 0,
    {
        TaskStorage { unassigned: Tree::new(), assigned: Tree::new(), archived: Tree::new() }
    }

    /// A store over the records that were kept: each task is filed under
    /// its name, in the table it is given for. Of two tasks of one name in
    /// one table the later one stays.
    pub fn open(
        unassigned: Vec<UnassignedTask>,
        assigned: Vec<AssignedTask>,
        archived: Vec<AssignedTask>,
    ) -> (store: Self)
        requires
            all_taken_soundly(assigned@),
            all_taken_soundly(archived@),
        ensures
            store.wf(),
            store.unassigned() == filed_all(Seq::empty(), keyed_unassigned(unassigned@)),
            store.assigned() == filed_all(Seq::empty(), keyed_assigned(assigned@)),
            store.archived() == filed_all(Seq::empty(), keyed_assigned(archived@)),
    {
        let mut store = Self::new();
        let mut i: usize = 0;
        proof {
            assert(store.unassigned() =~= Seq::empty());
            assert(store.assigned() =~= Seq::empty());
            assert(store.archived() =~= Seq::empty());
            assert(keyed_unassigned(unassigned@).take(0) =~= Seq::empty());
        }
        while i < unassigned.len()
            invariant
                i <= unassigned@.len(),
                all_taken_soundly(assigned@),
                all_taken_soundly(archived@),
                store.wf(),
                store.assigned() == Seq::<(Seq<u8>, AssignedTaskView)>::empty(),
                store.archived() == Seq::<(Seq<u8>, AssignedTaskView)>::empty(),
                store.unassigned() == filed_all(
                    Seq::empty(),
                    keyed_unassigned(unassigned@).take(i as int),
                ),
            decreases unassigned@.len() - i,
        {
            proof {
                let upto = keyed_unassigned(unassigned@).take(i + 1);
                assert(upto.drop_last() =~= keyed_unassigned(unassigned@).take(i as int));
            }
            store.add_unassigned(&unassigned[i]);
            i += 1;
        }
        assert(keyed_unassigned(unassigned@).take(i as int) =~= keyed_unassigned(unassigned@));
        let mut j: usize = 0;
        proof {
            assert(keyed_assigned(assigned@).take(0) =~= Seq::empty());
        }
        while j < assigned.len()
            invariant
                j <= assigned@.len(),
                all_taken_soundly(assigned@),
                all_taken_soundly(archived@),
                store.wf(),
                store.unassigned() == filed_all(Seq::empty(), keyed_unassigned(unassigned@)),
                store.archived() == Seq::<(Seq<u8>, AssignedTaskView)>::empty(),
                store.assigned() == filed_all(
                    Seq::empty(),
                    keyed_assigned(assigned@).take(j as int),
                ),
            decreases assigned@.len() - j,
        {
            proof {
                let upto = keyed_assigned(assigned@).take(j + 1);
                assert(upto.drop_last() =~= keyed_assigned(assigned@).take(j as int));
            }
            store.update_assigned(&assigned[j]);
            j += 1;
        }
        assert(keyed_assigned(assigned@).take(j as int) =~= keyed_assigned(assigned@));
        let mut k: usize = 0;
        proof {
            assert(keyed_assigned(archived@).take(0) =~= Seq::empty());
        }
        while k < archived.len()
            invariant
                k <= archived@.len(),
                all_taken_soundly(archived@),
                store.wf(),
                store.unassigned() == filed_all(Seq::empty(), keyed_unassigned(unassigned@)),
                store.assigned() == filed_all(Seq::empty(), keyed_assigned(assigned@)),
                store.archived() == filed_all(
                    Seq::empty(),
                    keyed_assigned(archived@).take(k as int),
                ),
            decreases archived@.len() - k,
        {
            let task = &archived[k];
            let key = Self::make_key(&task.id);
            proof {
                let upto = keyed_assigned(archived@).take(k + 1);
                assert(upto.drop_last() =~= keyed_assigned(archived@).take(k as int));
                lemma_filed(store.archived(), key@, task@);
                lemma_filed_keeps_assigned_sound(store.archived(), task@);
            }
            store.archived.insert(key, task.clone());
            k += 1;
        }
        assert(keyed_assigned(archived@).take(k as int) =~= keyed_assigned(archived@));
        store
    }

    /// The key a task named `id` is filed under.
    pub fn make_key(id: &TaskId) -> (key: Vec<u8>)
        ensures
            key@ == task_key(id@),
    {
        let mut key: Vec<u8> = Vec::new();
        append_bytes(&mut key, id.cap.as_str().as_bytes());
        key.push(0x7C);
        append_bytes(&mut key, id.id.as_str().as_bytes());
        key
    }

    /// Files a task among those that wait for an agent. A task of the same
    /// name that waited there is replaced.
    pub fn add_unassigned(&mut self, task: &UnassignedTask)
        requires
            old(self).wf(),
        ensures
            final(self).wf(),
            final(self).unassigned() == filed(old(self).unassigned(), task_key(task@.id), task@),
            final(self).assigned() == old(self).assigned(),
            final(self).archived() == old(self).archived(),
            record_at(final(self).unassigned(), task_key(task@.id)) == Some(task@),
    {
        let key = Self::make_key(&task.id);
        proof {
            lemma_filed(self.unassigned(), key@, task@);
            lemma_filed_keeps_unassigned_keyed(self.unassigned(), task@);
        }
        self.unassigned.insert(key, task.clone());
    }

    /// Hands the waiting task named `id` to `agent_id`, which is not empty,
    /// at `now`.
    ///
    /// If the task waits, it leaves the waiting tasks and is filed among the
    /// taken ones, queued with the agent, in one step; the filed record is
    /// returned. If it does not wait, nothing changes and the call fails with
    /// `Conflict`.
    pub fn assign_task_at(&mut self, id: &TaskId, agent_id: &str, now: i64) -> (r: Result<
        AssignedTask,
        AppError,
    >)
        requires
            old(self).wf(),
            agent_id@.len() > 0,
        ensures
            final(self).wf(),
            final(self).archived() == old(self).archived(),
            match record_at(old(self).unassigned(), task_key(id@)) {
                Some(task) => {
                    &&& r matches Ok(assigned)
                    &&& assigned@ == promoted(task, agent_id@, now)
                    &&& final(self).unassigned() == unfiled(old(self).unassigned(), task_key(id@))
                    &&& final(self).assigned() == filed(
                        old(self).assigned(),
                        task_key(id@),
                        assigned@,
                    )
                    &&& !final(self).is_unassigned(id@)
                    &&& record_at(final(self).assigned(), task_key(id@)) == Some(assigned@)
                },
                None => {
                    &&& r matches Err(e)
                    &&& e is Conflict
                    &&& final(self).unassigned() == old(self).unassigned()
                    &&& final(self).assigned() == old(self).assigned()
                },
            },
    {
        let key = Self::make_key(id);
        proof {
            lemma_unfiled(self.unassigned(), key@);
            lemma_unfiled_keeps_unassigned_keyed(self.unassigned(), key@);
        }
        let ghost waiting = self.unassigned();
        match self.unassigned.remove(key.as_slice()) {
            Some(task) => {
                proof {
                    lemma_record_is_keyed(waiting, key@);
                }
                let mut assigned = task.into_assigned_at(agent_id, now);
                assigned.status = TaskStatus::Queued;
                proof {
                    lemma_filed(self.assigned(), key@, assigned@);
                    lemma_filed_keeps_assigned_sound(self.assigned(), assigned@);
                }
                self.assigned.insert(key, assigned.clone());
                Ok(assigned)
            },
            None => {
                let mut text = "Unassigned task not found: ".to_owned();
                text.append(id.to_string().as_str());
                Err(AppError::Conflict(text))
            },
        }
    }

    /// Hands the waiting task named `id` to `agent_id` now. Succeeds exactly
    /// when the task waits; see [`TaskStorage::assign_task_at`].
    pub fn assign_task(&mut self, id: &TaskId, agent_id: &str) -> (r: Result<
        AssignedTask,
        AppError,
    >)
        requires
            old(self).wf(),
            agent_id@.len() > 0,
        ensures
            final(self).wf(),
            final(self).archived() == old(self).archived(),
            match record_at(old(self).unassigned(), task_key(id@)) {
                Some(task) => {
                    &&& r matches Ok(assigned)
                    &&& exists|now: i64| assigned@ == promoted(task, agent_id@, now)
                    &&& final(self).unassigned() == unfiled(old(self).unassigned(), task_key(id@))
                    &&& final(self).assigned() == filed(
                        old(self).assigned(),
                        task_key(id@),
                        assigned@,
                    )
                    &&& !final(self).is_unassigned(id@)
                    &&& record_at(final(self).assigned(), task_key(id@)) == Some(assigned@)
                },
                None => {
                    &&& r matches Err(e)
                    &&& e is Conflict
                    &&& final(self).unassigned() == old(self).unassigned()
                    &&& final(self).assigned() == old(self).assigned()
                },
            },
    {
        let now: i64 = clock::now();
        let r = self.assign_task_at(id, agent_id, now);
        proof {
            if let Some(task) = record_at(old(self).unassigned(), task_key(id@)) {
                assert(r->Ok_0@ == promoted(task, agent_id@, now));
            }
        }
        r
    }

    /// Puts aside every taken task that is stale at `now`: not running, and
    /// assigned more than seven days before. The tasks put aside are returned
    /// in key order; running tasks and younger ones stay where they are.
    pub fn archive_stale_tasks_at(&mut self, now: i64) -> (moved: Vec<AssignedTask>)
        requires
            old(self).wf(),
        ensures
            final(self).wf(),
            final(self).unassigned() == old(self).unassigned(),
            final(self).assigned() == fresh_entries(old(self).assigned(), now),
            final(self).archived() == filed_all(
                old(self).archived(),
                stale_entries(old(self).assigned(), now),
            ),
            views(moved@) == records(stale_entries(old(self).assigned(), now)),
    {
        let ghost all = self.assigned();
        let ghost aside = self.archived();
        let ghost stale = |e: (Seq<u8>, AssignedTaskView)| e.1.stale_at(now);
        let ghost fresh = |e: (Seq<u8>, AssignedTaskView)| !e.1.stale_at(now);
        let ghost value = |e: (Seq<u8>, AssignedTaskView)| e.1;
        let mut moved: Vec<AssignedTask> = Vec::new();
        let mut i: usize = 0;
        let ghost mut seen: int = 0;
        proof {
            assert(all.take(0) =~= Seq::empty());
            assert(all.skip(0) =~= all);
            assert(Seq::<(Seq<u8>, AssignedTaskView)>::empty() + all =~= all);
            assert(views(moved@) =~= Seq::empty());
            assert(records(Seq::<(Seq<u8>, AssignedTaskView)>::empty()) =~= Seq::empty());
        }
        while i < self.assigned.len()
            invariant
                self.wf(),
                self.unassigned() == old(self).unassigned(),
                all == old(self).assigned(),
                aside == old(self).archived(),
                assigned_sound(all),
                0 <= seen <= all.len(),
                stale == |e: (Seq<u8>, AssignedTaskView)| e.1.stale_at(now),
                fresh == |e: (Seq<u8>, AssignedTaskView)| !e.1.stale_at(now),
                value == |e: (Seq<u8>, AssignedTaskView)| e.1,
                i == all.take(seen).filter(fresh).len(),
                self.assigned() == all.take(seen).filter(fresh) + all.skip(seen),
                self.archived() == filed_all(aside, all.take(seen).filter(stale)),
                views(moved@) == all.take(seen).filter(stale).map_values(value),
            decreases all.len() - seen,
        {
            let ghost kept = all.take(seen).filter(fresh);
            assert(self.assigned().len() == kept.len() + all.skip(seen).len());
            assert(seen < all.len());
            assert(self.assigned()[i as int] == all.skip(seen)[0]);
            assert(all.skip(seen)[0] == all[seen]);
            proof {
                all.lemma_take_succ_push(seen);
                all.take(seen).lemma_filter_push(all[seen], fresh);
                all.take(seen).lemma_filter_push(all[seen], stale);
            }
            if self.assigned.value_at(i).is_stale_at(now) {
                let slot = self.assigned.pop_at(i);
                assert(slot.value@ == all[seen].1 && slot.key@ == all[seen].0);
                proof {
                    let gone = all.take(seen).filter(stale);
                    assert(all.take(seen + 1).filter(stale) == gone.push(all[seen]));
                    assert(gone.push(all[seen]).drop_last() =~= gone);
                    gone.lemma_push_map_commute(value, all[seen]);
                    lemma_views_push(moved@, slot.value);
                    lemma_filed(self.archived(), slot.key@, slot.value@);
                    lemma_filed_keeps_assigned_sound(self.archived(), slot.value@);
                    assert(self.assigned() =~= kept + all.skip(seen + 1));
                }
                moved.push(slot.value.clone());
                self.archived.insert(slot.key, slot.value);
            } else {
                proof {
                    assert(self.assigned() =~= kept.push(all[seen]) + all.skip(seen + 1));
                }
                i += 1;
            }
            proof {
                seen = seen + 1;
            }
        }
        proof {
            let kept = all.take(seen).filter(fresh);
            assert(self.assigned().len() == kept.len() + all.skip(seen).len());
            assert(seen == all.len());
            assert(all.take(seen) =~= all);
            assert(all.skip(seen) =~= Seq::empty());
            assert(self.assigned() =~= kept);
        }
        moved
    }

    /// Puts aside every taken task that is stale now; see
    /// [`TaskStorage::archive_stale_tasks_at`]. Whatever the clock says, the
    /// waiting tasks are untouched and no running task is put aside.
    pub fn archive_stale_tasks(&mut self) -> (moved: Vec<AssignedTask>)
        requires
            old(self).wf(),
        ensures
            final(self).wf(),
            final(self).unassigned() == old(self).unassigned(),
            exists|now: i64|
                {
                    &&& final(self).assigned() == fresh_entries(old(self).assigned(), now)
                    &&& final(self).archived() == filed_all(
                        old(self).archived(),
                        stale_entries(old(self).assigned(), now),
                    )
                    &&& views(moved@) == records(stale_entries(old(self).assigned(), now))
                },
    {
        let now: i64 = clock::now();
        let moved = self.archive_stale_tasks_at(now);
        proof {
            assert(final(self).assigned() == fresh_entries(old(self).assigned(), now));
        }
        moved
    }

    /// The waiting task named `id`, if there is one.
    pub fn get_unassigned(&self, id: &TaskId) -> (r: Option<UnassignedTask>)
        requires
            self.wf(),
        ensures
            opt_view(r) == record_at(self.unassigned(), task_key(id@)),
    {
        let key = Self::make_key(id);
        match self.unassigned.get(key.as_slice()) {
            Some(task) => Some(task.clone()),
            None => None,
        }
    }

    /// The taken task named `id`, if there is one.
    pub fn get_assigned(&self, id: &TaskId) -> (r: Option<AssignedTask>)
        requires
            self.wf(),
        ensures
            opt_view(r) == record_at(self.assigned(), task_key(id@)),
            r matches Some(task) ==> task@.wf(),
    {
        let key = Self::make_key(id);
        proof {
            if has_key(self.assigned(), key@) {
                lemma_assigned_record_is_sound(self.assigned(), key@);
            }
        }
        match self.assigned.get(key.as_slice()) {
            Some(task) => Some(task.clone()),
            None => None,
        }
    }

    /// Files a taken task under its name, in place of the record that was
    /// there, if any. The task must have been taken by somebody, and not
    /// before it was created.
    pub fn update_assigned(&mut self, assigned: &AssignedTask)
        requires
            old(self).wf(),
            assigned@.wf(),
        ensures
            final(self).wf(),
            final(self).assigned() == filed(
                old(self).assigned(),
                task_key(assigned@.id),
                assigned@,
            ),
            final(self).unassigned() == old(self).unassigned(),
            final(self).archived() == old(self).archived(),
            record_at(final(self).assigned(), task_key(assigned@.id)) == Some(assigned@),
    {
        let key = Self::make_key(&assigned.id);
        proof {
            lemma_filed(self.assigned(), key@, assigned@);
            lemma_filed_keeps_assigned_sound(self.assigned(), assigned@);
        }
        self.assigned.insert(key, assigned.clone());
    }

    /// The waiting tasks whose key begins with `capability` and a bar, in key
    /// order.
    pub fn list_unassigned_for_capability(&self, capability: &str) -> (tasks: Vec<UnassignedTask>)
        requires
            self.wf(),
        ensures
            views(tasks@) == under_prefix(self.unassigned(), capability_prefix(capability@)),
    {
        let prefix = make_prefix(capability);
        let mut tasks: Vec<UnassignedTask> = Vec::new();
        self.append_unassigned_under(prefix.as_slice(), &mut tasks);
        assert(views(Seq::<UnassignedTask>::empty()) =~= Seq::empty());
        assert(Seq::<UnassignedTaskView>::empty() + under_prefix(self.unassigned(), prefix@)
            =~= under_prefix(self.unassigned(), prefix@));
        tasks
    }

    fn append_unassigned_under(&self, prefix: &[u8], tasks: &mut Vec<UnassignedTask>)
        requires
            self.wf(),
        ensures
            views(final(tasks)@) == views(old(tasks)@) + under_prefix(self.unassigned(), prefix@),
    {
        let ghost all = self.unassigned();
        let mut i: usize = 0;
        proof {
            assert(all.take(0) =~= Seq::empty());
            assert(under_prefix(Seq::<(Seq<u8>, UnassignedTaskView)>::empty(), prefix@)
                =~= Seq::empty());
            assert(views(tasks@) + Seq::<UnassignedTaskView>::empty() =~= views(tasks@));
        }
        while i < self.unassigned.len()
            invariant
                all == self.unassigned(),
                i <= all.len(),
                views(tasks@) == views(old(tasks)@) + under_prefix(all.take(i as int), prefix@),
            decreases all.len() - i,
        {
            proof {
                lemma_under_prefix_step(all, prefix@, i as int);
            }
            if crate::db::tree::has_prefix(self.unassigned.key_at(i).as_slice(), prefix) {
                let task = self.unassigned.value_at(i).clone();
                proof {
                    lemma_views_push(tasks@, task);
                    assert((views(old(tasks)@) + under_prefix(all.take(i as int), prefix@)).push(
                        task@,
                    ) =~= views(old(tasks)@) + under_prefix(all.take(i as int), prefix@).push(
                        task@,
                    ));
                }
                tasks.push(task);
            }
            i += 1;
        }
        assert(all.take(i as int) =~= all);
    }

    /// The waiting tasks found by scanning for each of `caps` in turn.
    pub fn list_unassigned_with_caps(&self, caps: &Vec<String>) -> (tasks: Vec<UnassignedTask>)
        requires
            self.wf(),
        ensures
            views(tasks@) == under_capabilities(self.unassigned(), texts(caps@)),
    {
        let mut tasks: Vec<UnassignedTask> = Vec::new();
        let mut i: usize = 0;
        proof {
            assert(views(tasks@) =~= Seq::empty());
            assert(texts(caps@).take(0) =~= Seq::empty());
        }
        while i < caps.len()
            invariant
                self.wf(),
                i <= caps@.len(),
                views(tasks@) == under_capabilities(self.unassigned(), texts(caps@).take(i as int)),
            decreases caps@.len() - i,
        {
            let prefix = make_prefix(caps[i].as_str());
            proof {
                let upto = texts(caps@).take(i + 1);
                assert(upto.drop_last() =~= texts(caps@).take(i as int));
                assert(upto.last() == caps@[i as int]@);
            }
            self.append_unassigned_under(prefix.as_slice(), &mut tasks);
            i += 1;
        }
        assert(texts(caps@).take(i as int) =~= texts(caps@));
        tasks
    }

    /// All waiting tasks, in key order.
    pub fn list_unassigned_all(&self) -> (tasks: Vec<UnassignedTask>)
        requires
            self.wf(),
        ensures
            views(tasks@) == records(self.unassigned()),
    {
        let ghost all = self.unassigned();
        let mut tasks: Vec<UnassignedTask> = Vec::new();
        let mut i: usize = 0;
        proof {
            assert(views(tasks@) =~= Seq::empty());
            assert(records(all.take(0)) =~= Seq::empty());
        }
        while i < self.unassigned.len()
            invariant
                all == self.unassigned(),
                i <= all.len(),
                views(tasks@) == records(all.take(i as int)),
            decreases all.len() - i,
        {
            let task = self.unassigned.value_at(i).clone();
            proof {
                lemma_records_step(all, i as int);
                lemma_views_push(tasks@, task);
            }
            tasks.push(task);
            i += 1;
        }
        assert(all.take(i as int) =~= all);
        tasks
    }

    /// All taken tasks, in key order.
    pub fn list_assigned_all(&self) -> (tasks: Vec<AssignedTask>)
        requires
            self.wf(),
        ensures
            views(tasks@) == records(self.assigned()),
    {
        let ghost all = self.assigned();
        let mut tasks: Vec<AssignedTask> = Vec::new();
        let mut i: usize = 0;
        proof {
            assert(views(tasks@) =~= Seq::empty());
            assert(records(all.take(0)) =~= Seq::empty());
        }
        while i < self.assigned.len()
            invariant
                all == self.assigned(),
                i <= all.len(),
                views(tasks@) == records(all.take(i as int)),
            decreases all.len() - i,
        {
            let task = self.assigned.value_at(i).clone();
            proof {
                lemma_records_step(all, i as int);
                lemma_views_push(tasks@, task);
            }
            tasks.push(task);
            i += 1;
        }
        assert(all.take(i as int) =~= all);
        tasks
    }

    /// All tasks that were put aside, in key order.
    pub fn list_archived_all(&self) -> (tasks: Vec<AssignedTask>)
        requires
            self.wf(),
        ensures
            views(tasks@) == records(self.archived()),
    {
        let ghost all = self.archived();
        let mut tasks: Vec<AssignedTask> = Vec::new();
        let mut i: usize = 0;
        proof {
            assert(views(tasks@) =~= Seq::empty());
            assert(records(all.take(0)) =~= Seq::empty());
        }
        while i < self.archived.len()
            invariant
                all == self.archived(),
                i <= all.len(),
                views(tasks@) == records(all.take(i as int)),
            decreases all.len() - i,
        {
            let task = self.archived.value_at(i).clone();
            proof {
                lemma_records_step(all, i as int);
                lemma_views_push(tasks@, task);
            }
            tasks.push(task);
            i += 1;
        }
        assert(all.take(i as int) =~= all);
        tasks
    }
}

/// In a table where every task sits under its own key, the task found under
/// a key bears the name that the key encodes.
pub proof fn lemma_record_is_keyed(s: Seq<(Seq<u8>, UnassignedTaskView)>, key: Seq<u8>)
    requires
        unassigned_keyed(s),
        has_key(s, key),
    ensures
        task_key(record_at(s, key)->0.id) == key,
{
    let p = crate::db::tree::position_of(s, key);
    assert(s[p].0 == task_key(s[p].1.id));
}

/// In a table of taken tasks, the task found under a key bears the name
/// that the key encodes, was taken by somebody, and not before it was
/// created.
pub proof fn lemma_assigned_record_is_sound(s: Seq<(Seq<u8>, AssignedTaskView)>, key: Seq<u8>)
    requires
        assigned_sound(s),
        has_key(s, key),
    ensures
        task_key(record_at(s, key)->0.id) == key,
        record_at(s, key)->0.wf(),
{
    let p = crate::db::tree::position_of(s, key);
    assert(s[p].0 == task_key(s[p].1.id));
}

/// Two names of one capability are filed under one key only if they are
/// the same name.
pub proof fn lemma_task_key_injective(a: TaskIdView, b: TaskIdView)
    requires
        task_key(a) == task_key(b),
    ensures
        a.cap == b.cap ==> a == b,
{
    vstd::utf8::encode_utf8_decode_utf8(a.cap);
    vstd::utf8::encode_utf8_decode_utf8(b.cap);
    vstd::utf8::encode_utf8_decode_utf8(a.id);
    vstd::utf8::encode_utf8_decode_utf8(b.id);
    if a.cap == b.cap {
        let head = encode_utf8(a.cap) + seq![0x7Cu8];
        assert(task_key(a).skip(head.len() as int) =~= encode_utf8(a.id));
        assert(task_key(b).skip(head.len() as int) =~= encode_utf8(b.id));
    }
}

/// Two names whose identifiers are time-sortable ones are filed under one
/// key only if they are the same name: the names that the broker gives
/// never share a key, whatever their capabilities hold.
pub proof fn lemma_task_key_injective_for_uids(a: TaskIdView, b: TaskIdView)
    requires
        task_key(a) == task_key(b),
        crate::utils::is_uid_text(a.id),
        crate::utils::is_uid_text(b.id),
    ensures
        a == b,
{
    vstd::utf8::is_ascii_chars_encode_utf8(a.id);
    vstd::utf8::is_ascii_chars_encode_utf8(b.id);
    let head_a = encode_utf8(a.cap);
    let head_b = encode_utf8(b.cap);
    assert(task_key(a).len() == head_a.len() + 27);
    assert(task_key(b).len() == head_b.len() + 27);
    assert(task_key(a).take(head_a.len() as int) =~= head_a);
    assert(task_key(b).take(head_b.len() as int) =~= head_b);
    vstd::utf8::encode_utf8_decode_utf8(a.cap);
    vstd::utf8::encode_utf8_decode_utf8(b.cap);
    lemma_task_key_injective(a, b);
}

/// In a table where every task sits under its own key and bears a
/// time-sortable identifier, the task found under the key of such a name
/// bears that name.
pub proof fn lemma_lookup_finds_the_name(s: Seq<(Seq<u8>, UnassignedTaskView)>, id: TaskIdView)
    requires
        unassigned_keyed(s),
        crate::utils::is_uid_text(id.id),
        record_at(s, task_key(id)) matches Some(task) && crate::utils::is_uid_text(task.id.id),
    ensures
        record_at(s, task_key(id))->0.id == id,
{
    lemma_record_is_keyed(s, task_key(id));
    lemma_task_key_injective_for_uids(record_at(s, task_key(id))->0.id, id);
}

/// Filing a waiting task under its own key keeps every task under its own key.
pub proof fn lemma_filed_keeps_unassigned_keyed(
    s: Seq<(Seq<u8>, UnassignedTaskView)>,
    task: UnassignedTaskView,
)
    requires
        ascending(s),
        unassigned_keyed(s),
    ensures
        unassigned_keyed(filed(s, task_key(task.id), task)),
{
    let key = task_key(task.id);
    let t = filed(s, key, task);
    if has_key(s, key) {
        let p = crate::db::tree::position_of(s, key);
        assert forall|i: int| 0 <= i < t.len() implies (#[trigger] t[i]).0 == task_key(
            t[i].1.id,
        ) by {
            if i != p {
                assert(t[i] == s[i]);
            }
        }
    } else {
        let p = crate::db::tree::place_of(s, key);
        crate::db::tree::lemma_place_of(s, key);
        assert forall|i: int| 0 <= i < t.len() implies (#[trigger] t[i]).0 == task_key(
            t[i].1.id,
        ) by {
            if i < p {
                assert(t[i] == s[i]);
            } else if i > p {
                assert(t[i] == s[i - 1]);
            } else {
                assert(t[i] == (key, task));
            }
        }
    }
}

/// Filing a sound taken task under its own key keeps the table sound.
pub proof fn lemma_filed_keeps_assigned_sound(
    s: Seq<(Seq<u8>, AssignedTaskView)>,
    task: AssignedTaskView,
)
    requires
        ascending(s),
        assigned_sound(s),
        task.wf(),
    ensures
        assigned_sound(filed(s, task_key(task.id), task)),
{
    let key = task_key(task.id);
    let t = filed(s, key, task);
    if has_key(s, key) {
        let p = crate::db::tree::position_of(s, key);
        assert forall|i: int| 0 <= i < t.len() implies (#[trigger] t[i]).0 == task_key(
            t[i].1.id,
        ) by {
            if i != p {
                assert(t[i] == s[i]);
            }
        }
    } else {
        let p = crate::db::tree::place_of(s, key);
        crate::db::tree::lemma_place_of(s, key);
        assert forall|i: int| 0 <= i < t.len() implies (#[trigger] t[i]).0 == task_key(
            t[i].1.id,
        ) by {
            if i < p {
                assert(t[i] == s[i]);
            } else if i > p {
                assert(t[i] == s[i - 1]);
            } else {
                assert(t[i] == (key, task));
            }
        }
    }
}

/// Taking a waiting task out keeps every remaining task under its own key.
pub proof fn lemma_unfiled_keeps_unassigned_keyed(
    s: Seq<(Seq<u8>, UnassignedTaskView)>,
    key: Seq<u8>,
)
    requires
        unassigned_keyed(s),
    ensures
        unassigned_keyed(unfiled(s, key)),
{
    let t = unfiled(s, key);
    if has_key(s, key) {
        let p = crate::db::tree::position_of(s, key);
        assert forall|i: int| 0 <= i < t.len() implies (#[trigger] t[i]).0 == task_key(
            t[i].1.id,
        ) by {
            if i < p {
                assert(t[i] == s[i]);
            } else {
                assert(t[i] == s[i + 1]);
            }
        }
    }
}

} // verus!
