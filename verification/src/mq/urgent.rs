//! The store of urgent tasks.
//!
//! Urgent tasks are kept in memory, in the order in which they were added,
//! each with a channel on which every change of its status is announced to
//! whoever waits for the task. A task is offered to agents while it is
//! pending, is handed to the first agent that takes it, and leaves the store
//! when its submitter has seen the end of it or when nobody took it in time.

use vstd::prelude::*;
use vstd::string::*;

use crate::clock;
use crate::error::AppError;
use crate::models::{contains_text, AssignedTask, AssignedTaskView, UnassignedTask, UnassignedTaskView};
use crate::schema::{texts, TaskId, TaskIdView, TaskStatus};

verus! {

/// `indexmap::IndexMap`: a hash map that remembers the order of insertion.
#[verifier::external_type_specification]
#[verifier::external_body]
#[verifier::reject_recursive_types(K)]
#[verifier::reject_recursive_types(V)]
#[verifier::reject_recursive_types(S)]
pub struct ExIndexMap<K, V, S>(indexmap::IndexMap<K, V, S>);

/// `tokio::sync::watch::Sender`: the sending half of a channel that holds the
/// latest value sent.
#[verifier::external_type_specification]
#[verifier::external_body]
#[verifier::reject_recursive_types(T)]
pub struct ExWatchSender<T>(tokio::sync::watch::Sender<T>);

/// `tokio::sync::watch::Receiver`: the receiving half of such a channel.
#[verifier::external_type_specification]
#[verifier::external_body]
#[verifier::reject_recursive_types(T)]
pub struct ExWatchReceiver<T>(tokio::sync::watch::Receiver<T>);

/// The status of an urgent task, and the channel on which its changes are
/// announced.
pub struct TaskState {
    /// Where the task stands.
    pub status: TaskStatus,
    /// Every new status is sent here.
    pub notify: tokio::sync::watch::Sender<TaskStatus>,
}

/// An urgent task as the store holds it.
pub struct UrgentTaskEntry {
    /// The task as it was submitted.
    pub task: UnassignedTask,
    /// The task as the agent that took it has it, once one has.
    pub assigned_task: Option<AssignedTask>,
    /// The task's status and its channel.
    pub state: TaskState,
    /// When the task was added.
    pub created_at: i64,
    /// How many seconds the task may wait for an agent.
    pub ttl: i64,
}

/// The mathematical content of an [`UrgentTaskEntry`]: everything but the
/// channel.
pub struct UrgentEntryView {
    pub task: UnassignedTaskView,
    pub assigned_task: Option<AssignedTaskView>,
    pub status: TaskStatus,
    pub created_at: i64,
    pub ttl: i64,
}

impl View for UrgentTaskEntry {
    type V = UrgentEntryView;

    open spec fn view(&self) -> UrgentEntryView {
        UrgentEntryView {
            task: self.task@,
            assigned_task: match self.assigned_task {
                Some(a) => Some(a@),
                None => None,
            },
            status: self.state.status,
            created_at: self.created_at,
            ttl: self.ttl,
        }
    }
}

impl UrgentEntryView {
    /// A task as it enters the store: pending, with nobody assigned.
    pub open spec fn fresh(task: UnassignedTaskView, now: i64, ttl: i64) -> UrgentEntryView {
        UrgentEntryView {
            task,
            assigned_task: None,
            status: TaskStatus::Pending,
            created_at: now,
            ttl,
        }
    }

    /// What holds of every entry in the store. While the task is pending
    /// nobody is assigned. Afterwards it is assigned, completed or failed,
    /// and the agent's copy bears the task's name and status, names the
    /// agent, and was not made before the task was created.
    pub open spec fn wf(self) -> bool {
        match self.assigned_task {
            None => self.status is Pending,
            Some(a) => {
                &&& a.id == self.task.id
                &&& a.status == self.status
                &&& a.wf()
                &&& (self.status is Assigned || self.status is Completed || self.status is Failed)
            },
        }
    }

    /// Whether the task is still on offer.
    pub open spec fn on_offer(self) -> bool {
        self.assigned_task is None
    }

    /// Whether an agent offering `caps` may be shown the task.
    pub open spec fn matches_caps(self, caps: Seq<Seq<char>>) -> bool {
        self.on_offer() && caps.contains(self.task.data.capability)
    }

    /// Whether the task has waited longer than it may at `now`.
    pub open spec fn expired_at(self, now: i64) -> bool {
        self.status is Pending && clock::elapsed_millis(self.created_at, now) > clock::ttl_millis(
            self.ttl,
        )
    }

    /// The entry after `agent_id` took the task at `now`.
    pub open spec fn taken_by(self, agent_id: Seq<char>, now: i64) -> UrgentEntryView {
        UrgentEntryView {
            assigned_task: Some(
                self.task.assigned_to(agent_id, now).with_status(TaskStatus::Assigned),
            ),
            status: TaskStatus::Assigned,
            ..self
        }
    }

    /// The entry after a progress note.
    pub open spec fn noted(self, log: Option<Seq<char>>, stage: Option<Seq<char>>) -> UrgentEntryView {
        UrgentEntryView {
            assigned_task: match self.assigned_task {
                Some(a) => Some(a.progressed(log, stage)),
                None => None,
            },
            ..self
        }
    }

    /// The entry after the agent's final report.
    pub open spec fn finished(self, success: bool, payload: serde_json::Value) -> UrgentEntryView {
        UrgentEntryView {
            assigned_task: match self.assigned_task {
                Some(a) => Some(a.resolved(success, Some(payload))),
                None => None,
            },
            status: if success {
                TaskStatus::Completed
            } else {
                TaskStatus::Failed
            },
            ..self
        }
    }
}

/// Whether the store holds a task named `id`.
pub open spec fn holds(s: Seq<UrgentEntryView>, id: TaskIdView) -> bool {
    exists|i: int| 0 <= i < s.len() && (#[trigger] s[i]).task.id == id
}

/// Where the task named `id` stands in the store, if the store holds it.
pub open spec fn slot_of(s: Seq<UrgentEntryView>, id: TaskIdView) -> int {
    choose|i: int| 0 <= i < s.len() && (#[trigger] s[i]).task.id == id
}

/// The entry of the task named `id`, if the store holds it.
pub open spec fn entry_of(s: Seq<UrgentEntryView>, id: TaskIdView) -> Option<UrgentEntryView> {
    if holds(s, id) {
        Some(s[slot_of(s, id)])
    } else {
        None
    }
}

/// No two entries bear the same name.
pub open spec fn distinct_ids(s: Seq<UrgentEntryView>) -> bool {
    forall|i: int, j: int|
        0 <= i < s.len() && 0 <= j < s.len() && i != j ==> (#[trigger] s[i]).task.id != (
        #[trigger] s[j]).task.id
}

/// Every entry is well-formed.
pub open spec fn all_wf(s: Seq<UrgentEntryView>) -> bool {
    forall|i: int| 0 <= i < s.len() ==> (#[trigger] s[i]).wf()
}

/// The position of the first task that an agent offering `caps` may be
/// shown, if there is one.
pub open spec fn first_match(s: Seq<UrgentEntryView>, caps: Seq<Seq<char>>) -> Option<int>
    decreases s.len(),
{
    if s.len() == 0 {
        None
    } else {
        match first_match(s.drop_last(), caps) {
            Some(i) => Some(i),
            None => if s.last().matches_caps(caps) {
                Some(s.len() - 1)
            } else {
                None
            },
        }
    }
}

/// Whether an agent that asks for the task named `id` gets it: the store
/// holds the task and it is still pending.
pub open spec fn can_assign(s: Seq<UrgentEntryView>, id: TaskIdView) -> bool {
    entry_of(s, id) matches Some(e) && e.status is Pending
}

/// The store after an agent asked for the task named `id` at `now`.
pub open spec fn after_assign(
    s: Seq<UrgentEntryView>,
    id: TaskIdView,
    agent_id: Seq<char>,
    now: i64,
) -> Seq<UrgentEntryView> {
    if can_assign(s, id) {
        s.update(slot_of(s, id), s[slot_of(s, id)].taken_by(agent_id, now))
    } else {
        s
    }
}

/// Whether a progress note on the task named `id` is accepted: the store
/// holds the task and it has not ended.
pub open spec fn can_update(s: Seq<UrgentEntryView>, id: TaskIdView) -> bool {
    entry_of(s, id) matches Some(e) && !e.status.terminal()
}

/// The store after a progress note on the task named `id`.
pub open spec fn after_update(
    s: Seq<UrgentEntryView>,
    id: TaskIdView,
    log: Option<Seq<char>>,
    stage: Option<Seq<char>>,
) -> Seq<UrgentEntryView> {
    if can_update(s, id) {
        s.update(slot_of(s, id), s[slot_of(s, id)].noted(log, stage))
    } else {
        s
    }
}

/// Whether a final report on the task named `id` is accepted: the store
/// holds the task and an agent is at work on it.
pub open spec fn can_complete(s: Seq<UrgentEntryView>, id: TaskIdView) -> bool {
    entry_of(s, id) matches Some(e) && e.status is Assigned
}

/// The store after a final report on the task named `id`.
pub open spec fn after_complete(
    s: Seq<UrgentEntryView>,
    id: TaskIdView,
    success: bool,
    payload: serde_json::Value,
) -> Seq<UrgentEntryView> {
    if can_complete(s, id) {
        s.update(slot_of(s, id), s[slot_of(s, id)].finished(success, payload))
    } else {
        s
    }
}

/// The store without the task named `id`.
pub open spec fn after_remove(s: Seq<UrgentEntryView>, id: TaskIdView) -> Seq<UrgentEntryView> {
    if holds(s, id) {
        s.remove(slot_of(s, id))
    } else {
        s
    }
}

/// The entries that have not expired at `now`, in their order.
pub open spec fn surviving(s: Seq<UrgentEntryView>, now: i64) -> Seq<UrgentEntryView> {
    s.filter(|e: UrgentEntryView| !e.expired_at(now))
}

/// The entries that have expired at `now`, in their order.
pub open spec fn expiring(s: Seq<UrgentEntryView>, now: i64) -> Seq<UrgentEntryView> {
    s.filter(|e: UrgentEntryView| e.expired_at(now))
}

/// The names of the tasks in `s`, in the same order.
pub open spec fn ids_of(s: Seq<UrgentEntryView>) -> Seq<TaskIdView> {
    s.map_values(|e: UrgentEntryView| e.task.id)
}

/// The tasks of `s` that are on offer, as they were submitted, in order.
pub open spec fn on_offer_in(s: Seq<UrgentEntryView>) -> Seq<UnassignedTaskView> {
    s.filter(|e: UrgentEntryView| e.on_offer()).map_values(|e: UrgentEntryView| e.task)
}

/// The tasks of `s` that agents have taken, as the agents have them, in
/// order.
pub open spec fn taken_in(s: Seq<UrgentEntryView>) -> Seq<AssignedTaskView> {
    s.filter(|e: UrgentEntryView| e.assigned_task is Some).map_values(
        |e: UrgentEntryView| e.assigned_task->0,
    )
}

/// What an urgent map holds: its keys, each as a pair of texts, with their
/// entries, in the order of insertion.
pub uninterp spec fn urgent_map_entries(
    m: indexmap::IndexMap<(String, String), UrgentTaskEntry>,
) -> Seq<((Seq<char>, Seq<char>), UrgentTaskEntry)>;

/// `IndexMap::new`: a map that holds nothing.
#[verifier::external_body]
fn urgent_map_new() -> (m: indexmap::IndexMap<(String, String), UrgentTaskEntry>)
    ensures
        urgent_map_entries(m).len() == 0,
{
    indexmap::IndexMap::new()
}

/// `IndexMap::len`: the number of entries.
#[verifier::external_body]
fn urgent_map_len(m: &indexmap::IndexMap<(String, String), UrgentTaskEntry>) -> (n: usize)
    ensures
        n == urgent_map_entries(*m).len(),
{
    m.len()
}

/// `IndexMap::get_index_of`: the position of the entry whose key equals the
/// given one, or `None` where no key does. Keys are pairs of strings and are
/// equal when they hold the same characters.
#[verifier::external_body]
fn urgent_map_index_of(
    m: &indexmap::IndexMap<(String, String), UrgentTaskEntry>,
    cap: &str,
    id: &str,
) -> (r: Option<usize>)
    ensures
        r matches Some(i) ==> i < urgent_map_entries(*m).len() && urgent_map_entries(*m)[i as int].0
            == (cap@, id@),
        r is None ==> forall|j: int|
            0 <= j < urgent_map_entries(*m).len() ==> (#[trigger] urgent_map_entries(*m)[j]).0 != (
                cap@,
                id@,
            ),
{
    m.get_index_of(&(cap.to_string(), id.to_string()))
}

/// `IndexMap`'s `Index<usize>`: the entry at a position. The position must be
/// within the map.
#[verifier::external_body]
fn urgent_map_entry(
    m: &indexmap::IndexMap<(String, String), UrgentTaskEntry>,
    i: usize,
) -> (e: &UrgentTaskEntry)
    requires
        i < urgent_map_entries(*m).len(),
    ensures
        *e == urgent_map_entries(*m)[i as int].1,
{
    &m[i]
}

/// `IndexMap`'s `IndexMut<usize>`: the entry at a position, for changing it in
/// place. The key and every other entry stay as they are. The position must
/// be within the map.
#[verifier::external_body]
fn urgent_map_entry_mut(
    m: &mut indexmap::IndexMap<(String, String), UrgentTaskEntry>,
    i: usize,
) -> (e: &mut UrgentTaskEntry)
    requires
        i < urgent_map_entries(*old(m)).len(),
    ensures
        *e == urgent_map_entries(*old(m))[i as int].1,
        urgent_map_entries(*final(m)) == urgent_map_entries(*old(m)).update(
            i as int,
            (urgent_map_entries(*old(m))[i as int].0, *final(e)),
        ),
{
    &mut m[i]
}

/// Whether one of the keys of `s` is `key`.
pub open spec fn has_urgent_key(
    s: Seq<((Seq<char>, Seq<char>), UrgentTaskEntry)>,
    key: (Seq<char>, Seq<char>),
) -> bool {
    exists|i: int| 0 <= i < s.len() && (#[trigger] s[i]).0 == key
}

/// `IndexMap::insert`: where a key equal to the given one is present, its
/// entry is replaced and keeps its position; otherwise key and entry are
/// added last.
#[verifier::external_body]
fn urgent_map_insert(
    m: &mut indexmap::IndexMap<(String, String), UrgentTaskEntry>,
    cap: String,
    id: String,
    entry: UrgentTaskEntry,
)
    ensures
        !has_urgent_key(urgent_map_entries(*old(m)), (cap@, id@)) ==> urgent_map_entries(*final(m))
            == urgent_map_entries(*old(m)).push(((cap@, id@), entry)),
        has_urgent_key(urgent_map_entries(*old(m)), (cap@, id@)) ==> exists|i: int|
            0 <= i < urgent_map_entries(*old(m)).len() && (#[trigger] urgent_map_entries(
                *old(m),
            )[i]).0 == (cap@, id@) && urgent_map_entries(*final(m)) == urgent_map_entries(
                *old(m),
            ).update(i, ((cap@, id@), entry)),
{
    m.insert((cap, id), entry);
}

/// `IndexMap::shift_remove_index`: takes out the entry at a position; the
/// entries after it move up by one and keep their order. The position must be
/// within the map.
#[verifier::external_body]
fn urgent_map_shift_remove_index(
    m: &mut indexmap::IndexMap<(String, String), UrgentTaskEntry>,
    i: usize,
) -> (removed: UrgentTaskEntry)
    requires
        i < urgent_map_entries(*old(m)).len(),
    ensures
        removed == urgent_map_entries(*old(m))[i as int].1,
        urgent_map_entries(*final(m)) == urgent_map_entries(*old(m)).remove(i as int),
{
    m.shift_remove_index(i).unwrap().1
}

/// `tokio::sync::watch::channel`: a new channel that holds `initial`. Nothing
/// is claimed about the two halves.
#[verifier::external_body]
fn status_channel(initial: TaskStatus) -> (halves: (
    tokio::sync::watch::Sender<TaskStatus>,
    tokio::sync::watch::Receiver<TaskStatus>,
)) {
    tokio::sync::watch::channel(initial)
}

/// `tokio::sync::watch::Sender::send`: makes `status` the channel's value and
/// wakes the receivers. Where no receiver is left the call has no effect,
/// which is not an error here.
#[verifier::external_body]
fn announce(channel: &tokio::sync::watch::Sender<TaskStatus>, status: TaskStatus) {
    let _ = channel.send(status);
}

/// The store of urgent tasks.
pub struct UrgentTaskStore {
    tasks: indexmap::IndexMap<(String, String), UrgentTaskEntry>,
}

impl UrgentTaskStore {
    /// The store's content: its entries in the order in which they were added.
    pub closed spec fn entries(&self) -> Seq<UrgentEntryView> {
        urgent_map_entries(self.tasks).map_values(
            |e: ((Seq<char>, Seq<char>), UrgentTaskEntry)| e.1@,
        )
    }

    /// Every entry is filed under its task's name.
    pub closed spec fn keyed(&self) -> bool {
        forall|i: int|
            0 <= i < urgent_map_entries(self.tasks).len() ==> (#[trigger] urgent_map_entries(
                self.tasks,
            )[i]).0 == (
                urgent_map_entries(self.tasks)[i].1.task.id.cap@,
                urgent_map_entries(self.tasks)[i].1.task.id.id@,
            )
    }

    /// The store's invariant: no name occurs twice and every entry is
    /// well-formed.
    pub open spec fn wf(&self) -> bool {
        &&& self.keyed()
        &&& distinct_ids(self.entries())
        &&& all_wf(self.entries())
    }

    /// An empty store.
    pub fn new() -> (store: Self)
        ensures
            store.wf(),
            store.entries().len() == 0,
    {
        UrgentTaskStore { tasks: urgent_map_new() }
    }

    /// The number of tasks in the store.
    pub fn len(&self) -> (n: usize)
        ensures
            n == self.entries().len(),
    {
        urgent_map_len(&self.tasks)
    }

    /// Where the task named `id` stands in the store.
    fn position(&self, id: &TaskId) -> (r: Option<usize>)
        requires
            self.wf(),
        ensures
            match r {
                Some(i) => i < self.entries().len() && self.entries()[i as int].task.id == id@
                    && holds(self.entries(), id@) && slot_of(self.entries(), id@) == i,
                None => !holds(self.entries(), id@),
            },
    {
        let r = urgent_map_index_of(&self.tasks, id.cap.as_str(), id.id.as_str());
        proof {
            let raw = urgent_map_entries(self.tasks);
            let s = self.entries();
            match r {
                Some(i) => {
                    assert(raw[i as int].0 == (id@.cap, id@.id));
                    assert(s[i as int].task.id == id@);
                    let j = slot_of(s, id@);
                    assert(j == i);
                },
                None => {
                    if holds(s, id@) {
                        let j = slot_of(s, id@);
                        assert(raw[j].0 == (raw[j].1.task.id.cap@, raw[j].1.task.id.id@));
                        assert(s[j].task.id == id@);
                    }
                },
            }
        }
        r
    }

    /// The first task, in the order of arrival, that is still on offer and
    /// whose capability is among `caps`. The store is left as it is.
    pub fn find_with_capabilities(&self, caps: &Vec<String>) -> (found: Option<UnassignedTask>)
        requires
            self.wf(),
        ensures
            match first_match(self.entries(), texts(caps@)) {
                Some(i) => found matches Some(task) && task@ == self.entries()[i].task,
                None => found is None,
            },
    {
        let ghost s = self.entries();
        let n = urgent_map_len(&self.tasks);
        let mut i: usize = 0;
        proof {
            assert(s.take(0) =~= Seq::empty());
        }
        while i < n
            invariant
                s == self.entries(),
                n == s.len(),
                i <= n,
                first_match(s.take(i as int), texts(caps@)) is None,
            decreases n - i,
        {
            let entry = urgent_map_entry(&self.tasks, i);
            proof {
                assert(s.take(i + 1).drop_last() =~= s.take(i as int));
                assert(s.take(i + 1).last() == s[i as int]);
                assert(entry@ == s[i as int]);
            }
            if entry.assigned_task.is_none() && contains_text(
                caps,
                entry.task.data.capability.as_str(),
            ) {
                proof {
                    assert(first_match(s.take(i + 1), texts(caps@)) == Some(i as int));
                    lemma_first_match_extends(s, texts(caps@), i + 1);
                }
                return Some(entry.task.clone());
            }
            i += 1;
        }
        assert(s.take(i as int) =~= s);
        None
    }

    /// Adds a task at the end of the store, pending, stamped with `now`, to
    /// wait for at most `ttl_secs` seconds. Returns the receiving half of the
    /// task's status channel.
    ///
    /// Fails with `Conflict`, and changes nothing, exactly when the store
    /// already holds a task of that name.
    pub fn add_task_at(&mut self, task: UnassignedTask, ttl_secs: i64, now: i64) -> (r: Result<
        tokio::sync::watch::Receiver<TaskStatus>,
        AppError,
    >)
        requires
            old(self).wf(),
        ensures
            final(self).wf(),
            r is Err <==> holds(old(self).entries(), task@.id),
            r matches Err(e) ==> e is Conflict && final(self).entries() == old(self).entries(),
            r is Ok ==> final(self).entries() == old(self).entries().push(
                UrgentEntryView::fresh(task@, now, ttl_secs),
            ),
    {
        match self.position(&task.id) {
            Some(_) => {
                let mut text = "Urgent task already exists: ".to_owned();
                text.append(task.id.to_string().as_str());
                Err(AppError::Conflict(text))
            },
            None => {
                let (notify, waiter) = status_channel(TaskStatus::Pending);
                let cap = task.id.cap.clone();
                let id = task.id.id.clone();
                let entry = UrgentTaskEntry {
                    task,
                    assigned_task: None,
                    state: TaskState { status: TaskStatus::Pending, notify },
                    created_at: now,
                    ttl: ttl_secs,
                };
                let ghost before = self.entries();
                let ghost raw = urgent_map_entries(self.tasks);
                proof {
                    assert forall|j: int| 0 <= j < raw.len() implies (#[trigger] raw[j]).0 != (
                        cap@,
                        id@,
                    ) by {
                        assert(before[j].task.id != task@.id);
                    }
                    assert(!has_urgent_key(raw, (cap@, id@)));
                }
                urgent_map_insert(&mut self.tasks, cap, id, entry);
                proof {
                    let now_raw = urgent_map_entries(self.tasks);
                    assert(now_raw == raw.push(((cap@, id@), entry)));
                    assert(self.entries() =~= before.push(entry@));
                    assert forall|i: int, j: int|
                        0 <= i < self.entries().len() && 0 <= j < self.entries().len() && i
                            != j implies (#[trigger] self.entries()[i]).task.id != (
                    #[trigger] self.entries()[j]).task.id by {
                        if i < before.len() && j < before.len() {
                            assert(before[i].task.id != before[j].task.id);
                        } else if i < before.len() {
                            assert(before[i].task.id != task@.id);
                        } else {
                            assert(before[j].task.id != task@.id);
                        }
                    }
                }
                Ok(waiter)
            },
        }
    }

    /// Adds a task at the end of the store, stamped with the current time;
    /// see [`UrgentTaskStore::add_task_at`].
    pub fn add_task(&mut self, task: UnassignedTask, ttl_secs: i64) -> (r: Result<
        tokio::sync::watch::Receiver<TaskStatus>,
        AppError,
    >)
        requires
            old(self).wf(),
        ensures
            final(self).wf(),
            r is Err <==> holds(old(self).entries(), task@.id),
            r matches Err(e) ==> e is Conflict && final(self).entries() == old(self).entries(),
            r is Ok ==> exists|now: i64|
                final(self).entries() == old(self).entries().push(
                    UrgentEntryView::fresh(task@, now, ttl_secs),
                ),
    {
        let now: i64 = clock::now();
        let ghost content = task@;
        let r = self.add_task_at(task, ttl_secs, now);
        proof {
            if r is Ok {
                assert(final(self).entries() == old(self).entries().push(
                    UrgentEntryView::fresh(content, now, ttl_secs),
                ));
            }
        }
        r
    }

    /// Hands the task named `id` to `agent_id`, which is not empty, at `now`,
    /// if the store holds it and it is still pending: the agent's copy is made, the status
    /// becomes `Assigned` and is announced, and the call returns `true`. In
    /// every other case nothing changes and the call returns `false`.
    pub fn assign_task_at(&mut self, id: &TaskId, agent_id: &str, now: i64) -> (won: bool)
        requires
            old(self).wf(),
            agent_id@.len() > 0,
        ensures
            final(self).wf(),
            won == can_assign(old(self).entries(), id@),
            final(self).entries() == after_assign(old(self).entries(), id@, agent_id@, now),
    {
        match self.position(id) {
            None => false,
            Some(i) => {
                let ghost before = self.entries();
                let ghost raw = urgent_map_entries(self.tasks);
                let entry = urgent_map_entry_mut(&mut self.tasks, i);
                assert(entry@ == before[i as int]);
                if !entry.state.status.is_pending() {
                    proof {
                        assert(urgent_map_entries(self.tasks) =~= raw);
                    }
                    return false;
                }
                let mut assigned = entry.task.assign_to_at(agent_id, now);
                assigned.status = TaskStatus::Assigned;
                entry.assigned_task = Some(assigned);
                entry.state.status = TaskStatus::Assigned;
                announce(&entry.state.notify, TaskStatus::Assigned);
                proof {
                    let after = self.entries();
                    assert(after =~= before.update(
                        i as int,
                        before[i as int].taken_by(agent_id@, now),
                    ));
                    lemma_update_keeps_wf(before, i as int, after[i as int]);
                }
                true
            },
        }
    }

    /// Hands the task named `id` to `agent_id` now; see
    /// [`UrgentTaskStore::assign_task_at`]. Whether the agent gets the task
    /// does not depend on the clock.
    pub fn assign_task(&mut self, id: &TaskId, agent_id: &str) -> (won: bool)
        requires
            old(self).wf(),
            agent_id@.len() > 0,
        ensures
            final(self).wf(),
            won == can_assign(old(self).entries(), id@),
            exists|now: i64|
                final(self).entries() == after_assign(old(self).entries(), id@, agent_id@, now),
    {
        let now: i64 = clock::now();
        let won = self.assign_task_at(id, agent_id, now);
        proof {
            assert(final(self).entries() == after_assign(old(self).entries(), id@, agent_id@, now));
        }
        won
    }

    /// The agent's copy of the task named `id`, if the store holds the task
    /// and an agent has taken it.
    pub fn get_assigned_task(&self, id: &TaskId) -> (r: Option<AssignedTask>)
        requires
            self.wf(),
        ensures
            match entry_of(self.entries(), id@) {
                Some(e) => crate::db::tree::opt_view(r) == e.assigned_task,
                None => r is None,
            },
    {
        match self.position(id) {
            None => None,
            Some(i) => {
                let entry = urgent_map_entry(&self.tasks, i);
                assert(entry@ == self.entries()[i as int]);
                match &entry.assigned_task {
                    Some(a) => Some(a.clone()),
                    None => None,
                }
            },
        }
    }

    /// The task named `id` as it was submitted, if the store holds it.
    pub fn get_task(&self, id: &TaskId) -> (r: Option<UnassignedTask>)
        requires
            self.wf(),
        ensures
            match entry_of(self.entries(), id@) {
                Some(e) => r matches Some(task) && task@ == e.task,
                None => r is None,
            },
    {
        match self.position(id) {
            None => None,
            Some(i) => {
                let entry = urgent_map_entry(&self.tasks, i);
                assert(entry@ == self.entries()[i as int]);
                Some(entry.task.clone())
            },
        }
    }

    /// The status of the task named `id`, if the store holds the task.
    pub fn get_status(&self, id: &TaskId) -> (r: Option<TaskStatus>)
        requires
            self.wf(),
        ensures
            match entry_of(self.entries(), id@) {
                Some(e) => r == Some(e.status),
                None => r is None,
            },
    {
        match self.position(id) {
            None => None,
            Some(i) => {
                let entry = urgent_map_entry(&self.tasks, i);
                assert(entry@ == self.entries()[i as int]);
                Some(entry.state.status.clone())
            },
        }
    }

    /// The tasks that are on offer, as they were submitted, in the order in
    /// which they were added.
    pub fn list_unassigned(&self) -> (tasks: Vec<UnassignedTask>)
        requires
            self.wf(),
        ensures
            crate::db::tree::views(tasks@) == on_offer_in(self.entries()),
    {
        let ghost s = self.entries();
        let ghost offered = |e: UrgentEntryView| e.on_offer();
        let ghost task_of = |e: UrgentEntryView| e.task;
        let n = urgent_map_len(&self.tasks);
        let mut tasks: Vec<UnassignedTask> = Vec::new();
        let mut i: usize = 0;
        proof {
            assert(s.take(0) =~= Seq::empty());
            assert(crate::db::tree::views(tasks@) =~= Seq::empty());
            assert(Seq::<UrgentEntryView>::empty().filter(offered) =~= Seq::empty()) by {
                reveal(Seq::filter);
            }
        }
        while i < n
            invariant
                s == self.entries(),
                n == s.len(),
                i <= n,
                offered == |e: UrgentEntryView| e.on_offer(),
                task_of == |e: UrgentEntryView| e.task,
                crate::db::tree::views(tasks@) == s.take(i as int).filter(offered).map_values(
                    task_of,
                ),
            decreases n - i,
        {
            let entry = urgent_map_entry(&self.tasks, i);
            proof {
                assert(entry@ == s[i as int]);
                s.lemma_take_succ_push(i as int);
                s.take(i as int).lemma_filter_push(s[i as int], offered);
                s.take(i as int).filter(offered).lemma_push_map_commute(task_of, s[i as int]);
            }
            if entry.assigned_task.is_none() {
                let task = entry.task.clone();
                proof {
                    crate::db::tree::lemma_views_push(tasks@, task);
                }
                tasks.push(task);
            }
            i += 1;
        }
        assert(s.take(i as int) =~= s);
        tasks
    }

    /// The tasks that agents have taken, as the agents have them, in the
    /// order in which the tasks were added.
    pub fn list_assigned(&self) -> (tasks: Vec<AssignedTask>)
        requires
            self.wf(),
        ensures
            crate::db::tree::views(tasks@) == taken_in(self.entries()),
    {
        let ghost s = self.entries();
        let ghost taken = |e: UrgentEntryView| e.assigned_task is Some;
        let ghost copy_of = |e: UrgentEntryView| e.assigned_task->0;
        let n = urgent_map_len(&self.tasks);
        let mut tasks: Vec<AssignedTask> = Vec::new();
        let mut i: usize = 0;
        proof {
            assert(s.take(0) =~= Seq::empty());
            assert(crate::db::tree::views(tasks@) =~= Seq::empty());
            assert(Seq::<UrgentEntryView>::empty().filter(taken) =~= Seq::empty()) by {
                reveal(Seq::filter);
            }
        }
        while i < n
            invariant
                s == self.entries(),
                n == s.len(),
                i <= n,
                taken == |e: UrgentEntryView| e.assigned_task is Some,
                copy_of == |e: UrgentEntryView| e.assigned_task->0,
                crate::db::tree::views(tasks@) == s.take(i as int).filter(taken).map_values(
                    copy_of,
                ),
            decreases n - i,
        {
            let entry = urgent_map_entry(&self.tasks, i);
            proof {
                assert(entry@ == s[i as int]);
                s.lemma_take_succ_push(i as int);
                s.take(i as int).lemma_filter_push(s[i as int], taken);
                s.take(i as int).filter(taken).lemma_push_map_commute(copy_of, s[i as int]);
            }
            match &entry.assigned_task {
                Some(assigned) => {
                    let task = assigned.clone();
                    proof {
                        crate::db::tree::lemma_views_push(tasks@, task);
                    }
                    tasks.push(task);
                },
                None => {},
            }
            i += 1;
        }
        assert(s.take(i as int) =~= s);
        tasks
    }

    /// Records a progress note on the task named `id`: the fragment, if any,
    /// is appended to the log of the agent's copy, and the stage, if any,
    /// replaces its stage. The status stays as it is. Returns `true` where
    /// the store holds the task and it has not ended; otherwise nothing
    /// changes and the call returns `false`.
    pub fn update_task(&mut self, id: &TaskId, log: Option<&str>, stage: Option<&str>) -> (known:
        bool)
        requires
            old(self).wf(),
        ensures
            final(self).wf(),
            known == can_update(old(self).entries(), id@),
            final(self).entries() == after_update(
                old(self).entries(),
                id@,
                match log {
                    Some(l) => Some(l@),
                    None => None,
                },
                match stage {
                    Some(s) => Some(s@),
                    None => None,
                },
            ),
    {
        match self.position(id) {
            None => false,
            Some(i) => {
                let ghost before = self.entries();
                let ghost raw = urgent_map_entries(self.tasks);
                let entry = urgent_map_entry_mut(&mut self.tasks, i);
                assert(entry@ == before[i as int]);
                if entry.state.status.is_terminal() {
                    proof {
                        assert(urgent_map_entries(self.tasks) =~= raw);
                    }
                    return false;
                }
                match &mut entry.assigned_task {
                    Some(a) => {
                        a.progress(log, stage);
                    },
                    None => {},
                }
                proof {
                    let after = self.entries();
                    let l = match log {
                        Some(l) => Some(l@),
                        None => None,
                    };
                    let st = match stage {
                        Some(s) => Some(s@),
                        None => None,
                    };
                    assert(after =~= before.update(i as int, before[i as int].noted(l, st)));
                    lemma_update_keeps_wf(before, i as int, after[i as int]);
                }
                true
            },
        }
    }

    /// Records the agent's final report on the task named `id`.
    ///
    /// Where an agent is at work on the task, its copy receives `payload` as
    /// the result, the status becomes `Completed` or `Failed` and is
    /// announced, and the call returns `Ok(true)`. Where the store does not
    /// hold the task the call returns `Ok(false)`. Where it holds the task
    /// but nobody is at work on it, because it is still pending or has
    /// ended, the call fails with `Conflict`. In the last two cases nothing
    /// changes.
    pub fn complete_task(&mut self, id: &TaskId, success: bool, payload: serde_json::Value) -> (r:
        Result<bool, AppError>)
        requires
            old(self).wf(),
        ensures
            final(self).wf(),
            final(self).entries() == after_complete(old(self).entries(), id@, success, payload),
            match entry_of(old(self).entries(), id@) {
                None => r matches Ok(owned) && !owned,
                Some(e) => if e.status is Assigned {
                    r matches Ok(owned) && owned
                } else {
                    r matches Err(err) && err is Conflict
                },
            },
    {
        match self.position(id) {
            None => Ok(false),
            Some(i) => {
                let ghost before = self.entries();
                let ghost raw = urgent_map_entries(self.tasks);
                let entry = urgent_map_entry_mut(&mut self.tasks, i);
                assert(entry@ == before[i as int]);
                if !matches!(entry.state.status, TaskStatus::Assigned) {
                    proof {
                        assert(urgent_map_entries(self.tasks) =~= raw);
                    }
                    return Err(
                        AppError::Conflict("Task is not assigned but reported".to_owned()),
                    );
                }
                match &mut entry.assigned_task {
                    Some(a) => {
                        a.resolve(success, Some(payload));
                    },
                    None => {},
                }
                let status = if success {
                    TaskStatus::Completed
                } else {
                    TaskStatus::Failed
                };
                entry.state.status = status.clone();
                announce(&entry.state.notify, status);
                proof {
                    let after = self.entries();
                    assert(after =~= before.update(
                        i as int,
                        before[i as int].finished(success, payload),
                    ));
                    lemma_update_keeps_wf(before, i as int, after[i as int]);
                }
                Ok(true)
            },
        }
    }

    /// Takes the task named `id` out of the store, whatever its status. The
    /// other tasks keep their order.
    pub fn remove_task(&mut self, id: &TaskId)
        requires
            old(self).wf(),
        ensures
            final(self).wf(),
            final(self).entries() == after_remove(old(self).entries(), id@),
            !holds(final(self).entries(), id@),
    {
        match self.position(id) {
            None => {},
            Some(i) => {
                let ghost before = self.entries();
                let _ = urgent_map_shift_remove_index(&mut self.tasks, i);
                proof {
                    assert(self.entries() =~= before.remove(i as int));
                    lemma_remove_keeps_wf(before, i as int);
                    if holds(self.entries(), id@) {
                        let j = slot_of(self.entries(), id@);
                        let j2 = if j < i {
                            j
                        } else {
                            j + 1
                        };
                        assert(self.entries()[j] == before[j2]);
                    }
                }
            },
        }
    }

    /// Gives up every task that is still pending and has waited longer than
    /// it may at `now`: `Failed` is announced on its channel and it leaves
    /// the store. The names of the tasks given up are returned in the order
    /// in which the tasks were added. Tasks that an agent has taken are never
    /// given up here.
    pub fn expire_tasks_at(&mut self, now: i64) -> (expired: Vec<TaskId>)
        requires
            old(self).wf(),
        ensures
            final(self).wf(),
            final(self).entries() == surviving(old(self).entries(), now),
            crate::db::tree::views(expired@) == ids_of(expiring(old(self).entries(), now)),
    {
        let ghost all = self.entries();
        let ghost gone = |e: UrgentEntryView| e.expired_at(now);
        let ghost stays = |e: UrgentEntryView| !e.expired_at(now);
        let ghost name = |e: UrgentEntryView| e.task.id;
        let mut expired: Vec<TaskId> = Vec::new();
        let mut i: usize = 0;
        let ghost mut seen: int = 0;
        proof {
            assert(all.take(0) =~= Seq::empty());
            assert(all.skip(0) =~= all);
            assert(Seq::<UrgentEntryView>::empty() + all =~= all);
            assert(crate::db::tree::views(expired@) =~= Seq::empty());
            assert(Seq::<UrgentEntryView>::empty().map_values(name) =~= Seq::empty());
        }
        while i < urgent_map_len(&self.tasks)
            invariant
                self.wf(),
                all == old(self).entries(),
                0 <= seen <= all.len(),
                gone == |e: UrgentEntryView| e.expired_at(now),
                stays == |e: UrgentEntryView| !e.expired_at(now),
                name == |e: UrgentEntryView| e.task.id,
                i == all.take(seen).filter(stays).len(),
                self.entries() == all.take(seen).filter(stays) + all.skip(seen),
                crate::db::tree::views(expired@) == all.take(seen).filter(gone).map_values(name),
            decreases all.len() - seen,
        {
            let ghost kept = all.take(seen).filter(stays);
            let ghost before = self.entries();
            assert(before.len() == kept.len() + all.skip(seen).len());
            assert(seen < all.len());
            assert(before[i as int] == all.skip(seen)[0]);
            assert(all.skip(seen)[0] == all[seen]);
            proof {
                all.lemma_take_succ_push(seen);
                all.take(seen).lemma_filter_push(all[seen], stays);
                all.take(seen).lemma_filter_push(all[seen], gone);
            }
            let entry = urgent_map_entry(&self.tasks, i);
            assert(entry@ == before[i as int]);
            if entry.state.status.is_pending()
                && clock::outlived(entry.created_at, now, entry.ttl) {
                announce(&entry.state.notify, TaskStatus::Failed);
                let removed = urgent_map_shift_remove_index(&mut self.tasks, i);
                let id = removed.task.id.clone();
                proof {
                    let dropped = all.take(seen).filter(gone);
                    dropped.lemma_push_map_commute(name, all[seen]);
                    crate::db::tree::lemma_views_push(expired@, id);
                    assert(self.entries() =~= before.remove(i as int));
                    lemma_remove_keeps_wf(before, i as int);
                    assert(self.entries() =~= kept + all.skip(seen + 1));
                }
                expired.push(id);
            } else {
                proof {
                    assert(before =~= kept.push(all[seen]) + all.skip(seen + 1));
                }
                i += 1;
            }
            proof {
                seen = seen + 1;
            }
        }
        proof {
            let kept = all.take(seen).filter(stays);
            assert(self.entries().len() == kept.len() + all.skip(seen).len());
            assert(seen == all.len());
            assert(all.take(seen) =~= all);
            assert(all.skip(seen) =~= Seq::empty());
            assert(self.entries() =~= kept);
        }
        expired
    }

    /// Gives up every pending task that has waited too long by now; see
    /// [`UrgentTaskStore::expire_tasks_at`].
    pub fn expire_tasks(&mut self) -> (expired: Vec<TaskId>)
        requires
            old(self).wf(),
        ensures
            final(self).wf(),
            exists|now: i64|
                {
                    &&& final(self).entries() == surviving(old(self).entries(), now)
                    &&& crate::db::tree::views(expired@) == ids_of(
                        expiring(old(self).entries(), now),
                    )
                },
    {
        let now: i64 = clock::now();
        let expired = self.expire_tasks_at(now);
        proof {
            assert(final(self).entries() == surviving(old(self).entries(), now));
        }
        expired
    }
}

/// A match found among the first `n` entries is the first match of the whole
/// store.
pub proof fn lemma_first_match_extends(s: Seq<UrgentEntryView>, caps: Seq<Seq<char>>, n: int)
    requires
        0 <= n <= s.len(),
        first_match(s.take(n), caps) is Some,
    ensures
        first_match(s, caps) == first_match(s.take(n), caps),
    decreases s.len() - n,
{
    if n == s.len() {
        assert(s.take(n) =~= s);
    } else {
        assert(s.take(n + 1).drop_last() =~= s.take(n));
        lemma_first_match_extends(s, caps, n + 1);
    }
}

/// Replacing an entry by a well-formed one of the same name keeps the
/// store's invariant.
pub proof fn lemma_update_keeps_wf(s: Seq<UrgentEntryView>, i: int, e: UrgentEntryView)
    requires
        distinct_ids(s),
        all_wf(s),
        0 <= i < s.len(),
        e.task.id == s[i].task.id,
        e.wf(),
    ensures
        distinct_ids(s.update(i, e)),
        all_wf(s.update(i, e)),
{
    let t = s.update(i, e);
    assert forall|a: int, b: int| 0 <= a < t.len() && 0 <= b < t.len() && a != b implies (
    #[trigger] t[a]).task.id != (#[trigger] t[b]).task.id by {
        assert(t[a].task.id == s[a].task.id && t[b].task.id == s[b].task.id);
    }
    assert forall|a: int| 0 <= a < t.len() implies (#[trigger] t[a]).wf() by {
        if a != i {
            assert(t[a] == s[a]);
        }
    }
}

/// Taking an entry out keeps the store's invariant.
pub proof fn lemma_remove_keeps_wf(s: Seq<UrgentEntryView>, i: int)
    requires
        distinct_ids(s),
        all_wf(s),
        0 <= i < s.len(),
    ensures
        distinct_ids(s.remove(i)),
        all_wf(s.remove(i)),
{
    let t = s.remove(i);
    assert forall|a: int| 0 <= a < t.len() implies #[trigger] t[a] == s[if a < i {
        a
    } else {
        a + 1
    }] by {}
    assert forall|a: int, b: int| 0 <= a < t.len() && 0 <= b < t.len() && a != b implies (
    #[trigger] t[a]).task.id != (#[trigger] t[b]).task.id by {
        let a2 = if a < i {
            a
        } else {
            a + 1
        };
        let b2 = if b < i {
            b
        } else {
            b + 1
        };
        assert(t[a] == s[a2] && t[b] == s[b2]);
    }
    assert forall|a: int| 0 <= a < t.len() implies (#[trigger] t[a]).wf() by {
        let a2 = if a < i {
            a
        } else {
            a + 1
        };
        assert(t[a] == s[a2]);
    }
}

} // verus!
