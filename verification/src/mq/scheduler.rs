//! The rules of dispatch: which tasks an agent may see, who gets a task, and
//! what a report or a progress note does to it.

use vstd::prelude::*;
use vstd::string::*;

use crate::clock;
use crate::db::agent::CachedAgentStorage;
use crate::db::persistent_task_storage::{promoted, task_key, under_capabilities, TaskStorage};
use crate::db::tree::{filed, lemma_views_push, opt_view, record_at, records, unfiled, views};
use crate::error::AppError;
use crate::models::{
    contains_text, Agent, AgentView, AssignedTask, AssignedTaskView, UnassignedTask,
    UnassignedTaskView,
};
use crate::mq::urgent::{
    after_assign, after_complete, after_remove, after_update, can_assign, can_update, entry_of,
    first_match, holds, UrgentEntryView, UrgentTaskStore,
};
use crate::preferences::Config;
use crate::schema::{
    json_null, opt_text, texts, TaskId, TaskIdView, TaskResultReport, TaskStatus,
    TaskStatusResponse, TaskStatusResponseView, TaskUpdate,
};

verus! {

/// The highest tier among the agents that are online at `now` and offer
/// `cap`, or 0 where there is none.
pub open spec fn top_online_tier(agents: Seq<AgentView>, cap: Seq<char>, now: i64) -> u8
    decreases agents.len(),
{
    if agents.len() == 0 {
        0
    } else {
        let rest = top_online_tier(agents.drop_last(), cap, now);
        if agents.last().serves(cap, now) && agents.last().tier > rest {
            agents.last().tier
        } else {
            rest
        }
    }
}

/// The tier rule: whether a task is hidden from an agent of tier `tier`
/// while `top` is the highest tier online for the task's capability. As a
/// rule a task is hidden only from agents strictly below the top; with the
/// second preference set, from agents at the top as well.
pub open spec fn hidden(top: u8, tier: u8, config: Config) -> bool {
    if config.allow_assigning_to_same_top_tier {
        top >= tier
    } else {
        top > tier
    }
}

/// Whether an agent of tier `tier` may see `task` at `now`.
pub open spec fn shown(
    task: UnassignedTaskView,
    tier: u8,
    agents: Seq<AgentView>,
    now: i64,
    config: Config,
) -> bool {
    !hidden(top_online_tier(agents, task.data.capability, now), tier, config)
}

/// The test that [`shown`] makes, as a predicate on tasks.
pub open spec fn shown_to(tier: u8, agents: Seq<AgentView>, now: i64, config: Config) -> spec_fn(
    UnassignedTaskView,
) -> bool {
    |task: UnassignedTaskView| shown(task, tier, agents, now, config)
}

/// The tasks of `tasks` that an agent of tier `tier` may see at `now`, in
/// their order.
pub open spec fn assignable(
    tasks: Seq<UnassignedTaskView>,
    tier: u8,
    agents: Seq<AgentView>,
    now: i64,
    config: Config,
) -> Seq<UnassignedTaskView> {
    tasks.filter(shown_to(tier, agents, now, config))
}

/// Whether some agent is online at `now` and offers `cap`.
pub open spec fn has_potential_agents(agents: Seq<AgentView>, cap: Seq<char>, now: i64) -> bool {
    exists|i: int| 0 <= i < agents.len() && (#[trigger] agents[i]).serves(cap, now)
}

/// The agents that are online at `now` and offer `cap`, in their order.
pub open spec fn online_agents_for(agents: Seq<AgentView>, cap: Seq<char>, now: i64) -> Seq<
    AgentView,
> {
    agents.filter(|agent: AgentView| agent.serves(cap, now))
}

/// The top tier is at least the tier of every agent that serves the
/// capability, and, unless it is 0, it is the tier of one of them.
pub proof fn lemma_top_online_tier(agents: Seq<AgentView>, cap: Seq<char>, now: i64)
    ensures
        forall|i: int|
            0 <= i < agents.len() && (#[trigger] agents[i]).serves(cap, now) ==> agents[i].tier
                <= top_online_tier(agents, cap, now),
        top_online_tier(agents, cap, now) > 0 ==> exists|i: int|
            0 <= i < agents.len() && (#[trigger] agents[i]).serves(cap, now) && agents[i].tier
                == top_online_tier(agents, cap, now),
    decreases agents.len(),
{
    if agents.len() > 0 {
        let front = agents.drop_last();
        lemma_top_online_tier(front, cap, now);
        let rest = top_online_tier(front, cap, now);
        assert forall|i: int|
            0 <= i < agents.len() && (#[trigger] agents[i]).serves(
                cap,
                now,
            ) implies agents[i].tier <= top_online_tier(agents, cap, now) by {
            if i < agents.len() - 1 {
                assert(front[i] == agents[i]);
            }
        }
        if top_online_tier(agents, cap, now) > 0 {
            if agents.last().serves(cap, now) && agents.last().tier > rest {
                assert(agents[agents.len() - 1].serves(cap, now));
            } else {
                let i = choose|i: int|
                    0 <= i < front.len() && (#[trigger] front[i]).serves(cap, now) && front[i].tier
                        == rest;
                assert(agents[i] == front[i]);
            }
        }
    }
}

/// Raising an agent's tier never lowers the top tier of any capability.
pub proof fn lemma_raising_a_tier_raises_the_top(
    agents: Seq<AgentView>,
    i: int,
    tier: u8,
    cap: Seq<char>,
    now: i64,
)
    requires
        0 <= i < agents.len(),
        tier >= agents[i].tier,
    ensures
        top_online_tier(agents.update(i, AgentView { tier, ..agents[i] }), cap, now)
            >= top_online_tier(agents, cap, now),
{
    let raised = agents.update(i, AgentView { tier, ..agents[i] });
    lemma_top_online_tier(agents, cap, now);
    lemma_top_online_tier(raised, cap, now);
    if top_online_tier(agents, cap, now) > 0 {
        let k = choose|k: int|
            0 <= k < agents.len() && (#[trigger] agents[k]).serves(cap, now) && agents[k].tier
                == top_online_tier(agents, cap, now);
        assert(raised[k].serves(cap, now));
        assert(raised[k].tier >= agents[k].tier);
    }
}

/// Tier suppression is monotone: after an agent's tier has been raised, an
/// agent of any tier sees no regular task that it did not see before.
pub proof fn lemma_tier_suppression_monotone(
    agents: Seq<AgentView>,
    i: int,
    tier: u8,
    task: UnassignedTaskView,
    my_tier: u8,
    now: i64,
    config: Config,
)
    requires
        0 <= i < agents.len(),
        tier >= agents[i].tier,
    ensures
        shown(task, my_tier, agents.update(i, AgentView { tier, ..agents[i] }), now, config)
            ==> shown(task, my_tier, agents, now, config),
{
    lemma_raising_a_tier_raises_the_top(agents, i, tier, task.data.capability, now);
}

/// After an agent's tier has been raised, the regular tasks that an agent of
/// any tier may see are among those it could see before, in the same order:
/// the new list is the old one with some tasks left out.
pub proof fn lemma_assignable_shrinks(
    tasks: Seq<UnassignedTaskView>,
    agents: Seq<AgentView>,
    i: int,
    tier: u8,
    my_tier: u8,
    now: i64,
    config: Config,
)
    requires
        0 <= i < agents.len(),
        tier >= agents[i].tier,
    ensures
        assignable(tasks, my_tier, agents.update(i, AgentView { tier, ..agents[i] }), now, config)
            == assignable(tasks, my_tier, agents, now, config).filter(
            shown_to(my_tier, agents.update(i, AgentView { tier, ..agents[i] }), now, config),
        ),
        assignable(
            tasks,
            my_tier,
            agents.update(i, AgentView { tier, ..agents[i] }),
            now,
            config,
        ).len() <= assignable(tasks, my_tier, agents, now, config).len(),
    decreases tasks.len(),
{
    let raised = agents.update(i, AgentView { tier, ..agents[i] });
    let before = shown_to(my_tier, agents, now, config);
    let after = shown_to(my_tier, raised, now, config);
    if tasks.len() == 0 {
        reveal(Seq::filter);
        assert(tasks.filter(after) =~= tasks.filter(before).filter(after));
    } else {
        let front = tasks.drop_last();
        let last = tasks.last();
        assert(front.push(last) =~= tasks);
        lemma_assignable_shrinks(front, agents, i, tier, my_tier, now, config);
        front.lemma_filter_push(last, before);
        front.lemma_filter_push(last, after);
        lemma_tier_suppression_monotone(agents, i, tier, last, my_tier, now, config);
        if before(last) {
            front.filter(before).lemma_filter_push(last, after);
        }
    }
    tasks.filter(before).lemma_filter_len(after);
}

/// The highest tier among the agents of `agents` that are online at `now`
/// and offer `cap`, or 0 where there is none.
pub fn top_online_tier_for(agents: &Vec<Agent>, cap: &str, now: i64) -> (top: u8)
    ensures
        top == top_online_tier(views(agents@), cap@, now),
{
    let mut top: u8 = 0;
    let mut i: usize = 0;
    proof {
        assert(views(agents@).take(0) =~= Seq::empty());
    }
    while i < agents.len()
        invariant
            i <= agents@.len(),
            top == top_online_tier(views(agents@).take(i as int), cap@, now),
        decreases agents@.len() - i,
    {
        proof {
            let upto = views(agents@).take(i + 1);
            assert(upto.drop_last() =~= views(agents@).take(i as int));
            assert(upto.last() == agents@[i as int]@);
        }
        let agent = &agents[i];
        if agent.has_capability(cap) && agent.is_online_at(now) && agent.tier > top {
            top = agent.tier;
        }
        i += 1;
    }
    assert(views(agents@).take(i as int) =~= views(agents@));
    top
}

/// Whether a task is hidden from an agent of tier `tier` while `top` is the
/// highest tier online for the task's capability.
pub fn tier_hides(top: u8, tier: u8, config: &Config) -> (r: bool)
    ensures
        r == hidden(top, tier, *config),
{
    if config.allow_assigning_to_same_top_tier {
        top >= tier
    } else {
        top > tier
    }
}

/// The first urgent task, in the order of arrival, that is on offer and that
/// an agent offering `caps` can run.
pub fn find_urgent_tasks_with_capabilities(store: &UrgentTaskStore, caps: &Vec<String>) -> (found:
    Option<UnassignedTask>)
    requires
        store.wf(),
    ensures
        match first_match(store.entries(), texts(caps@)) {
            Some(i) => found matches Some(task) && task@ == store.entries()[i].task,
            None => found is None,
        },
{
    store.find_with_capabilities(caps)
}

/// The tasks of `tasks` that an agent of tier `tier` may see at `now`, given
/// all agents.
pub fn select_assignable(
    tasks: Vec<UnassignedTask>,
    tier: u8,
    agents: &Vec<Agent>,
    now: i64,
    config: &Config,
) -> (seen: Vec<UnassignedTask>)
    ensures
        views(seen@) == assignable(views(tasks@), tier, views(agents@), now, *config),
{
    let ghost all = views(tasks@);
    let ghost show = shown_to(tier, views(agents@), now, *config);
    let mut seen: Vec<UnassignedTask> = Vec::new();
    let mut i: usize = 0;
    proof {
        assert(all.take(0) =~= Seq::empty());
        assert(views(seen@) =~= Seq::empty());
        assert(Seq::<UnassignedTaskView>::empty().filter(show) =~= Seq::empty()) by {
            reveal(Seq::filter);
        }
    }
    while i < tasks.len()
        invariant
            i <= tasks@.len(),
            all == views(tasks@),
            show == shown_to(tier, views(agents@), now, *config),
            views(seen@) == all.take(i as int).filter(show),
        decreases tasks@.len() - i,
    {
        proof {
            all.lemma_take_succ_push(i as int);
            all.take(i as int).lemma_filter_push(all[i as int], show);
            assert(all[i as int] == tasks@[i as int]@);
        }
        let task = &tasks[i];
        let top = top_online_tier_for(agents, task.data.capability.as_str(), now);
        if !tier_hides(top, tier, config) {
            let copy = task.clone();
            proof {
                lemma_views_push(seen@, copy);
            }
            seen.push(copy);
        }
        i += 1;
    }
    assert(all.take(i as int) =~= all);
    seen
}

/// The regular tasks that an agent offering `caps` at tier `tier` may see at
/// `now`: the waiting tasks found under each capability in turn, without
/// those that the tier rule hides.
pub fn find_assignable_non_urgent_tasks_with_capabilities_for_tier_at(
    store: &TaskStorage,
    caps: &Vec<String>,
    tier: u8,
    agents: &CachedAgentStorage,
    now: i64,
    config: &Config,
) -> (seen: Vec<UnassignedTask>)
    requires
        store.wf(),
        agents.wf(),
    ensures
        views(seen@) == assignable(
            under_capabilities(store.unassigned(), texts(caps@)),
            tier,
            records(agents.agents()),
            now,
            *config,
        ),
{
    let all = store.list_unassigned_with_caps(caps);
    let everyone = agents.list_all_agents();
    select_assignable(all, tier, &everyone, now, config)
}

/// The regular tasks that an agent offering `caps` at tier `tier` may see
/// now; see [`find_assignable_non_urgent_tasks_with_capabilities_for_tier_at`].
pub fn find_assignable_non_urgent_tasks_with_capabilities_for_tier(
    store: &TaskStorage,
    caps: &Vec<String>,
    tier: u8,
    agents: &CachedAgentStorage,
    config: &Config,
) -> (seen: Vec<UnassignedTask>)
    requires
        store.wf(),
        agents.wf(),
    ensures
        exists|now: i64|
            views(seen@) == assignable(
                under_capabilities(store.unassigned(), texts(caps@)),
                tier,
                records(agents.agents()),
                now,
                *config,
            ),
{
    let now: i64 = clock::now();
    let seen = find_assignable_non_urgent_tasks_with_capabilities_for_tier_at(
        store,
        caps,
        tier,
        agents,
        now,
        config,
    );
    assert(views(seen@) == assignable(
        under_capabilities(store.unassigned(), texts(caps@)),
        tier,
        records(agents.agents()),
        now,
        *config,
    ));
    seen
}

/// What a request for the urgent task named `id` returns at `now`: where the
/// store holds the task and it is still pending, the copy that the agent
/// `agent_id` has of it from then on; nothing otherwise.
pub open spec fn picked_up(
    s: Seq<UrgentEntryView>,
    id: TaskIdView,
    agent_id: Seq<char>,
    now: i64,
) -> Option<AssignedTaskView> {
    if can_assign(s, id) {
        entry_of(s, id)->0.taken_by(agent_id, now).assigned_task
    } else {
        None
    }
}

/// The copy that a granted request returns bears the task's name, names the
/// agent, and is `Assigned`, whenever the request is made.
pub proof fn lemma_picked_up(
    s: Seq<UrgentEntryView>,
    id: TaskIdView,
    agent_id: Seq<char>,
    now: i64,
)
    ensures
        picked_up(s, id, agent_id, now) is Some <==> can_assign(s, id),
        picked_up(s, id, agent_id, now) matches Some(copy) ==> {
            &&& copy.id == id
            &&& copy.agent_id == agent_id
            &&& copy.status is Assigned
            &&& copy.data == entry_of(s, id)->0.task.data
            &&& copy.result is None
        },
{
}

/// An agent asks for the urgent task named `id` at `now`. The agent must
/// have an identifier.
///
/// Where the store holds the task and it is still pending, the agent gets
/// it: the call returns the agent's copy, whose status is `Assigned`. In
/// every other case nothing changes and the call returns `None`. The call
/// never fails.
pub fn try_pick_up_urgent_task_at(
    store: &mut UrgentTaskStore,
    agent: &Agent,
    id: &TaskId,
    now: i64,
) -> (r: Result<Option<AssignedTask>, AppError>)
    requires
        old(store).wf(),
        agent@.uid.len() > 0,
    ensures
        final(store).wf(),
        final(store).entries() == after_assign(old(store).entries(), id@, agent@.uid, now),
        r matches Ok(picked) && opt_view(picked) == picked_up(
            old(store).entries(),
            id@,
            agent@.uid,
            now,
        ),
{
    let won = store.assign_task_at(id, agent.uid.as_str(), now);
    if !won {
        return Ok(None);
    }
    proof {
        let s = old(store).entries();
        let p = crate::mq::urgent::slot_of(s, id@);
        crate::mq::laws::lemma_after_assign_shape(s, id@, agent@.uid, now);
        crate::mq::laws::lemma_entry_of(store.entries(), p);
    }
    match store.get_assigned_task(id) {
        Some(task) => Ok(Some(task)),
        None => {
            let mut text = "Urgent task vanished after pick-up: ".to_owned();
            text.append(id.to_string().as_str());
            Err(AppError::Conflict(text))
        },
    }
}

/// What [`try_pick_up_urgent_task_at`] makes of a request at `now`: the
/// store afterwards and what is returned.
pub open spec fn urgent_pick_up_at(
    before: Seq<UrgentEntryView>,
    after: Seq<UrgentEntryView>,
    picked: Option<AssignedTaskView>,
    id: TaskIdView,
    agent_id: Seq<char>,
    now: i64,
) -> bool {
    &&& after == after_assign(before, id, agent_id, now)
    &&& picked == picked_up(before, id, agent_id, now)
}

/// An agent asks for the urgent task named `id` now; see
/// [`try_pick_up_urgent_task_at`], of which this is the outcome at some
/// instant. Whether the agent gets the task does not depend on the clock,
/// nor do the name, the agent and the status of the copy it gets.
pub fn try_pick_up_urgent_task(store: &mut UrgentTaskStore, agent: &Agent, id: &TaskId) -> (r:
    Result<Option<AssignedTask>, AppError>)
    requires
        old(store).wf(),
        agent@.uid.len() > 0,
    ensures
        final(store).wf(),
        r matches Ok(picked) && exists|now: i64|
            urgent_pick_up_at(
                old(store).entries(),
                final(store).entries(),
                opt_view(picked),
                id@,
                agent@.uid,
                now,
            ),
        r matches Ok(picked) ==> (picked is Some <==> can_assign(old(store).entries(), id@)),
        r matches Ok(Some(copy)) ==> copy@.id == id@ && copy@.agent_id == agent@.uid
            && copy@.status is Assigned,
{
    let now: i64 = clock::now();
    let r = try_pick_up_urgent_task_at(store, agent, id, now);
    proof {
        lemma_picked_up(old(store).entries(), id@, agent@.uid, now);
        assert(urgent_pick_up_at(
            old(store).entries(),
            final(store).entries(),
            opt_view(r->Ok_0),
            id@,
            agent@.uid,
            now,
        ));
    }
    r
}

/// An agent that has an identifier asks for the regular task named `id` at
/// `now`. Where the task waits it is handed to the agent and filed among
/// the taken tasks in one step; otherwise nothing changes and the call
/// fails with `Conflict`.
pub fn try_pick_up_non_urgent_task_at(
    store: &mut TaskStorage,
    agent: &Agent,
    id: &TaskId,
    now: i64,
) -> (r: Result<AssignedTask, AppError>)
    requires
        old(store).wf(),
        agent@.uid.len() > 0,
    ensures
        final(store).wf(),
        final(store).archived() == old(store).archived(),
        match record_at(old(store).unassigned(), task_key(id@)) {
            Some(task) => {
                &&& r matches Ok(assigned)
                &&& assigned@ == promoted(task, agent@.uid, now)
                &&& final(store).unassigned() == unfiled(old(store).unassigned(), task_key(id@))
                &&& final(store).assigned() == filed(
                    old(store).assigned(),
                    task_key(id@),
                    assigned@,
                )
            },
            None => {
                &&& r matches Err(e)
                &&& e is Conflict
                &&& final(store).unassigned() == old(store).unassigned()
                &&& final(store).assigned() == old(store).assigned()
            },
        },
{
    store.assign_task_at(id, agent.uid.as_str(), now)
}

/// An agent asks for the regular task named `id` now; see
/// [`try_pick_up_non_urgent_task_at`]. Whether the agent gets the task does
/// not depend on the clock.
pub fn try_pick_up_non_urgent_task(store: &mut TaskStorage, agent: &Agent, id: &TaskId) -> (r:
    Result<AssignedTask, AppError>)
    requires
        old(store).wf(),
        agent@.uid.len() > 0,
    ensures
        final(store).wf(),
        final(store).archived() == old(store).archived(),
        match record_at(old(store).unassigned(), task_key(id@)) {
            Some(task) => {
                &&& r matches Ok(assigned)
                &&& exists|now: i64| assigned@ == promoted(task, agent@.uid, now)
                &&& final(store).unassigned() == unfiled(old(store).unassigned(), task_key(id@))
                &&& final(store).assigned() == filed(
                    old(store).assigned(),
                    task_key(id@),
                    assigned@,
                )
            },
            None => {
                &&& r matches Err(e)
                &&& e is Conflict
                &&& final(store).unassigned() == old(store).unassigned()
                &&& final(store).assigned() == old(store).assigned()
            },
        },
{
    let now: i64 = clock::now();
    let r = store.assign_task_at(id, agent.uid.as_str(), now);
    proof {
        if let Some(task) = record_at(old(store).unassigned(), task_key(id@)) {
            assert(r->Ok_0@ == promoted(task, agent@.uid, now));
        }
    }
    r
}

/// The payload that a report hands in: its output, or, where it has none,
/// any value.
pub open spec fn hands_in(report: TaskResultReport, payload: serde_json::Value) -> bool {
    report.output matches Some(output) ==> payload == output
}

/// An agent's final report on the urgent task named `id`.
///
/// A report of success completes the task, any other report fails it; the
/// report's output becomes the task's result, the JSON null standing in for
/// a missing output. Returns `Ok(true)` where the store held the task and
/// an agent was at work on it, `Ok(false)` where the store does not hold
/// the task, and fails with `Conflict` where it holds the task but nobody
/// is at work on it. In the last two cases nothing changes.
pub fn report_urgent_task(store: &mut UrgentTaskStore, report: TaskResultReport, id: &TaskId) -> (r:
    Result<bool, AppError>)
    requires
        old(store).wf(),
    ensures
        final(store).wf(),
        exists|payload: serde_json::Value|
            hands_in(report, payload) && final(store).entries() == after_complete(
                old(store).entries(),
                id@,
                report.status is Success,
                payload,
            ),
        match entry_of(old(store).entries(), id@) {
            None => r matches Ok(owned) && !owned,
            Some(e) => if e.status is Assigned {
                r matches Ok(owned) && owned
            } else {
                r matches Err(err) && err is Conflict
            },
        },
{
    let success = report.status.is_success();
    let payload = match report.output {
        Some(output) => output,
        None => json_null(),
    };
    let r = store.complete_task(id, success, payload);
    assert(hands_in(report, payload) && final(store).entries() == after_complete(
        old(store).entries(),
        id@,
        report.status is Success,
        payload,
    ));
    r
}

/// An agent's final report on a regular task.
///
/// The task named in the report must be among the taken ones; it becomes
/// `Completed` on a report of success and `Failed` on any other, takes the
/// report's output as its result, and is filed again. The record as filed is
/// returned. Fails with `NotFound`, and changes nothing, exactly when no
/// taken task bears the name.
pub fn report_non_urgent_task(store: &mut TaskStorage, report: TaskResultReport) -> (r: Result<
    AssignedTask,
    AppError,
>)
    requires
        old(store).wf(),
    ensures
        final(store).wf(),
        final(store).unassigned() == old(store).unassigned(),
        final(store).archived() == old(store).archived(),
        match record_at(old(store).assigned(), task_key(report.id@)) {
            Some(task) => {
                &&& r matches Ok(filed_task)
                &&& filed_task@ == task.resolved(report.status is Success, report.output)
                &&& final(store).assigned() == filed(
                    old(store).assigned(),
                    task_key(report.id@),
                    filed_task@,
                )
            },
            None => {
                &&& r matches Err(e)
                &&& e is NotFound
                &&& final(store).assigned() == old(store).assigned()
            },
        },
{
    let success = report.status.is_success();
    match store.get_assigned(&report.id) {
        Some(mut task) => {
            proof {
                crate::db::persistent_task_storage::lemma_assigned_record_is_sound(
                    store.assigned(),
                    task_key(report.id@),
                );
            }
            task.resolve(success, report.output);
            store.update_assigned(&task);
            Ok(task)
        },
        None => Err(AppError::NotFound(report.id.to_string())),
    }
}

/// An agent's progress note on the urgent task named `id`: the note's text
/// is appended to the log of the agent's copy and its stage, if any,
/// replaces the stage. Returns whether the store holds the task and it has
/// not ended; otherwise nothing changes.
pub fn update_urgent_task(store: &mut UrgentTaskStore, update: TaskUpdate, id: &TaskId) -> (r:
    Result<bool, AppError>)
    requires
        old(store).wf(),
    ensures
        final(store).wf(),
        r matches Ok(known) && known == can_update(old(store).entries(), id@),
        final(store).entries() == after_update(
            old(store).entries(),
            id@,
            opt_text(update.log),
            opt_text(update.stage),
        ),
{
    let log = match &update.log {
        Some(l) => Some(l.as_str()),
        None => None,
    };
    let stage = match &update.stage {
        Some(s) => Some(s.as_str()),
        None => None,
    };
    Ok(store.update_task(id, log, stage))
}

/// A regular task after a progress note: the note is recorded, and a task
/// that was merely queued with its agent is running from now on.
pub open spec fn progressed_regular(
    task: AssignedTaskView,
    log: Option<Seq<char>>,
    stage: Option<Seq<char>>,
) -> AssignedTaskView {
    let noted = task.progressed(log, stage);
    if task.status is Queued {
        noted.with_status(TaskStatus::Running)
    } else {
        noted
    }
}

/// An agent's progress note on a regular task.
///
/// The task named in the note must be among the taken ones. The note's
/// text is appended to its log, its stage, if any, replaces the stage, and a
/// task that was queued with the agent becomes `Running`. The record as
/// filed is returned. Fails with `NotFound`, and changes nothing, exactly
/// when no taken task bears the name.
pub fn update_non_urgent_task(store: &mut TaskStorage, update: TaskUpdate) -> (r: Result<
    AssignedTask,
    AppError,
>)
    requires
        old(store).wf(),
    ensures
        final(store).wf(),
        final(store).unassigned() == old(store).unassigned(),
        final(store).archived() == old(store).archived(),
        match record_at(old(store).assigned(), task_key(update.id@)) {
            Some(task) => {
                &&& r matches Ok(filed_task)
                &&& filed_task@ == progressed_regular(
                    task,
                    opt_text(update.log),
                    opt_text(update.stage),
                )
                &&& final(store).assigned() == filed(
                    old(store).assigned(),
                    task_key(update.id@),
                    filed_task@,
                )
            },
            None => {
                &&& r matches Err(e)
                &&& e is NotFound
                &&& final(store).assigned() == old(store).assigned()
            },
        },
{
    match store.get_assigned(&update.id) {
        Some(mut task) => {
            proof {
                crate::db::persistent_task_storage::lemma_assigned_record_is_sound(
                    store.assigned(),
                    task_key(update.id@),
                );
            }
            let log = match &update.log {
                Some(l) => Some(l.as_str()),
                None => None,
            };
            let stage = match &update.stage {
                Some(s) => Some(s.as_str()),
                None => None,
            };
            let queued = matches!(task.status, TaskStatus::Queued);
            task.progress(log, stage);
            if queued {
                task.status = TaskStatus::Running;
            }
            store.update_assigned(&task);
            Ok(task)
        },
        None => Err(AppError::NotFound(update.id.to_string())),
    }
}

/// Whether some agent of `agents` is online at `now` and offers `cap`.
pub fn any_agent_serves(agents: &Vec<Agent>, cap: &str, now: i64) -> (r: bool)
    ensures
        r == has_potential_agents(views(agents@), cap@, now),
{
    let mut i: usize = 0;
    while i < agents.len()
        invariant
            i <= agents@.len(),
            forall|j: int| 0 <= j < i ==> !(#[trigger] views(agents@)[j]).serves(cap@, now),
        decreases agents@.len() - i,
    {
        let agent = &agents[i];
        assert(views(agents@)[i as int] == agent@);
        if agent.has_capability(cap) && agent.is_online_at(now) {
            return true;
        }
        i += 1;
    }
    false
}

/// Whether some registered agent is online at `now` and offers `cap`.
pub fn has_potential_agents_for_at(cap: &str, agents: &CachedAgentStorage, now: i64) -> (r: bool)
    requires
        agents.wf(),
    ensures
        r == has_potential_agents(records(agents.agents()), cap@, now),
{
    let everyone = agents.list_all_agents();
    any_agent_serves(&everyone, cap, now)
}

/// Whether some registered agent is online now and offers `cap`. Without a
/// registered agent that offers `cap` and was ever heard from the answer is
/// `false` whatever the clock says.
pub fn has_potential_agents_for(cap: &str, agents: &CachedAgentStorage) -> (r: bool)
    requires
        agents.wf(),
    ensures
        exists|now: i64| r == has_potential_agents(records(agents.agents()), cap@, now),
{
    let now: i64 = clock::now();
    let r = has_potential_agents_for_at(cap, agents, now);
    assert(r == has_potential_agents(records(agents.agents()), cap@, now));
    r
}

/// The registered agents that are online at `now` and offer `cap`, in the
/// order of their identifiers.
pub fn all_online_agents_for_at(cap: &str, agents: &CachedAgentStorage, now: i64) -> (online: Vec<
    Agent,
>)
    requires
        agents.wf(),
    ensures
        views(online@) == online_agents_for(records(agents.agents()), cap@, now),
{
    let everyone = agents.list_all_agents();
    let ghost all = views(everyone@);
    let ghost serves = |agent: AgentView| agent.serves(cap@, now);
    let mut online: Vec<Agent> = Vec::new();
    let mut i: usize = 0;
    proof {
        assert(all.take(0) =~= Seq::empty());
        assert(views(online@) =~= Seq::empty());
        assert(Seq::<AgentView>::empty().filter(serves) =~= Seq::empty()) by {
            reveal(Seq::filter);
        }
    }
    while i < everyone.len()
        invariant
            i <= everyone@.len(),
            all == views(everyone@),
            serves == |agent: AgentView| agent.serves(cap@, now),
            views(online@) == all.take(i as int).filter(serves),
        decreases everyone@.len() - i,
    {
        proof {
            all.lemma_take_succ_push(i as int);
            all.take(i as int).lemma_filter_push(all[i as int], serves);
            assert(all[i as int] == everyone@[i as int]@);
        }
        let agent = &everyone[i];
        if agent.has_capability(cap) && agent.is_online_at(now) {
            let copy = agent.clone();
            proof {
                lemma_views_push(online@, copy);
            }
            online.push(copy);
        }
        i += 1;
    }
    assert(all.take(i as int) =~= all);
    online
}

/// The registered agents that are online now and offer `cap`; see
/// [`all_online_agents_for_at`].
pub fn all_online_agents_for(cap: &str, agents: &CachedAgentStorage) -> (online: Vec<Agent>)
    requires
        agents.wf(),
    ensures
        exists|now: i64| views(online@) == online_agents_for(records(agents.agents()), cap@, now),
{
    let now: i64 = clock::now();
    let online = all_online_agents_for_at(cap, agents, now);
    assert(views(online@) == online_agents_for(records(agents.agents()), cap@, now));
    online
}

/// Whether one of the first `n` agents is online at `now` and offers `cap`.
pub open spec fn served_by_first(agents: Seq<AgentView>, n: int, cap: Seq<char>, now: i64) -> bool {
    exists|j: int| 0 <= j < n && j < agents.len() && (#[trigger] agents[j]).serves(cap, now)
}

/// Whether `cap` is one of the first `n` of `caps`.
pub open spec fn among_first(caps: Seq<Seq<char>>, n: int, cap: Seq<char>) -> bool {
    exists|m: int| 0 <= m < n && m < caps.len() && #[trigger] caps[m] == cap
}

/// Whether a key with `patterns` is entitled to `cap`; without patterns
/// everything is permitted.
pub open spec fn permitted(patterns: Option<Seq<Seq<char>>>, cap: Seq<char>) -> bool {
    match patterns {
        Some(p) => crate::db::apikeys::admits(p, cap),
        None => true,
    }
}

/// The capabilities that agents of `agents` which are online at `now`
/// offer, each listed once, in the order in which they are first met. With
/// `patterns`, only those that the patterns admit are listed.
pub fn online_capabilities(agents: &Vec<Agent>, now: i64, patterns: Option<&Vec<String>>) -> (caps:
    Vec<String>)
    ensures
        texts(caps@).no_duplicates(),
        forall|cap: Seq<char>| #[trigger]
            texts(caps@).contains(cap) <==> has_potential_agents(views(agents@), cap, now)
                && permitted(
                match patterns {
                    Some(p) => Some(texts(p@)),
                    None => None,
                },
                cap,
            ),
{
    let ghost all = views(agents@);
    let ghost allow = match patterns {
        Some(p) => Some(texts(p@)),
        None => None,
    };
    let mut caps: Vec<String> = Vec::new();
    let mut i: usize = 0;
    while i < agents.len()
        invariant
            i <= agents@.len(),
            all == views(agents@),
            allow == match patterns {
                Some(p) => Some(texts(p@)),
                None => None,
            },
            texts(caps@).no_duplicates(),
            forall|cap: Seq<char>| #[trigger]
                texts(caps@).contains(cap) <==> served_by_first(all, i as int, cap, now)
                    && permitted(allow, cap),
        decreases agents@.len() - i,
    {
        let agent = &agents[i];
        assert(all[i as int] == agent@);
        if agent.is_online_at(now) {
            let offered = &agent.capabilities;
            let mut k: usize = 0;
            while k < offered.len()
                invariant
                    k <= offered@.len(),
                    i < agents@.len(),
                    all == views(agents@),
                    all[i as int] == agent@,
                    agent@.online_at(now),
                    texts(offered@) == agent@.capabilities,
                    allow == match patterns {
                        Some(p) => Some(texts(p@)),
                        None => None,
                    },
                    texts(caps@).no_duplicates(),
                    forall|cap: Seq<char>| #[trigger]
                        texts(caps@).contains(cap) <==> (served_by_first(all, i as int, cap, now)
                            || among_first(texts(offered@), k as int, cap)) && permitted(
                            allow,
                            cap,
                        ),
                decreases offered@.len() - k,
            {
                let cap = &offered[k];
                let ghost before = texts(caps@);
                let ghost this = texts(offered@)[k as int];
                assert(this == cap@);
                let wanted = match patterns {
                    Some(p) => crate::db::apikeys::ApiKeysStorage::has_capability(p, cap.as_str()),
                    None => true,
                };
                if wanted && !contains_text(&caps, cap.as_str()) {
                    caps.push(cap.clone());
                    proof {
                        assert(texts(caps@) =~= before.push(this));
                        assert forall|c: Seq<char>| #[trigger]
                            texts(caps@).contains(c) <==> (before.contains(c) || c == this) by {
                            if before.contains(c) {
                                let m = choose|m: int| 0 <= m < before.len() && before[m] == c;
                                assert(texts(caps@)[m] == c);
                            }
                            if c == this {
                                assert(texts(caps@)[before.len() as int] == c);
                            }
                        }
                    }
                }
                proof {
                    assert forall|c: Seq<char>| #[trigger]
                        texts(caps@).contains(c) <==> (served_by_first(all, i as int, c, now)
                            || among_first(texts(offered@), k + 1, c)) && permitted(allow, c) by {
                        if among_first(texts(offered@), k + 1, c) {
                            let m = choose|m: int|
                                0 <= m < k + 1 && m < texts(offered@).len() && #[trigger] texts(
                                    offered@,
                                )[m] == c;
                            if m < k {
                                assert(among_first(texts(offered@), k as int, c));
                            }
                        }
                        if among_first(texts(offered@), k as int, c) {
                            let m = choose|m: int|
                                0 <= m < k && m < texts(offered@).len() && #[trigger] texts(
                                    offered@,
                                )[m] == c;
                            assert(texts(offered@)[m] == c);
                        }
                        if c == this {
                            assert(texts(offered@)[k as int] == c);
                        }
                    }
                }
                k += 1;
            }
            proof {
                assert forall|c: Seq<char>| #[trigger]
                    texts(caps@).contains(c) <==> served_by_first(all, i + 1, c, now) && permitted(
                        allow,
                        c,
                    ) by {
                    if among_first(texts(offered@), k as int, c) {
                        let m = choose|m: int|
                            0 <= m < k && m < texts(offered@).len() && #[trigger] texts(
                                offered@,
                            )[m] == c;
                        assert(agent@.capabilities[m] == c);
                        assert(all[i as int].serves(c, now));
                    }
                    if served_by_first(all, i as int, c, now) {
                        let j = choose|j: int|
                            0 <= j < i && j < all.len() && (#[trigger] all[j]).serves(c, now);
                        assert(all[j].serves(c, now));
                    }
                    if served_by_first(all, i + 1, c, now) {
                        let j = choose|j: int|
                            0 <= j < i + 1 && j < all.len() && (#[trigger] all[j]).serves(c, now);
                        if j < i {
                            assert(served_by_first(all, i as int, c, now));
                        } else {
                            let m = choose|m: int|
                                0 <= m < agent@.capabilities.len() && agent@.capabilities[m] == c;
                            assert(texts(offered@)[m] == c);
                            assert(among_first(texts(offered@), k as int, c));
                        }
                    }
                }
            }
        } else {
            proof {
                assert forall|c: Seq<char>|
                    served_by_first(all, i + 1, c, now) <==> served_by_first(
                        all,
                        i as int,
                        c,
                        now,
                    ) by {
                    if served_by_first(all, i + 1, c, now) {
                        let j = choose|j: int|
                            0 <= j < i + 1 && j < all.len() && (#[trigger] all[j]).serves(c, now);
                        assert(j < i);
                    }
                    if served_by_first(all, i as int, c, now) {
                        let j = choose|j: int|
                            0 <= j < i && j < all.len() && (#[trigger] all[j]).serves(c, now);
                        assert(all[j].serves(c, now));
                    }
                }
            }
        }
        i += 1;
    }
    proof {
        assert forall|cap: Seq<char>|
            served_by_first(all, i as int, cap, now) <==> has_potential_agents(all, cap, now) by {
            if served_by_first(all, i as int, cap, now) {
                let j = choose|j: int|
                    0 <= j < i && j < all.len() && (#[trigger] all[j]).serves(cap, now);
                assert(all[j].serves(cap, now));
            }
            if has_potential_agents(all, cap, now) {
                let j = choose|j: int| 0 <= j < all.len() && (#[trigger] all[j]).serves(cap, now);
                assert(all[j].serves(cap, now));
            }
        }
    }
    caps
}

/// The agents of `agents` that are online at `now`, in their order.
pub open spec fn online_among(agents: Seq<AgentView>, now: i64) -> Seq<AgentView> {
    agents.filter(|agent: AgentView| agent.online_at(now))
}

/// The agents of `agents` that are online at `now`, in their order.
pub fn online_agents(agents: Vec<Agent>, now: i64) -> (online: Vec<Agent>)
    ensures
        views(online@) == online_among(views(agents@), now),
{
    let ghost all = views(agents@);
    let ghost is_online = |agent: AgentView| agent.online_at(now);
    let mut online: Vec<Agent> = Vec::new();
    let mut i: usize = 0;
    proof {
        assert(all.take(0) =~= Seq::empty());
        assert(views(online@) =~= Seq::empty());
        assert(Seq::<AgentView>::empty().filter(is_online) =~= Seq::empty()) by {
            reveal(Seq::filter);
        }
    }
    while i < agents.len()
        invariant
            i <= agents@.len(),
            all == views(agents@),
            is_online == |agent: AgentView| agent.online_at(now),
            views(online@) == all.take(i as int).filter(is_online),
        decreases agents@.len() - i,
    {
        proof {
            all.lemma_take_succ_push(i as int);
            all.take(i as int).lemma_filter_push(all[i as int], is_online);
            assert(all[i as int] == agents@[i as int]@);
        }
        let agent = &agents[i];
        if agent.is_online_at(now) {
            let copy = agent.clone();
            proof {
                lemma_views_push(online@, copy);
            }
            online.push(copy);
        }
        i += 1;
    }
    assert(all.take(i as int) =~= all);
    online
}

/// Accepts an urgent task at `now`, or turns it away.
///
/// Where no registered agent is online at `now` and offers the task's
/// capability, the task is turned away with `SchedulingImpossible`. Where
/// the store already holds a task of that name, the call fails with
/// `Conflict`. In both cases nothing changes. Otherwise the task is added
/// at the end of the store, pending, to wait for at most 60 seconds, and the
/// receiving half of its status channel is returned for the submitter to
/// wait on.
pub fn submit_urgent_task_at(
    store: &mut UrgentTaskStore,
    agents: &CachedAgentStorage,
    task: UnassignedTask,
    now: i64,
) -> (r: Result<tokio::sync::watch::Receiver<TaskStatus>, AppError>)
    requires
        old(store).wf(),
        agents.wf(),
    ensures
        final(store).wf(),
        if !has_potential_agents(records(agents.agents()), task@.data.capability, now) {
            r matches Err(e) && e is SchedulingImpossible && final(store).entries()
                == old(store).entries()
        } else if holds(old(store).entries(), task@.id) {
            r matches Err(e) && e is Conflict && final(store).entries() == old(store).entries()
        } else {
            r is Ok && final(store).entries() == old(store).entries().push(
                UrgentEntryView::fresh(task@, now, clock::URGENT_TTL_SECS),
            )
        },
{
    if !has_potential_agents_for_at(task.data.capability.as_str(), agents, now) {
        let mut text = "No online agent offers capability ".to_owned();
        text.append(task.data.capability.as_str());
        return Err(AppError::SchedulingImpossible(text));
    }
    store.add_task_at(task, clock::URGENT_TTL_SECS, now)
}

/// Accepts an urgent task now, or turns it away; see
/// [`submit_urgent_task_at`]. A task of a name that the store already holds
/// is never accepted, and `Conflict` comes for no other reason; a task is
/// turned away with `SchedulingImpossible` only at an instant at which no
/// registered agent is online and offers its capability.
pub fn submit_urgent_task(
    store: &mut UrgentTaskStore,
    agents: &CachedAgentStorage,
    task: UnassignedTask,
) -> (r: Result<tokio::sync::watch::Receiver<TaskStatus>, AppError>)
    requires
        old(store).wf(),
        agents.wf(),
    ensures
        final(store).wf(),
        r matches Err(e) ==> (e is SchedulingImpossible || e is Conflict) && final(store).entries()
            == old(store).entries(),
        r is Ok ==> !holds(old(store).entries(), task@.id) && exists|now: i64|
            has_potential_agents(records(agents.agents()), task@.data.capability, now)
                && final(store).entries()
                == old(store).entries().push(
                UrgentEntryView::fresh(task@, now, clock::URGENT_TTL_SECS),
            ),
        holds(old(store).entries(), task@.id) ==> r is Err,
        (r matches Err(e) && e is Conflict) ==> holds(old(store).entries(), task@.id),
        (r matches Err(e) && e is SchedulingImpossible) ==> exists|now: i64|
            !has_potential_agents(records(agents.agents()), task@.data.capability, now),
{
    let now: i64 = clock::now();
    let ghost content = task@;
    let r = submit_urgent_task_at(store, agents, task, now);
    proof {
        if !has_potential_agents(records(agents.agents()), content.data.capability, now) {
            assert(r matches Err(e) && e is SchedulingImpossible);
        }
        if r is Ok {
            assert(has_potential_agents(records(agents.agents()), content.data.capability, now)
                && final(store).entries() == old(store).entries().push(
                UrgentEntryView::fresh(content, now, clock::URGENT_TTL_SECS),
            ));
        }
    }
    r
}

/// What the submitter of an urgent task is handed once the task has ended.
pub enum UrgentOutcome {
    /// The task as the agent that worked on it left it.
    Finished(AssignedTask),
    /// Only how the task ended, because no agent ever took it.
    StatusOnly(TaskStatusResponse),
}

/// Closes an urgent task whose submitter has seen it end with `observed`:
/// the task leaves the store, and the submitter gets the agent's copy, or,
/// where no agent ever took the task, a note of how it ended.
pub fn conclude_urgent_task(store: &mut UrgentTaskStore, id: &TaskId, observed: TaskStatus) -> (r:
    UrgentOutcome)
    requires
        old(store).wf(),
    ensures
        final(store).wf(),
        final(store).entries() == after_remove(old(store).entries(), id@),
        !holds(final(store).entries(), id@),
        match entry_of(old(store).entries(), id@) {
            Some(e) if e.assigned_task is Some => r matches UrgentOutcome::Finished(task)
                && Some(task@) == e.assigned_task,
            _ => r matches UrgentOutcome::StatusOnly(note) && note@ == (TaskStatusResponseView {
                id: id@,
                status: observed,
                stage: None,
                output: None,
            }),
        },
{
    let assigned = store.get_assigned_task(id);
    store.remove_task(id);
    match assigned {
        Some(task) => UrgentOutcome::Finished(task),
        None => UrgentOutcome::StatusOnly(
            TaskStatusResponse { id: id.clone(), status: observed, stage: None, output: None },
        ),
    }
}

} // verus!
