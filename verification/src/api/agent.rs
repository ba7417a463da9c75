//! What agents ask of the broker: to be registered, to be shown work, to
//! take a task, and to report on it.

use rand::seq::IndexedRandom;
use vstd::prelude::*;
use vstd::string::*;

use crate::db::agent::{agent_key, agent_of, knows, no_uid_taken};
use crate::db::persistent_task_storage::{promoted, task_key, under_capabilities};
use crate::db::tree::{filed, record_at, records, unfiled, views};
use crate::error::AppError;
use crate::models::{contains_text, Agent, AgentView, AssignedTask, UnassignedTask};
use crate::mq::scheduler::{
    assignable, find_assignable_non_urgent_tasks_with_capabilities_for_tier_at,
    find_urgent_tasks_with_capabilities, hands_in, progressed_regular, report_non_urgent_task,
    report_urgent_task, try_pick_up_non_urgent_task_at, try_pick_up_urgent_task_at,
    update_non_urgent_task, update_urgent_task,
};
use crate::mq::urgent::{
    after_assign, after_complete, after_update, can_assign, entry_of, first_match,
};
use crate::schema::{
    opt_text, texts, AgentLoginRequest, AgentRegistrationRequest, AgentRegistrationResponse,
    AgentUpdateRequest, TaskId, TaskIdView, TaskResultReport, TaskUpdate,
};
use crate::state::AppState;
use crate::utils::{is_uid_text, url_decoded};

verus! {

/// One task picked at random from `tasks` by `rand`'s `IndexedRandom::choose`
/// with the thread's generator: `None` where there is no task, and otherwise
/// one of the tasks. Which one is not stated.
#[verifier::external_body]
fn choose_task<'a>(tasks: &'a Vec<UnassignedTask>) -> (chosen: Option<&'a UnassignedTask>)
    ensures
        chosen is Some <==> tasks@.len() > 0,
        chosen matches Some(task) ==> exists|i: int|
            0 <= i < tasks@.len() && #[trigger] tasks@[i] == *task,
{
    tasks.choose(&mut rand::rng())
}

/// A task picked at random from `tasks`, if there is any.
pub fn pick_random(tasks: &Vec<UnassignedTask>) -> (picked: Option<UnassignedTask>)
    ensures
        picked is Some <==> tasks@.len() > 0,
        picked matches Some(task) ==> views(tasks@).contains(task@),
{
    match choose_task(tasks) {
        Some(task) => {
            let copy = task.clone();
            proof {
                let i = choose|i: int| 0 <= i < tasks@.len() && #[trigger] tasks@[i] == *task;
                assert(views(tasks@)[i] == copy@);
            }
            Some(copy)
        },
        None => None,
    }
}

/// Checks a registration key against the keys that entitle to register.
/// Fails with `Authorization` exactly when `key` is not among `keys`.
pub fn validate_api_key(keys: &Vec<String>, key: &str) -> (r: Result<(), AppError>)
    ensures
        r is Ok <==> texts(keys@).contains(key@),
        r matches Err(e) ==> e is Authorization,
{
    if contains_text(keys, key) {
        Ok(())
    } else {
        Err(AppError::Authorization("Incorrect API key".to_owned()))
    }
}

/// The name that the two segments of a request path stand for, where both
/// decode.
pub open spec fn path_id(cap: Seq<char>, id: Seq<char>) -> Option<TaskIdView> {
    match (url_decoded(cap), url_decoded(id)) {
        (Some(c), Some(i)) => Some(TaskIdView { cap: c, id: i }),
        _ => None,
    }
}

/// An agent polls for urgent work at `now`.
///
/// The agent's contact is stamped, and it is shown the first urgent task on
/// offer that it can run, if there is one. Fails with `NotFound`, and
/// changes nothing, exactly when the agent is not registered.
pub fn fetch_task_urgent_handler(app_state: &mut AppState, agent: Agent, now: i64) -> (r: Result<
    Option<UnassignedTask>,
    AppError,
>)
    requires
        old(app_state).wf(),
    ensures
        final(app_state).wf(),
        final(app_state).urgent.entries() == old(app_state).urgent.entries(),
        final(app_state).storage.tasks == old(app_state).storage.tasks,
        final(app_state).storage.client_keys == old(app_state).storage.client_keys,
        r is Ok <==> knows(old(app_state).storage.agents.agents(), agent@.uid),
        r matches Err(e) ==>
            e is NotFound && final(app_state).storage.agents.agents()
            == old(app_state).storage.agents.agents(),
        r matches Ok(found) ==> {
            &&& final(app_state).storage.agents.agents() == filed(
                old(app_state).storage.agents.agents(),
                agent_key(agent@.uid),
                agent@.contacted_at(now),
            )
            &&& match first_match(old(app_state).urgent.entries(), agent@.capabilities) {
                Some(i) => found matches Some(task) && task@
                    == old(app_state).urgent.entries()[i].task,
                None => found is None,
            }
        },
{
    let agent = match app_state.storage.agents.update_agent_last_contact_at(agent, now) {
        Ok(stamped) => stamped,
        Err(e) => {
            return Err(e);
        },
    };
    Ok(find_urgent_tasks_with_capabilities(&app_state.urgent, &agent.capabilities))
}

/// An agent polls for work at `now`.
///
/// The agent's contact is stamped. It is shown the first urgent task on
/// offer that it can run; where there is none, one of the regular tasks that
/// it can run and that the tier rule does not hide from it, picked at
/// random; where there is none either, nothing. Fails with `NotFound`, and
/// changes nothing, exactly when the agent is not registered.
pub fn fetch_task_non_urgent_handler(app_state: &mut AppState, agent: Agent, now: i64) -> (r:
    Result<Option<UnassignedTask>, AppError>)
    requires
        old(app_state).wf(),
    ensures
        final(app_state).wf(),
        final(app_state).urgent.entries() == old(app_state).urgent.entries(),
        final(app_state).storage.tasks == old(app_state).storage.tasks,
        final(app_state).storage.client_keys == old(app_state).storage.client_keys,
        r is Ok <==> knows(old(app_state).storage.agents.agents(), agent@.uid),
        r matches Err(e) ==>
            e is NotFound && final(app_state).storage.agents.agents()
            == old(app_state).storage.agents.agents(),
        r matches Ok(found) ==> {
            &&& final(app_state).storage.agents.agents() == filed(
                old(app_state).storage.agents.agents(),
                agent_key(agent@.uid),
                agent@.contacted_at(now),
            )
            &&& match first_match(old(app_state).urgent.entries(), agent@.capabilities) {
                Some(i) => found matches Some(task) && task@
                    == old(app_state).urgent.entries()[i].task,
                None => {
                    let regular = assignable(
                        under_capabilities(
                            old(app_state).storage.tasks.unassigned(),
                            agent@.capabilities,
                        ),
                        agent@.tier,
                        records(final(app_state).storage.agents.agents()),
                        now,
                        old(app_state).preferences,
                    );
                    &&& found is Some <==> regular.len() > 0
                    &&& found matches Some(task) ==> regular.contains(task@)
                },
            }
        },
{
    let agent = match app_state.storage.agents.update_agent_last_contact_at(agent, now) {
        Ok(stamped) => stamped,
        Err(e) => {
            return Err(e);
        },
    };
    match find_urgent_tasks_with_capabilities(&app_state.urgent, &agent.capabilities) {
        Some(task) => {
            return Ok(Some(task));
        },
        None => {},
    }
    let regular = find_assignable_non_urgent_tasks_with_capabilities_for_tier_at(
        &app_state.storage.tasks,
        &agent.capabilities,
        agent.tier,
        &app_state.storage.agents,
        now,
        &app_state.preferences,
    );
    Ok(pick_random(&regular))
}

/// The record of an agent after it replaced what it advertises at `now`.
pub open spec fn reannounced(agent: AgentView, info: AgentUpdateRequest, now: i64) -> AgentView {
    AgentView {
        capabilities: texts(info.capabilities@),
        capacity: info.capacity,
        last_contact: Some(now),
        system_info: info.system_info,
        tier: info.tier,
        ..agent
    }
}

/// An agent replaces what it advertises: capabilities, tier, capacity and
/// host. Its contact is stamped with `now`. The answer repeats the agent's
/// identifier and login secret. Fails with `NotFound`, and changes nothing,
/// exactly when the agent is not registered.
pub fn update_agent_info(
    app_state: &mut AppState,
    agent: Agent,
    info: AgentUpdateRequest,
    now: i64,
) -> (r: Result<AgentRegistrationResponse, AppError>)
    requires
        old(app_state).wf(),
    ensures
        final(app_state).wf(),
        final(app_state).urgent.entries() == old(app_state).urgent.entries(),
        final(app_state).storage.tasks == old(app_state).storage.tasks,
        final(app_state).storage.client_keys == old(app_state).storage.client_keys,
        r is Ok <==> knows(old(app_state).storage.agents.agents(), agent@.uid),
        r matches Err(e) ==>
            e is NotFound && final(app_state).storage.agents.agents()
            == old(app_state).storage.agents.agents(),
        r matches Ok(answer) ==> {
            &&& final(app_state).storage.agents.agents() == filed(
                old(app_state).storage.agents.agents(),
                agent_key(agent@.uid),
                reannounced(agent@, info, now),
            )
            &&& answer.agent_id@ == agent@.uid
            &&& answer.key@ == agent@.personal_login_token
            &&& answer.message@ == "Updated"@
        },
{
    let mut agent = agent;
    agent.capabilities = info.capabilities;
    agent.capacity = info.capacity;
    agent.last_contact = Some(now);
    agent.system_info = info.system_info;
    agent.tier = info.tier;
    let uid = agent.uid.clone();
    let key = agent.personal_login_token.clone();
    match app_state.storage.agents.update_agent(agent) {
        Ok(()) => Ok(AgentRegistrationResponse { agent_id: uid, message: "Updated".to_owned(), key }),
        Err(e) => Err(e),
    }
}

/// An agent registers.
///
/// The request's key must be among the keys that entitle to register;
/// otherwise the call fails with `Authorization`. The agent is filed under
/// a fresh identifier, with a fresh login secret, as never heard from; the
/// answer gives it both. Should no free identifier be found, the call fails
/// with `Conflict`, which cannot happen while no agent bears an identifier
/// of the shape of a fresh one. A call that fails changes nothing.
pub fn register_agent(app_state: &mut AppState, request: AgentRegistrationRequest) -> (r: Result<
    AgentRegistrationResponse,
    AppError,
>)
    requires
        old(app_state).wf(),
    ensures
        final(app_state).wf(),
        final(app_state).urgent.entries() == old(app_state).urgent.entries(),
        final(app_state).storage.tasks == old(app_state).storage.tasks,
        final(app_state).storage.client_keys == old(app_state).storage.client_keys,
        r is Err ==> final(app_state).storage.agents.agents()
            == old(app_state).storage.agents.agents(),
        if !texts(old(app_state).config.agent_api_keys@).contains(request.api_key@) {
            r matches Err(e) && e is Authorization
        } else {
            match r {
                Ok(answer) => {
                    &&& !knows(old(app_state).storage.agents.agents(), answer.agent_id@)
                    &&& is_uid_text(answer.agent_id@)
                    &&& answer.message@ == "Registered"@
                    &&& agent_of(
                        final(app_state).storage.agents.agents(),
                        answer.agent_id@,
                    ) matches Some(filed_agent) && {
                        &&& filed_agent.uid == answer.agent_id@
                        &&& filed_agent.personal_login_token == answer.key@
                        &&& filed_agent.last_contact is None
                        &&& filed_agent.capabilities == texts(request.capabilities@)
                        &&& filed_agent.tier == request.tier
                        &&& filed_agent.capacity == request.capacity
                        &&& filed_agent.system_info == request.system_info
                    }
                    &&& final(app_state).storage.agents.agents() == filed(
                        old(app_state).storage.agents.agents(),
                        agent_key(answer.agent_id@),
                        agent_of(final(app_state).storage.agents.agents(), answer.agent_id@)->0,
                    )
                },
                Err(e) => e is Conflict && !no_uid_taken(old(app_state).storage.agents.agents()),
            }
        },
{
    match validate_api_key(&app_state.config.agent_api_keys, request.api_key.as_str()) {
        Ok(()) => {},
        Err(e) => {
            return Err(e);
        },
    }
    let mut agent: Agent = Agent::from(request);
    match app_state.storage.agents.create_agent(&mut agent) {
        Ok(()) => Ok(
            AgentRegistrationResponse {
                agent_id: agent.uid,
                message: "Registered".to_owned(),
                key: agent.personal_login_token,
            },
        ),
        Err(e) => Err(e),
    }
}

/// An agent presents its identifier and login secret.
///
/// Succeeds, with the agent's record, exactly when an agent is registered
/// under the identifier and the secret is its own; fails with
/// `Authorization` otherwise. No record changes.
pub fn auth_agent(app_state: &mut AppState, request: &AgentLoginRequest) -> (r: Result<
    Agent,
    AppError,
>)
    requires
        old(app_state).wf(),
    ensures
        final(app_state).wf(),
        final(app_state).urgent.entries() == old(app_state).urgent.entries(),
        final(app_state).storage.tasks == old(app_state).storage.tasks,
        final(app_state).storage.client_keys == old(app_state).storage.client_keys,
        final(app_state).storage.agents.agents() == old(app_state).storage.agents.agents(),
        match agent_of(old(app_state).storage.agents.agents(), request.agent_id@) {
            Some(agent) => if agent.personal_login_token == request.key@ {
                r matches Ok(known) && known@ == agent
            } else {
                r matches Err(e) && e is Authorization
            },
            None => r matches Err(e) && e is Authorization,
        },
{
    match app_state.storage.agents.get_agent(request.agent_id.as_str()) {
        Some(agent) => {
            if agent.personal_login_token.as_str().eq(request.key.as_str()) {
                Ok(agent)
            } else {
                Err(AppError::Authorization("Incorrect credentials".to_owned()))
            }
        },
        None => Err(AppError::Authorization("Incorrect credentials".to_owned())),
    }
}

/// An agent asks for the task that the path segments `cap` and `id` name,
/// at `now`. The agent must have an identifier.
///
/// The segments must decode, or the call fails with `BadRequest`. An urgent
/// task of that name that is still pending is handed to the agent. Failing
/// that, a regular task of that name that waits is handed to the agent and
/// filed among the taken ones in one step. Failing that too, the call fails
/// with `Conflict`. A call that fails changes nothing.
pub fn try_take_task_handler(
    app_state: &mut AppState,
    agent: &Agent,
    cap: String,
    id: String,
    now: i64,
) -> (r: Result<AssignedTask, AppError>)
    requires
        old(app_state).wf(),
        agent@.uid.len() > 0,
    ensures
        final(app_state).wf(),
        final(app_state).storage.agents == old(app_state).storage.agents,
        final(app_state).storage.client_keys == old(app_state).storage.client_keys,
        final(app_state).storage.tasks.archived() == old(app_state).storage.tasks.archived(),
        match path_id(cap@, id@) {
            None => {
                &&& r matches Err(e) && e is BadRequest
                &&& final(app_state).urgent.entries() == old(app_state).urgent.entries()
                &&& final(app_state).storage.tasks == old(app_state).storage.tasks
            },
            Some(name) => if can_assign(old(app_state).urgent.entries(), name) {
                &&& r matches Ok(taken)
                &&& Some(taken@) == entry_of(old(app_state).urgent.entries(), name)->0.taken_by(
                    agent@.uid,
                    now,
                ).assigned_task
                &&& final(app_state).urgent.entries() == after_assign(
                    old(app_state).urgent.entries(),
                    name,
                    agent@.uid,
                    now,
                )
                &&& final(app_state).storage.tasks == old(app_state).storage.tasks
            } else {
                &&& final(app_state).urgent.entries() == old(app_state).urgent.entries()
                &&& match record_at(old(app_state).storage.tasks.unassigned(), task_key(name)) {
                    Some(task) => {
                        &&& r matches Ok(taken)
                        &&& taken@ == promoted(task, agent@.uid, now)
                        &&& final(app_state).storage.tasks.unassigned() == unfiled(
                            old(app_state).storage.tasks.unassigned(),
                            task_key(name),
                        )
                        &&& final(app_state).storage.tasks.assigned() == filed(
                            old(app_state).storage.tasks.assigned(),
                            task_key(name),
                            taken@,
                        )
                    },
                    None => {
                        &&& r matches Err(e) && e is Conflict
                        &&& final(app_state).storage.tasks.unassigned()
                            == old(app_state).storage.tasks.unassigned()
                        &&& final(app_state).storage.tasks.assigned()
                            == old(app_state).storage.tasks.assigned()
                    },
                }
            },
        },
{
    let task_id = match TaskId::from_url(id, cap) {
        Ok(task_id) => task_id,
        Err(e) => {
            return Err(e);
        },
    };
    match try_pick_up_urgent_task_at(&mut app_state.urgent, agent, &task_id, now) {
        Ok(Some(picked)) => {
            return Ok(picked);
        },
        Ok(None) => {},
        Err(e) => {
            return Err(e);
        },
    }
    try_pick_up_non_urgent_task_at(&mut app_state.storage.tasks, agent, &task_id, now)
}

/// An agent hands in its final report on the task that the path segments
/// `cap` and `id` name, at `now`.
///
/// The agent must be registered (`NotFound` otherwise); its contact is
/// stamped. The segments must decode and name the task of the report
/// (`BadRequest` otherwise). An urgent task of that name on which an agent
/// is at work is completed or failed; an urgent task of that name in any
/// other state makes the call fail with `Conflict`. Where the store of
/// urgent tasks does not hold the name, the regular task of that name is
/// completed or failed and returned as filed; where there is none, the call
/// fails with `NotFound`.
pub fn post_task_resolution(
    app_state: &mut AppState,
    agent: Agent,
    cap: String,
    id: String,
    report: TaskResultReport,
    now: i64,
) -> (r: Result<Option<AssignedTask>, AppError>)
    requires
        old(app_state).wf(),
    ensures
        final(app_state).wf(),
        final(app_state).storage.client_keys == old(app_state).storage.client_keys,
        final(app_state).storage.tasks.unassigned() == old(app_state).storage.tasks.unassigned(),
        final(app_state).storage.tasks.archived() == old(app_state).storage.tasks.archived(),
        !knows(old(app_state).storage.agents.agents(), agent@.uid) ==> {
            &&& r matches Err(e) && e is NotFound
            &&& final(app_state).storage.agents.agents() == old(app_state).storage.agents.agents()
            &&& final(app_state).urgent.entries() == old(app_state).urgent.entries()
            &&& final(app_state).storage.tasks.assigned() == old(app_state).storage.tasks.assigned()
        },
        knows(old(app_state).storage.agents.agents(), agent@.uid) ==> {
            &&& final(app_state).storage.agents.agents() == filed(
                old(app_state).storage.agents.agents(),
                agent_key(agent@.uid),
                agent@.contacted_at(now),
            )
            &&& if path_id(cap@, id@) != Some(report.id@) {
                &&& r matches Err(e) && e is BadRequest
                &&& final(app_state).urgent.entries() == old(app_state).urgent.entries()
                &&& final(app_state).storage.tasks.assigned()
                    == old(app_state).storage.tasks.assigned()
            } else {
                match entry_of(old(app_state).urgent.entries(), report.id@) {
                    Some(e) => {
                        &&& final(app_state).storage.tasks.assigned()
                            == old(app_state).storage.tasks.assigned()
                        &&& exists|payload: serde_json::Value|
                            hands_in(report, payload) && final(app_state).urgent.entries()
                                == after_complete(
                                old(app_state).urgent.entries(),
                                report.id@,
                                report.status is Success,
                                payload,
                            )
                        &&& if e.status is Assigned {
                            r matches Ok(filed_task) && filed_task is None
                        } else {
                            r matches Err(err) && err is Conflict
                        }
                    },
                    None => {
                        &&& final(app_state).urgent.entries() == old(app_state).urgent.entries()
                        &&& match record_at(
                            old(app_state).storage.tasks.assigned(),
                            task_key(report.id@),
                        ) {
                            Some(task) => {
                                &&& r matches Ok(Some(filed_task))
                                &&& filed_task@ == task.resolved(
                                    report.status is Success,
                                    report.output,
                                )
                                &&& final(app_state).storage.tasks.assigned() == filed(
                                    old(app_state).storage.tasks.assigned(),
                                    task_key(report.id@),
                                    filed_task@,
                                )
                            },
                            None => {
                                &&& r matches Err(err) && err is NotFound
                                &&& final(app_state).storage.tasks.assigned()
                                    == old(app_state).storage.tasks.assigned()
                            },
                        }
                    },
                }
            }
        },
{
    match app_state.storage.agents.update_agent_last_contact_at(agent, now) {
        Ok(_) => {},
        Err(e) => {
            return Err(e);
        },
    }
    let shown = id.clone();
    let task_id = match TaskId::from_url(id, cap) {
        Ok(task_id) => task_id,
        Err(e) => {
            return Err(e);
        },
    };
    if !report.id.same(&task_id) {
        return Err(AppError::BadRequest(shown));
    }
    let ghost before = app_state.urgent.entries();
    let copy = report.clone();
    let outcome = report_urgent_task(&mut app_state.urgent, copy, &task_id);
    proof {
        let payload = choose|payload: serde_json::Value|
            hands_in(copy, payload) && app_state.urgent.entries() == after_complete(
                before,
                task_id@,
                copy.status is Success,
                payload,
            );
        assert(hands_in(report, payload) && app_state.urgent.entries() == after_complete(
            before,
            report.id@,
            report.status is Success,
            payload,
        ));
    }
    match outcome {
        Ok(true) => Ok(None),
        Ok(false) => match report_non_urgent_task(&mut app_state.storage.tasks, report) {
            Ok(task) => Ok(Some(task)),
            Err(e) => Err(e),
        },
        Err(e) => Err(e),
    }
}

/// An agent sends a progress note on the task that the path segments `cap`
/// and `id` name, at `now`.
///
/// The agent must be registered (`NotFound` otherwise); its contact is
/// stamped. The segments must decode and name the task of the note
/// (`BadRequest` otherwise). An urgent task of that name that has not ended
/// takes the note. Otherwise the regular task of that name takes it and is
/// returned as filed; where there is none, the call fails with `NotFound`.
pub fn post_task_progress_update(
    app_state: &mut AppState,
    agent: Agent,
    cap: String,
    id: String,
    update: TaskUpdate,
    now: i64,
) -> (r: Result<Option<AssignedTask>, AppError>)
    requires
        old(app_state).wf(),
    ensures
        final(app_state).wf(),
        final(app_state).storage.client_keys == old(app_state).storage.client_keys,
        final(app_state).storage.tasks.unassigned() == old(app_state).storage.tasks.unassigned(),
        final(app_state).storage.tasks.archived() == old(app_state).storage.tasks.archived(),
        !knows(old(app_state).storage.agents.agents(), agent@.uid) ==> {
            &&& r matches Err(e) && e is NotFound
            &&& final(app_state).storage.agents.agents() == old(app_state).storage.agents.agents()
            &&& final(app_state).urgent.entries() == old(app_state).urgent.entries()
            &&& final(app_state).storage.tasks.assigned() == old(app_state).storage.tasks.assigned()
        },
        knows(old(app_state).storage.agents.agents(), agent@.uid) ==> {
            &&& final(app_state).storage.agents.agents() == filed(
                old(app_state).storage.agents.agents(),
                agent_key(agent@.uid),
                agent@.contacted_at(now),
            )
            &&& if path_id(cap@, id@) != Some(update.id@) {
                &&& r matches Err(e) && e is BadRequest
                &&& final(app_state).urgent.entries() == old(app_state).urgent.entries()
                &&& final(app_state).storage.tasks.assigned()
                    == old(app_state).storage.tasks.assigned()
            } else {
                &&& final(app_state).urgent.entries() == after_update(
                    old(app_state).urgent.entries(),
                    update.id@,
                    opt_text(update.log),
                    opt_text(update.stage),
                )
                &&& if crate::mq::urgent::can_update(old(app_state).urgent.entries(), update.id@) {
                    &&& r matches Ok(filed_task) && filed_task is None
                    &&& final(app_state).storage.tasks.assigned()
                        == old(app_state).storage.tasks.assigned()
                } else {
                    match record_at(old(app_state).storage.tasks.assigned(), task_key(update.id@)) {
                        Some(task) => {
                            &&& r matches Ok(Some(filed_task))
                            &&& filed_task@ == progressed_regular(
                                task,
                                opt_text(update.log),
                                opt_text(update.stage),
                            )
                            &&& final(app_state).storage.tasks.assigned() == filed(
                                old(app_state).storage.tasks.assigned(),
                                task_key(update.id@),
                                filed_task@,
                            )
                        },
                        None => {
                            &&& r matches Err(err) && err is NotFound
                            &&& final(app_state).storage.tasks.assigned()
                                == old(app_state).storage.tasks.assigned()
                        },
                    }
                }
            }
        },
{
    match app_state.storage.agents.update_agent_last_contact_at(agent, now) {
        Ok(_) => {},
        Err(e) => {
            return Err(e);
        },
    }
    let shown = id.clone();
    let task_id = match TaskId::from_url(id, cap) {
        Ok(task_id) => task_id,
        Err(e) => {
            return Err(e);
        },
    };
    if !update.id.same(&task_id) {
        return Err(AppError::BadRequest(shown));
    }
    match update_urgent_task(&mut app_state.urgent, update.clone(), &task_id) {
        Ok(true) => Ok(None),
        Ok(false) => match update_non_urgent_task(&mut app_state.storage.tasks, update) {
            Ok(task) => Ok(Some(task)),
            Err(e) => Err(e),
        },
        Err(e) => Err(e),
    }
}

} // verus!
