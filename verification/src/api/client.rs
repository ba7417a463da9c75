//! What clients ask of the broker: to run a task, to learn how a task is
//! doing, and to learn which capabilities are on offer.

use vstd::prelude::*;
use vstd::string::*;

use crate::api::agent::path_id;
use crate::clock;
use crate::db::apikeys::{client_key, entitles};
use crate::db::persistent_task_storage::task_key;
use crate::db::tree::{filed, record_at, records};
use crate::error::AppError;
use crate::models::{UnassignedTask, UnassignedTaskView};
use crate::mq::scheduler::{
    has_potential_agents, online_capabilities, permitted, submit_urgent_task_at,
};
use crate::mq::urgent::{entry_of, holds, UrgentEntryView};
use crate::schema::{
    texts, ApiKeyRequest, TaskId, TaskIdView, TaskStatus, TaskStatusResponse,
    TaskStatusResponseView, TaskSubmissionRequest,
};
use crate::state::AppState;
use crate::utils::is_uid_text;

verus! {

/// An urgent task that the broker has accepted: its name, and the channel
/// on which the submitter learns how it fares.
pub struct UrgentSubmission {
    pub id: TaskId,
    pub waiter: tokio::sync::watch::Receiver<TaskStatus>,
}

/// What became of a submitted task.
pub enum Submission {
    /// It is urgent and on offer; the submitter waits for its end.
    Urgent(UrgentSubmission),
    /// It was queued, as given here.
    Queued(UnassignedTask),
}

/// A submission filed at `now` under `name` is the task that the store
/// takes.
pub open spec fn submitted(
    req: TaskSubmissionRequest,
    name: TaskIdView,
    now: i64,
) -> UnassignedTaskView {
    UnassignedTaskView { id: name, data: req@, created_at: now }
}

/// A name that the broker may give to a submission of `req`: the request's
/// capability and a fresh time-sortable identifier.
pub open spec fn names(req: TaskSubmissionRequest, name: TaskIdView) -> bool {
    name.cap == req@.capability && is_uid_text(name.id)
}

/// Whether some name that the broker may give to a submission of `req` is
/// the name of a task that the store holds, so that a fresh name can
/// collide.
pub open spec fn name_taken(req: TaskSubmissionRequest, s: Seq<UrgentEntryView>) -> bool {
    exists|name: TaskIdView| names(req, name) && #[trigger] holds(s, name)
}

/// In a store that holds no task, no name is taken: an urgent task that
/// passes the checks is then always accepted.
pub proof fn lemma_empty_store_takes_no_name(req: TaskSubmissionRequest, s: Seq<UrgentEntryView>)
    requires
        s.len() == 0,
    ensures
        !name_taken(req, s),
{
}

/// A client submits an urgent task at `now` and will wait for its end.
///
/// The client's key must entitle to the task's capability (`Authorization`
/// otherwise), the task must be marked urgent (`BadRequest` otherwise), and
/// some registered agent must be online and offer the capability
/// (`SchedulingImpossible` otherwise). The task is then given a fresh name
/// and added at the end of the store of urgent tasks, pending, for at most
/// 60 seconds. Should the fresh name be taken, the call fails with
/// `Conflict`; where the store holds no task of a name that could be given,
/// the task is accepted. A call that fails changes nothing.
pub fn submit_task_blocking(app_state: &mut AppState, req: TaskSubmissionRequest, now: i64) -> (r:
    Result<UrgentSubmission, AppError>)
    requires
        old(app_state).wf(),
    ensures
        final(app_state).wf(),
        final(app_state).storage == old(app_state).storage,
        r is Err ==> final(app_state).urgent.entries() == old(app_state).urgent.entries(),
        if !entitles(old(app_state).storage.client_keys.active(), req@.api_key, req@.capability) {
            r matches Err(e) && e is Authorization
        } else if !req.urgent {
            r matches Err(e) && e is BadRequest
        } else if !has_potential_agents(
            records(old(app_state).storage.agents.agents()),
            req@.capability,
            now,
        ) {
            r matches Err(e) && e is SchedulingImpossible
        } else {
            match r {
                Ok(accepted) => {
                    &&& names(req, accepted.id@)
                    &&& !holds(old(app_state).urgent.entries(), accepted.id@)
                    &&& final(app_state).urgent.entries() == old(app_state).urgent.entries().push(
                        UrgentEntryView::fresh(
                            submitted(req, accepted.id@, now),
                            now,
                            clock::URGENT_TTL_SECS,
                        ),
                    )
                },
                Err(e) => e is Conflict && name_taken(req, old(app_state).urgent.entries()),
            }
        },
{
    match app_state.storage.client_keys.verify_key(req.api_key.as_str(), req.capability.as_str()) {
        Ok(()) => {},
        Err(e) => {
            return Err(e);
        },
    }
    if !req.urgent {
        return Err(
            AppError::BadRequest("Only urgent tasks can be submitted to this endpoint".to_owned()),
        );
    }
    accept_urgent(app_state, req, now)
}

/// Names an urgent submission and hands it to the store of urgent tasks,
/// which turns it away where no agent can take it or where the fresh name
/// is taken.
fn accept_urgent(app_state: &mut AppState, req: TaskSubmissionRequest, now: i64) -> (r: Result<
    UrgentSubmission,
    AppError,
>)
    requires
        old(app_state).wf(),
    ensures
        final(app_state).wf(),
        final(app_state).storage == old(app_state).storage,
        final(app_state).config == old(app_state).config,
        final(app_state).preferences == old(app_state).preferences,
        r is Err ==> final(app_state).urgent.entries() == old(app_state).urgent.entries(),
        if !has_potential_agents(
            records(old(app_state).storage.agents.agents()),
            req@.capability,
            now,
        ) {
            r matches Err(e) && e is SchedulingImpossible
        } else {
            match r {
                Ok(accepted) => {
                    &&& names(req, accepted.id@)
                    &&& !holds(old(app_state).urgent.entries(), accepted.id@)
                    &&& final(app_state).urgent.entries() == old(app_state).urgent.entries().push(
                        UrgentEntryView::fresh(
                            submitted(req, accepted.id@, now),
                            now,
                            clock::URGENT_TTL_SECS,
                        ),
                    )
                },
                Err(e) => e is Conflict && name_taken(req, old(app_state).urgent.entries()),
            }
        },
{
    let id = TaskId::new_with_cap(req.capability.clone());
    let name = id.clone();
    let task = UnassignedTask { id, data: req, created_at: now };
    proof {
        assert(names(req, name@));
    }
    match submit_urgent_task_at(&mut app_state.urgent, &app_state.storage.agents, task, now) {
        Ok(waiter) => Ok(UrgentSubmission { id: name, waiter }),
        Err(e) => Err(e),
    }
}

/// A client submits a task at `now`.
///
/// The client's key must entitle to the task's capability (`Authorization`
/// otherwise). An urgent task is handled as [`submit_task_blocking`] does. A
/// regular task is given a fresh name and filed among the waiting tasks; the
/// task as filed is returned. A call that fails changes nothing.
pub fn submit_task(app_state: &mut AppState, req: TaskSubmissionRequest, now: i64) -> (r: Result<
    Submission,
    AppError,
>)
    requires
        old(app_state).wf(),
    ensures
        final(app_state).wf(),
        final(app_state).storage.agents == old(app_state).storage.agents,
        final(app_state).storage.client_keys == old(app_state).storage.client_keys,
        final(app_state).storage.tasks.assigned() == old(app_state).storage.tasks.assigned(),
        final(app_state).storage.tasks.archived() == old(app_state).storage.tasks.archived(),
        r is Err ==>
            final(app_state).urgent.entries()
           
            == old(app_state).urgent.entries()
            && final(app_state).storage.tasks.unassigned()
            == old(app_state).storage.tasks.unassigned(),
        if !entitles(old(app_state).storage.client_keys.active(), req@.api_key, req@.capability) {
            r matches Err(e) && e is Authorization
        } else if !req.urgent {
            &&& r matches Ok(Submission::Queued(task))
            &&& names(req, task@.id)
            &&& task@ == submitted(req, task@.id, now)
            &&& final(app_state).storage.tasks.unassigned() == filed(
                old(app_state).storage.tasks.unassigned(),
                task_key(task@.id),
                task@,
            )
            &&& final(app_state).urgent.entries() == old(app_state).urgent.entries()
        } else if !has_potential_agents(
            records(old(app_state).storage.agents.agents()),
            req@.capability,
            now,
        ) {
            r matches Err(e) && e is SchedulingImpossible
        } else {
            match r {
                Ok(Submission::Urgent(accepted)) => {
                    &&& names(req, accepted.id@)
                    &&& !holds(old(app_state).urgent.entries(), accepted.id@)
                    &&& final(app_state).urgent.entries() == old(app_state).urgent.entries().push(
                        UrgentEntryView::fresh(
                            submitted(req, accepted.id@, now),
                            now,
                            clock::URGENT_TTL_SECS,
                        ),
                    )
                    &&& final(app_state).storage.tasks.unassigned()
                        == old(app_state).storage.tasks.unassigned()
                },
                Ok(Submission::Queued(_)) => false,
                Err(e) => e is Conflict && name_taken(req, old(app_state).urgent.entries()),
            }
        },
{
    match app_state.storage.client_keys.verify_key(req.api_key.as_str(), req.capability.as_str()) {
        Ok(()) => {},
        Err(e) => {
            return Err(e);
        },
    }
    if req.urgent {
        match accept_urgent(app_state, req, now) {
            Ok(accepted) => Ok(Submission::Urgent(accepted)),
            Err(e) => Err(e),
        }
    } else {
        let id = TaskId::new_with_cap(req.capability.clone());
        let task = UnassignedTask { id, data: req, created_at: now };
        app_state.storage.tasks.add_unassigned(&task);
        Ok(Submission::Queued(task))
    }
}

/// What the broker knows of the task named `name`, and which key submitted
/// it: the task as an agent has it, else the task as it waits, else the
/// urgent task.
pub open spec fn known_status(state: AppState, name: TaskIdView) -> Option<
    (Seq<char>, TaskStatusResponseView),
> {
    match record_at(state.storage.tasks.assigned(), task_key(name)) {
        Some(task) => Some((task.data.api_key, task.status_report())),
        None => match record_at(state.storage.tasks.unassigned(), task_key(name)) {
            Some(task) => Some((task.data.api_key, task.status_report())),
            None => match entry_of(state.urgent.entries(), name) {
                Some(entry) => Some(
                    (
                        entry.task.data.api_key,
                        match entry.assigned_task {
                            Some(task) => task.status_report(),
                            None => entry.task.status_report(),
                        },
                    ),
                ),
                None => None,
            },
        },
    }
}

/// A client asks how the task is doing that the path segments `cap` and
/// `id` name.
///
/// The segments must decode (`BadRequest` otherwise). The task is looked
/// for among the taken regular tasks, then among the waiting ones, then
/// among the urgent ones; where it is nowhere the call fails with
/// `NotFound`. Where it is found but was submitted with another key than the
/// caller's, the call fails with `Authorization`. Nothing changes.
pub fn poll_task_status(app_state: &AppState, cap: String, id: String, req: &ApiKeyRequest) -> (r:
    Result<TaskStatusResponse, AppError>)
    requires
        app_state.wf(),
    ensures
        match path_id(cap@, id@) {
            None => r matches Err(e) && e is BadRequest,
            Some(name) => match known_status(*app_state, name) {
                None => r matches Err(e) && e is NotFound,
                Some((owner, report)) => if owner == req.api_key@ {
                    r matches Ok(answer) && answer@ == report
                } else {
                    r matches Err(e) && e is Authorization
                },
            },
        },
{
    let task_id = match TaskId::from_url(id, cap) {
        Ok(task_id) => task_id,
        Err(e) => {
            return Err(e);
        },
    };
    match app_state.storage.tasks.get_assigned(&task_id) {
        Some(task) => {
            if !task.data.api_key.as_str().eq(req.api_key.as_str()) {
                return Err(AppError::Authorization("Task belongs to another key".to_owned()));
            }
            return Ok(task.into_status_report());
        },
        None => {},
    }
    match app_state.storage.tasks.get_unassigned(&task_id) {
        Some(task) => {
            if !task.data.api_key.as_str().eq(req.api_key.as_str()) {
                return Err(AppError::Authorization("Task belongs to another key".to_owned()));
            }
            return Ok(task.into_status_report());
        },
        None => {},
    }
    match app_state.urgent.get_task(&task_id) {
        Some(task) => {
            if !task.data.api_key.as_str().eq(req.api_key.as_str()) {
                return Err(AppError::Authorization("Task belongs to another key".to_owned()));
            }
            match app_state.urgent.get_assigned_task(&task_id) {
                Some(assigned) => Ok(assigned.into_status_report()),
                None => Ok(task.into_status_report()),
            }
        },
        None => Err(AppError::NotFound(task_id.to_string())),
    }
}

/// A client asks which capabilities are on offer to it at `now`: those that
/// an online agent offers and that the client's key entitles to, each listed
/// once. Fails with `Authorization` exactly when no key is in force under
/// the caller's key. Nothing changes.
pub fn capabilities_online(app_state: &AppState, req: &ApiKeyRequest, now: i64) -> (r: Result<
    Vec<String>,
    AppError,
>)
    requires
        app_state.wf(),
    ensures
        match record_at(app_state.storage.client_keys.active(), client_key(req.api_key@)) {
            None => r matches Err(e) && e is Authorization,
            Some(key) => {
                &&& r matches Ok(caps)
                &&& texts(caps@).no_duplicates()
                &&& forall|cap: Seq<char>| #[trigger]
                    texts(caps@).contains(cap) <==> has_potential_agents(
                        records(app_state.storage.agents.agents()),
                        cap,
                        now,
                    ) && permitted(Some(key.capabilities), cap)
            },
        },
{
    let key = match app_state.storage.client_keys.find_active(req.api_key.as_str()) {
        Some(key) => key,
        None => {
            return Err(AppError::Authorization("API key not found".to_owned()));
        },
    };
    let everyone = app_state.storage.agents.list_all_agents();
    Ok(online_capabilities(&everyone, now, Some(&key.capabilities)))
}

} // verus!
