//! The broker's own records: tasks before and after assignment, agents and
//! client keys.

use vstd::prelude::*;
use vstd::string::*;

use crate::clock;
use crate::schema::{
    opt_text, texts, AgentRegistrationRequest, SystemInfo, TaskId, TaskIdView, TaskStatus,
    TaskStatusResponse, TaskSubmissionRequest, TaskSubmissionRequestView,
};
use crate::utils::time_sortable_uid;

verus! {

/// A fresh login secret: a version-4 UUID from `uuid::Uuid::new_v4`, in its
/// hyphenated text form. The value is random; nothing is claimed about it.
#[verifier::external_body]
pub(crate) fn random_token() -> String {
    uuid::Uuid::new_v4().into()
}

/// Whether `wanted` occurs in `list`.
pub fn contains_text(list: &Vec<String>, wanted: &str) -> (found: bool)
    ensures
        found == texts(list@).contains(wanted@),
{
    let mut i: usize = 0;
    while i < list.len()
        invariant
            i <= list@.len(),
            forall|j: int| 0 <= j < i ==> texts(list@)[j] != wanted@,
        decreases list.len() - i,
    {
        if list[i].as_str().eq(wanted) {
            assert(texts(list@)[i as int] == wanted@);
            return true;
        }
        i += 1;
    }
    false
}

/// A copy of a list of strings.
pub fn clone_texts(list: &Vec<String>) -> (copy: Vec<String>)
    ensures
        texts(copy@) == texts(list@),
{
    let copy = list.clone();
    assert(texts(copy@) =~= texts(list@));
    copy
}

/// A task that has been accepted and that no agent has taken yet.
#[derive(Debug, PartialEq)]
pub struct UnassignedTask {
    /// The name the broker gave the task.
    pub id: TaskId,
    /// What the client submitted.
    pub data: TaskSubmissionRequest,
    /// When the task was accepted.
    pub created_at: i64,
}

/// The mathematical content of an [`UnassignedTask`].
pub struct UnassignedTaskView {
    pub id: TaskIdView,
    pub data: TaskSubmissionRequestView,
    pub created_at: i64,
}

impl View for UnassignedTask {
    type V = UnassignedTaskView;

    open spec fn view(&self) -> UnassignedTaskView {
        UnassignedTaskView { id: self.id@, data: self.data@, created_at: self.created_at }
    }
}

impl Clone for UnassignedTask {
    fn clone(&self) -> (r: Self)
        ensures
            r@ == self@,
    {
        UnassignedTask {
            id: self.id.clone(),
            data: self.data.clone(),
            created_at: self.created_at,
        }
    }
}

impl UnassignedTaskView {
    /// The later of the task's creation and `now`: the moment an assignment
    /// made at `now` is stamped with, so that no task is ever assigned before
    /// it was created.
    pub open spec fn stamp(self, now: i64) -> i64 {
        if now >= self.created_at {
            now
        } else {
            self.created_at
        }
    }

    /// The task as it stands right after `agent_id` took it at `now`: nothing
    /// has happened to it yet, so its status is `Pending`, and its history,
    /// result, stage and log are empty.
    pub open spec fn assigned_to(self, agent_id: Seq<char>, now: i64) -> AssignedTaskView {
        AssignedTaskView {
            id: self.id,
            data: self.data,
            agent_id,
            status: TaskStatus::Pending,
            history: Seq::empty(),
            created_at: self.created_at,
            assigned_at: self.stamp(now),
            result: None,
            stage: None,
            log: Seq::empty(),
        }
    }

    /// What a client is told about a task that still waits for an agent.
    pub open spec fn status_report(self) -> crate::schema::TaskStatusResponseView {
        crate::schema::TaskStatusResponseView {
            id: self.id,
            status: TaskStatus::Pending,
            stage: None,
            output: None,
        }
    }
}

impl UnassignedTask {
    /// The task as taken by `agent_id` at `now`.
    pub fn assign_to_at(&self, agent_id: &str, now: i64) -> (assigned: AssignedTask)
        ensures
            assigned@ == self@.assigned_to(agent_id@, now),
    {
        let assigned_at: i64 = if now >= self.created_at {
            now
        } else {
            self.created_at
        };
        let assigned = AssignedTask {
            id: self.id.clone(),
            data: self.data.clone(),
            agent_id: agent_id.to_owned(),
            status: TaskStatus::Pending,
            history: Vec::new(),
            created_at: self.created_at,
            assigned_at,
            result: None,
            stage: None,
            log: String::new(),
        };
        assert(assigned@.history =~= Seq::empty());
        assigned
    }

    /// The task as taken by `agent_id` now.
    pub fn assign_to(&self, agent_id: &str) -> (assigned: AssignedTask)
        ensures
            exists|now: i64| assigned@ == self@.assigned_to(agent_id@, now),
    {
        let now: i64 = clock::now();
        let assigned = self.assign_to_at(agent_id, now);
        assert(assigned@ == self@.assigned_to(agent_id@, now));
        assigned
    }

    /// Turns the task into one taken by `agent_id` at `now`.
    pub fn into_assigned_at(self, agent_id: &str, now: i64) -> (assigned: AssignedTask)
        ensures
            assigned@ == self@.assigned_to(agent_id@, now),
    {
        let assigned_at: i64 = if now >= self.created_at {
            now
        } else {
            self.created_at
        };
        let assigned = AssignedTask {
            id: self.id,
            data: self.data,
            agent_id: agent_id.to_owned(),
            status: TaskStatus::Pending,
            history: Vec::new(),
            created_at: self.created_at,
            assigned_at,
            result: None,
            stage: None,
            log: String::new(),
        };
        assert(assigned@.history =~= Seq::empty());
        assigned
    }

    /// Turns the task into one taken by `agent_id` now.
    pub fn into_assigned(self, agent_id: &str) -> (assigned: AssignedTask)
        ensures
            exists|now: i64| assigned@ == self@.assigned_to(agent_id@, now),
    {
        let now: i64 = clock::now();
        let ghost before = self@;
        let assigned = self.into_assigned_at(agent_id, now);
        assert(assigned@ == before.assigned_to(agent_id@, now));
        assigned
    }

    /// What a client is told about the task.
    pub fn into_status_report(self) -> (report: TaskStatusResponse)
        ensures
            report@ == self@.status_report(),
    {
        TaskStatusResponse { id: self.id, status: TaskStatus::Pending, stage: None, output: None }
    }
}

/// One entry in a task's history.
#[derive(Debug, PartialEq)]
pub struct TaskEvent {
    /// When it happened.
    pub timestamp: i64,
    /// What happened.
    pub description: String,
}

/// The mathematical content of a [`TaskEvent`].
pub struct TaskEventView {
    pub timestamp: i64,
    pub description: Seq<char>,
}

impl View for TaskEvent {
    type V = TaskEventView;

    open spec fn view(&self) -> TaskEventView {
        TaskEventView { timestamp: self.timestamp, description: self.description@ }
    }
}

impl Clone for TaskEvent {
    fn clone(&self) -> (r: Self)
        ensures
            r@ == self@,
    {
        TaskEvent { timestamp: self.timestamp, description: self.description.clone() }
    }
}

/// The views of a sequence of events, in the same order.
pub open spec fn events(v: Seq<TaskEvent>) -> Seq<TaskEventView> {
    Seq::new(v.len(), |i: int| v[i]@)
}

/// A task that an agent has taken.
#[derive(Debug, PartialEq)]
pub struct AssignedTask {
    /// The name the broker gave the task.
    pub id: TaskId,
    /// What the client submitted.
    pub data: TaskSubmissionRequest,
    /// The agent that took the task.
    pub agent_id: String,
    /// Where the task stands.
    pub status: TaskStatus,
    /// What has happened to the task so far, oldest first.
    pub history: Vec<TaskEvent>,
    /// When the task was accepted.
    pub created_at: i64,
    /// When the agent took it.
    pub assigned_at: i64,
    /// The task's output, or the agent's account of a failure.
    pub result: Option<serde_json::Value>,
    /// The stage the agent last reported.
    pub stage: Option<String>,
    /// Everything the agent has logged, in order.
    pub log: String,
}

/// The mathematical content of an [`AssignedTask`].
pub struct AssignedTaskView {
    pub id: TaskIdView,
    pub data: TaskSubmissionRequestView,
    pub agent_id: Seq<char>,
    pub status: TaskStatus,
    pub history: Seq<TaskEventView>,
    pub created_at: i64,
    pub assigned_at: i64,
    pub result: Option<serde_json::Value>,
    pub stage: Option<Seq<char>>,
    pub log: Seq<char>,
}

impl View for AssignedTask {
    type V = AssignedTaskView;

    open spec fn view(&self) -> AssignedTaskView {
        AssignedTaskView {
            id: self.id@,
            data: self.data@,
            agent_id: self.agent_id@,
            status: self.status,
            history: events(self.history@),
            created_at: self.created_at,
            assigned_at: self.assigned_at,
            result: self.result,
            stage: opt_text(self.stage),
            log: self.log@,
        }
    }
}

impl Clone for AssignedTask {
    fn clone(&self) -> (r: Self)
        ensures
            r@ == self@,
    {
        let history = self.history.clone();
        assert(events(history@) =~= events(self.history@));
        AssignedTask {
            id: self.id.clone(),
            data: self.data.clone(),
            agent_id: self.agent_id.clone(),
            status: self.status.clone(),
            history,
            created_at: self.created_at,
            assigned_at: self.assigned_at,
            result: self.result.clone(),
            stage: self.stage.clone(),
            log: self.log.clone(),
        }
    }
}

impl Default for AssignedTask {
    fn default() -> (r: Self)
        ensures
            r@.status is Pending,
            r@.agent_id.len() == 0,
            r@.history.len() == 0,
            r@.result is None,
            r@.stage is None,
            r@.log.len() == 0,
            r@.created_at == 0,
            r@.assigned_at == 0,
    {
        AssignedTask {
            id: TaskId::default(),
            data: TaskSubmissionRequest::default(),
            agent_id: String::new(),
            status: TaskStatus::Pending,
            history: Vec::new(),
            created_at: 0,
            assigned_at: 0,
            result: None,
            stage: None,
            log: String::new(),
        }
    }
}

impl AssignedTaskView {
    /// What every assigned task satisfies: somebody took it, and not before
    /// it was created.
    pub open spec fn wf(self) -> bool {
        &&& self.agent_id.len() > 0
        &&& self.assigned_at >= self.created_at
    }

    /// The task with another status.
    pub open spec fn with_status(self, status: TaskStatus) -> AssignedTaskView {
        AssignedTaskView { status, ..self }
    }

    /// The task after a final report: it is completed or failed, and carries
    /// what the agent handed in.
    pub open spec fn resolved(
        self,
        success: bool,
        output: Option<serde_json::Value>,
    ) -> AssignedTaskView {
        AssignedTaskView {
            status: if success {
                TaskStatus::Completed
            } else {
                TaskStatus::Failed
            },
            result: output,
            ..self
        }
    }

    /// The task after a progress note: the fragment, if any, is appended to
    /// the log, and the stage, if any, replaces the old one.
    pub open spec fn progressed(
        self,
        log: Option<Seq<char>>,
        stage: Option<Seq<char>>,
    ) -> AssignedTaskView {
        AssignedTaskView {
            log: match log {
                Some(fragment) => self.log + fragment,
                None => self.log,
            },
            stage: match stage {
                Some(s) => Some(s),
                None => self.stage,
            },
            ..self
        }
    }

    /// What a client is told about the task.
    pub open spec fn status_report(self) -> crate::schema::TaskStatusResponseView {
        crate::schema::TaskStatusResponseView {
            id: self.id,
            status: self.status,
            stage: self.stage,
            output: self.result,
        }
    }

    /// Whether the task may be archived at `now`: it is not running and was
    /// assigned more than seven days ago.
    pub open spec fn stale_at(self, now: i64) -> bool {
        &&& !(self.status is Running)
        &&& clock::elapsed_millis(self.assigned_at, now) > clock::ARCHIVE_AGE_MILLIS
    }
}

impl AssignedTask {
    /// Records a final report on the task.
    pub fn resolve(&mut self, success: bool, output: Option<serde_json::Value>)
        ensures
            final(self)@ == old(self)@.resolved(success, output),
    {
        self.status = if success {
            TaskStatus::Completed
        } else {
            TaskStatus::Failed
        };
        self.result = output;
    }

    /// Records a progress note on the task.
    pub fn progress(&mut self, log: Option<&str>, stage: Option<&str>)
        ensures
            final(self)@ == old(self)@.progressed(
                match log {
                    Some(l) => Some(l@),
                    None => None,
                },
                match stage {
                    Some(s) => Some(s@),
                    None => None,
                },
            ),
    {
        match log {
            Some(fragment) => {
                self.log.append(fragment);
            },
            None => {},
        }
        match stage {
            Some(s) => {
                self.stage = Some(s.to_owned());
            },
            None => {},
        }
    }

    /// What a client is told about the task.
    pub fn into_status_report(self) -> (report: TaskStatusResponse)
        ensures
            report@ == self@.status_report(),
    {
        TaskStatusResponse {
            id: self.id,
            status: self.status,
            stage: self.stage,
            output: self.result,
        }
    }

    /// Whether the task may be archived at `now`.
    pub fn is_stale_at(&self, now: i64) -> (stale: bool)
        ensures
            stale == self@.stale_at(now),
    {
        !self.status.is_running() && clock::older_than(
            self.assigned_at,
            now,
            clock::ARCHIVE_AGE_MILLIS,
        )
    }
}

/// A registered agent.
#[derive(Debug, PartialEq)]
pub struct Agent {
    /// The identifier the broker gave the agent; sorts by registration time.
    pub uid: String,
    /// The first eight characters of `uid`, for log lines.
    pub uid_short: String,
    /// The secret the agent logs in with.
    pub personal_login_token: String,
    /// When the agent registered.
    pub registered_at: i64,
    /// When the agent was last heard from, if ever.
    pub last_contact: Option<i64>,
    /// The capabilities the agent offers; order carries no meaning.
    pub capabilities: Vec<String>,
    /// The agent's tier; higher is better.
    pub tier: u8,
    /// How many tasks the agent can work on at once. Advisory.
    pub capacity: u32,
    /// What the agent said about its host.
    pub system_info: SystemInfo,
}

/// The mathematical content of an [`Agent`].
pub struct AgentView {
    pub uid: Seq<char>,
    pub uid_short: Seq<char>,
    pub personal_login_token: Seq<char>,
    pub registered_at: i64,
    pub last_contact: Option<i64>,
    pub capabilities: Seq<Seq<char>>,
    pub tier: u8,
    pub capacity: u32,
    pub system_info: SystemInfo,
}

impl View for Agent {
    type V = AgentView;

    open spec fn view(&self) -> AgentView {
        AgentView {
            uid: self.uid@,
            uid_short: self.uid_short@,
            personal_login_token: self.personal_login_token@,
            registered_at: self.registered_at,
            last_contact: self.last_contact,
            capabilities: texts(self.capabilities@),
            tier: self.tier,
            capacity: self.capacity,
            system_info: self.system_info,
        }
    }
}

impl Clone for Agent {
    fn clone(&self) -> (r: Self)
        ensures
            r@ == self@,
    {
        Agent {
            uid: self.uid.clone(),
            uid_short: self.uid_short.clone(),
            personal_login_token: self.personal_login_token.clone(),
            registered_at: self.registered_at,
            last_contact: self.last_contact,
            capabilities: clone_texts(&self.capabilities),
            tier: self.tier,
            capacity: self.capacity,
            system_info: self.system_info.clone(),
        }
    }
}

impl AgentView {
    /// Whether the agent counts as online at `now`: it has been heard from,
    /// and no more than 120 seconds before `now`.
    pub open spec fn online_at(self, now: i64) -> bool {
        self.last_contact matches Some(last) && clock::elapsed_millis(last, now)
            <= clock::ONLINE_TIMEOUT_MILLIS
    }

    /// Whether the agent offers `cap`.
    pub open spec fn offers(self, cap: Seq<char>) -> bool {
        self.capabilities.contains(cap)
    }

    /// Whether the agent is online at `now` and offers `cap`.
    pub open spec fn serves(self, cap: Seq<char>, now: i64) -> bool {
        self.offers(cap) && self.online_at(now)
    }

    /// The agent with its last contact set to `now`.
    pub open spec fn contacted_at(self, now: i64) -> AgentView {
        AgentView { last_contact: Some(now), ..self }
    }

    /// The record of an agent that has just registered: never heard from,
    /// with an empty short identifier until the registry files it.
    pub open spec fn registered(
        request: AgentRegistrationRequest,
        uid: Seq<char>,
        token: Seq<char>,
        now: i64,
    ) -> AgentView {
        AgentView {
            uid,
            uid_short: Seq::empty(),
            personal_login_token: token,
            registered_at: now,
            last_contact: None,
            capabilities: texts(request.capabilities@),
            tier: request.tier,
            capacity: request.capacity,
            system_info: request.system_info,
        }
    }
}

/// An agent is online exactly when its last contact is no older than the
/// instant 120 seconds before now.
pub proof fn lemma_online_iff_recent_contact(agent: AgentView, now: i64)
    ensures
        agent.online_at(now) <==> (agent.last_contact matches Some(last) && last >= now
            - clock::ONLINE_TIMEOUT_MILLIS),
{
}

impl Agent {
    /// Whether the agent counts as online at `now`.
    pub fn is_online_at(&self, now: i64) -> (online: bool)
        ensures
            online == self@.online_at(now),
    {
        match self.last_contact {
            Some(last) => !clock::older_than(last, now, clock::ONLINE_TIMEOUT_MILLIS),
            None => false,
        }
    }

    /// Whether the agent counts as online now. An agent that was never heard
    /// from is offline whatever the clock says.
    pub fn is_online(&self) -> (online: bool)
        ensures
            exists|now: i64| online == self@.online_at(now),
            self@.last_contact is None ==> !online,
    {
        let now: i64 = clock::now();
        let online = self.is_online_at(now);
        assert(online == self@.online_at(now));
        online
    }

    /// Whether the agent offers `cap`.
    pub fn has_capability(&self, cap: &str) -> (offers: bool)
        ensures
            offers == self@.offers(cap@),
    {
        contains_text(&self.capabilities, cap)
    }

    /// The record of an agent that registers with `request` at `now` and is
    /// given `uid` and `token`.
    pub fn registered(
        request: AgentRegistrationRequest,
        uid: String,
        token: String,
        now: i64,
    ) -> (agent: Agent)
        ensures
            agent@ == AgentView::registered(request, uid@, token@, now),
    {
        Agent {
            uid,
            uid_short: String::new(),
            registered_at: now,
            personal_login_token: token,
            last_contact: None,
            capabilities: request.capabilities,
            tier: request.tier,
            capacity: request.capacity,
            system_info: request.system_info,
        }
    }
}

impl From<AgentRegistrationRequest> for Agent {
    /// The record of an agent that registers now, with a fresh time-sortable
    /// identifier and a fresh login secret.
    fn from(request: AgentRegistrationRequest) -> (agent: Agent)
        ensures
            exists|uid: Seq<char>, token: Seq<char>, now: i64|
                crate::utils::is_uid_text(uid) && agent@ == AgentView::registered(
                    request,
                    uid,
                    token,
                    now,
                ),
    {
        let now: i64 = clock::now();
        let uid = time_sortable_uid();
        let token = random_token();
        let agent = Agent::registered(request, uid, token, now);
        assert(crate::utils::is_uid_text(uid@) && agent@ == AgentView::registered(
            request,
            uid@,
            token@,
            now,
        ));
        agent
    }
}

impl vstd::std_specs::convert::FromSpecImpl<AgentRegistrationRequest> for Agent {
    open spec fn obeys_from_spec() -> bool {
        false
    }

    open spec fn from_spec(request: AgentRegistrationRequest) -> Agent {
        arbitrary()
    }
}

/// A client's key and what it entitles to.
#[derive(Debug, PartialEq)]
pub struct ClientApiKey {
    /// The key itself.
    pub key: String,
    /// Capability patterns: a capability itself, a prefix followed by `*`,
    /// or `*` alone.
    pub capabilities: Vec<String>,
    /// Whether the key came with the broker's configuration.
    pub is_predefined: bool,
    /// When the key was created.
    pub created: i64,
    /// Whether the key has been withdrawn.
    pub is_revoked: bool,
}

/// The mathematical content of a [`ClientApiKey`].
pub struct ClientApiKeyView {
    pub key: Seq<char>,
    pub capabilities: Seq<Seq<char>>,
    pub is_predefined: bool,
    pub created: i64,
    pub is_revoked: bool,
}

impl View for ClientApiKey {
    type V = ClientApiKeyView;

    open spec fn view(&self) -> ClientApiKeyView {
        ClientApiKeyView {
            key: self.key@,
            capabilities: texts(self.capabilities@),
            is_predefined: self.is_predefined,
            created: self.created,
            is_revoked: self.is_revoked,
        }
    }
}

impl Clone for ClientApiKey {
    fn clone(&self) -> (r: Self)
        ensures
            r@ == self@,
    {
        ClientApiKey {
            key: self.key.clone(),
            capabilities: clone_texts(&self.capabilities),
            is_predefined: self.is_predefined,
            created: self.created,
            is_revoked: self.is_revoked,
        }
    }
}

impl Default for ClientApiKey {
    fn default() -> (r: Self)
        ensures
            r@.key.len() == 0,
            r@.capabilities.len() == 0,
            !r@.is_predefined,
            r@.created == 0,
            !r@.is_revoked,
    {
        ClientApiKey {
            key: String::new(),
            capabilities: Vec::new(),
            is_predefined: false,
            created: 0,
            is_revoked: false,
        }
    }
}

} // verus!
