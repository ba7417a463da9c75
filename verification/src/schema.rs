//! The records that clients and agents exchange with the broker.

use vstd::prelude::*;
use vstd::string::*;

use crate::error::AppError;
use crate::utils::{is_uid_text, time_sortable_uid, url_decode, url_decoded};

verus! {

/// `serde_json::Value`: a task's payload or result. The broker carries such
/// values from submitter to agent and back and never looks inside.
#[verifier::external_type_specification]
#[verifier::external_body]
pub struct ExJsonValue(serde_json::Value);

/// Cloning a JSON value yields an equal value.
pub assume_specification[ <serde_json::Value as Clone>::clone ](
    v: &serde_json::Value,
) -> (r: serde_json::Value)
    ensures
        r == *v,
;

/// The JSON value that stands for "nothing": `serde_json::Value::default()`,
/// which is `Value::Null`.
#[verifier::external_body]
pub(crate) fn json_null() -> serde_json::Value {
    serde_json::Value::default()
}

/// The views of a sequence of strings, in the same order.
pub open spec fn texts(v: Seq<String>) -> Seq<Seq<char>> {
    Seq::new(v.len(), |i: int| v[i]@)
}

/// The view of an optional string.
pub open spec fn opt_text(s: Option<String>) -> Option<Seq<char>> {
    match s {
        Some(t) => Some(t@),
        None => None,
    }
}

/// Where a task stands in its life.
#[derive(Debug, PartialEq)]
pub enum TaskStatus {
    /// Accepted but not yet queued.
    Pending,
    /// Waiting in the queue for an agent.
    Queued,
    /// Reserved for one agent, which has not picked it up yet.
    Pinned(String),
    /// Handed to an agent.
    Assigned,
    /// The agent is preparing to run it.
    Starting,
    /// In progress.
    Running,
    /// Finished successfully.
    Completed,
    /// Finished unsuccessfully.
    Failed,
    /// Withdrawn by the client.
    Canceled,
    /// Failed and returned to the queue.
    FailedRetryPending,
    /// Failed and held back before the next attempt.
    FailedRetryDelayed,
}

impl Clone for TaskStatus {
    fn clone(&self) -> (r: Self)
        ensures
            r == *self,
    {
        match self {
            TaskStatus::Pending => TaskStatus::Pending,
            TaskStatus::Queued => TaskStatus::Queued,
            TaskStatus::Pinned(agent) => TaskStatus::Pinned(agent.clone()),
            TaskStatus::Assigned => TaskStatus::Assigned,
            TaskStatus::Starting => TaskStatus::Starting,
            TaskStatus::Running => TaskStatus::Running,
            TaskStatus::Completed => TaskStatus::Completed,
            TaskStatus::Failed => TaskStatus::Failed,
            TaskStatus::Canceled => TaskStatus::Canceled,
            TaskStatus::FailedRetryPending => TaskStatus::FailedRetryPending,
            TaskStatus::FailedRetryDelayed => TaskStatus::FailedRetryDelayed,
        }
    }
}

impl Default for TaskStatus {
    fn default() -> (r: Self)
        ensures
            r is Pending,
    {
        TaskStatus::Pending
    }
}

impl TaskStatus {
    /// A status that is never left again: completed, failed or canceled.
    pub open spec fn terminal(self) -> bool {
        self is Completed || self is Failed || self is Canceled
    }

    /// Whether this status is terminal.
    pub fn is_terminal(&self) -> (r: bool)
        ensures
            r == self.terminal(),
    {
        matches!(self, TaskStatus::Completed | TaskStatus::Failed | TaskStatus::Canceled)
    }

    /// Whether the task still waits for its first pick-up.
    pub fn is_pending(&self) -> (r: bool)
        ensures
            r == (*self is Pending),
    {
        matches!(self, TaskStatus::Pending)
    }

    /// Whether the task is in progress.
    pub fn is_running(&self) -> (r: bool)
        ensures
            r == (*self is Running),
    {
        matches!(self, TaskStatus::Running)
    }
}

/// What an agent reports when it is done with a task. Durations are in
/// milliseconds.
#[derive(Debug, PartialEq)]
pub enum TaskResultStatus {
    /// The task ran to its end in the given time.
    Success(i64),
    /// The task ran and failed, for the given reason, after the given time.
    Failure(String, i64),
    /// The task was never started, for the given reason.
    NotExecuted(String),
}

impl Clone for TaskResultStatus {
    fn clone(&self) -> (r: Self)
        ensures
            r == *self,
    {
        match self {
            TaskResultStatus::Success(took) => TaskResultStatus::Success(*took),
            TaskResultStatus::Failure(reason, took) => TaskResultStatus::Failure(
                reason.clone(),
                *took,
            ),
            TaskResultStatus::NotExecuted(reason) => TaskResultStatus::NotExecuted(reason.clone()),
        }
    }
}

impl TaskResultStatus {
    /// Whether the report is a success.
    pub fn is_success(&self) -> (r: bool)
        ensures
            r == (*self is Success),
    {
        matches!(self, TaskResultStatus::Success(_))
    }
}

/// How a failed task may be tried again. The delay is in milliseconds.
#[derive(Debug, Clone, Copy, PartialEq, Eq, Structural)]
pub struct TaskRetryConfiguration {
    /// Whether the next attempt may run on the agent that failed.
    pub retry_on_same_node: bool,
    /// How many further attempts are allowed; zero means none.
    pub max_retries: u64,
    /// How long to wait before the next attempt.
    pub retry_delay: i64,
}

impl Default for TaskRetryConfiguration {
    fn default() -> (r: Self)
        ensures
            !r.retry_on_same_node,
            r.max_retries == 0,
            r.retry_delay == 0,
    {
        TaskRetryConfiguration { retry_on_same_node: false, max_retries: 0, retry_delay: 0 }
    }
}

/// A graphics processor on an agent's host.
#[derive(Debug, PartialEq)]
pub struct GpuInfo {
    pub vendor: String,
    pub model: String,
    pub vram_mb: u64,
}

impl Clone for GpuInfo {
    fn clone(&self) -> (r: Self)
        ensures
            r == *self,
    {
        GpuInfo { vendor: self.vendor.clone(), model: self.model.clone(), vram_mb: self.vram_mb }
    }
}

/// What an agent says about its host. The broker stores it and hands it back.
#[derive(Debug, PartialEq)]
pub struct SystemInfo {
    pub os: String,
    pub client: String,
    pub runtime: String,
    pub cpu_arch: String,
    pub total_memory_mb: u64,
    pub gpu: Option<GpuInfo>,
}

impl Clone for SystemInfo {
    fn clone(&self) -> (r: Self)
        ensures
            r == *self,
    {
        let gpu = match &self.gpu {
            Some(g) => Some(g.clone()),
            None => None,
        };
        SystemInfo {
            os: self.os.clone(),
            client: self.client.clone(),
            runtime: self.runtime.clone(),
            cpu_arch: self.cpu_arch.clone(),
            total_memory_mb: self.total_memory_mb,
            gpu,
        }
    }
}

/// An agent asks to be registered.
#[derive(Debug, PartialEq)]
pub struct AgentRegistrationRequest {
    /// The capabilities the agent offers.
    pub capabilities: Vec<String>,
    /// The agent's tier; higher is better.
    pub tier: u8,
    /// How many tasks the agent can work on at once.
    pub capacity: u32,
    /// The agent's host.
    pub system_info: SystemInfo,
    /// The registration key that entitles the agent to register.
    pub api_key: String,
}

impl Clone for AgentRegistrationRequest {
    fn clone(&self) -> (r: Self)
        ensures
            texts(r.capabilities@) == texts(self.capabilities@),
            r.tier == self.tier,
            r.capacity == self.capacity,
            r.system_info == self.system_info,
            r.api_key@ == self.api_key@,
    {
        AgentRegistrationRequest {
            capabilities: crate::models::clone_texts(&self.capabilities),
            tier: self.tier,
            capacity: self.capacity,
            system_info: self.system_info.clone(),
            api_key: self.api_key.clone(),
        }
    }
}

/// A registered agent replaces what it advertised.
#[derive(Debug, PartialEq)]
pub struct AgentUpdateRequest {
    pub capabilities: Vec<String>,
    pub tier: u8,
    pub capacity: u32,
    pub system_info: SystemInfo,
}

impl Clone for AgentUpdateRequest {
    fn clone(&self) -> (r: Self)
        ensures
            texts(r.capabilities@) == texts(self.capabilities@),
            r.tier == self.tier,
            r.capacity == self.capacity,
            r.system_info == self.system_info,
    {
        AgentUpdateRequest {
            capabilities: crate::models::clone_texts(&self.capabilities),
            tier: self.tier,
            capacity: self.capacity,
            system_info: self.system_info.clone(),
        }
    }
}

/// The broker's answer to a registration or an update.
#[derive(Debug, PartialEq)]
pub struct AgentRegistrationResponse {
    /// The identifier the broker gave the agent.
    pub agent_id: String,
    /// The agent's login secret.
    pub key: String,
    pub message: String,
}

impl Clone for AgentRegistrationResponse {
    fn clone(&self) -> (r: Self)
        ensures
            r == *self,
    {
        AgentRegistrationResponse {
            agent_id: self.agent_id.clone(),
            key: self.key.clone(),
            message: self.message.clone(),
        }
    }
}

/// An agent asks for a session token.
#[derive(Debug, PartialEq)]
pub struct AgentLoginRequest {
    pub agent_id: String,
    pub key: String,
}

impl Clone for AgentLoginRequest {
    fn clone(&self) -> (r: Self)
        ensures
            r == *self,
    {
        AgentLoginRequest { agent_id: self.agent_id.clone(), key: self.key.clone() }
    }
}

/// A session token and its lifetime in seconds.
#[derive(Debug, PartialEq)]
pub struct AgentLoginResponse {
    pub token: String,
    pub expires_in: usize,
}

impl Clone for AgentLoginResponse {
    fn clone(&self) -> (r: Self)
        ensures
            r == *self,
    {
        AgentLoginResponse { token: self.token.clone(), expires_in: self.expires_in }
    }
}

/// A request that carries nothing but the caller's key.
#[derive(Debug, PartialEq)]
pub struct ApiKeyRequest {
    pub api_key: String,
}

impl Clone for ApiKeyRequest {
    fn clone(&self) -> (r: Self)
        ensures
            r == *self,
    {
        ApiKeyRequest { api_key: self.api_key.clone() }
    }
}

/// A client asks for a new key with the given capability patterns.
#[derive(Debug, PartialEq)]
pub struct CreateApiKeyRequest {
    pub key: String,
    pub capabilities: Vec<String>,
}

impl Clone for CreateApiKeyRequest {
    fn clone(&self) -> (r: Self)
        ensures
            r.key@ == self.key@,
            texts(r.capabilities@) == texts(self.capabilities@),
    {
        CreateApiKeyRequest {
            key: self.key.clone(),
            capabilities: crate::models::clone_texts(&self.capabilities),
        }
    }
}

/// A client submits a task.
#[derive(Debug, PartialEq)]
pub struct TaskSubmissionRequest {
    /// The capability an agent needs to run the task.
    pub capability: String,
    /// Urgent tasks are offered at once and answered while the client waits;
    /// the others are queued.
    pub urgent: bool,
    /// Whether the task may be given to another agent after a failure.
    pub restartable: bool,
    /// The task's input.
    pub payload: serde_json::Value,
    /// The submitting client's key.
    pub api_key: String,
}

/// The mathematical content of a [`TaskSubmissionRequest`].
pub struct TaskSubmissionRequestView {
    pub capability: Seq<char>,
    pub urgent: bool,
    pub restartable: bool,
    pub payload: serde_json::Value,
    pub api_key: Seq<char>,
}

impl View for TaskSubmissionRequest {
    type V = TaskSubmissionRequestView;

    open spec fn view(&self) -> TaskSubmissionRequestView {
        TaskSubmissionRequestView {
            capability: self.capability@,
            urgent: self.urgent,
            restartable: self.restartable,
            payload: self.payload,
            api_key: self.api_key@,
        }
    }
}

impl Clone for TaskSubmissionRequest {
    fn clone(&self) -> (r: Self)
        ensures
            r@ == self@,
    {
        TaskSubmissionRequest {
            capability: self.capability.clone(),
            urgent: self.urgent,
            restartable: self.restartable,
            payload: self.payload.clone(),
            api_key: self.api_key.clone(),
        }
    }
}

impl Default for TaskSubmissionRequest {
    fn default() -> (r: Self)
        ensures
            r@.capability.len() == 0,
            !r@.urgent,
            !r@.restartable,
            r@.api_key.len() == 0,
    {
        TaskSubmissionRequest {
            capability: String::new(),
            urgent: false,
            restartable: false,
            payload: json_null(),
            api_key: String::new(),
        }
    }
}

/// Names a task: the capability it needs, which is also its queue, and an
/// identifier that is unique within that queue and sorts by creation time.
#[derive(Debug, PartialEq, Eq, Hash)]
pub struct TaskId {
    /// The capability, which doubles as the queue's name.
    pub cap: String,
    /// The identifier within the queue.
    pub id: String,
}

/// The mathematical content of a [`TaskId`]: a pair of texts.
pub struct TaskIdView {
    pub cap: Seq<char>,
    pub id: Seq<char>,
}

impl TaskIdView {
    /// The form shown to people and used in paths: `cap/id`.
    pub open spec fn path(self) -> Seq<char> {
        self.cap + seq!['/'] + self.id
    }
}

impl View for TaskId {
    type V = TaskIdView;

    open spec fn view(&self) -> TaskIdView {
        TaskIdView { cap: self.cap@, id: self.id@ }
    }
}

impl Clone for TaskId {
    fn clone(&self) -> (r: Self)
        ensures
            r@ == self@,
    {
        TaskId { cap: self.cap.clone(), id: self.id.clone() }
    }
}

impl Default for TaskId {
    fn default() -> (r: Self)
        ensures
            r@.cap.len() == 0,
            r@.id.len() == 0,
    {
        TaskId { cap: String::new(), id: String::new() }
    }
}

impl TaskId {
    /// A fresh identifier in the queue of `cap`.
    pub fn new_with_cap(cap: String) -> (r: TaskId)
        ensures
            r@.cap == cap@,
            is_uid_text(r@.id),
    {
        TaskId { cap, id: time_sortable_uid() }
    }

    /// The identifier named by the two segments of a request path, each of
    /// them percent-encoded. Fails with `BadRequest` where either segment does
    /// not decode.
    pub fn from_url(id: String, cap: String) -> (r: Result<TaskId, AppError>)
        ensures
            r is Ok <==> url_decoded(cap@) is Some && url_decoded(id@) is Some,
            r matches Ok(t) ==> Some(t@.cap) == url_decoded(cap@) && Some(t@.id) == url_decoded(
                id@,
            ),
            r matches Err(e) ==> e is BadRequest,
    {
        let cap = match url_decode(cap.as_str()) {
            Ok(c) => c,
            Err(e) => {
                return Err(e);
            },
        };
        let id = match url_decode(id.as_str()) {
            Ok(i) => i,
            Err(e) => {
                return Err(e);
            },
        };
        Ok(TaskId { cap, id })
    }

    /// Whether two identifiers name the same task.
    pub fn same(&self, other: &TaskId) -> (r: bool)
        ensures
            r == (self@ == other@),
    {
        self.cap == other.cap && self.id == other.id
    }

    /// The form shown to people and used in paths: `cap/id`.
    pub fn to_string(&self) -> (r: String)
        ensures
            r@ == self@.path(),
    {
        let mut text = self.cap.clone();
        text.push('/');
        text.append(self.id.as_str());
        text
    }
}

/// The broker's answer to a queued submission.
#[derive(Debug, PartialEq)]
pub struct TaskSubmissionResponse {
    pub task: TaskId,
}

impl Clone for TaskSubmissionResponse {
    fn clone(&self) -> (r: Self)
        ensures
            r.task@ == self.task@,
    {
        TaskSubmissionResponse { task: self.task.clone() }
    }
}

/// What a client learns when it asks how a task is doing.
#[derive(Debug, PartialEq)]
pub struct TaskStatusResponse {
    pub id: TaskId,
    pub status: TaskStatus,
    /// The stage the agent last reported, if any.
    pub stage: Option<String>,
    /// The task's output, once there is one.
    pub output: Option<serde_json::Value>,
}

/// The mathematical content of a [`TaskStatusResponse`].
pub struct TaskStatusResponseView {
    pub id: TaskIdView,
    pub status: TaskStatus,
    pub stage: Option<Seq<char>>,
    pub output: Option<serde_json::Value>,
}

impl View for TaskStatusResponse {
    type V = TaskStatusResponseView;

    open spec fn view(&self) -> TaskStatusResponseView {
        TaskStatusResponseView {
            id: self.id@,
            status: self.status,
            stage: opt_text(self.stage),
            output: self.output,
        }
    }
}

/// A task as it is pushed to an agent.
#[derive(Debug, PartialEq)]
pub struct TaskAssignment {
    pub id: TaskId,
    pub payload: serde_json::Value,
}

impl Clone for TaskAssignment {
    fn clone(&self) -> (r: Self)
        ensures
            r.id@ == self.id@,
            r.payload == self.payload,
    {
        TaskAssignment { id: self.id.clone(), payload: self.payload.clone() }
    }
}

/// An agent's final word on a task.
#[derive(Debug, PartialEq)]
pub struct TaskResultReport {
    pub id: TaskId,
    pub capability: String,
    pub status: TaskResultStatus,
    /// The task's output on success, or what the agent has to say about the
    /// failure.
    pub output: Option<serde_json::Value>,
}

impl Clone for TaskResultReport {
    fn clone(&self) -> (r: Self)
        ensures
            r.id@ == self.id@,
            r.capability@ == self.capability@,
            r.status == self.status,
            r.output == self.output,
    {
        TaskResultReport {
            id: self.id.clone(),
            capability: self.capability.clone(),
            status: self.status.clone(),
            output: self.output.clone(),
        }
    }
}

/// An agent's progress note on a task it is working on.
#[derive(Debug, PartialEq)]
pub struct TaskUpdate {
    pub id: TaskId,
    /// Text to append to the task's log.
    pub log: Option<String>,
    /// The stage the task has reached.
    pub stage: Option<String>,
}

impl Clone for TaskUpdate {
    fn clone(&self) -> (r: Self)
        ensures
            r.id@ == self.id@,
            opt_text(r.log) == opt_text(self.log),
            opt_text(r.stage) == opt_text(self.stage),
    {
        TaskUpdate { id: self.id.clone(), log: self.log.clone(), stage: self.stage.clone() }
    }
}

} // verus!
