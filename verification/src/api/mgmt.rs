//! What the operator asks of the broker: listings, and the upkeep of agents
//! and client keys.

use vstd::prelude::*;
use vstd::string::*;

use crate::config::AppConfig;
use crate::db::agent::{agent_key, knows};
use crate::db::apikeys::client_key;
use crate::db::tree::{filed, record_at, records, unfiled, views};
use crate::error::AppError;
use crate::models::{Agent, AssignedTask, ClientApiKey, ClientApiKeyView, UnassignedTask};
use crate::mq::scheduler::{
    has_potential_agents, online_agents, online_among, online_capabilities,
};
use crate::mq::urgent::{on_offer_in, taken_in};
use crate::schema::{texts, CreateApiKeyRequest};
use crate::state::AppState;

verus! {

/// Checks the token of a management request. Succeeds exactly when a
/// management token is configured and `token` is that token; fails with
/// `Authentication` otherwise.
pub fn check_management_token(config: &AppConfig, token: Option<&str>) -> (r: Result<(), AppError>)
    ensures
        r is Ok <==> (config.management_token matches Some(expected) && token matches Some(given)
            && expected@ == given@),
        r matches Err(e) ==> e is Authentication,
{
    match (&config.management_token, token) {
        (Some(expected), Some(given)) => {
            if expected.as_str().eq(given) {
                return Ok(());
            }
        },
        _ => {},
    }
    Err(AppError::Authentication("Management token invalid".to_owned()))
}

/// All registered agents, in the order of their identifiers.
pub fn list_agents(app_state: &AppState) -> (agents: Vec<Agent>)
    requires
        app_state.wf(),
    ensures
        views(agents@) == records(app_state.storage.agents.agents()),
{
    app_state.storage.agents.list_all_agents()
}

/// The registered agents that are online at `now`, in the order of their
/// identifiers.
pub fn list_agents_online(app_state: &AppState, now: i64) -> (agents: Vec<Agent>)
    requires
        app_state.wf(),
    ensures
        views(agents@) == online_among(records(app_state.storage.agents.agents()), now),
{
    online_agents(app_state.storage.agents.list_all_agents(), now)
}

/// Removes the agent registered under `agent_id`, if there is one.
pub fn remove_agent(app_state: &mut AppState, agent_id: &str)
    requires
        old(app_state).wf(),
    ensures
        final(app_state).wf(),
        final(app_state).urgent.entries() == old(app_state).urgent.entries(),
        final(app_state).storage.tasks == old(app_state).storage.tasks,
        final(app_state).storage.client_keys == old(app_state).storage.client_keys,
        final(app_state).storage.agents.agents() == unfiled(
            old(app_state).storage.agents.agents(),
            agent_key(agent_id@),
        ),
        !knows(final(app_state).storage.agents.agents(), agent_id@),
{
    app_state.storage.delete_agent(agent_id);
}

/// The capabilities that agents which are online at `now` offer, each
/// listed once.
pub fn capabilities_online(app_state: &AppState, now: i64) -> (caps: Vec<String>)
    requires
        app_state.wf(),
    ensures
        texts(caps@).no_duplicates(),
        forall|cap: Seq<char>| #[trigger]
            texts(caps@).contains(cap) <==> has_potential_agents(
                records(app_state.storage.agents.agents()),
                cap,
                now,
            ),
{
    let everyone = app_state.storage.agents.list_all_agents();
    online_capabilities(&everyone, now, None)
}

/// All client keys in force.
pub fn client_api_keys(app_state: &AppState) -> (keys: Vec<ClientApiKey>)
    requires
        app_state.wf(),
    ensures
        views(keys@) == records(app_state.storage.client_keys.active()),
{
    app_state.storage.client_keys.list_all()
}

/// Withdraws the client key in force under `id`: it is marked revoked,
/// leaves the keys in force and is filed among the withdrawn ones. The key
/// as filed is returned. Fails with `NotFound`, and changes nothing, exactly
/// when no key is in force under `id`.
pub fn revoke_client_api_key(app_state: &mut AppState, id: &str) -> (r: Result<
    ClientApiKey,
    AppError,
>)
    requires
        old(app_state).wf(),
    ensures
        final(app_state).wf(),
        final(app_state).urgent.entries() == old(app_state).urgent.entries(),
        final(app_state).storage.tasks == old(app_state).storage.tasks,
        final(app_state).storage.agents == old(app_state).storage.agents,
        match record_at(old(app_state).storage.client_keys.active(), client_key(id@)) {
            Some(key) => {
                &&& r matches Ok(revoked)
                &&& revoked@ == (ClientApiKeyView { is_revoked: true, ..key })
                &&& final(app_state).storage.client_keys.active() == unfiled(
                    old(app_state).storage.client_keys.active(),
                    client_key(id@),
                )
                &&& final(app_state).storage.client_keys.archived() == filed(
                    old(app_state).storage.client_keys.archived(),
                    client_key(id@),
                    revoked@,
                )
            },
            None => {
                &&& r matches Err(e) && e is NotFound
                &&& final(app_state).storage.client_keys.active()
                    == old(app_state).storage.client_keys.active()
                &&& final(app_state).storage.client_keys.archived()
                    == old(app_state).storage.client_keys.archived()
            },
        },
{
    let mut key = match app_state.storage.client_keys.find_active(id) {
        Some(key) => key,
        None => {
            return Err(AppError::NotFound(id.to_owned()));
        },
    };
    key.is_revoked = true;
    app_state.storage.client_keys.update_key(id, &key);
    Ok(key)
}

/// The record of a key that a client asked for at `now`: in force, and not
/// one of those that come with the configuration.
pub open spec fn requested_key(new_key: CreateApiKeyRequest, now: i64) -> ClientApiKeyView {
    ClientApiKeyView {
        key: new_key.key@,
        capabilities: texts(new_key.capabilities@),
        is_predefined: false,
        created: now,
        is_revoked: false,
    }
}

/// Files a new client key, created at `now`, among the keys in force, under
/// the key itself and in place of the one that was filed there, if any. The
/// key as filed is returned.
pub fn add_client_api_key(app_state: &mut AppState, new_key: CreateApiKeyRequest, now: i64) -> (key:
    ClientApiKey)
    requires
        old(app_state).wf(),
    ensures
        final(app_state).wf(),
        final(app_state).urgent.entries() == old(app_state).urgent.entries(),
        final(app_state).storage.tasks == old(app_state).storage.tasks,
        final(app_state).storage.agents == old(app_state).storage.agents,
        key@ == requested_key(new_key, now),
        final(app_state).storage.client_keys.active() == filed(
            old(app_state).storage.client_keys.active(),
            client_key(new_key.key@),
            key@,
        ),
        final(app_state).storage.client_keys.archived()
            == old(app_state).storage.client_keys.archived(),
{
    let key = ClientApiKey {
        key: new_key.key,
        capabilities: new_key.capabilities,
        is_predefined: false,
        created: now,
        is_revoked: false,
    };
    app_state.storage.client_keys.upsert_key(key.key.as_str(), &key);
    key
}

/// Every task the broker holds that has not been put aside.
pub struct TaskListing {
    /// Urgent tasks that agents have taken, in the order of arrival.
    pub urgent_assigned: Vec<AssignedTask>,
    /// Urgent tasks on offer, in the order of arrival.
    pub urgent_unassigned: Vec<UnassignedTask>,
    /// Regular tasks that agents have taken, in key order.
    pub regular_assigned: Vec<AssignedTask>,
    /// Regular tasks that wait, in key order.
    pub regular_unassigned: Vec<UnassignedTask>,
}

/// Lists every task the broker holds that has not been put aside.
pub fn list_tasks(app_state: &AppState) -> (listing: TaskListing)
    requires
        app_state.wf(),
    ensures
        views(listing.urgent_assigned@) == taken_in(app_state.urgent.entries()),
        views(listing.urgent_unassigned@) == on_offer_in(app_state.urgent.entries()),
        views(listing.regular_assigned@) == records(app_state.storage.tasks.assigned()),
        views(listing.regular_unassigned@) == records(app_state.storage.tasks.unassigned()),
{
    TaskListing {
        urgent_assigned: app_state.urgent.list_assigned(),
        urgent_unassigned: app_state.urgent.list_unassigned(),
        regular_assigned: app_state.storage.tasks.list_assigned_all(),
        regular_unassigned: app_state.storage.tasks.list_unassigned_all(),
    }
}

} // verus!
