//! The broker's three registries under one roof.

use vstd::prelude::*;

use crate::db::agent::{
    agent_key, agent_of, filed_as, keyed_agents, knows, no_uid_taken, CachedAgentStorage,
    MAX_CACHE_TTL_SECS,
};
use crate::db::apikeys::ApiKeysStorage;
use crate::db::persistent_task_storage::TaskStorage;
use crate::db::tree::{filed, filed_all, opt_view, unfiled};
use crate::error::AppError;
use crate::models::Agent;
use crate::utils::is_uid_text;

verus! {

/// How long, in seconds, cached agent records and tokens live unless told
/// otherwise.
pub const DEFAULT_CACHE_TTL_SECS: u64 = 120;

/// The registry of agents, the store of regular tasks and the registry of
/// client keys.
pub struct AppStorage {
    pub agents: CachedAgentStorage,
    pub tasks: TaskStorage,
    pub client_keys: ApiKeysStorage,
}

impl AppStorage {
    /// The invariant of the whole: the invariants of the three parts.
    pub open spec fn wf(&self) -> bool {
        &&& self.agents.wf()
        &&& self.tasks.wf()
        &&& self.client_keys.wf()
    }

    /// Storage that holds `agents` and nothing else, with caches whose
    /// entries live for 120 seconds.
    pub fn new(agents: Vec<Agent>) -> (storage: Self)
        ensures
            storage.wf(),
            storage.tasks.unassigned().len() == 0,
            storage.tasks.assigned().len() == 0,
            storage.tasks.archived().len() == 0,
            storage.client_keys.active().len() == 0,
            storage.client_keys.archived().len() == 0,
            storage.agents.agents() == filed_all(Seq::empty(), keyed_agents(agents@)),
    {
        Self::with_ttl(agents, DEFAULT_CACHE_TTL_SECS)
    }

    /// Storage that holds `agents` and nothing else, with caches whose
    /// entries live for `cache_ttl` seconds.
    pub fn with_ttl(agents: Vec<Agent>, cache_ttl: u64) -> (storage: Self)
        requires
            cache_ttl <= MAX_CACHE_TTL_SECS,
        ensures
            storage.wf(),
            storage.tasks.unassigned().len() == 0,
            storage.tasks.assigned().len() == 0,
            storage.tasks.archived().len() == 0,
            storage.client_keys.active().len() == 0,
            storage.client_keys.archived().len() == 0,
            storage.agents.agents() == filed_all(Seq::empty(), keyed_agents(agents@)),
    {
        AppStorage {
            agents: CachedAgentStorage::new(agents, cache_ttl, cache_ttl),
            tasks: TaskStorage::new(),
            client_keys: ApiKeysStorage::new(),
        }
    }

    /// How many agent records and how many tokens the caches hold that have
    /// not expired: at most as many as each cache holds (finitely many, by
    /// [`CachedAgentStorage::lemma_caches_are_finite`]), and so none where
    /// it holds none. How many of the entries held have expired depends on
    /// the clock.
    pub fn get_agent_cache_stats(&self) -> (stats: (usize, usize))
        ensures
            stats.0 <= self.agents.cached_ids().len(),
            stats.1 <= self.agents.tokens().len(),
    {
        self.agents.get_cache_stats()
    }

    /// Drops from the caches the entries whose time ran out. No record is
    /// touched, and each cache afterwards holds only what it held before.
    /// Which entries have run out of time depends on the clock.
    pub fn cleanup_expired(&mut self)
        requires
            old(self).wf(),
        ensures
            final(self).wf(),
            final(self).agents.agents() == old(self).agents.agents(),
            final(self).agents.tokens().subset_of(old(self).agents.tokens()),
            final(self).agents.cached_ids().subset_of(old(self).agents.cached_ids()),
            final(self).tasks == old(self).tasks,
            final(self).client_keys == old(self).client_keys,
    {
        self.agents.cleanup_expired();
    }

    /// Files a new agent; see [`CachedAgentStorage::create_agent`].
    pub fn create_agent(&mut self, agent: &mut Agent) -> (r: Result<(), AppError>)
        requires
            old(self).wf(),
        ensures
            final(self).wf(),
            final(self).tasks == old(self).tasks,
            final(self).client_keys == old(self).client_keys,
            old(agent)@.uid.len() > 0 && !knows(old(self).agents.agents(), old(agent)@.uid) ==> r
                is Ok && final(agent)@.uid == old(agent)@.uid,
            r is Ok ==> {
                &&& !knows(old(self).agents.agents(), final(agent)@.uid)
                &&& final(agent)@.uid == old(agent)@.uid || is_uid_text(final(agent)@.uid)
                &&& final(agent)@ == filed_as(old(agent)@, final(agent)@.uid)
                &&& final(self).agents.agents() == filed(
                    old(self).agents.agents(),
                    agent_key(final(agent)@.uid),
                    final(agent)@,
                )
            },
            r matches Err(e) ==> {
                &&& e is Conflict
                &&& final(self).agents.agents() == old(self).agents.agents()
                &&& final(agent)@ == old(agent)@
                &&& old(agent)@.uid.len() == 0 || knows(
                    old(self).agents.agents(),
                    old(agent)@.uid,
                )
                &&& !no_uid_taken(old(self).agents.agents())
            },
    {
        self.agents.create_agent(agent)
    }

    /// The agent filed under `id`, if there is one.
    pub fn get_agent(&mut self, id: &str) -> (r: Option<Agent>)
        requires
            old(self).wf(),
        ensures
            final(self).wf(),
            final(self).agents.agents() == old(self).agents.agents(),
            final(self).agents.tokens() == old(self).agents.tokens(),
            final(self).tasks == old(self).tasks,
            final(self).client_keys == old(self).client_keys,
            opt_view(r) == agent_of(old(self).agents.agents(), id@),
    {
        self.agents.get_agent(id)
    }

    /// Replaces the record of a known agent. Fails with `NotFound`, and
    /// changes nothing, exactly when no agent bears the identifier.
    pub fn update_agent(&mut self, agent: Agent) -> (r: Result<(), AppError>)
        requires
            old(self).wf(),
        ensures
            final(self).wf(),
            final(self).tasks == old(self).tasks,
            final(self).client_keys == old(self).client_keys,
            r is Ok <==> knows(old(self).agents.agents(), agent@.uid),
            r is Ok ==> final(self).agents.agents() == filed(
                old(self).agents.agents(),
                agent_key(agent@.uid),
                agent@,
            ),
            r matches Err(e) ==>
                e is NotFound && final(self).agents.agents() == old(self).agents.agents(),
    {
        self.agents.update_agent(agent)
    }

    /// Removes the agent filed under `id`, if there is one.
    pub fn delete_agent(&mut self, id: &str)
        requires
            old(self).wf(),
        ensures
            final(self).wf(),
            final(self).tasks == old(self).tasks,
            final(self).client_keys == old(self).client_keys,
            final(self).agents.agents() == unfiled(old(self).agents.agents(), agent_key(id@)),
            !knows(final(self).agents.agents(), id@),
    {
        self.agents.delete_agent(id);
    }
}

} // verus!
