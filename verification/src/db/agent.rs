//! The registry of agents: a table of all agents by identifier, a cache of
//! recently used records in front of it, and a cache of login tokens. Both
//! caches forget their entries after a time of their own.

use vstd::prelude::*;
use vstd::string::*;
use vstd::utf8::{encode_utf8, encode_utf8_decode_utf8};

use crate::clock;
use crate::db::tree::{
    ascending, filed, filed_all, has_key, lemma_filed, lemma_records_step,
    lemma_unfiled, lemma_views_push, opt_view, position_of, record_at, records, unfiled, views,
    Tree,
};
use crate::error::AppError;
use crate::models::{Agent, AgentView};
use crate::utils::{is_uid_text, leading, leading_chars, time_sortable_uid};

verus! {

/// `lru_time_cache::LruCache`: a keyed cache whose entries expire a fixed time
/// after they were last inserted or fetched.
#[verifier::external_type_specification]
#[verifier::external_body]
#[verifier::reject_recursive_types(K)]
#[verifier::reject_recursive_types(V)]
pub struct ExLruCache<K, V>(lru_time_cache::LruCache<K, V>);

/// The longest lifetime, in seconds, that a cache may be given: adding more
/// to a point in time could leave the range of the machine's clock.
pub const MAX_CACHE_TTL_SECS: u64 = 0xFFFF_FFFF;

/// How many fresh identifiers are tried for a new agent before giving up.
pub const UID_ATTEMPTS: usize = 16;

/// The length of an agent's short identifier.
pub const SHORT_UID_LEN: usize = 8;

/// What an agent cache holds: the records it keeps, by key. An entry may have
/// expired and still be held; it is dropped by a later call.
pub uninterp spec fn agent_cache_contents(
    c: lru_time_cache::LruCache<String, Agent>,
) -> Map<Seq<char>, Agent>;

/// What a token cache holds: the tokens it keeps. An entry may have expired
/// and still be held; it is dropped by a later call.
pub uninterp spec fn token_cache_contents(c: lru_time_cache::LruCache<String, ()>) -> Set<Seq<char>>;

/// Every entry of `after` is an entry of `before`.
pub open spec fn cache_within(after: Map<Seq<char>, Agent>, before: Map<Seq<char>, Agent>) -> bool {
    forall|k: Seq<char>| #[trigger]
        after.dom().contains(k) ==> before.dom().contains(k) && after[k] == before[k]
}

/// `LruCache::with_expiry_duration`: an empty cache whose entries live for
/// `ttl_secs` seconds.
#[verifier::external_body]
fn agent_cache_new(ttl_secs: u64) -> (c: lru_time_cache::LruCache<String, Agent>)
    requires
        ttl_secs <= MAX_CACHE_TTL_SECS,
    ensures
        forall|k: Seq<char>| !agent_cache_contents(c).dom().contains(k),
{
    lru_time_cache::LruCache::with_expiry_duration(std::time::Duration::from_secs(ttl_secs))
}

/// `LruCache::insert`: drops entries that have expired, then files the record
/// under the key. Afterwards the cache holds the record, and whatever else it
/// holds it held before.
#[verifier::external_body]
fn agent_cache_insert(c: &mut lru_time_cache::LruCache<String, Agent>, key: String, agent: Agent)
    ensures
        agent_cache_contents(*final(c)).dom().contains(key@),
        agent_cache_contents(*final(c))[key@] == agent,
        cache_within(agent_cache_contents(*final(c)).remove(key@), agent_cache_contents(*old(c))),
{
    let _ = c.insert(key, agent);
}

/// `LruCache::get`: drops entries that have expired, then looks the key up.
/// The record returned is the one the cache holds; `None` means that the
/// cache no longer holds the key.
#[verifier::external_body]
fn agent_cache_get<'a>(c: &'a mut lru_time_cache::LruCache<String, Agent>, key: &str) -> (r: Option<
    &'a Agent,
>)
    ensures
        cache_within(agent_cache_contents(*final(c)), agent_cache_contents(*old(c))),
        match r {
            Some(agent) => agent_cache_contents(*final(c)).dom().contains(key@)
                && agent_cache_contents(*final(c))[key@] == *agent,
            None => !agent_cache_contents(*final(c)).dom().contains(key@),
        },
{
    c.get(key)
}

/// `LruCache::peek`: looks the key up and leaves the cache as it is. A record
/// is returned only if the cache holds it; one that has expired is not.
#[verifier::external_body]
fn agent_cache_peek<'a>(c: &'a lru_time_cache::LruCache<String, Agent>, key: &str) -> (r: Option<
    &'a Agent,
>)
    ensures
        r matches Some(agent) ==> agent_cache_contents(*c).dom().contains(key@)
            && agent_cache_contents(*c)[key@] == *agent,
{
    c.peek(key)
}

/// `LruCache::remove`: takes the key out and leaves every other entry.
#[verifier::external_body]
fn agent_cache_remove(c: &mut lru_time_cache::LruCache<String, Agent>, key: &str)
    ensures
        agent_cache_contents(*final(c)) == agent_cache_contents(*old(c)).remove(key@),
{
    let _ = c.remove(key);
}

/// `LruCache::iter`, called for its effect: entries that have expired are
/// dropped. The iterator itself is not used.
#[verifier::external_body]
fn agent_cache_sweep(c: &mut lru_time_cache::LruCache<String, Agent>)
    ensures
        cache_within(agent_cache_contents(*final(c)), agent_cache_contents(*old(c))),
{
    let _ = c.iter();
}

/// `LruCache::len`: the number of entries that have not expired, which is
/// at most the number of entries that the cache holds. How many of them have
/// expired depends on the clock.
#[verifier::external_body]
fn agent_cache_len(c: &lru_time_cache::LruCache<String, Agent>) -> (n: usize)
    ensures
        n <= agent_cache_contents(*c).dom().len(),
{
    c.len()
}

/// `LruCache::with_expiry_duration`: an empty cache whose entries live for
/// `ttl_secs` seconds.
#[verifier::external_body]
fn token_cache_new(ttl_secs: u64) -> (c: lru_time_cache::LruCache<String, ()>)
    requires
        ttl_secs <= MAX_CACHE_TTL_SECS,
    ensures
        token_cache_contents(c) == Set::<Seq<char>>::empty(),
{
    lru_time_cache::LruCache::with_expiry_duration(std::time::Duration::from_secs(ttl_secs))
}

/// `LruCache::insert`: drops entries that have expired, then adds the token.
#[verifier::external_body]
fn token_cache_insert(c: &mut lru_time_cache::LruCache<String, ()>, token: String)
    ensures
        token_cache_contents(*final(c)).contains(token@),
        token_cache_contents(*final(c)).subset_of(token_cache_contents(*old(c)).insert(token@)),
{
    let _ = c.insert(token, ());
}

/// `LruCache::peek`: whether the cache holds the token and it has not
/// expired. The cache is left as it is.
#[verifier::external_body]
fn token_cache_peek(c: &lru_time_cache::LruCache<String, ()>, token: &str) -> (held: bool)
    ensures
        held ==> token_cache_contents(*c).contains(token@),
{
    c.peek(token).is_some()
}

/// `LruCache::remove`: takes the token out and leaves every other.
#[verifier::external_body]
fn token_cache_remove(c: &mut lru_time_cache::LruCache<String, ()>, token: &str)
    ensures
        token_cache_contents(*final(c)) == token_cache_contents(*old(c)).remove(token@),
{
    let _ = c.remove(token);
}

/// `LruCache::iter`, called for its effect: entries that have expired are
/// dropped. The iterator itself is not used.
#[verifier::external_body]
fn token_cache_sweep(c: &mut lru_time_cache::LruCache<String, ()>)
    ensures
        token_cache_contents(*final(c)).subset_of(token_cache_contents(*old(c))),
{
    let _ = c.iter();
}

/// `LruCache::len`: the number of entries that have not expired, which is
/// at most the number of entries that the cache holds. How many of them have
/// expired depends on the clock.
#[verifier::external_body]
fn token_cache_len(c: &lru_time_cache::LruCache<String, ()>) -> (n: usize)
    ensures
        n <= token_cache_contents(*c).len(),
{
    c.len()
}

/// The key an agent is filed under: its identifier as UTF-8.
pub open spec fn agent_key(uid: Seq<char>) -> Seq<u8> {
    encode_utf8(uid)
}

/// Every agent is filed under the key of its own identifier.
pub open spec fn agents_keyed(s: Seq<(Seq<u8>, AgentView)>) -> bool {
    forall|i: int| 0 <= i < s.len() ==> (#[trigger] s[i]).0 == agent_key(s[i].1.uid)
}

/// The agent filed under `uid`, if there is one.
pub open spec fn agent_of(s: Seq<(Seq<u8>, AgentView)>, uid: Seq<char>) -> Option<AgentView> {
    record_at(s, agent_key(uid))
}

/// Whether an agent is filed under `uid`.
pub open spec fn knows(s: Seq<(Seq<u8>, AgentView)>, uid: Seq<char>) -> bool {
    has_key(s, agent_key(uid))
}

/// Whether no agent of `s` bears an identifier of the shape of a
/// time-sortable one, so that every fresh identifier is free.
pub open spec fn no_uid_taken(s: Seq<(Seq<u8>, AgentView)>) -> bool {
    forall|uid: Seq<char>| is_uid_text(uid) ==> !#[trigger] knows(s, uid)
}

/// An agent as the registry files it: under `uid`, with the first eight
/// characters of `uid` as its short identifier.
pub open spec fn filed_as(agent: AgentView, uid: Seq<char>) -> AgentView {
    AgentView { uid, uid_short: leading(uid, SHORT_UID_LEN as int), ..agent }
}

/// Agents, each with the key it is filed under.
pub open spec fn keyed_agents(agents: Seq<Agent>) -> Seq<(Seq<u8>, AgentView)> {
    Seq::new(agents.len(), |i: int| (agent_key(agents[i]@.uid), agents[i]@))
}

/// The registry of agents.
pub struct CachedAgentStorage {
    db: Tree<Agent>,
    agent_cache: lru_time_cache::LruCache<String, Agent>,
    token_cache: lru_time_cache::LruCache<String, ()>,
}

impl CachedAgentStorage {
    /// All agents with their keys, in key order.
    pub closed spec fn agents(&self) -> Seq<(Seq<u8>, AgentView)> {
        self.db.entries()
    }

    /// The login tokens that the registry may still remember.
    pub closed spec fn tokens(&self) -> Set<Seq<char>> {
        token_cache_contents(self.token_cache)
    }

    /// The identifiers of the agents whose records the cache may still hold.
    pub closed spec fn cached_ids(&self) -> Set<Seq<char>> {
        agent_cache_contents(self.agent_cache).dom()
    }

    /// The cache holds no agent that the table does not hold.
    pub proof fn lemma_cached_are_known(&self, uid: Seq<char>)
        requires
            self.wf(),
            self.cached_ids().contains(uid),
        ensures
            knows(self.agents(), uid),
    {
    }

    /// Every record in the cache is the record that the table holds under
    /// the same identifier.
    pub closed spec fn coherent(&self) -> bool {
        forall|k: Seq<char>| #[trigger]
            agent_cache_contents(self.agent_cache).dom().contains(k) ==> agent_of(
                self.agents(),
                k,
            ) == Some(agent_cache_contents(self.agent_cache)[k]@)
    }

    /// Each cache holds finitely many entries.
    pub closed spec fn bounded(&self) -> bool {
        &&& agent_cache_contents(self.agent_cache).dom().finite()
        &&& token_cache_contents(self.token_cache).finite()
    }

    /// The registry's invariant: the table is in strictly ascending key
    /// order, every agent is filed under its own identifier, the cache
    /// agrees with the table, and each cache holds finitely many entries.
    pub open spec fn wf(&self) -> bool {
        &&& ascending(self.agents())
        &&& agents_keyed(self.agents())
        &&& self.coherent()
        &&& self.bounded()
    }

    /// Each cache holds finitely many entries, so that the numbers of
    /// [`CachedAgentStorage::get_cache_stats`] are bounded by true counts,
    /// and are zero for a cache that holds nothing.
    pub proof fn lemma_caches_are_finite(&self)
        requires
            self.wf(),
        ensures
            self.cached_ids().finite(),
            self.tokens().finite(),
            self.cached_ids() == Set::<Seq<char>>::empty() ==> self.cached_ids().len() == 0,
            self.tokens() == Set::<Seq<char>>::empty() ==> self.tokens().len() == 0,
    {
    }

    /// A registry that holds `agents`, each filed under its identifier; of
    /// two agents with one identifier the later one stays. Cached agent
    /// records live for `agent_cache_ttl` seconds, cached tokens for
    /// `token_cache_ttl` seconds; neither may exceed
    /// [`MAX_CACHE_TTL_SECS`]. The cache of agents starts out holding every
    /// agent.
    pub fn new(agents: Vec<Agent>, agent_cache_ttl: u64, token_cache_ttl: u64) -> (registry: Self)
        requires
            agent_cache_ttl <= MAX_CACHE_TTL_SECS,
            token_cache_ttl <= MAX_CACHE_TTL_SECS,
        ensures
            registry.wf(),
            registry.tokens() == Set::<Seq<char>>::empty(),
            registry.agents() == filed_all(Seq::empty(), keyed_agents(agents@)),
    {
        let mut registry = CachedAgentStorage {
            db: Tree::new(),
            agent_cache: agent_cache_new(agent_cache_ttl),
            token_cache: token_cache_new(token_cache_ttl),
        };
        let mut i: usize = 0;
        proof {
            assert(registry.agents() =~= Seq::empty());
            assert(keyed_agents(agents@).take(0) =~= Seq::empty());
            assert(agent_cache_contents(registry.agent_cache).dom() =~= Set::empty());
        }
        while i < agents.len()
            invariant
                i <= agents@.len(),
                registry.wf(),
                registry.tokens() == Set::<Seq<char>>::empty(),
                registry.agents() == filed_all(Seq::empty(), keyed_agents(agents@).take(i as int)),
            decreases agents@.len() - i,
        {
            proof {
                let upto = keyed_agents(agents@).take(i + 1);
                assert(upto.drop_last() =~= keyed_agents(agents@).take(i as int));
            }
            registry.put(agents[i].clone());
            i += 1;
        }
        assert(keyed_agents(agents@).take(i as int) =~= keyed_agents(agents@));
        registry
    }

    /// Files `agent` under its identifier, in the table and in the cache.
    fn put(&mut self, agent: Agent)
        requires
            old(self).wf(),
        ensures
            final(self).wf(),
            final(self).agents() == filed(old(self).agents(), agent_key(agent@.uid), agent@),
            final(self).tokens() == old(self).tokens(),
            agent_of(final(self).agents(), agent@.uid) == Some(agent@),
    {
        let key = agent.uid.as_str().as_bytes_vec();
        let ghost before = self.agents();
        let ghost cached = agent_cache_contents(self.agent_cache);
        let ghost uid = agent@.uid;
        let copy = agent.clone();
        proof {
            lemma_filed(before, key@, agent@);
            lemma_filed_keeps_agents_keyed(before, agent@);
        }
        self.db.insert(key, agent);
        agent_cache_insert(&mut self.agent_cache, copy.uid.clone(), copy);
        proof {
            let now_cached = agent_cache_contents(self.agent_cache);
            assert forall|k: Seq<char>| #[trigger]
                now_cached.dom().contains(k) implies agent_of(self.agents(), k) == Some(
                now_cached[k]@,
            ) by {
                lemma_key_injective(uid, k);
                if k != uid {
                    assert(now_cached.remove(uid).dom().contains(k));
                    assert(cached.dom().contains(k) && now_cached.remove(uid)[k] == cached[k]);
                }
            }
            lemma_insert_keeps_finite(cached, now_cached, uid);
        }
    }

    /// Whether no agent bears `uid`: neither the cache nor the table holds
    /// a record under it.
    fn uid_is_free(&self, uid: &str) -> (free: bool)
        requires
            self.wf(),
        ensures
            free == !knows(self.agents(), uid@),
    {
        let cached = agent_cache_peek(&self.agent_cache, uid).is_some();
        !cached && !self.db.contains_key(uid.as_bytes())
    }

    /// An identifier that no agent bears: the first of up to
    /// [`UID_ATTEMPTS`] fresh time-sortable identifiers that is free, or
    /// `None` where every one of them is taken. Where no agent bears an
    /// identifier of that shape, the first attempt is free and an identifier
    /// is returned.
    fn generate_unique_uid(&self) -> (r: Option<String>)
        requires
            self.wf(),
        ensures
            r matches Some(uid) ==> is_uid_text(uid@) && !knows(self.agents(), uid@),
            r is None ==> !no_uid_taken(self.agents()),
    {
        let mut attempt: usize = 0;
        while attempt < UID_ATTEMPTS
            invariant
                self.wf(),
                attempt <= UID_ATTEMPTS,
                no_uid_taken(self.agents()) ==> attempt == 0,
            decreases UID_ATTEMPTS - attempt,
        {
            let uid = time_sortable_uid();
            if self.uid_is_free(uid.as_str()) {
                return Some(uid);
            }
            attempt += 1;
        }
        None
    }

    /// Files a new agent.
    ///
    /// The agent keeps its identifier if it has one that no other agent
    /// bears. Otherwise it is given a fresh time-sortable identifier; should
    /// every one of a fixed number of fresh identifiers be taken, the call
    /// fails with `Conflict` and changes nothing. That cannot happen while
    /// no agent bears an identifier of that shape. The agent's short
    /// identifier is set to the first eight characters of its identifier.
    pub fn create_agent(&mut self, agent: &mut Agent) -> (r: Result<(), AppError>)
        requires
            old(self).wf(),
        ensures
            final(self).wf(),
            final(self).tokens() == old(self).tokens(),
            old(agent)@.uid.len() > 0 && !knows(old(self).agents(), old(agent)@.uid) ==> r is Ok
                && final(agent)@.uid == old(agent)@.uid,
            r is Ok ==> {
                &&& !knows(old(self).agents(), final(agent)@.uid)
                &&& final(agent)@.uid == old(agent)@.uid || is_uid_text(final(agent)@.uid)
                &&& final(agent)@ == filed_as(old(agent)@, final(agent)@.uid)
                &&& final(self).agents() == filed(
                    old(self).agents(),
                    agent_key(final(agent)@.uid),
                    final(agent)@,
                )
                &&& agent_of(final(self).agents(), final(agent)@.uid) == Some(final(agent)@)
            },
            r matches Err(e) ==> {
                &&& e is Conflict
                &&& final(self).agents() == old(self).agents()
                &&& final(agent)@ == old(agent)@
                &&& old(agent)@.uid.len() == 0 || knows(old(self).agents(), old(agent)@.uid)
                &&& !no_uid_taken(old(self).agents())
            },
    {
        let taken = agent.uid.as_str().is_empty() || self.db.contains_key(
            agent.uid.as_str().as_bytes(),
        );
        if taken {
            match self.generate_unique_uid() {
                Some(uid) => {
                    agent.uid = uid;
                },
                None => {
                    return Err(
                        AppError::Conflict("No free agent identifier could be found".to_owned()),
                    );
                },
            }
        }
        agent.uid_short = leading_chars(agent.uid.as_str(), SHORT_UID_LEN);
        self.put(agent.clone());
        Ok(())
    }

    /// The agent filed under `id`, if there is one. The cache is asked
    /// first; a record found only in the table is cached on the way.
    pub fn get_agent(&mut self, id: &str) -> (r: Option<Agent>)
        requires
            old(self).wf(),
        ensures
            final(self).wf(),
            final(self).agents() == old(self).agents(),
            final(self).tokens() == old(self).tokens(),
            opt_view(r) == agent_of(old(self).agents(), id@),
    {
        let ghost cached = agent_cache_contents(self.agent_cache);
        let hit = match agent_cache_get(&mut self.agent_cache, id) {
            Some(agent) => Some(agent.clone()),
            None => None,
        };
        proof {
            lemma_within_keeps_finite(cached, agent_cache_contents(self.agent_cache));
        }
        if hit.is_some() {
            return hit;
        }
        let found = match self.db.get(id.as_bytes()) {
            Some(agent) => Some(agent.clone()),
            None => None,
        };
        match found {
            Some(agent) => {
                let ghost before = agent_cache_contents(self.agent_cache);
                agent_cache_insert(&mut self.agent_cache, id.to_owned(), agent.clone());
                proof {
                    let now_cached = agent_cache_contents(self.agent_cache);
                    assert forall|k: Seq<char>| #[trigger]
                        now_cached.dom().contains(k) implies agent_of(self.agents(), k) == Some(
                        now_cached[k]@,
                    ) by {
                        if k != id@ {
                            assert(now_cached.remove(id@).dom().contains(k));
                            assert(before.dom().contains(k));
                            assert(cached.dom().contains(k));
                        }
                    }
                    lemma_insert_keeps_finite(before, now_cached, id@);
                }
                Some(agent)
            },
            None => None,
        }
    }

    /// Replaces the record of a known agent. Fails with `NotFound`, and
    /// changes nothing, exactly when no agent bears the identifier.
    pub fn update_agent(&mut self, agent: Agent) -> (r: Result<(), AppError>)
        requires
            old(self).wf(),
        ensures
            final(self).wf(),
            final(self).tokens() == old(self).tokens(),
            r is Ok <==> knows(old(self).agents(), agent@.uid),
            r is Ok ==> final(self).agents() == filed(
                old(self).agents(),
                agent_key(agent@.uid),
                agent@,
            ) && agent_of(final(self).agents(), agent@.uid) == Some(agent@),
            r matches Err(e) ==> e is NotFound && final(self).agents() == old(self).agents(),
    {
        if !self.db.contains_key(agent.uid.as_str().as_bytes()) {
            let mut text = "Agent ".to_owned();
            text.append(agent.uid.as_str());
            text.append(" not found");
            return Err(AppError::NotFound(text));
        }
        self.put(agent);
        Ok(())
    }

    /// Records that a known agent was heard from at `now` and returns its
    /// record as it is filed. Fails with `NotFound`, and changes nothing,
    /// exactly when no agent bears the identifier.
    pub fn update_agent_last_contact_at(&mut self, agent: Agent, now: i64) -> (r: Result<
        Agent,
        AppError,
    >)
        requires
            old(self).wf(),
        ensures
            final(self).wf(),
            final(self).tokens() == old(self).tokens(),
            r is Ok <==> knows(old(self).agents(), agent@.uid),
            r matches Ok(stamped) ==> stamped@ == agent@.contacted_at(now) && final(self).agents()
                == filed(old(self).agents(), agent_key(agent@.uid), stamped@) && agent_of(
                final(self).agents(),
                agent@.uid,
            ) == Some(stamped@),
            r matches Err(e) ==> e is NotFound && final(self).agents() == old(self).agents(),
    {
        let mut stamped = agent;
        stamped.last_contact = Some(now);
        match self.update_agent(stamped.clone()) {
            Ok(()) => Ok(stamped),
            Err(e) => Err(e),
        }
    }

    /// Records that a known agent was heard from just now; see
    /// [`CachedAgentStorage::update_agent_last_contact_at`].
    pub fn update_agent_last_contact(&mut self, agent: Agent) -> (r: Result<Agent, AppError>)
        requires
            old(self).wf(),
        ensures
            final(self).wf(),
            final(self).tokens() == old(self).tokens(),
            r is Ok <==> knows(old(self).agents(), agent@.uid),
            r matches Ok(stamped) ==> (exists|now: i64| stamped@ == agent@.contacted_at(now))
                && final(self).agents() == filed(
                old(self).agents(),
                agent_key(agent@.uid),
                stamped@,
            ) && agent_of(final(self).agents(), agent@.uid) == Some(stamped@),
            r matches Err(e) ==> e is NotFound && final(self).agents() == old(self).agents(),
    {
        let now: i64 = clock::now();
        let ghost given = agent@;
        let r = self.update_agent_last_contact_at(agent, now);
        proof {
            if r is Ok {
                assert(r->Ok_0@ == given.contacted_at(now));
            }
        }
        r
    }

    /// Removes the agent filed under `id`, from the table and from the
    /// cache. Where no agent is filed under `id`, nothing changes.
    pub fn delete_agent(&mut self, id: &str)
        requires
            old(self).wf(),
        ensures
            final(self).wf(),
            final(self).tokens() == old(self).tokens(),
            final(self).agents() == unfiled(old(self).agents(), agent_key(id@)),
            !knows(final(self).agents(), id@),
    {
        let ghost before = self.agents();
        let ghost cached = agent_cache_contents(self.agent_cache);
        proof {
            lemma_unfiled(before, agent_key(id@));
            lemma_unfiled_keeps_agents_keyed(before, agent_key(id@));
        }
        let _ = self.db.remove(id.as_bytes());
        agent_cache_remove(&mut self.agent_cache, id);
        proof {
            let now_cached = agent_cache_contents(self.agent_cache);
            assert forall|k: Seq<char>| #[trigger]
                now_cached.dom().contains(k) implies agent_of(self.agents(), k) == Some(
                now_cached[k]@,
            ) by {
                lemma_key_injective(id@, k);
                assert(cached.dom().contains(k));
            }
        }
    }

    /// All agents, in the order of their identifiers.
    pub fn list_all_agents(&self) -> (agents: Vec<Agent>)
        requires
            self.wf(),
        ensures
            views(agents@) == records(self.agents()),
    {
        let ghost all = self.agents();
        let mut agents: Vec<Agent> = Vec::new();
        let mut i: usize = 0;
        proof {
            assert(views(agents@) =~= Seq::empty());
            assert(records(all.take(0)) =~= Seq::empty());
        }
        while i < self.db.len()
            invariant
                all == self.agents(),
                i <= all.len(),
                views(agents@) == records(all.take(i as int)),
            decreases all.len() - i,
        {
            let agent = self.db.value_at(i).clone();
            proof {
                lemma_records_step(all, i as int);
                lemma_views_push(agents@, agent);
            }
            agents.push(agent);
            i += 1;
        }
        assert(all.take(i as int) =~= all);
        agents
    }

    /// Whether the registry remembers `token`. A token is remembered only if
    /// it was inserted and not removed since; one that was inserted may have
    /// been forgotten because its time ran out.
    pub fn has_token(&self, token: &str) -> (held: bool)
        ensures
            held ==> self.tokens().contains(token@),
    {
        token_cache_peek(&self.token_cache, token)
    }

    /// Remembers `token`. Tokens whose time ran out may be forgotten on the
    /// way; no other token is added.
    pub fn insert_token(&mut self, token: String)
        requires
            old(self).wf(),
        ensures
            final(self).wf(),
            final(self).agents() == old(self).agents(),
            final(self).tokens().contains(token@),
            final(self).tokens().subset_of(old(self).tokens().insert(token@)),
    {
        let ghost before = self.tokens();
        token_cache_insert(&mut self.token_cache, token);
        proof {
            vstd::set_lib::lemma_len_subset(self.tokens(), before.insert(token@));
        }
    }

    /// Forgets `token` and no other.
    pub fn remove_token(&mut self, token: &str)
        requires
            old(self).wf(),
        ensures
            final(self).wf(),
            final(self).agents() == old(self).agents(),
            final(self).tokens() == old(self).tokens().remove(token@),
    {
        token_cache_remove(&mut self.token_cache, token);
    }

    /// Drops from both caches the entries whose time ran out. The table of
    /// agents is not touched, and nothing is added to either cache: each
    /// cache afterwards holds only what it held before. Which entries have
    /// run out of time depends on the clock.
    pub fn cleanup_expired(&mut self)
        requires
            old(self).wf(),
        ensures
            final(self).wf(),
            final(self).agents() == old(self).agents(),
            final(self).tokens().subset_of(old(self).tokens()),
            final(self).cached_ids().subset_of(old(self).cached_ids()),
    {
        let ghost cached = agent_cache_contents(self.agent_cache);
        let ghost held = self.tokens();
        agent_cache_sweep(&mut self.agent_cache);
        token_cache_sweep(&mut self.token_cache);
        proof {
            let now_cached = agent_cache_contents(self.agent_cache);
            assert forall|k: Seq<char>| #[trigger]
                now_cached.dom().contains(k) implies agent_of(self.agents(), k) == Some(
                now_cached[k]@,
            ) by {
                assert(cached.dom().contains(k));
            }
            lemma_within_keeps_finite(cached, now_cached);
            vstd::set_lib::lemma_len_subset(self.tokens(), held);
        }
    }

    /// How many agent records and how many tokens the caches hold that have
    /// not expired: at most as many as each cache holds (finitely many, by
    /// [`CachedAgentStorage::lemma_caches_are_finite`]), and so none where
    /// it holds none. How many of the entries held have expired depends on
    /// the clock.
    pub fn get_cache_stats(&self) -> (stats: (usize, usize))
        ensures
            stats.0 <= self.cached_ids().len(),
            stats.1 <= self.tokens().len(),
    {
        (agent_cache_len(&self.agent_cache), token_cache_len(&self.token_cache))
    }
}

/// A cache that holds only what a finite cache held is finite.
proof fn lemma_within_keeps_finite(before: Map<Seq<char>, Agent>, after: Map<Seq<char>, Agent>)
    requires
        before.dom().finite(),
        cache_within(after, before),
    ensures
        after.dom().finite(),
{
    assert(after.dom().subset_of(before.dom()));
    vstd::set_lib::lemma_len_subset(after.dom(), before.dom());
}

/// A cache that holds one key more than a part of a finite cache is finite.
proof fn lemma_insert_keeps_finite(
    before: Map<Seq<char>, Agent>,
    after: Map<Seq<char>, Agent>,
    key: Seq<char>,
)
    requires
        before.dom().finite(),
        cache_within(after.remove(key), before),
    ensures
        after.dom().finite(),
{
    assert forall|k: Seq<char>| after.dom().contains(k) implies before.dom().insert(
        key,
    ).contains(k) by {
        if k != key {
            assert(after.remove(key).dom().contains(k));
        }
    }
    assert(after.dom().subset_of(before.dom().insert(key)));
    vstd::set_lib::lemma_len_subset(after.dom(), before.dom().insert(key));
}

/// Different identifiers have different keys.
pub proof fn lemma_key_injective(a: Seq<char>, b: Seq<char>)
    ensures
        agent_key(a) == agent_key(b) ==> a == b,
{
    encode_utf8_decode_utf8(a);
    encode_utf8_decode_utf8(b);
}

/// Filing an agent under its own key keeps every agent under its own key.
pub proof fn lemma_filed_keeps_agents_keyed(s: Seq<(Seq<u8>, AgentView)>, agent: AgentView)
    requires
        ascending(s),
        agents_keyed(s),
    ensures
        agents_keyed(filed(s, agent_key(agent.uid), agent)),
{
    let key = agent_key(agent.uid);
    let t = filed(s, key, agent);
    if has_key(s, key) {
        let p = position_of(s, key);
        assert forall|i: int| 0 <= i < t.len() implies (#[trigger] t[i]).0 == agent_key(
            t[i].1.uid,
        ) by {
            if i != p {
                assert(t[i] == s[i]);
            }
        }
    } else {
        let p = crate::db::tree::place_of(s, key);
        crate::db::tree::lemma_place_of(s, key);
        assert forall|i: int| 0 <= i < t.len() implies (#[trigger] t[i]).0 == agent_key(
            t[i].1.uid,
        ) by {
            if i < p {
                assert(t[i] == s[i]);
            } else if i > p {
                assert(t[i] == s[i - 1]);
            } else {
                assert(t[i] == (key, agent));
            }
        }
    }
}

/// Taking an agent out keeps every remaining agent under its own key.
pub proof fn lemma_unfiled_keeps_agents_keyed(s: Seq<(Seq<u8>, AgentView)>, key: Seq<u8>)
    requires
        agents_keyed(s),
    ensures
        agents_keyed(unfiled(s, key)),
{
    let t = unfiled(s, key);
    if has_key(s, key) {
        let p = position_of(s, key);
        assert forall|i: int| 0 <= i < t.len() implies (#[trigger] t[i]).0 == agent_key(
            t[i].1.uid,
        ) by {
            if i < p {
                assert(t[i] == s[i]);
            } else {
                assert(t[i] == s[i + 1]);
            }
        }
    }
}

} // verus!
