//! Who is calling: what the broker decides before a request reaches an
//! endpoint.

use vstd::prelude::*;
use vstd::string::*;

use crate::config::AppConfig;
use crate::db::agent::agent_of;
use crate::error::AppError;
use crate::models::{contains_text, Agent};
use crate::schema::texts;
use crate::state::AppState;
use crate::utils::chars_of;

verus! {

/// The identifier of the agent that a session token names.
#[derive(Debug, PartialEq)]
pub struct AuthenticatedAgentId(pub String);

impl Clone for AuthenticatedAgentId {
    fn clone(&self) -> (r: Self)
        ensures
            r == *self,
    {
        AuthenticatedAgentId(self.0.clone())
    }
}

/// The registered agent on whose behalf a request is made.
#[derive(Debug, PartialEq)]
pub struct AuthenticatedAgent(pub Agent);

/// The word that opens the value of an authorization header.
pub open spec fn bearer_prefix() -> Seq<char> {
    seq!['B', 'e', 'a', 'r', 'e', 'r', ' ']
}

/// The token in the value of an authorization header: what follows the
/// prefix `Bearer `, where the value begins with it.
pub open spec fn bearer_of(header: Seq<char>) -> Option<Seq<char>> {
    if bearer_prefix().is_prefix_of(header) {
        Some(header.skip(7))
    } else {
        None
    }
}

/// The token in the value of an authorization header.
pub fn bearer_token(header: &str) -> (token: Option<String>)
    ensures
        match bearer_of(header@) {
            Some(t) => token matches Some(s) && s@ == t,
            None => token is None,
        },
{
    let chars = chars_of(header);
    let prefix: [char; 7] = ['B', 'e', 'a', 'r', 'e', 'r', ' '];
    if chars.len() < 7 {
        return None;
    }
    let mut i: usize = 0;
    while i < 7
        invariant
            i <= 7,
            chars@ == header@,
            chars@.len() >= 7,
            prefix@ == bearer_prefix(),
            forall|j: int| 0 <= j < i ==> chars@[j] == bearer_prefix()[j],
        decreases 7 - i,
    {
        if chars[i] != prefix[i] {
            assert(chars@.subrange(0, 7)[i as int] != bearer_prefix()[i as int]);
            return None;
        }
        i += 1;
    }
    assert(bearer_prefix() =~= chars@.subrange(0, 7));
    let mut token = String::new();
    let mut k: usize = 7;
    while k < chars.len()
        invariant
            7 <= k <= chars@.len(),
            token@ == chars@.subrange(7, k as int),
        decreases chars@.len() - k,
    {
        token.push(chars[k]);
        assert(chars@.subrange(7, k + 1) =~= chars@.subrange(7, k as int).push(chars@[k as int]));
        k += 1;
    }
    assert(chars@.subrange(7, k as int) =~= chars@.skip(7));
    Some(token)
}

/// Whether a path is open to callers without a session: registration and
/// login.
pub fn is_open_path(path: &str) -> (open: bool)
    ensures
        open == (path@ == "/register"@ || path@ == "/login"@),
{
    path.eq("/register") || path.eq("/login")
}

/// Admits the agent that a session token names. Succeeds, with the agent's
/// record, exactly when an agent is registered under `agent_id`; fails with
/// `Authorization` otherwise. No record changes.
pub fn authenticate_agent(app_state: &mut AppState, agent_id: &str) -> (r: Result<
    AuthenticatedAgent,
    AppError,
>)
    requires
        old(app_state).wf(),
    ensures
        final(app_state).wf(),
        final(app_state).urgent.entries() == old(app_state).urgent.entries(),
        final(app_state).storage.tasks == old(app_state).storage.tasks,
        final(app_state).storage.client_keys == old(app_state).storage.client_keys,
        final(app_state).storage.agents.agents() == old(app_state).storage.agents.agents(),
        match agent_of(old(app_state).storage.agents.agents(), agent_id@) {
            Some(agent) => r matches Ok(admitted) && admitted.0@ == agent,
            None => r matches Err(e) && e is Authorization,
        },
{
    match app_state.storage.get_agent(agent_id) {
        Some(agent) => Ok(AuthenticatedAgent(agent)),
        None => Err(AppError::Authorization("Agent not found".to_owned())),
    }
}

/// Admits a client by the key in its request. Succeeds exactly when the key
/// is one of the client keys that come with the configuration; fails with
/// `Authorization` otherwise.
pub fn authorize_client(config: &AppConfig, api_key: &str) -> (r: Result<(), AppError>)
    ensures
        r is Ok <==> texts(config.client_api_keys@).contains(api_key@),
        r matches Err(e) ==> e is Authorization,
{
    if contains_text(&config.client_api_keys, api_key) {
        Ok(())
    } else {
        Err(AppError::Authorization("Unauthorized".to_owned()))
    }
}

} // verus!
