//! The broker's start-up settings and how they are read from text.

use vstd::prelude::*;
use vstd::string::*;

use crate::error::AppError;
use crate::schema::texts;

verus! {

/// The settings the broker starts with.
#[derive(Debug, PartialEq)]
pub struct AppConfig {
    /// The secret that session tokens are signed with.
    pub jwt_secret: String,
    /// The directory under which the broker keeps its records.
    pub database_root_path: String,
    /// The keys that entitle an agent to register.
    pub agent_api_keys: Vec<String>,
    /// The client keys that come with the configuration.
    pub client_api_keys: Vec<String>,
    /// The address to listen on.
    pub host: String,
    /// The port to listen on.
    pub port: u16,
    /// The token that opens the management endpoints, if one is set.
    pub management_token: Option<String>,
}

impl Clone for AppConfig {
    fn clone(&self) -> (r: Self)
        ensures
            r.jwt_secret@ == self.jwt_secret@,
            r.database_root_path@ == self.database_root_path@,
            texts(r.agent_api_keys@) == texts(self.agent_api_keys@),
            texts(r.client_api_keys@) == texts(self.client_api_keys@),
            r.host@ == self.host@,
            r.port == self.port,
            r.management_token == self.management_token,
    {
        AppConfig {
            jwt_secret: self.jwt_secret.clone(),
            database_root_path: self.database_root_path.clone(),
            agent_api_keys: crate::models::clone_texts(&self.agent_api_keys),
            client_api_keys: crate::models::clone_texts(&self.client_api_keys),
            host: self.host.clone(),
            port: self.port,
            management_token: self.management_token.clone(),
        }
    }
}

/// The signing secret used where none is configured.
pub open spec fn default_jwt_secret() -> Seq<char> {
    "default_jwt_secret_change_in_production"@
}

/// The records directory used where none is configured.
pub open spec fn default_database_root_path() -> Seq<char> {
    "./data"@
}

/// The address used where none is configured.
pub open spec fn default_host() -> Seq<char> {
    "0.0.0.0"@
}

/// The port used where none is configured.
pub const DEFAULT_PORT: u16 = 3069;

/// The keys read so far, followed by the run of characters in progress if
/// it is not empty.
pub open spec fn closed(current: Seq<char>) -> Seq<Seq<char>> {
    if current.len() > 0 {
        seq![current]
    } else {
        Seq::empty()
    }
}

/// The keys in `text`, which follows the run `current` that is in progress:
/// a colon ends the run, any other character extends it, and empty runs are
/// dropped.
pub open spec fn key_runs(text: Seq<char>, current: Seq<char>) -> Seq<Seq<char>>
    decreases text.len(),
{
    if text.len() == 0 {
        closed(current)
    } else if text[0] == ':' {
        closed(current) + key_runs(text.drop_first(), Seq::empty())
    } else {
        key_runs(text.drop_first(), current.push(text[0]))
    }
}

/// The keys in a colon-separated list: its non-empty parts between colons,
/// in order.
pub open spec fn key_list(text: Seq<char>) -> Seq<Seq<char>> {
    key_runs(text, Seq::empty())
}

/// Splits a colon-separated list of keys.
pub fn split_keys(text: &str) -> (keys: Vec<String>)
    ensures
        texts(keys@) == key_list(text@),
{
    let chars = crate::utils::chars_of(text);
    let mut keys: Vec<String> = Vec::new();
    let mut current = String::new();
    let mut i: usize = 0;
    proof {
        assert(chars@.skip(0) =~= chars@);
        assert(texts(keys@) =~= Seq::empty());
        assert(Seq::<Seq<char>>::empty() + key_runs(chars@, Seq::empty()) =~= key_runs(
            chars@,
            Seq::empty(),
        ));
    }
    while i < chars.len()
        invariant
            i <= chars@.len(),
            chars@ == text@,
            key_list(text@) == texts(keys@) + key_runs(chars@.skip(i as int), current@),
        decreases chars@.len() - i,
    {
        let c = chars[i];
        let ghost rest = chars@.skip(i as int);
        let ghost done = texts(keys@);
        proof {
            assert(rest[0] == c);
            assert(rest.drop_first() =~= chars@.skip(i + 1));
        }
        if c == ':' {
            if current.as_str().unicode_len() > 0 {
                let ghost run = current@;
                keys.push(current);
                current = String::new();
                proof {
                    assert(texts(keys@) =~= done.push(run));
                    assert(done + (seq![run] + key_runs(chars@.skip(i + 1), Seq::empty()))
                        =~= done.push(run) + key_runs(chars@.skip(i + 1), Seq::empty()));
                }
            } else {
                proof {
                    assert(current@ =~= Seq::empty());
                    assert(Seq::<Seq<char>>::empty() + key_runs(chars@.skip(i + 1), Seq::empty())
                        =~= key_runs(chars@.skip(i + 1), Seq::empty()));
                }
            }
        } else {
            current.push(c);
        }
        i += 1;
    }
    proof {
        assert(chars@.skip(i as int).len() == 0);
    }
    let ghost done = texts(keys@);
    if current.as_str().unicode_len() > 0 {
        let ghost run = current@;
        keys.push(current);
        proof {
            assert(texts(keys@) =~= done + seq![run]);
        }
    } else {
        proof {
            assert(done + Seq::<Seq<char>>::empty() =~= done);
        }
    }
    keys
}

/// The value of a decimal digit.
pub open spec fn digit_value(c: char) -> Option<nat> {
    if '0' <= c <= '9' {
        Some((c as u32 - '0' as u32) as nat)
    } else {
        None
    }
}

/// The number that a run of decimal digits writes; `None` where a character
/// is not a digit. The empty run writes 0.
pub open spec fn decimal_value(digits: Seq<char>) -> Option<nat>
    decreases digits.len(),
{
    if digits.len() == 0 {
        Some(0)
    } else {
        match (decimal_value(digits.drop_last()), digit_value(digits.last())) {
            (Some(high), Some(low)) => Some(high * 10 + low),
            _ => None,
        }
    }
}

/// The port that `text` writes: at least one decimal digit after an optional
/// plus sign, with a value of at most 65535.
pub open spec fn port_value(text: Seq<char>) -> Option<u16> {
    let digits = if text.len() > 0 && text[0] == '+' {
        text.drop_first()
    } else {
        text
    };
    if digits.len() == 0 {
        None
    } else {
        match decimal_value(digits) {
            Some(value) => if value <= 65535 {
                Some(value as u16)
            } else {
                None
            },
            None => None,
        }
    }
}

/// Once a run of digits has passed 65535, no longer run that it begins
/// comes back below.
pub proof fn lemma_decimal_value_grows(digits: Seq<char>, n: int)
    requires
        0 <= n <= digits.len(),
        decimal_value(digits) is Some,
    ensures
        decimal_value(digits.take(n)) is Some,
        decimal_value(digits.take(n))->0 <= decimal_value(digits)->0,
    decreases digits.len() - n,
{
    if n == digits.len() {
        assert(digits.take(n) =~= digits);
    } else {
        assert(digits.drop_last().take(n) =~= digits.take(n));
        lemma_decimal_value_grows(digits.drop_last(), n);
    }
}

/// Reads a port number.
pub fn parse_port(text: &str) -> (port: Option<u16>)
    ensures
        port == port_value(text@),
{
    let chars = crate::utils::chars_of(text);
    let start: usize = if chars.len() > 0 && chars[0] == '+' {
        1
    } else {
        0
    };
    if chars.len() == start {
        return None;
    }
    let ghost digits = chars@.skip(start as int);
    proof {
        if start == 1 {
            assert(chars@.drop_first() =~= digits);
        } else {
            assert(chars@ =~= digits);
        }
        assert(digits.take(0) =~= Seq::empty());
    }
    let mut value: u32 = 0;
    let mut i: usize = start;
    while i < chars.len()
        invariant
            start <= i <= chars@.len(),
            chars@ == text@,
            digits == chars@.skip(start as int),
            digits == if text@.len() > 0 && text@[0] == '+' {
                text@.drop_first()
            } else {
                text@
            },
            digits.len() > 0,
            decimal_value(digits.take(i - start)) == Some(value as nat),
            value <= 65535,
        decreases chars@.len() - i,
    {
        let c = chars[i];
        proof {
            let upto = digits.take(i - start + 1);
            assert(upto.drop_last() =~= digits.take(i - start));
            assert(upto.last() == c);
        }
        if !('0' <= c && c <= '9') {
            proof {
                if decimal_value(digits) is Some {
                    lemma_decimal_value_grows(digits, i - start + 1);
                }
            }
            return None;
        }
        let low: u32 = c as u32 - '0' as u32;
        value = value * 10 + low;
        if value > 65535 {
            proof {
                if decimal_value(digits) is Some {
                    lemma_decimal_value_grows(digits, i - start + 1);
                }
            }
            return None;
        }
        i += 1;
    }
    proof {
        assert(digits.take(i - start) =~= digits);
    }
    Some(value as u16)
}

impl AppConfig {
    /// The settings that the values of the environment's variables stand
    /// for, each given as it was found there, or `None` where it is not set.
    ///
    /// A value that is not set is replaced by its default; the two lists of
    /// keys are split at colons. Fails with `Parse` exactly when a port is
    /// set and does not read as a port number.
    pub fn from_env(
        jwt_secret: Option<String>,
        database_root_path: Option<String>,
        agent_api_keys: Option<String>,
        client_api_keys: Option<String>,
        host: Option<String>,
        port: Option<String>,
        management_token: Option<String>,
    ) -> (r: Result<AppConfig, AppError>)
        ensures
            r is Err <==> (port matches Some(text) && port_value(text@) is None),
            r matches Err(e) ==> e is Parse,
            r matches Ok(config) ==> {
                &&& config.jwt_secret@ == match jwt_secret {
                    Some(s) => s@,
                    None => default_jwt_secret(),
                }
                &&& config.database_root_path@ == match database_root_path {
                    Some(s) => s@,
                    None => default_database_root_path(),
                }
                &&& texts(config.agent_api_keys@) == match agent_api_keys {
                    Some(s) => key_list(s@),
                    None => Seq::empty(),
                }
                &&& texts(config.client_api_keys@) == match client_api_keys {
                    Some(s) => key_list(s@),
                    None => Seq::empty(),
                }
                &&& config.host@ == match host {
                    Some(s) => s@,
                    None => default_host(),
                }
                &&& config.port == match port {
                    Some(text) => port_value(text@)->0,
                    None => DEFAULT_PORT,
                }
                &&& config.management_token == management_token
            },
    {
        let port_number: u16 = match &port {
            Some(text) => match parse_port(text.as_str()) {
                Some(number) => number,
                None => {
                    let mut message = "Invalid port: ".to_owned();
                    message.append(text.as_str());
                    return Err(AppError::Parse(message));
                },
            },
            None => DEFAULT_PORT,
        };
        let agent_keys = match &agent_api_keys {
            Some(list) => split_keys(list.as_str()),
            None => Vec::new(),
        };
        let client_keys = match &client_api_keys {
            Some(list) => split_keys(list.as_str()),
            None => Vec::new(),
        };
        proof {
            assert(texts(Seq::<String>::empty()) =~= Seq::empty());
        }
        Ok(
            AppConfig {
                jwt_secret: match jwt_secret {
                    Some(s) => s,
                    None => "default_jwt_secret_change_in_production".to_owned(),
                },
                database_root_path: match database_root_path {
                    Some(s) => s,
                    None => "./data".to_owned(),
                },
                agent_api_keys: agent_keys,
                client_api_keys: client_keys,
                host: match host {
                    Some(s) => s,
                    None => "0.0.0.0".to_owned(),
                },
                port: port_number,
                management_token,
            },
        )
    }
}

} // verus!
