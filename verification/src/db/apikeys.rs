//! The registry of client keys: the keys in force, the keys withdrawn, and
//! the rule by which a key's capability patterns admit a capability.

use vstd::prelude::*;
use vstd::string::*;
use vstd::utf8::{encode_utf8, encode_utf8_decode_utf8};

use crate::clock;
use crate::db::tree::{
    ascending, filed, filed_all, lemma_filed, lemma_records_step, lemma_unfiled, lemma_views_push,
    opt_view, record_at, records, unfiled, views, Tree,
};
use crate::error::AppError;
use crate::models::{ClientApiKey, ClientApiKeyView};
use crate::schema::texts;
use crate::utils::chars_of;

verus! {

/// Whether one capability pattern admits `cap`: the pattern is `*`, or it
/// ends in `*` and `cap` begins with what precedes the `*`, or it is `cap`
/// itself.
pub open spec fn pattern_admits(pattern: Seq<char>, cap: Seq<char>) -> bool {
    ||| pattern == seq!['*']
    ||| (pattern.len() > 0 && pattern.last() == '*' && pattern.drop_last().is_prefix_of(cap))
    ||| pattern == cap
}

/// Whether some pattern of `patterns` admits `cap`.
pub open spec fn admits(patterns: Seq<Seq<char>>, cap: Seq<char>) -> bool {
    exists|i: int| 0 <= i < patterns.len() && pattern_admits(#[trigger] patterns[i], cap)
}

/// A key that holds the pattern `*` admits every capability.
pub proof fn lemma_star_admits_everything(patterns: Seq<Seq<char>>, cap: Seq<char>)
    requires
        patterns.contains(seq!['*']),
    ensures
        admits(patterns, cap),
{
    let i = choose|i: int| 0 <= i < patterns.len() && patterns[i] == seq!['*'];
    assert(pattern_admits(patterns[i], cap));
}

/// A key whose only pattern is a plain capability admits that capability and
/// no other.
pub proof fn lemma_plain_pattern_is_exact(pattern: Seq<char>, cap: Seq<char>)
    requires
        pattern.len() == 0 || pattern.last() != '*',
    ensures
        admits(seq![pattern], cap) <==> pattern == cap,
{
    if pattern == cap {
        assert(pattern_admits(seq![pattern][0], cap));
    }
}

/// A key whose only pattern is a prefix followed by `*` admits exactly the
/// capabilities that begin with the prefix.
pub proof fn lemma_prefix_pattern(prefix: Seq<char>, cap: Seq<char>)
    ensures
        admits(seq![prefix.push('*')], cap) <==> prefix.is_prefix_of(cap),
{
    let pattern = prefix.push('*');
    assert(pattern.drop_last() =~= prefix);
    assert(pattern.last() == '*');
    if prefix.is_prefix_of(cap) {
        assert(pattern_admits(seq![pattern][0], cap));
    }
    if admits(seq![pattern], cap) {
        if pattern == seq!['*'] {
            assert(prefix =~= Seq::empty());
        }
        if pattern == cap {
            assert(cap.subrange(0, prefix.len() as int) =~= prefix);
        }
    }
}

fn same_chars(a: &Vec<char>, b: &Vec<char>) -> (r: bool)
    ensures
        r == (a@ == b@),
{
    if a.len() != b.len() {
        return false;
    }
    let mut i: usize = 0;
    while i < a.len()
        invariant
            i <= a@.len(),
            a@.len() == b@.len(),
            forall|j: int| 0 <= j < i ==> a@[j] == b@[j],
        decreases a@.len() - i,
    {
        if a[i] != b[i] {
            return false;
        }
        i += 1;
    }
    assert(a@ =~= b@);
    true
}

fn begins_with(text: &Vec<char>, prefix: &Vec<char>, n: usize) -> (r: bool)
    requires
        n <= prefix@.len(),
    ensures
        r == prefix@.take(n as int).is_prefix_of(text@),
{
    if n > text.len() {
        return false;
    }
    let mut i: usize = 0;
    while i < n
        invariant
            i <= n,
            n <= prefix@.len(),
            n <= text@.len(),
            forall|j: int| 0 <= j < i ==> prefix@[j] == text@[j],
        decreases n - i,
    {
        if prefix[i] != text[i] {
            assert(text@.subrange(0, n as int)[i as int] != prefix@.take(n as int)[i as int]);
            return false;
        }
        i += 1;
    }
    assert(prefix@.take(n as int) =~= text@.subrange(0, n as int));
    true
}

fn pattern_admits_chars(pattern: &Vec<char>, cap: &Vec<char>) -> (r: bool)
    ensures
        r == pattern_admits(pattern@, cap@),
{
    let n = pattern.len();
    if n == 1 && pattern[0] == '*' {
        assert(pattern@ =~= seq!['*']);
        return true;
    }
    if n > 0 && pattern[n - 1] == '*' {
        assert(pattern@.drop_last() =~= pattern@.take(n - 1));
        if begins_with(cap, pattern, n - 1) {
            return true;
        }
    }
    same_chars(pattern, cap)
}

/// The key a client key is filed under: its identifier as UTF-8.
pub open spec fn client_key(id: Seq<char>) -> Seq<u8> {
    encode_utf8(id)
}

/// The record of a key that comes with the broker's configuration: entitled
/// to everything, in force, created at `now`.
pub open spec fn predefined(key: Seq<char>, now: i64) -> ClientApiKeyView {
    ClientApiKeyView {
        key,
        capabilities: seq![seq!['*']],
        is_predefined: true,
        created: now,
        is_revoked: false,
    }
}

/// Whether the key filed under `key` in `s` entitles to `cap`: it is filed,
/// not revoked, and one of its patterns admits `cap`.
pub open spec fn entitles(s: Seq<(Seq<u8>, ClientApiKeyView)>, key: Seq<char>, cap: Seq<char>) -> bool {
    record_at(s, client_key(key)) matches Some(k) && !k.is_revoked && admits(k.capabilities, cap)
}

/// Whether a key is filed under `key` in `s` and is not revoked.
pub open spec fn in_force(s: Seq<(Seq<u8>, ClientApiKeyView)>, key: Seq<char>) -> bool {
    record_at(s, client_key(key)) matches Some(k) && !k.is_revoked
}

/// Whether each of `keys` is filed in `s` as a key that comes with the
/// configuration, created at `now`.
pub open spec fn seeded(s: Seq<(Seq<u8>, ClientApiKeyView)>, keys: Seq<Seq<char>>, now: i64) -> bool {
    forall|i: int|
        0 <= i < keys.len() ==> record_at(s, client_key(#[trigger] keys[i])) == Some(
            predefined(keys[i], now),
        )
}

/// Client keys, each with the key it is filed under.
pub open spec fn keyed_keys(records: Seq<(String, ClientApiKey)>) -> Seq<
    (Seq<u8>, ClientApiKeyView),
> {
    Seq::new(records.len(), |i: int| (client_key(records[i].0@), records[i].1@))
}

/// The registry of client keys.
pub struct ApiKeysStorage {
    active: Tree<ClientApiKey>,
    archived: Tree<ClientApiKey>,
}

impl ApiKeysStorage {
    /// The keys in force, with the keys they are filed under, in key order.
    pub closed spec fn active(&self) -> Seq<(Seq<u8>, ClientApiKeyView)> {
        self.active.entries()
    }

    /// The keys withdrawn, with the keys they are filed under, in key order.
    pub closed spec fn archived(&self) -> Seq<(Seq<u8>, ClientApiKeyView)> {
        self.archived.entries()
    }

    /// The registry's invariant: both tables are in strictly ascending key
    /// order.
    pub open spec fn wf(&self) -> bool {
        &&& ascending(self.active())
        &&& ascending(self.archived())
    }

    /// An empty registry.
    pub fn new() -> (registry: Self)
        ensures
            registry.wf(),
            registry.active().len() == 0,
            registry.archived().len() == 0,
    {
        ApiKeysStorage { active: Tree::new(), archived: Tree::new() }
    }

    /// A registry over the records that were kept: each key is filed under
    /// the identifier it comes with, in the table it is given for. Of two
    /// keys under one identifier in one table the later one stays.
    pub fn open(
        active: Vec<(String, ClientApiKey)>,
        archived: Vec<(String, ClientApiKey)>,
    ) -> (registry: Self)
        ensures
            registry.wf(),
            registry.active() == filed_all(Seq::empty(), keyed_keys(active@)),
            registry.archived() == filed_all(Seq::empty(), keyed_keys(archived@)),
    {
        let mut registry = Self::new();
        let mut i: usize = 0;
        proof {
            assert(registry.active() =~= Seq::empty());
            assert(registry.archived() =~= Seq::empty());
            assert(keyed_keys(active@).take(0) =~= Seq::empty());
        }
        while i < active.len()
            invariant
                i <= active@.len(),
                registry.wf(),
                registry.archived() == Seq::<(Seq<u8>, ClientApiKeyView)>::empty(),
                registry.active() == filed_all(Seq::empty(), keyed_keys(active@).take(i as int)),
            decreases active@.len() - i,
        {
            proof {
                let upto = keyed_keys(active@).take(i + 1);
                assert(upto.drop_last() =~= keyed_keys(active@).take(i as int));
            }
            let record = &active[i];
            registry.upsert_key(record.0.as_str(), &record.1);
            i += 1;
        }
        assert(keyed_keys(active@).take(i as int) =~= keyed_keys(active@));
        let mut k: usize = 0;
        proof {
            assert(keyed_keys(archived@).take(0) =~= Seq::empty());
        }
        while k < archived.len()
            invariant
                k <= archived@.len(),
                registry.wf(),
                registry.active() == filed_all(Seq::empty(), keyed_keys(active@)),
                registry.archived() == filed_all(
                    Seq::empty(),
                    keyed_keys(archived@).take(k as int),
                ),
            decreases archived@.len() - k,
        {
            let record = &archived[k];
            proof {
                let upto = keyed_keys(archived@).take(k + 1);
                assert(upto.drop_last() =~= keyed_keys(archived@).take(k as int));
                lemma_filed(registry.archived(), client_key(record.0@), record.1@);
            }
            let _ = registry.archived.insert(record.0.as_str().as_bytes_vec(), record.1.clone());
            k += 1;
        }
        assert(keyed_keys(archived@).take(k as int) =~= keyed_keys(archived@));
        registry
    }

    /// The key in force that is filed under `id`, if there is one.
    pub fn find_active(&self, id: &str) -> (r: Option<ClientApiKey>)
        requires
            self.wf(),
        ensures
            opt_view(r) == record_at(self.active(), client_key(id@)),
    {
        match self.active.get(id.as_bytes()) {
            Some(key) => Some(key.clone()),
            None => None,
        }
    }

    /// Checks that `key` entitles to `cap`. Succeeds exactly when a key is in
    /// force under `key`, is not revoked, and one of its patterns admits
    /// `cap`; fails with `Authorization` otherwise.
    pub fn verify_key(&self, key: &str, cap: &str) -> (r: Result<(), AppError>)
        requires
            self.wf(),
        ensures
            r is Ok <==> entitles(self.active(), key@, cap@),
            r matches Err(e) ==> e is Authorization,
    {
        match self.active.get(key.as_bytes()) {
            Some(record) => {
                if !record.is_revoked && Self::has_capability(&record.capabilities, cap) {
                    return Ok(());
                }
            },
            None => {},
        }
        Err(AppError::Authorization("API key invalid".to_owned()))
    }

    /// Whether a key is in force under `key` and is not revoked.
    pub fn is_key_real_not_revoked(&self, key: &str) -> (r: bool)
        requires
            self.wf(),
        ensures
            r == in_force(self.active(), key@),
    {
        match self.active.get(key.as_bytes()) {
            Some(record) => !record.is_revoked,
            None => false,
        }
    }

    /// All keys in force, in the order of the keys they are filed under.
    pub fn list_all(&self) -> (keys: Vec<ClientApiKey>)
        requires
            self.wf(),
        ensures
            views(keys@) == records(self.active()),
    {
        let ghost all = self.active();
        let mut keys: Vec<ClientApiKey> = Vec::new();
        let mut i: usize = 0;
        proof {
            assert(views(keys@) =~= Seq::empty());
            assert(records(all.take(0)) =~= Seq::empty());
        }
        while i < self.active.len()
            invariant
                all == self.active(),
                i <= all.len(),
                views(keys@) == records(all.take(i as int)),
            decreases all.len() - i,
        {
            let key = self.active.value_at(i).clone();
            proof {
                lemma_records_step(all, i as int);
                lemma_views_push(keys@, key);
            }
            keys.push(key);
            i += 1;
        }
        assert(all.take(i as int) =~= all);
        keys
    }

    /// Whether a key with the patterns `key_capabilities` is entitled to
    /// `required_cap`.
    pub fn has_capability(key_capabilities: &Vec<String>, required_cap: &str) -> (r: bool)
        ensures
            r == admits(texts(key_capabilities@), required_cap@),
    {
        let cap = chars_of(required_cap);
        let mut i: usize = 0;
        while i < key_capabilities.len()
            invariant
                i <= key_capabilities@.len(),
                cap@ == required_cap@,
                forall|j: int|
                    0 <= j < i ==> !pattern_admits(
                        #[trigger] texts(key_capabilities@)[j],
                        required_cap@,
                    ),
            decreases key_capabilities@.len() - i,
        {
            let pattern = chars_of(key_capabilities[i].as_str());
            assert(pattern@ == texts(key_capabilities@)[i as int]);
            if pattern_admits_chars(&pattern, &cap) {
                return true;
            }
            i += 1;
        }
        false
    }

    /// Files `key` under `id` among the keys in force, in place of the key
    /// that was filed there, if any.
    pub fn upsert_key(&mut self, id: &str, key: &ClientApiKey)
        requires
            old(self).wf(),
        ensures
            final(self).wf(),
            final(self).active() == filed(old(self).active(), client_key(id@), key@),
            final(self).archived() == old(self).archived(),
            record_at(final(self).active(), client_key(id@)) == Some(key@),
    {
        proof {
            lemma_filed(self.active(), client_key(id@), key@);
        }
        let _ = self.active.insert(id.as_bytes_vec(), key.clone());
    }

    /// Files a changed key under `id`. A key that is revoked leaves the keys
    /// in force and is filed among the withdrawn ones; any other key is filed
    /// among the keys in force.
    pub fn update_key(&mut self, id: &str, key: &ClientApiKey)
        requires
            old(self).wf(),
        ensures
            final(self).wf(),
            key@.is_revoked ==> {
                &&& final(self).archived() == filed(old(self).archived(), client_key(id@), key@)
                &&& final(self).active() == unfiled(old(self).active(), client_key(id@))
                &&& record_at(final(self).active(), client_key(id@)) is None
                &&& record_at(final(self).archived(), client_key(id@)) == Some(key@)
            },
            !key@.is_revoked ==> {
                &&& final(self).active() == filed(old(self).active(), client_key(id@), key@)
                &&& final(self).archived() == old(self).archived()
                &&& record_at(final(self).active(), client_key(id@)) == Some(key@)
            },
    {
        proof {
            lemma_filed(self.active(), client_key(id@), key@);
            lemma_filed(self.archived(), client_key(id@), key@);
            lemma_unfiled(self.active(), client_key(id@));
        }
        if key.is_revoked {
            let _ = self.archived.insert(id.as_bytes_vec(), key.clone());
            let _ = self.active.remove(id.as_bytes());
        } else {
            let _ = self.active.insert(id.as_bytes_vec(), key.clone());
        }
    }

    /// Files each of `keys` as a key that comes with the configuration,
    /// created at `now`: entitled to everything and in force. Afterwards
    /// every one of them entitles to every capability.
    pub fn initialize_from_list_at(&mut self, keys: &Vec<String>, now: i64)
        requires
            old(self).wf(),
        ensures
            final(self).wf(),
            final(self).archived() == old(self).archived(),
            seeded(final(self).active(), texts(keys@), now),
            forall|id: Seq<char>|
                !texts(keys@).contains(id) ==> record_at(final(self).active(), client_key(id))
                    == record_at(old(self).active(), client_key(id)),
    {
        let mut i: usize = 0;
        while i < keys.len()
            invariant
                i <= keys@.len(),
                self.wf(),
                self.archived() == old(self).archived(),
                forall|j: int|
                    0 <= j < i ==> record_at(self.active(), client_key(#[trigger] texts(keys@)[j]))
                        == Some(predefined(texts(keys@)[j], now)),
                forall|id: Seq<char>|
                    !texts(keys@).take(i as int).contains(id) ==> record_at(
                        self.active(),
                        client_key(id),
                    ) == record_at(old(self).active(), client_key(id)),
            decreases keys@.len() - i,
        {
            let ghost before = self.active();
            let mut patterns: Vec<String> = Vec::new();
            patterns.push("*".to_owned());
            let record = ClientApiKey {
                key: keys[i].clone(),
                capabilities: patterns,
                is_predefined: true,
                created: now,
                is_revoked: false,
            };
            proof {
                reveal_strlit("*");
                assert("*"@ =~= seq!['*']);
                assert(record.capabilities@.len() == 1);
                assert(texts(record.capabilities@)[0] == seq!['*']);
                assert(texts(record.capabilities@) =~= seq![seq!['*']]);
                assert(record@ == predefined(texts(keys@)[i as int], now));
                lemma_filed(before, client_key(texts(keys@)[i as int]), record@);
            }
            self.upsert_key(keys[i].as_str(), &record);
            proof {
                let this = texts(keys@)[i as int];
                assert forall|j: int| 0 <= j < i + 1 implies record_at(
                    self.active(),
                    client_key(#[trigger] texts(keys@)[j]),
                ) == Some(predefined(texts(keys@)[j], now)) by {
                    lemma_client_key_injective(this, texts(keys@)[j]);
                }
                assert forall|id: Seq<char>|
                    !texts(keys@).take(i + 1).contains(id) implies record_at(
                    self.active(),
                    client_key(id),
                ) == record_at(old(self).active(), client_key(id)) by {
                    lemma_client_key_injective(this, id);
                    assert(texts(keys@).take(i + 1)[i as int] == this);
                    if texts(keys@).take(i as int).contains(id) {
                        let j = choose|j: int|
                            0 <= j < i && texts(keys@).take(i as int)[j] == id;
                        assert(texts(keys@).take(i + 1)[j] == id);
                    }
                }
            }
            i += 1;
        }
        assert(texts(keys@).take(i as int) =~= texts(keys@));
    }

    /// Files each of `keys` as a key that comes with the configuration,
    /// created now; see [`ApiKeysStorage::initialize_from_list_at`].
    pub fn initialize_from_list(&mut self, keys: &Vec<String>)
        requires
            old(self).wf(),
        ensures
            final(self).wf(),
            final(self).archived() == old(self).archived(),
            exists|now: i64| seeded(final(self).active(), texts(keys@), now),
            forall|id: Seq<char>|
                !texts(keys@).contains(id) ==> record_at(final(self).active(), client_key(id))
                    == record_at(old(self).active(), client_key(id)),
    {
        let now: i64 = clock::now();
        self.initialize_from_list_at(keys, now);
        proof {
            assert(seeded(final(self).active(), texts(keys@), now));
        }
    }
}

/// Different identifiers have different keys.
pub proof fn lemma_client_key_injective(a: Seq<char>, b: Seq<char>)
    ensures
        client_key(a) == client_key(b) ==> a == b,
{
    encode_utf8_decode_utf8(a);
    encode_utf8_decode_utf8(b);
}

/// A key that comes with the configuration entitles to every capability.
pub proof fn lemma_predefined_entitles_to_everything(
    s: Seq<(Seq<u8>, ClientApiKeyView)>,
    key: Seq<char>,
    now: i64,
    cap: Seq<char>,
)
    requires
        record_at(s, client_key(key)) == Some(predefined(key, now)),
    ensures
        entitles(s, key, cap),
{
    let patterns = predefined(key, now).capabilities;
    assert(patterns[0] == seq!['*']);
    lemma_star_admits_everything(patterns, cap);
}

} // verus!
