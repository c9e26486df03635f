//! Key rotation: versioned keys with grace periods, rotation without
//! downtime, and expiry handling, for webhook secrets, encryption keys and
//! other secrets.
//!
//! Times are milliseconds since the Unix epoch, on the clock of
//! `crate::clock`; durations are milliseconds. Key identifiers are the
//! 128-bit values of random UUIDs.

use crate::retry::copy_pairs;
use vstd::prelude::*;

verus! {

/// The version of a key; a rotation gives the next one.
pub type KeyVersion = u64;

/// Types of keys that can be managed.
#[derive(Debug, Clone, PartialEq, Eq, Hash)]
pub enum KeyType {
    /// Webhook signing and verification secret.
    WebhookSecret,
    /// Data encryption key.
    EncryptionKey,
    /// API authentication key.
    ApiKey,
    /// Session signing key.
    SessionKey,
    /// Custom key type.
    Custom(String),
}

impl KeyType {
    /// What the type is: the variant's number, and the name of a custom type.
    pub open spec fn kind(&self) -> (nat, Seq<char>) {
        match self {
            KeyType::WebhookSecret => (0, Seq::empty()),
            KeyType::EncryptionKey => (1, Seq::empty()),
            KeyType::ApiKey => (2, Seq::empty()),
            KeyType::SessionKey => (3, Seq::empty()),
            KeyType::Custom(name) => (4, name@),
        }
    }

    /// Whether two key types are the same.
    pub fn same_type(&self, other: &KeyType) -> (res: bool)
        ensures
            res == (self.kind() == other.kind()),
    {
        let n = self.variant_number();
        if n != other.variant_number() {
            false
        } else {
            match (self, other) {
                (KeyType::Custom(a), KeyType::Custom(b)) => a.eq(b),
                _ => true,
            }
        }
    }

    /// The number of the type's variant.
    fn variant_number(&self) -> (res: u8)
        ensures
            res == self.kind().0,
    {
        match self {
            KeyType::WebhookSecret => 0,
            KeyType::EncryptionKey => 1,
            KeyType::ApiKey => 2,
            KeyType::SessionKey => 3,
            KeyType::Custom(_) => 4,
        }
    }

    /// A copy of the key type.
    pub fn copy(&self) -> (res: KeyType)
        ensures
            res == *self,
    {
        match self {
            KeyType::WebhookSecret => KeyType::WebhookSecret,
            KeyType::EncryptionKey => KeyType::EncryptionKey,
            KeyType::ApiKey => KeyType::ApiKey,
            KeyType::SessionKey => KeyType::SessionKey,
            KeyType::Custom(name) => KeyType::Custom(name.clone()),
        }
    }
}

/// Status of a key version.
#[derive(Debug, Clone, Copy, PartialEq, Eq, Structural)]
pub enum KeyStatus {
    /// Active: used for new operations.
    Active,
    /// In its grace period: valid for verification, not for signing.
    GracePeriod,
    /// Deprecated but still valid for verification.
    Deprecated,
    /// Revoked: not to be accepted.
    Revoked,
    /// Expired.
    Expired,
}

/// A versioned key with its lifecycle.
#[derive(Debug, Clone)]
pub struct VersionedKey {
    /// Unique identifier of this key instance.
    pub id: u128,
    /// The key type.
    pub key_type: KeyType,
    /// Version number (higher is newer).
    pub version: KeyVersion,
    /// The key material.
    pub material: Vec<u8>,
    /// Current status.
    pub status: KeyStatus,
    /// When the key was created.
    pub created_at: u64,
    /// When the key becomes active.
    pub active_from: u64,
    /// When the key enters its grace period, if set.
    pub grace_period_start: Option<u64>,
    /// When the key expires, if set.
    pub expires_at: Option<u64>,
    /// Organization the key belongs to.
    pub org_id: String,
    /// Metadata.
    pub metadata: Vec<(String, String)>,
}

/// Whether the key's time constraints hold at `now`: it has become active
/// and has not expired.
pub open spec fn time_valid(k: VersionedKey, now: u64) -> bool {
    &&& k.active_from <= now
    &&& (k.expires_at matches Some(e) ==> now <= e)
}

/// Whether the key may sign or encrypt at `now`.
pub open spec fn active_at(k: VersionedKey, now: u64) -> bool {
    k.status == KeyStatus::Active && time_valid(k, now)
}

/// Whether the key may verify or decrypt at `now`.
pub open spec fn verifiable_at(k: VersionedKey, now: u64) -> bool {
    &&& (k.status == KeyStatus::Active || k.status == KeyStatus::GracePeriod || k.status == KeyStatus::Deprecated)
    &&& time_valid(k, now)
}

/// The status a key has at `now`: expired past its expiry; an active key
/// past the start of its grace period is in its grace period; otherwise
/// unchanged.
pub open spec fn status_after(k: VersionedKey, now: u64) -> KeyStatus {
    if k.expires_at matches Some(e) && now > e {
        KeyStatus::Expired
    } else if k.grace_period_start matches Some(g) && now >= g && k.status == KeyStatus::Active {
        KeyStatus::GracePeriod
    } else {
        k.status
    }
}

/// Whether `b` is a copy of `a`: the same fields, material and metadata.
pub open spec fn key_copy(a: VersionedKey, b: VersionedKey) -> bool {
    &&& b.id == a.id
    &&& b.key_type == a.key_type
    &&& b.version == a.version
    &&& b.material@ == a.material@
    &&& b.status == a.status
    &&& b.created_at == a.created_at
    &&& b.active_from == a.active_from
    &&& b.grace_period_start == a.grace_period_start
    &&& b.expires_at == a.expires_at
    &&& b.org_id == a.org_id
    &&& b.metadata@ == a.metadata@
}

impl VersionedKey {
    /// An active first version with identifier `id`, created and active from `now`.
    pub fn new_with(key_type: KeyType, material: Vec<u8>, org_id: String, id: u128, now: u64) -> (res: Self)
        ensures
            res.id == id,
            res.key_type == key_type,
            res.version == 1,
            res.material == material,
            res.status == KeyStatus::Active,
            res.created_at == now,
            res.active_from == now,
            res.grace_period_start is None,
            res.expires_at is None,
            res.org_id == org_id,
            res.metadata@.len() == 0,
    {
        VersionedKey {
            id,
            key_type,
            version: 1,
            material,
            status: KeyStatus::Active,
            created_at: now,
            active_from: now,
            grace_period_start: None,
            expires_at: None,
            org_id,
            metadata: Vec::new(),
        }
    }

    /// An active first version with a fresh random identifier, created and
    /// active from now.
    pub fn new(key_type: KeyType, material: Vec<u8>, org_id: String) -> (res: Self)
        ensures
            crate::ids::is_random_uuid(res.id),
            res.key_type == key_type,
            res.version == 1,
            res.material == material,
            res.status == KeyStatus::Active,
            res.active_from == res.created_at,
            res.grace_period_start is None,
            res.expires_at is None,
            res.org_id == org_id,
            res.metadata@.len() == 0,
    {
        let id = crate::ids::new_uuid();
        let now = crate::clock::now_millis();
        Self::new_with(key_type, material, org_id, id, now)
    }

    /// Sets the expiration time.
    pub fn with_expiration(self, expires_at: u64) -> (res: Self)
        ensures
            res == (VersionedKey { expires_at: Some(expires_at), ..self }),
    {
        VersionedKey { expires_at: Some(expires_at), ..self }
    }

    /// Sets the start of the grace period.
    pub fn with_grace_period(self, grace_start: u64) -> (res: Self)
        ensures
            res == (VersionedKey { grace_period_start: Some(grace_start), ..self }),
    {
        VersionedKey { grace_period_start: Some(grace_start), ..self }
    }

    /// Whether the key's time constraints hold at `now`.
    pub fn is_time_valid_at(&self, now: u64) -> (res: bool)
        ensures
            res == time_valid(*self, now),
    {
        if now < self.active_from {
            return false;
        }
        match self.expires_at {
            Some(expires) => now <= expires,
            None => true,
        }
    }

    /// Whether the key's time constraints hold now.
    pub fn is_time_valid(&self) -> (res: bool)
        ensures
            exists|now: u64| res == time_valid(*self, now),
    {
        self.is_time_valid_at(crate::clock::now_millis())
    }

    /// Whether the key may sign or encrypt at `now`.
    pub fn is_active_at(&self, now: u64) -> (res: bool)
        ensures
            res == active_at(*self, now),
    {
        self.status == KeyStatus::Active && self.is_time_valid_at(now)
    }

    /// Whether the key may sign or encrypt now.
    pub fn is_active(&self) -> (res: bool)
        ensures
            exists|now: u64| res == active_at(*self, now),
    {
        self.is_active_at(crate::clock::now_millis())
    }

    /// Whether the key may verify or decrypt at `now`.
    pub fn is_valid_for_verification_at(&self, now: u64) -> (res: bool)
        ensures
            res == verifiable_at(*self, now),
    {
        let usable = match self.status {
            KeyStatus::Active | KeyStatus::GracePeriod | KeyStatus::Deprecated => true,
            _ => false,
        };
        usable && self.is_time_valid_at(now)
    }

    /// Whether the key may verify or decrypt now.
    pub fn is_valid_for_verification(&self) -> (res: bool)
        ensures
            exists|now: u64| res == verifiable_at(*self, now),
    {
        self.is_valid_for_verification_at(crate::clock::now_millis())
    }

    /// Brings the status up to `now`: expired past the expiry, in its grace
    /// period once that has started for an active key.
    pub fn update_status_at(&mut self, now: u64)
        ensures
            *final(self) == (VersionedKey { status: status_after(*old(self), now), ..*old(self) }),
    {
        if let Some(expires) = self.expires_at {
            if now > expires {
                self.status = KeyStatus::Expired;
                return;
            }
        }
        if let Some(grace_start) = self.grace_period_start {
            if now >= grace_start && self.status == KeyStatus::Active {
                self.status = KeyStatus::GracePeriod;
            }
        }
    }

    /// Brings the status up to now.
    pub fn update_status(&mut self)
        ensures
            exists|now: u64| final(self).status == #[trigger] status_after(*old(self), now)
                && *final(self) == (VersionedKey { status: status_after(*old(self), now), ..*old(self) }),
    {
        let now = crate::clock::now_millis();
        self.update_status_at(now);
    }

    /// A copy of the key.
    pub fn copy(&self) -> (res: Self)
        ensures
            key_copy(*self, res),
    {
        VersionedKey {
            id: self.id,
            key_type: self.key_type.copy(),
            version: self.version,
            material: self.material.clone(),
            status: self.status,
            created_at: self.created_at,
            active_from: self.active_from,
            grace_period_start: self.grace_period_start,
            expires_at: self.expires_at,
            org_id: self.org_id.clone(),
            metadata: copy_pairs(&self.metadata),
        }
    }
}

/// A key that may sign may also verify.
pub proof fn lemma_active_verifiable(k: VersionedKey, now: u64)
    ensures
        active_at(k, now) ==> verifiable_at(k, now),
{
}

/// A revoked or expired key neither signs nor verifies, and bringing its
/// status up to date never makes it usable again.
pub proof fn lemma_revoked_unusable(k: VersionedKey, now: u64, later: u64)
    requires
        k.status == KeyStatus::Revoked || k.status == KeyStatus::Expired,
    ensures
        !active_at(k, now),
        !verifiable_at(k, now),
        status_after(k, later) == KeyStatus::Revoked || status_after(k, later) == KeyStatus::Expired,
{
}

/// A key whose status was brought up to a time past its expiry is expired,
/// and neither signs nor verifies at that time.
pub proof fn lemma_expired_after_expiry(k: VersionedKey, now: u64)
    requires
        k.expires_at matches Some(e) && now > e,
    ensures
        status_after(k, now) == KeyStatus::Expired,
        !verifiable_at(VersionedKey { status: status_after(k, now), ..k }, now),
        !verifiable_at(k, now),
{
}

/// Configuration for key rotation (durations in milliseconds).
#[derive(Debug, Clone, Copy)]
pub struct RotationConfig {
    /// How long before expiration the grace period starts.
    pub grace_period: u64,
    /// How long a key stays valid after it was rotated out.
    pub overlap_period: u64,
    /// Whether to rotate automatically on a schedule.
    pub auto_rotate: bool,
    /// Interval of automatic rotation.
    pub rotation_interval: Option<u64>,
}

impl Default for RotationConfig {
    /// A grace period of 24 hours, an overlap of 7 days, no automatic rotation.
    fn default() -> (res: Self)
        ensures
            res == (RotationConfig {
                grace_period: 86_400_000,
                overlap_period: 604_800_000,
                auto_rotate: false,
                rotation_interval: None,
            }),
    {
        RotationConfig {
            grace_period: 86_400_000,
            overlap_period: 604_800_000,
            auto_rotate: false,
            rotation_interval: None,
        }
    }
}

/// How long a rotated-out key stays valid for an overlap setting: the
/// setting itself, or 7 days for one too long to be a time span
/// (above `i64::MAX` milliseconds).
pub open spec fn overlap_window(overlap: u64) -> int {
    if overlap <= i64::MAX { overlap as int } else { 604_800_000 }
}

/// Errors of key operations.
#[derive(Debug, Clone)]
pub enum KeyError {
    NotFound(String),
    Expired(u128),
    Revoked(u128),
    NoActiveKey(KeyType),
    InvalidMaterial,
    Storage(String),
    RotationInProgress,
}

/// Whether `k` belongs to organization `org` and is of type `kind`.
pub open spec fn owned_by(k: VersionedKey, org: Seq<char>, kind: (nat, Seq<char>)) -> bool {
    k.org_id@ == org && k.key_type.kind() == kind
}

/// Whether `found` answers the lookup, among `keys`, of the newest key of
/// `org` and `kind` that is active at `now`: a copy of an active key with
/// no active key of a higher version beside it, or nothing when none is active.
pub open spec fn newest_active(
    keys: Map<u128, VersionedKey>,
    org: Seq<char>,
    kind: (nat, Seq<char>),
    now: u64,
    found: Option<VersionedKey>,
) -> bool {
    match found {
        Some(k) => {
            &&& keys.contains_key(k.id)
            &&& key_copy(keys[k.id], k)
            &&& owned_by(k, org, kind)
            &&& active_at(k, now)
            &&& forall|id: u128|
                #[trigger] keys.contains_key(id) && owned_by(keys[id], org, kind) && active_at(keys[id], now)
                    ==> keys[id].version <= k.version
        },
        None => forall|id: u128|
            #[trigger] keys.contains_key(id) && owned_by(keys[id], org, kind) ==> !active_at(keys[id], now),
    }
}

/// Whether `listed` holds a copy of each key of `keys` that `keep` selects,
/// and nothing else, each once.
pub open spec fn lists_keys(keys: Map<u128, VersionedKey>, listed: Seq<VersionedKey>, keep: spec_fn(VersionedKey) -> bool) -> bool {
    &&& forall|i: int, j: int| 0 <= i < j < listed.len() ==> listed[i].id != listed[j].id
    &&& forall|i: int| 0 <= i < listed.len() ==> {
        &&& keys.contains_key(#[trigger] listed[i].id)
        &&& key_copy(keys[listed[i].id], listed[i])
        &&& keep(keys[listed[i].id])
    }
    &&& forall|id: u128| #[trigger] keys.contains_key(id) && keep(keys[id])
        ==> exists|i: int| 0 <= i < listed.len() && #[trigger] listed[i].id == id
}

/// A storage backend for keys, indexed by key identifier.
///
/// A backend may answer a call with an error of its own (a lost
/// connection, say); one that never does is `infallible`, and then each
/// call succeeds unless the method names a reason to fail.
pub trait KeyStore: Sized {
    /// Whether the store is in a state its methods accept.
    spec fn ready(&self) -> bool;

    /// The stored keys by identifier.
    spec fn keys(&self) -> Map<u128, VersionedKey>;

    /// Whether the backend answers every call without an error of its own.
    spec fn infallible(&self) -> bool;

    /// Stores a key, replacing one with the same identifier.
    fn store(&mut self, key: VersionedKey) -> (res: Result<(), KeyError>)
        requires
            old(self).ready(),
        ensures
            final(self).ready(),
            final(self).infallible() == old(self).infallible(),
            old(self).infallible() ==> res is Ok,
            res is Ok ==> final(self).keys() == old(self).keys().insert(key.id, key),
    ;

    /// A copy of the key with identifier `id`, if stored.
    fn get(&self, id: u128) -> (res: Result<Option<VersionedKey>, KeyError>)
        requires
            self.ready(),
        ensures
            self.infallible() ==> res is Ok,
            res matches Ok(found) ==> match found {
                Some(k) => self.keys().contains_key(id) && key_copy(self.keys()[id], k),
                None => !self.keys().contains_key(id),
            },
    ;

    /// The newest active key of an organization and type.
    fn get_active(&self, org_id: &str, key_type: &KeyType) -> (res: Result<Option<VersionedKey>, KeyError>)
        requires
            self.ready(),
        ensures
            self.infallible() ==> res is Ok,
            res matches Ok(found) ==> exists|now: u64| #[trigger] newest_active(self.keys(), org_id@, key_type.kind(), now, found),
    ;

    /// All keys of an organization and type.
    fn get_all(&self, org_id: &str, key_type: &KeyType) -> (res: Result<Vec<VersionedKey>, KeyError>)
        requires
            self.ready(),
        ensures
            self.infallible() ==> res is Ok,
            res matches Ok(all) ==> lists_keys(self.keys(), all@, |k: VersionedKey| owned_by(k, org_id@, key_type.kind())),
    ;

    /// Sets the status of a stored key.
    fn update_status(&mut self, id: u128, status: KeyStatus) -> (res: Result<(), KeyError>)
        requires
            old(self).ready(),
        ensures
            final(self).ready(),
            final(self).infallible() == old(self).infallible(),
            old(self).infallible() ==> (res is Ok <==> old(self).keys().contains_key(id)),
            res is Ok ==> {
                &&& old(self).keys().contains_key(id)
                &&& final(self).keys() == old(self).keys().insert(id, VersionedKey { status, ..old(self).keys()[id] })
            },
    ;

    /// Deletes the key with identifier `id`.
    fn delete(&mut self, id: u128) -> (res: Result<(), KeyError>)
        requires
            old(self).ready(),
        ensures
            final(self).ready(),
            final(self).infallible() == old(self).infallible(),
            old(self).infallible() ==> res is Ok,
            res is Ok ==> final(self).keys() == old(self).keys().remove(id),
    ;
}

/// The keys of a list by identifier, a later key replacing an earlier one.
pub open spec fn key_map(s: Seq<VersionedKey>) -> Map<u128, VersionedKey>
    decreases s.len(),
{
    if s.len() == 0 {
        Map::empty()
    } else {
        key_map(s.drop_last()).insert(s.last().id, s.last())
    }
}

/// Whether no two keys of a list share an identifier.
pub open spec fn unique_ids(s: Seq<VersionedKey>) -> bool {
    forall|i: int, j: int| 0 <= i < j < s.len() ==> s[i].id != s[j].id
}

/// With unique identifiers, the map of a list holds each key of the list
/// under its identifier, and nothing else.
pub proof fn lemma_key_map(s: Seq<VersionedKey>)
    requires
        unique_ids(s),
    ensures
        forall|i: int| 0 <= i < s.len() ==> key_map(s).contains_key(#[trigger] s[i].id) && key_map(s)[s[i].id] == s[i],
        forall|id: u128| #[trigger] key_map(s).contains_key(id) ==> exists|i: int| 0 <= i < s.len() && s[i].id == id,
    decreases s.len(),
{
    if s.len() > 0 {
        let d = s.drop_last();
        lemma_key_map(d);
        assert forall|i: int| 0 <= i < s.len() implies key_map(s).contains_key(#[trigger] s[i].id) && key_map(s)[s[i].id] == s[i] by {
            if i < s.len() - 1 {
                assert(s[i] == d[i]);
            }
        }
        assert forall|id: u128| #[trigger] key_map(s).contains_key(id) implies exists|i: int| 0 <= i < s.len() && s[i].id == id by {
            if id != s.last().id {
                let i = choose|i: int| 0 <= i < d.len() && d[i].id == id;
                assert(s[i] == d[i]);
            } else {
                assert(s[s.len() - 1].id == id);
            }
        }
    }
}

/// In-memory key store.
pub struct InMemoryKeyStore {
    keys: Vec<VersionedKey>,
}

impl InMemoryKeyStore {
    /// The stored keys in the order they were first stored.
    pub closed spec fn key_list(&self) -> Seq<VersionedKey> {
        self.keys@
    }

    /// An empty store.
    pub fn new() -> (res: Self)
        ensures
            res.ready(),
            res.keys() == Map::<u128, VersionedKey>::empty(),
    {
        InMemoryKeyStore { keys: Vec::new() }
    }

    /// The position of the key with identifier `id`.
    fn find(&self, id: u128) -> (res: Option<usize>)
        ensures
            match res {
                Some(i) => i < self.keys@.len() && self.keys@[i as int].id == id,
                None => forall|i: int| 0 <= i < self.keys@.len() ==> self.keys@[i].id != id,
            },
    {
        let mut i: usize = 0;
        while i < self.keys.len()
            invariant
                i <= self.keys@.len(),
                forall|j: int| 0 <= j < i ==> self.keys@[j].id != id,
            decreases self.keys@.len() - i,
        {
            if self.keys[i].id == id {
                return Some(i);
            }
            i = i + 1;
        }
        None
    }

    /// The newest key of `org_id` and `key_type` that is active at `now`.
    pub fn get_active_at(&self, org_id: &str, key_type: &KeyType, now: u64) -> (res: Option<VersionedKey>)
        requires
            self.ready(),
        ensures
            newest_active(self.keys(), org_id@, key_type.kind(), now, res),
    {
        let org = org_id.to_owned();
        let mut best: Option<usize> = None;
        let mut i: usize = 0;
        let ghost s = self.keys@;
        while i < self.keys.len()
            invariant
                s == self.keys@,
                i <= s.len(),
                org@ == org_id@,
                match best {
                    Some(b) => {
                        &&& b < i
                        &&& owned_by(s[b as int], org_id@, key_type.kind())
                        &&& active_at(s[b as int], now)
                        &&& forall|j: int| 0 <= j < i && owned_by(s[j], org_id@, key_type.kind()) && active_at(s[j], now)
                            ==> s[j].version <= s[b as int].version
                    },
                    None => forall|j: int| 0 <= j < i ==> !(owned_by(s[j], org_id@, key_type.kind()) && active_at(s[j], now)),
                },
            decreases s.len() - i,
        {
            let k = &self.keys[i];
            if k.org_id.eq(&org) && k.key_type.same_type(key_type) && k.is_active_at(now) {
                match best {
                    Some(b) => {
                        if k.version >= self.keys[b].version {
                            best = Some(i);
                        }
                    },
                    None => {
                        best = Some(i);
                    },
                }
            }
            i = i + 1;
        }
        proof {
            lemma_key_map(s);
        }
        match best {
            Some(b) => {
                let found = self.keys[b].copy();
                proof {
                    assert forall|id: u128|
                        #[trigger] key_map(s).contains_key(id) && owned_by(key_map(s)[id], org_id@, key_type.kind())
                            && active_at(key_map(s)[id], now) implies key_map(s)[id].version <= found.version by {
                        let j = choose|j: int| 0 <= j < s.len() && s[j].id == id;
                        assert(key_map(s)[s[j].id] == s[j]);
                    }
                    assert(key_map(s)[s[b as int].id] == s[b as int]);
                }
                Some(found)
            },
            None => {
                proof {
                    assert forall|id: u128| #[trigger] key_map(s).contains_key(id) && owned_by(key_map(s)[id], org_id@, key_type.kind())
                        implies !active_at(key_map(s)[id], now) by {
                        let j = choose|j: int| 0 <= j < s.len() && s[j].id == id;
                        assert(key_map(s)[s[j].id] == s[j]);
                    }
                }
                None
            },
        }
    }
}

impl Default for InMemoryKeyStore {
    /// An empty store.
    fn default() -> (res: Self)
        ensures
            res.ready(),
            res.keys() == Map::<u128, VersionedKey>::empty(),
    {
        InMemoryKeyStore::new()
    }
}

impl KeyStore for InMemoryKeyStore {
    open spec fn ready(&self) -> bool {
        unique_ids(self.key_list())
    }

    open spec fn keys(&self) -> Map<u128, VersionedKey> {
        key_map(self.key_list())
    }

    open spec fn infallible(&self) -> bool {
        true
    }

    /// Stores a key in place of one with the same identifier, or after the
    /// others.
    fn store(&mut self, key: VersionedKey) -> (res: Result<(), KeyError>)
        ensures
            res is Ok,
    {
        let ghost s = self.keys@;
        proof {
            lemma_key_map(s);
        }
        match self.find(key.id) {
            Some(i) => {
                let ghost kid = key.id;
                let ghost kk = key;
                self.keys.set(i, key);
                proof {
                    let t = self.keys@;
                    assert(t =~= s.update(i as int, kk));
                    assert forall|a: int, b: int| 0 <= a < b < t.len() implies t[a].id != t[b].id by {
                        if a == i {
                            assert(t[b] == s[b]);
                        } else if b == i {
                            assert(t[a] == s[a]);
                        } else {
                            assert(t[a] == s[a] && t[b] == s[b]);
                        }
                    }
                    lemma_key_map(t);
                    assert(key_map(t) =~= key_map(s).insert(kid, kk)) by {
                        assert forall|id: u128| key_map(t).contains_key(id) <==> key_map(s).insert(kid, kk).contains_key(id) by {
                            if key_map(t).contains_key(id) {
                                let j = choose|j: int| 0 <= j < t.len() && t[j].id == id;
                                if j != i {
                                    assert(t[j] == s[j]);
                                    assert(key_map(s).contains_key(s[j].id));
                                }
                            }
                            if key_map(s).contains_key(id) {
                                let j = choose|j: int| 0 <= j < s.len() && s[j].id == id;
                                if j != i {
                                    assert(t[j] == s[j]);
                                    assert(key_map(t).contains_key(t[j].id));
                                } else {
                                    assert(key_map(t).contains_key(t[j].id));
                                }
                            }
                            if id == kid {
                                assert(key_map(t).contains_key(t[i as int].id));
                            }
                        }
                        assert forall|id: u128| #[trigger] key_map(t).contains_key(id) implies key_map(t)[id] == key_map(s).insert(kid, kk)[id] by {
                            let j = choose|j: int| 0 <= j < t.len() && t[j].id == id;
                            assert(key_map(t)[t[j].id] == t[j]);
                            if j != i {
                                assert(t[j] == s[j]);
                                assert(key_map(s)[s[j].id] == s[j]);
                            }
                        }
                    }
                }
            },
            None => {
                self.keys.push(key);
                proof {
                    let t = self.keys@;
                    assert(t.drop_last() =~= s);
                    assert forall|a: int, b: int| 0 <= a < b < t.len() implies t[a].id != t[b].id by {
                        if b == t.len() - 1 {
                            assert(t[a] == s[a]);
                        } else {
                            assert(t[a] == s[a] && t[b] == s[b]);
                        }
                    }
                }
            },
        }
        Ok(())
    }

    /// A copy of the key with identifier `id`, if stored.
    fn get(&self, id: u128) -> (res: Result<Option<VersionedKey>, KeyError>)
        ensures
            res is Ok,
    {
        proof {
            lemma_key_map(self.keys@);
        }
        match self.find(id) {
            Some(i) => Ok(Some(self.keys[i].copy())),
            None => {
                proof {
                    if key_map(self.keys@).contains_key(id) {
                        let j = choose|j: int| 0 <= j < self.keys@.len() && self.keys@[j].id == id;
                        assert(self.keys@[j].id != id);
                    }
                }
                Ok(None)
            },
        }
    }

    /// The newest key of an organization and type that is active now.
    fn get_active(&self, org_id: &str, key_type: &KeyType) -> (res: Result<Option<VersionedKey>, KeyError>)
        ensures
            res is Ok,
    {
        let now = crate::clock::now_millis();
        let found = self.get_active_at(org_id, key_type, now);
        assert(newest_active(self.keys(), org_id@, key_type.kind(), now, found));
        Ok(found)
    }

    /// Copies of all keys of an organization and type, in the order stored.
    fn get_all(&self, org_id: &str, key_type: &KeyType) -> (res: Result<Vec<VersionedKey>, KeyError>)
        ensures
            res is Ok,
    {
        let org = org_id.to_owned();
        let ghost s = self.keys@;
        let ghost keep = |k: VersionedKey| owned_by(k, org_id@, key_type.kind());
        proof {
            lemma_key_map(s);
        }
        let mut out: Vec<VersionedKey> = Vec::new();
        let mut i: usize = 0;
        while i < self.keys.len()
            invariant
                s == self.keys@,
                unique_ids(s),
                i <= s.len(),
                org@ == org_id@,
                forall|a: int| 0 <= a < s.len() ==> key_map(s).contains_key(#[trigger] s[a].id) && key_map(s)[s[a].id] == s[a],
                forall|k: int| 0 <= k < out@.len() ==> exists|j: int| 0 <= j < i && key_copy(s[j], #[trigger] out@[k]),
                forall|k: int| 0 <= k < out@.len() ==> owned_by(#[trigger] out@[k], org_id@, key_type.kind()),
                forall|a: int, b: int| 0 <= a < b < out@.len() ==> out@[a].id != out@[b].id,
                forall|j: int| 0 <= j < i && owned_by(#[trigger] s[j], org_id@, key_type.kind())
                    ==> exists|k: int| 0 <= k < out@.len() && #[trigger] out@[k].id == s[j].id,
            decreases s.len() - i,
        {
            let k = &self.keys[i];
            if k.org_id.eq(&org) && k.key_type.same_type(key_type) {
                let c = k.copy();
                let ghost before = out@;
                out.push(c);
                proof {
                    assert forall|a: int, b: int| 0 <= a < b < out@.len() implies out@[a].id != out@[b].id by {
                        if b == out@.len() - 1 {
                            assert(out@[a] == before[a]);
                            let j = choose|j: int| 0 <= j < i && key_copy(s[j], #[trigger] before[a]);
                        } else {
                            assert(out@[a] == before[a] && out@[b] == before[b]);
                        }
                    }
                    assert forall|k2: int| 0 <= k2 < out@.len() implies exists|j: int| 0 <= j < i + 1 && key_copy(s[j], #[trigger] out@[k2]) by {
                        if k2 == out@.len() - 1 {
                            assert(key_copy(s[i as int], out@[k2]));
                        } else {
                            assert(out@[k2] == before[k2]);
                        }
                    }
                    assert forall|j: int| 0 <= j < i + 1 && owned_by(#[trigger] s[j], org_id@, key_type.kind())
                        implies exists|k2: int| 0 <= k2 < out@.len() && #[trigger] out@[k2].id == s[j].id by {
                        if j == i {
                            assert(out@[out@.len() - 1].id == s[j].id);
                        } else {
                            let k2 = choose|k2: int| 0 <= k2 < before.len() && #[trigger] before[k2].id == s[j].id;
                            assert(out@[k2] == before[k2]);
                        }
                    }
                }
            }
            i = i + 1;
        }
        proof {
            assert forall|k2: int| 0 <= k2 < out@.len() implies {
                &&& key_map(s).contains_key(#[trigger] out@[k2].id)
                &&& key_copy(key_map(s)[out@[k2].id], out@[k2])
                &&& keep(key_map(s)[out@[k2].id])
            } by {
                let j = choose|j: int| 0 <= j < i && key_copy(s[j], #[trigger] out@[k2]);
                assert(key_map(s)[s[j].id] == s[j]);
            }
            assert forall|id: u128| #[trigger] key_map(s).contains_key(id) && keep(key_map(s)[id])
                implies exists|k2: int| 0 <= k2 < out@.len() && #[trigger] out@[k2].id == id by {
                let j = choose|j: int| 0 <= j < s.len() && s[j].id == id;
                assert(key_map(s)[s[j].id] == s[j]);
                assert(owned_by(s[j], org_id@, key_type.kind()));
            }
        }
        Ok(out)
    }

    /// Sets the status of a stored key; an error naming the identifier when
    /// there is none.
    fn update_status(&mut self, id: u128, status: KeyStatus) -> (res: Result<(), KeyError>)
        ensures
            res is Ok <==> old(self).keys().contains_key(id),
            res matches Err(e) ==> e matches KeyError::NotFound(text) && text@ == crate::ids::uuid_text(id),
            res is Err ==> final(self).keys() == old(self).keys(),
    {
        let ghost s = self.keys@;
        proof {
            lemma_key_map(s);
        }
        match self.find(id) {
            Some(i) => {
                let mut k = self.keys.remove(i);
                let ghost kk = k;
                k.status = status;
                self.keys.insert(i, k);
                proof {
                    let t = self.keys@;
                    let nk = VersionedKey { status, ..kk };
                    assert(t =~= s.update(i as int, nk));
                    assert forall|a: int, b: int| 0 <= a < b < t.len() implies t[a].id != t[b].id by {
                        if a == i {
                            assert(t[b] == s[b]);
                        } else if b == i {
                            assert(t[a] == s[a]);
                        } else {
                            assert(t[a] == s[a] && t[b] == s[b]);
                        }
                    }
                    lemma_key_map(t);
                    assert(key_map(s)[s[i as int].id] == s[i as int]);
                    assert(key_map(t) =~= key_map(s).insert(id, nk)) by {
                        assert forall|x: u128| key_map(t).contains_key(x) <==> key_map(s).insert(id, nk).contains_key(x) by {
                            if key_map(t).contains_key(x) {
                                let j = choose|j: int| 0 <= j < t.len() && t[j].id == x;
                                if j != i {
                                    assert(t[j] == s[j]);
                                    assert(key_map(s).contains_key(s[j].id));
                                }
                            }
                            if key_map(s).contains_key(x) {
                                let j = choose|j: int| 0 <= j < s.len() && s[j].id == x;
                                if j != i {
                                    assert(t[j] == s[j]);
                                }
                                assert(key_map(t).contains_key(t[j].id));
                            }
                            if x == id {
                                assert(key_map(t).contains_key(t[i as int].id));
                            }
                        }
                        assert forall|x: u128| #[trigger] key_map(t).contains_key(x) implies key_map(t)[x] == key_map(s).insert(id, nk)[x] by {
                            let j = choose|j: int| 0 <= j < t.len() && t[j].id == x;
                            assert(key_map(t)[t[j].id] == t[j]);
                            if j != i {
                                assert(t[j] == s[j]);
                                assert(key_map(s)[s[j].id] == s[j]);
                            }
                        }
                    }
                }
                Ok(())
            },
            None => {
                proof {
                    if key_map(s).contains_key(id) {
                        let j = choose|j: int| 0 <= j < s.len() && s[j].id == id;
                        assert(s[j].id != id);
                    }
                }
                Err(KeyError::NotFound(crate::ids::uuid_to_string(id)))
            },
        }
    }

    /// Deletes the key with identifier `id`, if stored.
    fn delete(&mut self, id: u128) -> (res: Result<(), KeyError>)
        ensures
            res is Ok,
    {
        let ghost s = self.keys@;
        proof {
            lemma_key_map(s);
        }
        match self.find(id) {
            Some(i) => {
                self.keys.remove(i);
                proof {
                    let t = self.keys@;
                    assert(t =~= s.remove(i as int));
                    assert forall|a: int, b: int| 0 <= a < b < t.len() implies t[a].id != t[b].id by {
                        if a < i {
                            assert(t[a] == s[a]);
                        } else {
                            assert(t[a] == s[a + 1]);
                        }
                        if b < i {
                            assert(t[b] == s[b]);
                        } else {
                            assert(t[b] == s[b + 1]);
                        }
                    }
                    lemma_key_map(t);
                    assert(key_map(t) =~= key_map(s).remove(id)) by {
                        assert forall|x: u128| key_map(t).contains_key(x) <==> key_map(s).remove(id).contains_key(x) by {
                            if key_map(t).contains_key(x) {
                                let j = choose|j: int| 0 <= j < t.len() && t[j].id == x;
                                if j < i {
                                    assert(t[j] == s[j]);
                                    assert(key_map(s).contains_key(s[j].id));
                                } else {
                                    assert(t[j] == s[j + 1]);
                                    assert(key_map(s).contains_key(s[j + 1].id));
                                }
                            }
                            if key_map(s).contains_key(x) && x != id {
                                let j = choose|j: int| 0 <= j < s.len() && s[j].id == x;
                                if j < i {
                                    assert(t[j] == s[j]);
                                    assert(key_map(t).contains_key(t[j].id));
                                } else {
                                    assert(j != i);
                                    assert(t[j - 1] == s[j]);
                                    assert(key_map(t).contains_key(t[j - 1].id));
                                }
                            }
                        }
                        assert forall|x: u128| #[trigger] key_map(t).contains_key(x) implies key_map(t)[x] == key_map(s).remove(id)[x] by {
                            let j = choose|j: int| 0 <= j < t.len() && t[j].id == x;
                            assert(key_map(t)[t[j].id] == t[j]);
                            if j < i {
                                assert(t[j] == s[j]);
                                assert(key_map(s)[s[j].id] == s[j]);
                            } else {
                                assert(t[j] == s[j + 1]);
                                assert(key_map(s)[s[j + 1].id] == s[j + 1]);
                            }
                        }
                    }
                }
            },
            None => {
                proof {
                    assert(key_map(s) =~= key_map(s).remove(id)) by {
                        if key_map(s).contains_key(id) {
                            let j = choose|j: int| 0 <= j < s.len() && s[j].id == id;
                            assert(s[j].id != id);
                        }
                    }
                }
            },
        }
        Ok(())
    }
}

/// The keys of `org` and `kind` among `keys` whose status at `now` is expired.
pub open spec fn expired_keys(keys: Map<u128, VersionedKey>, org: Seq<char>, kind: (nat, Seq<char>), now: u64) -> Set<u128> {
    Set::new(|id: u128| keys.contains_key(id) && owned_by(keys[id], org, kind) && status_after(keys[id], now) == KeyStatus::Expired)
}

/// What a rotation did to the stored keys, from `before` to `after`: the
/// key `found` that was newest and active (if any) is in its grace period
/// until `graced_until`, and the new key `k`, one version above it (or the
/// first version), is stored.
pub open spec fn rotated(
    before: Map<u128, VersionedKey>,
    after: Map<u128, VersionedKey>,
    found: Option<VersionedKey>,
    k: VersionedKey,
    graced_until: u64,
) -> bool {
    &&& k.version == match found {
        Some(c) => c.version + 1,
        None => 1int,
    }
    &&& exists|c2: VersionedKey| {
        &&& #[trigger] key_copy(k, c2)
        &&& after == match found {
            Some(c) => before.insert(
                c.id,
                VersionedKey { status: KeyStatus::GracePeriod, expires_at: Some(graced_until), ..c },
            ).insert(k.id, c2),
            None => before.insert(k.id, c2),
        }
    }
}

/// Whether `res` is what a request for the signing key answers when the
/// newest active key found is `found`: that key, or the error that there is
/// no active key of type `key_type`.
pub open spec fn signing_answer(found: Option<VersionedKey>, key_type: KeyType, res: Result<VersionedKey, KeyError>) -> bool {
    match found {
        Some(k) => res == Ok::<VersionedKey, KeyError>(k),
        None => res == Err::<VersionedKey, KeyError>(KeyError::NoActiveKey(key_type)),
    }
}

/// The newest key of a list that is active at `now`: where the list holds
/// the keys of `org` and `kind` of `keys`, the answer to the lookup of the
/// newest key of `org` and `kind` active at `now`.
fn newest_active_in(
    all: Vec<VersionedKey>,
    now: u64,
    Ghost(keys): Ghost<Map<u128, VersionedKey>>,
    Ghost(org): Ghost<Seq<char>>,
    Ghost(kind): Ghost<(nat, Seq<char>)>,
) -> (res: Option<VersionedKey>)
    requires
        lists_keys(keys, all@, |k: VersionedKey| owned_by(k, org, kind)),
    ensures
        newest_active(keys, org, kind, now, res),
{
    let ghost s = all@;
    let mut best: Option<usize> = None;
    let mut i: usize = 0;
    while i < all.len()
        invariant
            s == all@,
            i <= s.len(),
            lists_keys(keys, s, |k: VersionedKey| owned_by(k, org, kind)),
            match best {
                Some(b) => {
                    &&& b < i
                    &&& active_at(s[b as int], now)
                    &&& forall|j: int| 0 <= j < i && active_at(#[trigger] s[j], now) ==> s[j].version <= s[b as int].version
                },
                None => forall|j: int| 0 <= j < i ==> !active_at(#[trigger] s[j], now),
            },
        decreases s.len() - i,
    {
        if all[i].is_active_at(now) {
            match best {
                Some(b) => {
                    if all[i].version >= all[b].version {
                        best = Some(i);
                    }
                },
                None => {
                    best = Some(i);
                },
            }
        }
        i = i + 1;
    }
    match best {
        Some(b) => {
            let mut all = all;
            let found = all.remove(b);
            proof {
                assert(found == s[b as int]);
                assert(keys.contains_key(s[b as int].id) && key_copy(keys[s[b as int].id], s[b as int]));
                assert(owned_by(keys[s[b as int].id], org, kind));
                assert forall|id: u128| #[trigger] keys.contains_key(id) && owned_by(keys[id], org, kind) && active_at(keys[id], now)
                    implies keys[id].version <= found.version by {
                    let j = choose|j: int| 0 <= j < s.len() && #[trigger] s[j].id == id;
                    assert(key_copy(keys[s[j].id], s[j]));
                }
            }
            Some(found)
        },
        None => {
            proof {
                assert forall|id: u128| #[trigger] keys.contains_key(id) && owned_by(keys[id], org, kind)
                    implies !active_at(keys[id], now) by {
                    let j = choose|j: int| 0 <= j < s.len() && #[trigger] s[j].id == id;
                    assert(key_copy(keys[s[j].id], s[j]));
                }
            }
            None
        },
    }
}

/// Key rotation manager over a key store.
pub struct KeyManager<S> {
    store: S,
    config: RotationConfig,
}

impl<S: KeyStore> KeyManager<S> {
    /// The store the manager works on.
    pub closed spec fn store_state(&self) -> S {
        self.store
    }

    /// The rotation configuration.
    pub closed spec fn configuration(&self) -> RotationConfig {
        self.config
    }

    pub fn new(store: S, config: RotationConfig) -> (res: Self)
        ensures
            res.store_state() == store,
            res.configuration() == config,
    {
        KeyManager { store, config }
    }

    /// Creates and stores an active first version of a key.
    pub fn create_key(&mut self, key_type: KeyType, material: Vec<u8>, org_id: String) -> (res: Result<VersionedKey, KeyError>)
        requires
            old(self).store_state().ready(),
        ensures
            final(self).store_state().ready(),
            final(self).configuration() == old(self).configuration(),
            final(self).store_state().infallible() == old(self).store_state().infallible(),
            old(self).store_state().infallible() ==> res is Ok,
            res matches Ok(k) ==> {
                &&& crate::ids::is_random_uuid(k.id)
                &&& k.key_type == key_type
                &&& k.version == 1
                &&& k.material@ == material@
                &&& k.status == KeyStatus::Active
                &&& k.active_from == k.created_at
                &&& k.grace_period_start is None
                &&& k.expires_at is None
                &&& k.org_id == org_id
                &&& exists|c: VersionedKey| #[trigger] key_copy(k, c)
                    && final(self).store_state().keys() == old(self).store_state().keys().insert(k.id, c)
            },
    {
        let key = VersionedKey::new(key_type, material, org_id);
        let stored = key.copy();
        match self.store.store(stored) {
            Ok(()) => Ok(key),
            Err(e) => Err(e),
        }
    }

    /// Rotates the key of an organization and type at `now`: the newest key
    /// active at `now` (if any) enters its grace period, valid for the
    /// overlap period after `now`, and a new key, created and active at
    /// `now`, one version above it, is stored and returned.
    pub fn rotate_key_at(&mut self, org_id: &str, key_type: &KeyType, new_material: Vec<u8>, now: u64) -> (res: Result<VersionedKey, KeyError>)
        requires
            old(self).store_state().ready(),
            forall|id: u128| #[trigger] old(self).store_state().keys().contains_key(id)
                ==> old(self).store_state().keys()[id].version < u64::MAX,
        ensures
            final(self).store_state().ready(),
            final(self).configuration() == old(self).configuration(),
            final(self).store_state().infallible() == old(self).store_state().infallible(),
            old(self).store_state().infallible() ==> res is Ok,
            res matches Ok(k) ==> {
                &&& crate::ids::is_random_uuid(k.id)
                &&& k.key_type == *key_type
                &&& k.org_id@ == org_id@
                &&& k.material@ == new_material@
                &&& k.status == KeyStatus::Active
                &&& k.created_at == now
                &&& k.active_from == now
                &&& k.grace_period_start is None
                &&& k.expires_at is None
                &&& exists|found: Option<VersionedKey>| {
                    &&& #[trigger] newest_active(old(self).store_state().keys(), org_id@, key_type.kind(), now, found)
                    &&& rotated(
                        old(self).store_state().keys(),
                        final(self).store_state().keys(),
                        found,
                        k,
                        crate::retry::capped_add(now as int, overlap_window(old(self).configuration().overlap_period)) as u64,
                    )
                }
            },
    {
        let ghost keys0 = self.store.keys();
        let all = match self.store.get_all(org_id, key_type) {
            Ok(v) => v,
            Err(e) => return Err(e),
        };
        let current = newest_active_in(all, now, Ghost(keys0), Ghost(org_id@), Ghost(key_type.kind()));
        let new_version: u64 = match &current {
            Some(k) => k.version + 1,
            None => 1,
        };
        let window: u64 = if self.config.overlap_period <= i64::MAX as u64 {
            self.config.overlap_period
        } else {
            604_800_000
        };
        let grace_end = now.saturating_add(window);
        match current {
            Some(old_key) => {
                let mut retired = old_key;
                retired.status = KeyStatus::GracePeriod;
                retired.expires_at = Some(grace_end);
                match self.store.store(retired) {
                    Ok(()) => {},
                    Err(e) => return Err(e),
                }
            },
            None => {},
        }
        let id = crate::ids::new_uuid();
        let mut new_key = VersionedKey::new_with(key_type.copy(), new_material, org_id.to_owned(), id, now);
        new_key.version = new_version;
        let stored = new_key.copy();
        let ghost c2 = stored;
        match self.store.store(stored) {
            Ok(()) => {},
            Err(e) => return Err(e),
        }
        assert(key_copy(new_key, c2));
        assert(keys0 == old(self).store_state().keys());
        assert(self.config == old(self).configuration());
        assert(newest_active(old(self).store_state().keys(), org_id@, key_type.kind(), now, current));
        assert(rotated(old(self).store_state().keys(), self.store_state().keys(), current, new_key,
            crate::retry::capped_add(now as int, overlap_window(old(self).configuration().overlap_period)) as u64));
        Ok(new_key)
    }

    /// Rotates the key of an organization and type now: as `rotate_key_at`,
    /// at the time the clock reads.
    pub fn rotate_key(&mut self, org_id: &str, key_type: &KeyType, new_material: Vec<u8>) -> (res: Result<VersionedKey, KeyError>)
        requires
            old(self).store_state().ready(),
            forall|id: u128| #[trigger] old(self).store_state().keys().contains_key(id)
                ==> old(self).store_state().keys()[id].version < u64::MAX,
        ensures
            final(self).store_state().ready(),
            final(self).configuration() == old(self).configuration(),
            final(self).store_state().infallible() == old(self).store_state().infallible(),
            old(self).store_state().infallible() ==> res is Ok,
            res matches Ok(k) ==> {
                &&& crate::ids::is_random_uuid(k.id)
                &&& k.key_type == *key_type
                &&& k.org_id@ == org_id@
                &&& k.material@ == new_material@
                &&& k.status == KeyStatus::Active
                &&& k.active_from == k.created_at
                &&& k.grace_period_start is None
                &&& k.expires_at is None
                &&& exists|now: u64, found: Option<VersionedKey>, later: u64| {
                    &&& #[trigger] newest_active(old(self).store_state().keys(), org_id@, key_type.kind(), now, found)
                    &&& #[trigger] rotated(
                        old(self).store_state().keys(),
                        final(self).store_state().keys(),
                        found,
                        k,
                        crate::retry::capped_add(later as int, overlap_window(old(self).configuration().overlap_period)) as u64,
                    )
                }
                &&& exists|found: Option<VersionedKey>| {
                    &&& #[trigger] newest_active(old(self).store_state().keys(), org_id@, key_type.kind(), k.created_at, found)
                    &&& rotated(
                        old(self).store_state().keys(),
                        final(self).store_state().keys(),
                        found,
                        k,
                        crate::retry::capped_add(k.created_at as int, overlap_window(old(self).configuration().overlap_period)) as u64,
                    )
                }
            },
    {
        let now = crate::clock::now_millis();
        let res = self.rotate_key_at(org_id, key_type, new_material, now);
        proof {
            if res is Ok {
                let k = res->Ok_0;
                let found = choose|found: Option<VersionedKey>| {
                    &&& #[trigger] newest_active(old(self).store_state().keys(), org_id@, key_type.kind(), now, found)
                    &&& rotated(
                        old(self).store_state().keys(),
                        self.store_state().keys(),
                        found,
                        k,
                        crate::retry::capped_add(now as int, overlap_window(old(self).configuration().overlap_period)) as u64,
                    )
                };
                assert(newest_active(old(self).store_state().keys(), org_id@, key_type.kind(), now, found));
                assert(rotated(old(self).store_state().keys(), self.store_state().keys(), found, k,
                    crate::retry::capped_add(now as int, overlap_window(old(self).configuration().overlap_period)) as u64));
            }
        }
        res
    }

    /// The newest active key of an organization and type, for signing or
    /// encrypting; an error when there is none.
    pub fn get_signing_key(&self, org_id: &str, key_type: &KeyType) -> (res: Result<VersionedKey, KeyError>)
        requires
            self.store_state().ready(),
        ensures
            res matches Ok(k) ==> exists|now: u64|
                #[trigger] newest_active(self.store_state().keys(), org_id@, key_type.kind(), now, Some(k)),
            self.store_state().infallible() ==> exists|now: u64, found: Option<VersionedKey>| {
                &&& #[trigger] newest_active(self.store_state().keys(), org_id@, key_type.kind(), now, found)
                &&& signing_answer(found, *key_type, res)
            },
    {
        match self.store.get_active(org_id, key_type) {
            Ok(Some(k)) => Ok(k),
            Ok(None) => Err(KeyError::NoActiveKey(key_type.copy())),
            Err(e) => Err(e),
        }
    }

    /// All keys of an organization and type that are valid for verification
    /// or decryption now.
    pub fn get_verification_keys(&self, org_id: &str, key_type: &KeyType) -> (res: Result<Vec<VersionedKey>, KeyError>)
        requires
            self.store_state().ready(),
        ensures
            self.store_state().infallible() ==> res is Ok,
            res matches Ok(valid) ==> exists|now: u64| lists_keys(
                self.store_state().keys(),
                valid@,
                #[trigger] verifiable_keep(org_id@, key_type.kind(), now),
            ),
    {
        let all = match self.store.get_all(org_id, key_type) {
            Ok(v) => v,
            Err(e) => return Err(e),
        };
        let now = crate::clock::now_millis();
        let ghost keys = self.store.keys();
        let ghost keep = verifiable_keep(org_id@, key_type.kind(), now);
        let ghost owned = |k: VersionedKey| owned_by(k, org_id@, key_type.kind());
        assert(lists_keys(keys, all@, owned));
        let mut out: Vec<VersionedKey> = Vec::new();
        let mut i: usize = 0;
        while i < all.len()
            invariant
                i <= all@.len(),
                lists_keys(keys, all@, owned),
                keep == verifiable_keep(org_id@, key_type.kind(), now),
                forall|k2: int| #![trigger out@[k2]] 0 <= k2 < out@.len() ==> exists|j: int| 0 <= j < i && key_copy(#[trigger] all@[j], out@[k2]),
                forall|k2: int| 0 <= k2 < out@.len() ==> verifiable_at(#[trigger] out@[k2], now),
                forall|a: int, b: int| 0 <= a < b < out@.len() ==> out@[a].id != out@[b].id,
                forall|j: int| 0 <= j < i && verifiable_at(#[trigger] all@[j], now)
                    ==> exists|k2: int| 0 <= k2 < out@.len() && #[trigger] out@[k2].id == all@[j].id,
            decreases all@.len() - i,
        {
            if all[i].is_valid_for_verification_at(now) {
                let ghost before = out@;
                let c = all[i].copy();
                out.push(c);
                proof {
                    assert forall|a: int, b: int| 0 <= a < b < out@.len() implies out@[a].id != out@[b].id by {
                        if b == out@.len() - 1 {
                            assert(out@[a] == before[a]);
                            let j = choose|j: int| 0 <= j < i && key_copy(#[trigger] all@[j], before[a]);
                            assert(all@[j].id != all@[i as int].id);
                        } else {
                            assert(out@[a] == before[a] && out@[b] == before[b]);
                        }
                    }
                    assert forall|k2: int| #![trigger out@[k2]] 0 <= k2 < out@.len() implies exists|j: int| 0 <= j < i + 1 && key_copy(#[trigger] all@[j], out@[k2]) by {
                        if k2 < out@.len() - 1 {
                            assert(out@[k2] == before[k2]);
                        }
                    }
                    assert forall|j: int| 0 <= j < i + 1 && verifiable_at(#[trigger] all@[j], now)
                        implies exists|k2: int| 0 <= k2 < out@.len() && #[trigger] out@[k2].id == all@[j].id by {
                        if j == i {
                            assert(out@[out@.len() - 1].id == all@[j].id);
                        } else {
                            let k2 = choose|k2: int| 0 <= k2 < before.len() && #[trigger] before[k2].id == all@[j].id;
                            assert(out@[k2] == before[k2]);
                        }
                    }
                }
            }
            i = i + 1;
        }
        proof {
            assert forall|k2: int| 0 <= k2 < out@.len() implies {
                &&& keys.contains_key(#[trigger] out@[k2].id)
                &&& key_copy(keys[out@[k2].id], out@[k2])
                &&& keep(keys[out@[k2].id])
            } by {
                let j = choose|j: int| 0 <= j < i && key_copy(#[trigger] all@[j], out@[k2]);
                assert(keys.contains_key(all@[j].id));
            }
            assert forall|id: u128| #[trigger] keys.contains_key(id) && keep(keys[id])
                implies exists|k2: int| 0 <= k2 < out@.len() && #[trigger] out@[k2].id == id by {
                assert(owned(keys[id]));
                let j = choose|j: int| 0 <= j < all@.len() && #[trigger] all@[j].id == id;
                assert(keys.contains_key(all@[j].id));
            }
            assert(lists_keys(keys, out@, keep));
        }
        Ok(out)
    }

    /// Revokes a key.
    pub fn revoke_key(&mut self, key_id: u128) -> (res: Result<(), KeyError>)
        requires
            old(self).store_state().ready(),
        ensures
            final(self).store_state().ready(),
            final(self).configuration() == old(self).configuration(),
            final(self).store_state().infallible() == old(self).store_state().infallible(),
            old(self).store_state().infallible() ==> (res is Ok <==> old(self).store_state().keys().contains_key(key_id)),
            res is Ok ==> {
                &&& old(self).store_state().keys().contains_key(key_id)
                &&& final(self).store_state().keys() == old(self).store_state().keys().insert(
                    key_id,
                    VersionedKey { status: KeyStatus::Revoked, ..old(self).store_state().keys()[key_id] },
                )
            },
    {
        self.store.update_status(key_id, KeyStatus::Revoked)
    }

    /// Deletes the keys of an organization and type that have expired now;
    /// how many were deleted.
    pub fn cleanup_expired(&mut self, org_id: &str, key_type: &KeyType) -> (res: Result<usize, KeyError>)
        requires
            old(self).store_state().ready(),
        ensures
            final(self).store_state().ready(),
            final(self).configuration() == old(self).configuration(),
            final(self).store_state().infallible() == old(self).store_state().infallible(),
            old(self).store_state().infallible() ==> res is Ok,
            res matches Ok(n) ==> exists|now: u64| {
                &&& final(self).store_state().keys() == old(self).store_state().keys().remove_keys(
                    #[trigger] expired_keys(old(self).store_state().keys(), org_id@, key_type.kind(), now),
                )
                &&& n == expired_keys(old(self).store_state().keys(), org_id@, key_type.kind(), now).len()
            },
    {
        let all = match self.store.get_all(org_id, key_type) {
            Ok(v) => v,
            Err(e) => return Err(e),
        };
        let now = crate::clock::now_millis();
        let ghost keys0 = self.store.keys();
        let ghost owned = |k: VersionedKey| owned_by(k, org_id@, key_type.kind());
        assert(lists_keys(keys0, all@, owned));
        let ghost mut deleted: Set<u128> = Set::empty();
        let mut cleaned: usize = 0;
        let mut i: usize = 0;
        while i < all.len()
            invariant
                i <= all@.len(),
                lists_keys(keys0, all@, owned),
                self.store.ready(),
                self.config == old(self).config,
                self.store.infallible() == old(self).store.infallible(),
                deleted.finite(),
                deleted.len() == cleaned,
                cleaned <= i,
                forall|id: u128| #[trigger] deleted.contains(id) <==> exists|j: int|
                    0 <= j < i && #[trigger] all@[j].id == id && status_after(all@[j], now) == KeyStatus::Expired,
                self.store.keys() == keys0.remove_keys(deleted),
            decreases all@.len() - i,
        {
            let mut key = all[i].copy();
            key.update_status_at(now);
            if key.status == KeyStatus::Expired {
                match self.store.delete(key.id) {
                    Ok(()) => {},
                    Err(e) => return Err(e),
                }
                proof {
                    assert(!deleted.contains(all@[i as int].id)) by {
                        if deleted.contains(all@[i as int].id) {
                            let j = choose|j: int| 0 <= j < i && #[trigger] all@[j].id == all@[i as int].id
                                && status_after(all@[j], now) == KeyStatus::Expired;
                        }
                    }
                    let d2 = deleted.insert(all@[i as int].id);
                    assert(keys0.remove_keys(deleted).remove(all@[i as int].id) =~= keys0.remove_keys(d2));
                    assert forall|id: u128| #[trigger] d2.contains(id) <==> exists|j: int|
                        0 <= j < i + 1 && #[trigger] all@[j].id == id && status_after(all@[j], now) == KeyStatus::Expired by {
                        if id == all@[i as int].id {
                            assert(all@[i as int].id == id && status_after(all@[i as int], now) == KeyStatus::Expired);
                        }
                    }
                    deleted = d2;
                }
                cleaned = cleaned + 1;
            } else {
                proof {
                    assert forall|id: u128| #[trigger] deleted.contains(id) <==> exists|j: int|
                        0 <= j < i + 1 && #[trigger] all@[j].id == id && status_after(all@[j], now) == KeyStatus::Expired by {
                        if exists|j: int| 0 <= j < i + 1 && #[trigger] all@[j].id == id && status_after(all@[j], now) == KeyStatus::Expired {
                            let j = choose|j: int| 0 <= j < i + 1 && #[trigger] all@[j].id == id && status_after(all@[j], now) == KeyStatus::Expired;
                            assert(j != i);
                        }
                    }
                }
            }
            i = i + 1;
        }
        proof {
            assert(deleted =~= expired_keys(keys0, org_id@, key_type.kind(), now)) by {
                assert forall|id: u128| deleted.contains(id) <==> #[trigger] expired_keys(keys0, org_id@, key_type.kind(), now).contains(id) by {
                    if deleted.contains(id) {
                        let j = choose|j: int| 0 <= j < i && #[trigger] all@[j].id == id && status_after(all@[j], now) == KeyStatus::Expired;
                        assert(keys0.contains_key(all@[j].id));
                    }
                    if expired_keys(keys0, org_id@, key_type.kind(), now).contains(id) {
                        assert(keys0.contains_key(id) && owned(keys0[id]));
                        let j = choose|j: int| 0 <= j < all@.len() && #[trigger] all@[j].id == id;
                        assert(keys0.contains_key(all@[j].id));
                    }
                }
            }
        }
        Ok(cleaned)
    }
}

/// Selects the keys of `org` and `kind` that are valid for verification at `now`.
pub open spec fn verifiable_keep(org: Seq<char>, kind: (nat, Seq<char>), now: u64) -> spec_fn(VersionedKey) -> bool {
    |k: VersionedKey| owned_by(k, org, kind) && verifiable_at(k, now)
}

/// A key the store holds as revoked is never handed out for signing: the
/// newest active key found at any time is not it.
pub proof fn lemma_revoked_never_signs(
    keys: Map<u128, VersionedKey>,
    org: Seq<char>,
    kind: (nat, Seq<char>),
    now: u64,
    k: VersionedKey,
    id: u128,
)
    requires
        newest_active(keys, org, kind, now, Some(k)),
        keys.contains_key(id),
        keys[id].status == KeyStatus::Revoked,
    ensures
        k.id != id,
{
}

/// After a rotation, the new key is one version above the key it replaced
/// and is active from its creation; the replaced key stays valid for
/// verification until the end of its grace period and no longer signs.
pub proof fn lemma_rotation(
    before: Map<u128, VersionedKey>,
    after: Map<u128, VersionedKey>,
    org: Seq<char>,
    kind: (nat, Seq<char>),
    now: u64,
    found: Option<VersionedKey>,
    k: VersionedKey,
    graced_until: u64,
    t: u64,
)
    requires
        newest_active(before, org, kind, now, found),
        rotated(before, after, found, k, graced_until),
        k.status == KeyStatus::Active,
        k.expires_at is None,
    ensures
        after.contains_key(k.id),
        active_at(after[k.id], t) <==> k.active_from <= t,
        found matches Some(c) ==> {
            &&& k.version == c.version + 1
            &&& c.id != k.id ==> {
                &&& after.contains_key(c.id)
                &&& !active_at(after[c.id], t)
                &&& (c.active_from <= t <= graced_until ==> verifiable_at(after[c.id], t))
            }
        },
        found is None ==> k.version == 1,
{
    let c2 = choose|c2: VersionedKey| #[trigger] key_copy(k, c2) && after == match found {
        Some(c) => before.insert(
            c.id,
            VersionedKey { status: KeyStatus::GracePeriod, expires_at: Some(graced_until), ..c },
        ).insert(k.id, c2),
        None => before.insert(k.id, c2),
    };
    assert(after[k.id] == c2);
}

/// A rotated-out key stays usable for verification for the whole overlap
/// period after the rotation: from the moment the new key is created until
/// the overlap period later, it verifies but no longer signs, and its expiry
/// is the end of that period (capped at the end of time).
pub proof fn lemma_rotation_overlap(
    before: Map<u128, VersionedKey>,
    after: Map<u128, VersionedKey>,
    org: Seq<char>,
    kind: (nat, Seq<char>),
    c: VersionedKey,
    k: VersionedKey,
    overlap: u64,
    t: u64,
)
    requires
        newest_active(before, org, kind, k.created_at, Some(c)),
        rotated(before, after, Some(c), k, crate::retry::capped_add(k.created_at as int, overlap_window(overlap)) as u64),
        k.status == KeyStatus::Active,
        k.expires_at is None,
        c.id != k.id,
    ensures
        after.contains_key(c.id),
        after[c.id].expires_at == Some(crate::retry::capped_add(k.created_at as int, overlap_window(overlap)) as u64),
        after[c.id].status == KeyStatus::GracePeriod,
        k.created_at <= t <= crate::retry::capped_add(k.created_at as int, overlap_window(overlap)) ==> verifiable_at(after[c.id], t),
        !active_at(after[c.id], t),
{
    let g = crate::retry::capped_add(k.created_at as int, overlap_window(overlap)) as u64;
    lemma_rotation(before, after, org, kind, k.created_at, Some(c), k, g, t);
    let c2 = choose|c2: VersionedKey| #[trigger] key_copy(k, c2) && after == before.insert(
        c.id,
        VersionedKey { status: KeyStatus::GracePeriod, expires_at: Some(g), ..c },
    ).insert(k.id, c2);
    assert(after[c.id] == VersionedKey { status: KeyStatus::GracePeriod, expires_at: Some(g), ..c });
}

/// Generates `length` bytes of random key material.
pub fn generate_key_material(length: usize) -> (res: Vec<u8>)
    ensures
        res@.len() == length,
{
    crate::random::random_bytes(length)
}

} // verus!
