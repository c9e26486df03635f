//! Caching layer: an in-memory LRU cache with per-entry time-to-live, and
//! a cache-aside helper.
//!
//! Times are milliseconds on the clock of `crate::clock`; each operation
//! that reads the clock has a twin ending in `_at` that takes the time as an
//! argument and states exactly what it does.
//!
//! The cache keeps its entries in an access list, most recently used first,
//! one slot per key. An entry that is deleted, or found expired, leaves the
//! list; eviction drops the last slot, the least recently used entry, so
//! the cache never holds more entries than its capacity.

use vstd::prelude::*;

verus! {

/// A cached value with its metadata.
#[derive(Debug, Clone)]
pub struct CachedValue<T> {
    /// The actual value.
    pub value: T,
    /// When the value was cached.
    pub cached_at: u64,
    /// When the value expires, if it does.
    pub expires_at: Option<u64>,
    /// Cache generation (for invalidation).
    pub generation: u64,
}

/// `a + b`, or `u64::MAX` where the sum does not fit.
pub open spec fn saturating_sum(a: u64, b: u64) -> u64 {
    if a + b > u64::MAX { u64::MAX } else { (a + b) as u64 }
}

/// The expiry time of an entry cached at `now` for `ttl`.
pub open spec fn expiry(now: u64, ttl: Option<u64>) -> Option<u64> {
    match ttl {
        Some(d) => Some(saturating_sum(now, d)),
        None => None,
    }
}

/// The time-to-live an entry gets: its own, or else the default.
pub open spec fn effective_ttl(ttl: Option<u64>, default_ttl: Option<u64>) -> Option<u64> {
    if ttl is Some { ttl } else { default_ttl }
}

/// Whether an entry with expiry `expires_at` has expired at `now`.
pub open spec fn expired_at(expires_at: Option<u64>, now: u64) -> bool {
    match expires_at {
        Some(e) => now > e,
        None => false,
    }
}

/// The time left at `now` before the expiry `expires_at`: `None` when
/// there is no expiry or it is not after `now`.
pub open spec fn ttl_left(expires_at: Option<u64>, now: u64) -> Option<u64> {
    match expires_at {
        Some(e) => if now < e { Some((e - now) as u64) } else { None },
        None => None,
    }
}

/// How long after `start` the time `now` lies, or zero for a time before it.
pub open spec fn elapsed_since(start: u64, now: u64) -> int {
    if now >= start { now - start } else { 0 }
}

impl<T> CachedValue<T> {
    /// Wraps `value`, cached at `now`, expiring `ttl` later when there is a ttl.
    pub fn new_at(value: T, ttl: Option<u64>, now: u64) -> (res: Self)
        ensures
            res.value == value,
            res.cached_at == now,
            res.expires_at == expiry(now, ttl),
            res.generation == 0,
    {
        let expires_at = match ttl {
            Some(d) => Some(now.saturating_add(d)),
            None => None,
        };
        CachedValue { value, cached_at: now, expires_at, generation: 0 }
    }

    /// Wraps `value`, cached now, expiring `ttl` later when there is a ttl.
    pub fn new(value: T, ttl: Option<u64>) -> (res: Self)
        ensures
            res.value == value,
            res.expires_at == expiry(res.cached_at, ttl),
            res.generation == 0,
    {
        Self::new_at(value, ttl, crate::clock::now_millis())
    }

    /// Whether the value has expired at `now`.
    pub fn is_expired_at(&self, now: u64) -> (res: bool)
        ensures
            res == expired_at(self.expires_at, now),
    {
        match self.expires_at {
            Some(e) => now > e,
            None => false,
        }
    }

    /// Whether the value has expired now; never for a value without expiry.
    pub fn is_expired(&self) -> (res: bool)
        ensures
            exists|now: u64| res == #[trigger] expired_at(self.expires_at, now),
    {
        let now = crate::clock::now_millis();
        let res = self.is_expired_at(now);
        assert(res == expired_at(self.expires_at, now));
        res
    }

    /// How long ago, at `now`, the value was cached (zero for a time before that).
    pub fn age_at(&self, now: u64) -> (res: u64)
        ensures
            res == elapsed_since(self.cached_at, now),
    {
        now.saturating_sub(self.cached_at)
    }

    /// How long ago the value was cached, by the clock's reading now.
    pub fn age(&self) -> (res: u64)
        ensures
            exists|now: u64| res == #[trigger] elapsed_since(self.cached_at, now),
    {
        let now = crate::clock::now_millis();
        let res = self.age_at(now);
        assert(res == elapsed_since(self.cached_at, now));
        res
    }

    /// The time left at `now` before the value expires: `None` when it has
    /// no expiry or the expiry is not after `now`.
    pub fn ttl_remaining_at(&self, now: u64) -> (res: Option<u64>)
        ensures
            res == ttl_left(self.expires_at, now),
    {
        match self.expires_at {
            Some(e) => if now < e { Some(e - now) } else { None },
            None => None,
        }
    }

    /// The time left before the value expires, if it has an expiry after now.
    pub fn ttl_remaining(&self) -> (res: Option<u64>)
        ensures
            exists|now: u64| res == #[trigger] ttl_left(self.expires_at, now),
    {
        let now = crate::clock::now_millis();
        let res = self.ttl_remaining_at(now);
        assert(res == ttl_left(self.expires_at, now));
        res
    }
}

/// Copies an entry's metadata and clones its value.
fn clone_entry<V: Clone>(c: &CachedValue<V>) -> (res: CachedValue<V>)
    ensures
        cloned::<V>(c.value, res.value),
        res.cached_at == c.cached_at,
        res.expires_at == c.expires_at,
        res.generation == c.generation,
{
    CachedValue {
        value: c.value.clone(),
        cached_at: c.cached_at,
        expires_at: c.expires_at,
        generation: c.generation,
    }
}

/// Cache statistics.
#[derive(Debug, Clone, Copy, Default)]
pub struct CacheStats {
    pub hits: u64,
    pub misses: u64,
    pub evictions: u64,
    pub size: usize,
}

/// A key a cache can compare and copy: by its view.
pub trait CacheKey: View + Sized {
    /// Whether two keys are the same.
    fn same_key(&self, other: &Self) -> (res: bool)
        ensures
            res == (self@ == other@);

    /// A copy of the key.
    fn copy_key(&self) -> (res: Self)
        ensures
            res@ == self@;
}

impl CacheKey for String {
    fn same_key(&self, other: &Self) -> (res: bool) {
        *self == *other
    }

    fn copy_key(&self) -> (res: Self) {
        self.clone()
    }
}

impl CacheKey for u64 {
    fn same_key(&self, other: &Self) -> (res: bool) {
        *self == *other
    }

    fn copy_key(&self) -> (res: Self) {
        *self
    }
}

impl CacheKey for u32 {
    fn same_key(&self, other: &Self) -> (res: bool) {
        *self == *other
    }

    fn copy_key(&self) -> (res: Self) {
        *self
    }
}

impl CacheKey for usize {
    fn same_key(&self, other: &Self) -> (res: bool) {
        *self == *other
    }

    fn copy_key(&self) -> (res: Self) {
        *self
    }
}

impl CacheKey for i64 {
    fn same_key(&self, other: &Self) -> (res: bool) {
        *self == *other
    }

    fn copy_key(&self) -> (res: Self) {
        *self
    }
}

/// A slot of the access list: a key with its entry.
pub type SlotView<KV, V> = (KV, CachedValue<V>);

/// The first slot of key `k` at or after index `i`.
pub open spec fn find_from<KV, V>(c: Seq<SlotView<KV, V>>, k: KV, i: int) -> Option<int>
    decreases c.len() - i,
{
    if i < 0 || i >= c.len() {
        None
    } else if c[i].0 == k {
        Some(i)
    } else {
        find_from(c, k, i + 1)
    }
}

/// The slot of key `k`, if any.
pub open spec fn find_key<KV, V>(c: Seq<SlotView<KV, V>>, k: KV) -> Option<int> {
    find_from(c, k, 0)
}

/// No key has two slots.
pub open spec fn chain_wf<KV, V>(c: Seq<SlotView<KV, V>>) -> bool {
    forall|i: int, j: int| 0 <= i < c.len() && 0 <= j < c.len() && i != j ==> c[i].0 != c[j].0
}

/// The most entries a cache of capacity `capacity` holds: the capacity,
/// or one for a capacity of zero (the entry just stored).
pub open spec fn size_bound(capacity: nat) -> nat {
    if capacity == 0 { 1 } else { capacity }
}

/// The list with slot `i` moved to the front.
pub open spec fn move_front<KV, V>(c: Seq<SlotView<KV, V>>, i: int) -> Seq<SlotView<KV, V>> {
    seq![c[i]] + c.remove(i)
}

/// The list without the slot of key `k` (if any).
pub open spec fn drop_key<KV, V>(c: Seq<SlotView<KV, V>>, k: KV) -> Seq<SlotView<KV, V>> {
    match find_key(c, k) {
        Some(i) => c.remove(i),
        None => c,
    }
}

/// Whether storing a new entry under `k` first evicts the least recently
/// used entry: the key is new and the entries fill the capacity.
pub open spec fn set_evicts<KV, V>(c: Seq<SlotView<KV, V>>, k: KV, capacity: nat) -> bool {
    find_key(c, k) is None && c.len() >= capacity && c.len() > 0
}

/// The list after storing `entry` under `k`: a present key's slot moves to
/// the front and takes the entry; a new key first makes room (dropping the
/// last, least recently used, slot when the entries fill the capacity) and
/// then gets a slot at the front.
pub open spec fn set_chain<KV, V>(
    c: Seq<SlotView<KV, V>>,
    k: KV,
    entry: CachedValue<V>,
    capacity: nat,
) -> Seq<SlotView<KV, V>> {
    match find_key(c, k) {
        Some(i) => move_front(c, i).update(0, (k, entry)),
        None => {
            let c2 = if set_evicts(c, k, capacity) { c.drop_last() } else { c };
            seq![(k, entry)] + c2
        },
    }
}

/// The list after a lookup of `k` at `now`: an unexpired entry is moved to
/// the front, an expired one removed.
pub open spec fn get_chain<KV, V>(c: Seq<SlotView<KV, V>>, k: KV, now: u64) -> Seq<SlotView<KV, V>> {
    match find_key(c, k) {
        Some(i) => if expired_at(c[i].1.expires_at, now) {
            c.remove(i)
        } else {
            move_front(c, i)
        },
        None => c,
    }
}

/// Whether a lookup of `k` at `now` is a hit.
pub open spec fn get_hits<KV, V>(c: Seq<SlotView<KV, V>>, k: KV, now: u64) -> bool {
    match find_key(c, k) {
        Some(i) => !expired_at(c[i].1.expires_at, now),
        None => false,
    }
}

/// What `find_from` finds.
pub proof fn lemma_find_from<KV, V>(c: Seq<SlotView<KV, V>>, k: KV, i: int)
    requires
        0 <= i,
    ensures
        find_from(c, k, i) matches Some(j) ==> i <= j < c.len() && c[j].0 == k,
        find_from(c, k, i) matches Some(j) ==> forall|m: int| i <= m < j ==> c[m].0 != k,
        find_from(c, k, i) is None ==> forall|m: int| i <= m < c.len() ==> c[m].0 != k,
    decreases c.len() - i,
{
    if i < c.len() && c[i].0 != k {
        lemma_find_from(c, k, i + 1);
    }
}

/// In a well-formed list, the slot of a key is its only slot.
pub proof fn lemma_find_key<KV, V>(c: Seq<SlotView<KV, V>>, k: KV)
    requires
        chain_wf(c),
    ensures
        find_key(c, k) matches Some(j) ==> 0 <= j < c.len() && c[j].0 == k,
        find_key(c, k) matches Some(j) ==> forall|m: int| 0 <= m < c.len() && m != j ==> c[m].0 != k,
        find_key(c, k) is None ==> forall|m: int| 0 <= m < c.len() ==> c[m].0 != k,
{
    lemma_find_from(c, k, 0);
}

/// Removing a slot keeps a list well-formed, and its key leaves the list.
pub proof fn lemma_wf_remove<KV, V>(c: Seq<SlotView<KV, V>>, i: int)
    requires
        chain_wf(c),
        0 <= i < c.len(),
    ensures
        chain_wf(c.remove(i)),
        find_key(c.remove(i), c[i].0) is None,
        c.remove(i).len() == c.len() - 1,
{
    let d = c.remove(i);
    assert forall|a: int, b: int| 0 <= a < d.len() && 0 <= b < d.len() && a != b implies d[a].0 != d[b].0 by {
        let pa = if a < i { a } else { a + 1 };
        let pb = if b < i { b } else { b + 1 };
        assert(d[a] == c[pa] && d[b] == c[pb]);
    }
    assert forall|m: int| 0 <= m < d.len() implies d[m].0 != c[i].0 by {
        let pm = if m < i { m } else { m + 1 };
        assert(d[m] == c[pm]);
    }
    lemma_find_from(d, c[i].0, 0);
}

/// Dropping a key keeps a list well-formed and leaves the key out of it.
pub proof fn lemma_wf_drop_key<KV, V>(c: Seq<SlotView<KV, V>>, k: KV)
    requires
        chain_wf(c),
    ensures
        chain_wf(drop_key(c, k)),
        find_key(drop_key(c, k), k) is None,
        drop_key(c, k).len() <= c.len(),
{
    lemma_find_key(c, k);
    if let Some(i) = find_key(c, k) {
        lemma_wf_remove(c, i);
    }
}

/// Moving a slot to the front keeps a list well-formed.
pub proof fn lemma_wf_move_front<KV, V>(c: Seq<SlotView<KV, V>>, i: int)
    requires
        chain_wf(c),
        0 <= i < c.len(),
    ensures
        chain_wf(move_front(c, i)),
        move_front(c, i).len() == c.len(),
        move_front(c, i)[0] == c[i],
        forall|m: int| 0 <= m < i ==> move_front(c, i)[m + 1] == c[m],
        forall|m: int| i < m < c.len() ==> move_front(c, i)[m] == c[m],
{
    let d = move_front(c, i);
    assert forall|m: int| 0 <= m < i implies d[m + 1] == c[m] by {}
    assert forall|m: int| i < m < c.len() implies d[m] == c[m] by {}
    assert forall|a: int, b: int| 0 <= a < d.len() && 0 <= b < d.len() && a != b implies d[a].0 != d[b].0 by {
        let pa = if a == 0 { i } else if a <= i { a - 1 } else { a };
        let pb = if b == 0 { i } else if b <= i { b - 1 } else { b };
        assert(d[a] == c[pa]);
        assert(d[b] == c[pb]);
    }
}

/// Storing keeps a list well-formed and within the size bound, and leaves
/// the entry at the front.
pub proof fn lemma_wf_set<KV, V>(c: Seq<SlotView<KV, V>>, k: KV, entry: CachedValue<V>, capacity: nat)
    requires
        chain_wf(c),
        c.len() <= size_bound(capacity),
    ensures
        chain_wf(set_chain(c, k, entry, capacity)),
        set_chain(c, k, entry, capacity).len() <= size_bound(capacity),
        set_chain(c, k, entry, capacity)[0] == (k, entry),
        find_key(set_chain(c, k, entry, capacity), k) == Some(0int),
{
    lemma_find_key(c, k);
    let r = set_chain(c, k, entry, capacity);
    match find_key(c, k) {
        Some(i) => {
            lemma_wf_move_front(c, i);
            let m = move_front(c, i);
            assert forall|a: int, b: int| 0 <= a < r.len() && 0 <= b < r.len() && a != b implies r[a].0 != r[b].0 by {
                if a != 0 && b != 0 {
                    assert(r[a] == m[a] && r[b] == m[b]);
                } else if a == 0 {
                    assert(r[b] == m[b]);
                    let pb = if b <= i { b - 1 } else { b };
                    assert(m[b] == c[pb]);
                } else {
                    assert(r[a] == m[a]);
                    let pa = if a <= i { a - 1 } else { a };
                    assert(m[a] == c[pa]);
                }
            }
        },
        None => {
            let c2 = if set_evicts(c, k, capacity) { c.drop_last() } else { c };
            assert forall|m: int| 0 <= m < c2.len() implies c2[m].0 != k by {
                assert(c2[m] == c[m]);
            }
            assert forall|a: int, b: int| 0 <= a < r.len() && 0 <= b < r.len() && a != b implies r[a].0 != r[b].0 by {
                if a != 0 && b != 0 {
                    assert(r[a] == c2[a - 1] && r[b] == c2[b - 1]);
                    assert(c2[a - 1] == c[a - 1] && c2[b - 1] == c[b - 1]);
                } else if a == 0 {
                    assert(r[b] == c2[b - 1]);
                } else {
                    assert(r[a] == c2[a - 1]);
                }
            }
        },
    }
    lemma_find_from(r, k, 0);
}

/// A lookup keeps a list well-formed and no longer.
pub proof fn lemma_wf_get<KV, V>(c: Seq<SlotView<KV, V>>, k: KV, now: u64)
    requires
        chain_wf(c),
    ensures
        chain_wf(get_chain(c, k, now)),
        get_chain(c, k, now).len() <= c.len(),
{
    lemma_find_key(c, k);
    if let Some(i) = find_key(c, k) {
        if expired_at(c[i].1.expires_at, now) {
            lemma_wf_remove(c, i);
        } else {
            lemma_wf_move_front(c, i);
        }
    }
}

/// The entry a lookup of `k` hits in `c`.
pub open spec fn hit_entry<KV, V>(c: Seq<SlotView<KV, V>>, k: KV) -> CachedValue<V> {
    c[find_key(c, k).unwrap()].1
}

/// What a lookup of `k` at `now` does: the list becomes `get_chain`; a hit
/// counts one hit and returns a copy of the entry, a miss counts one miss
/// and returns nothing.
pub open spec fn get_outcome<KV, V: Clone>(
    c: Seq<SlotView<KV, V>>,
    counts: (u64, u64, u64),
    c2: Seq<SlotView<KV, V>>,
    counts2: (u64, u64, u64),
    k: KV,
    now: u64,
    res: Option<CachedValue<V>>,
) -> bool {
    &&& c2 == get_chain(c, k, now)
    &&& if get_hits(c, k, now) {
        &&& counts2 == ((counts.0 + 1) as u64, counts.1, counts.2)
        &&& res matches Some(r) && {
            let e = hit_entry(c, k);
            &&& cloned::<V>(e.value, r.value)
            &&& r.cached_at == e.cached_at
            &&& r.expires_at == e.expires_at
            &&& r.generation == e.generation
        }
    } else {
        &&& counts2 == (counts.0, (counts.1 + 1) as u64, counts.2)
        &&& res is None
    }
}

/// What storing `value` under `k` at `now` with time-to-live `ttl` does:
/// the list becomes `set_chain`, and an eviction is counted when one happens.
pub open spec fn set_outcome<KV, V>(
    c: Seq<SlotView<KV, V>>,
    counts: (u64, u64, u64),
    c2: Seq<SlotView<KV, V>>,
    counts2: (u64, u64, u64),
    capacity: nat,
    k: KV,
    value: V,
    ttl: Option<u64>,
    now: u64,
) -> bool {
    &&& c2 == set_chain(
        c,
        k,
        CachedValue { value, cached_at: now, expires_at: expiry(now, ttl), generation: 0 },
        capacity,
    )
    &&& counts2.0 == counts.0
    &&& counts2.1 == counts.1
    &&& counts2.2 == counts.2 + if set_evicts(c, k, capacity) { 1int } else { 0int }
}

/// Read after write: right after a value is stored under a key, a lookup of
/// the key before the entry expires is a hit on exactly that entry.
pub proof fn lemma_get_after_set<KV, V>(
    c: Seq<SlotView<KV, V>>,
    k: KV,
    value: V,
    ttl: Option<u64>,
    set_time: u64,
    get_time: u64,
    capacity: nat,
)
    requires
        chain_wf(c),
        c.len() <= size_bound(capacity),
        !expired_at(expiry(set_time, ttl), get_time),
    ensures
        ({
            let entry = CachedValue { value, cached_at: set_time, expires_at: expiry(set_time, ttl), generation: 0 };
            let c2 = set_chain(c, k, entry, capacity);
            &&& get_hits(c2, k, get_time)
            &&& hit_entry(c2, k) == entry
            &&& hit_entry(c2, k).value == value
        }),
{
    let entry = CachedValue { value, cached_at: set_time, expires_at: expiry(set_time, ttl), generation: 0 };
    lemma_wf_set(c, k, entry, capacity);
}

/// Entries expire: once the time-to-live of a stored value has run out, a
/// lookup of its key misses.
pub proof fn lemma_get_after_expiry<KV, V>(
    c: Seq<SlotView<KV, V>>,
    k: KV,
    value: V,
    ttl: Option<u64>,
    set_time: u64,
    get_time: u64,
    capacity: nat,
)
    requires
        chain_wf(c),
        c.len() <= size_bound(capacity),
        expired_at(expiry(set_time, ttl), get_time),
    ensures
        ({
            let entry = CachedValue { value, cached_at: set_time, expires_at: expiry(set_time, ttl), generation: 0 };
            !get_hits(set_chain(c, k, entry, capacity), k, get_time)
        }),
{
    let entry = CachedValue { value, cached_at: set_time, expires_at: expiry(set_time, ttl), generation: 0 };
    lemma_wf_set(c, k, entry, capacity);
}

/// After a key's entry is deleted, a lookup of the key misses.
pub proof fn lemma_get_after_delete<KV, V>(c: Seq<SlotView<KV, V>>, k: KV, now: u64)
    requires
        chain_wf(c),
    ensures
        !get_hits(drop_key(c, k), k, now),
        find_key(drop_key(c, k), k) is None,
{
    lemma_wf_drop_key(c, k);
}

/// A hit makes the key the most recently used one: its slot comes first.
pub proof fn lemma_hit_moves_to_front<KV, V>(c: Seq<SlotView<KV, V>>, k: KV, now: u64)
    requires
        chain_wf(c),
        get_hits(c, k, now),
    ensures
        find_key(get_chain(c, k, now), k) == Some(0int),
        get_chain(c, k, now)[0] == c[find_key(c, k).unwrap()],
{
    lemma_find_key(c, k);
    let i = find_key(c, k).unwrap();
    lemma_wf_move_front(c, i);
    let d = get_chain(c, k, now);
    lemma_find_from(d, k, 0);
}

/// LRU eviction: when the cache is full, storing a new key evicts exactly
/// the least recently used entry (the last slot), which is then gone, and
/// keeps every other entry, in its order, behind the new one.
pub proof fn lemma_lru_eviction<KV, V>(c: Seq<SlotView<KV, V>>, k: KV, entry: CachedValue<V>, capacity: nat)
    requires
        chain_wf(c),
        capacity >= 1,
        c.len() == capacity,
        find_key(c, k) is None,
    ensures
        set_evicts(c, k, capacity),
        set_chain(c, k, entry, capacity) == seq![(k, entry)] + c.drop_last(),
        find_key(set_chain(c, k, entry, capacity), c[c.len() - 1].0) is None,
{
    let r = set_chain(c, k, entry, capacity);
    let last = c[c.len() - 1].0;
    lemma_find_key(c, k);
    assert forall|m: int| 0 <= m < r.len() implies r[m].0 != last by {
        if m > 0 {
            assert(r[m] == c[m - 1]);
        }
    }
    lemma_find_from(r, last, 0);
}

/// Size bound: storing into a well-formed cache that holds no more than
/// its capacity leaves it holding no more than its capacity (one entry for
/// a capacity of zero).
pub proof fn lemma_capacity_bound<KV, V>(c: Seq<SlotView<KV, V>>, k: KV, entry: CachedValue<V>, capacity: nat)
    requires
        chain_wf(c),
        c.len() <= size_bound(capacity),
    ensures
        set_chain(c, k, entry, capacity).len() <= size_bound(capacity),
{
    lemma_wf_set(c, k, entry, capacity);
}

/// A slot of the access list.
struct Slot<K, V> {
    key: K,
    entry: CachedValue<V>,
}

/// In-memory cache with least-recently-used eviction and per-entry expiry.
pub struct LruCache<K, V> {
    slots: Vec<Slot<K, V>>,
    capacity: usize,
    default_ttl: Option<u64>,
    hits: u64,
    misses: u64,
    evictions: u64,
}

impl<K: CacheKey, V: Clone> LruCache<K, V> {
    /// The access list: each slot's key (by view) and entry, most recently
    /// used first.
    pub closed spec fn chain(&self) -> Seq<SlotView<K::V, V>> {
        self.slots@.map_values(|s: Slot<K, V>| (s.key@, s.entry))
    }

    /// The number of entries the cache holds at most.
    pub closed spec fn capacity_view(&self) -> nat {
        self.capacity as nat
    }

    /// The time-to-live given to entries stored without one.
    pub closed spec fn default_ttl_view(&self) -> Option<u64> {
        self.default_ttl
    }

    /// The statistics counters: hits, misses and evictions.
    pub closed spec fn counters(&self) -> (u64, u64, u64) {
        (self.hits, self.misses, self.evictions)
    }

    /// Whether no key has two entries and the entries fit the capacity.
    pub open spec fn wf(&self) -> bool {
        &&& chain_wf(self.chain())
        &&& self.chain().len() <= size_bound(self.capacity_view())
    }

    pub fn new(capacity: usize) -> (res: Self)
        ensures
            res.wf(),
            res.chain() == Seq::<SlotView<K::V, V>>::empty(),
            res.capacity_view() == capacity,
            res.default_ttl_view() is None,
            res.counters() == (0u64, 0u64, 0u64),
    {
        let res = LruCache {
            slots: Vec::new(),
            capacity,
            default_ttl: None,
            hits: 0,
            misses: 0,
            evictions: 0,
        };
        assert(res.chain() =~= Seq::<SlotView<K::V, V>>::empty());
        res
    }

    /// Gives entries stored without a time-to-live this one.
    pub fn with_default_ttl(self, ttl: u64) -> (res: Self)
        ensures
            res.chain() == self.chain(),
            res.capacity_view() == self.capacity_view(),
            res.default_ttl_view() == Some(ttl),
            res.counters() == self.counters(),
    {
        LruCache { default_ttl: Some(ttl), ..self }
    }

    /// The index of the slot of `key`.
    fn find(&self, key: &K) -> (res: Option<usize>)
        ensures
            match res {
                Some(i) => find_key(self.chain(), key@) == Some(i as int) && i < self.slots@.len()
                    && self.slots@[i as int].key@ == key@,
                None => find_key(self.chain(), key@) is None,
            },
    {
        proof {
            lemma_find_from(self.chain(), key@, 0);
        }
        let mut i: usize = 0;
        while i < self.slots.len()
            invariant
                i <= self.slots@.len(),
                find_key(self.chain(), key@) == find_from(self.chain(), key@, i as int),
                find_key(self.chain(), key@) matches Some(j) ==> j < self.slots@.len() && self.chain()[j].0 == key@,
            decreases self.slots@.len() - i,
        {
            if self.slots[i].key.same_key(key) {
                return Some(i);
            }
            i = i + 1;
        }
        None
    }

    /// Removes slot `i`.
    fn remove_slot(&mut self, i: usize)
        requires
            i < old(self).slots@.len(),
        ensures
            final(self).chain() == old(self).chain().remove(i as int),
            final(self).capacity == old(self).capacity,
            final(self).default_ttl == old(self).default_ttl,
            final(self).counters() == old(self).counters(),
    {
        self.slots.remove(i);
        assert(self.chain() =~= old(self).chain().remove(i as int));
    }

    /// Moves slot `i` to the front.
    fn move_to_front(&mut self, i: usize)
        requires
            i < old(self).slots@.len(),
        ensures
            final(self).chain() == move_front(old(self).chain(), i as int),
            final(self).capacity == old(self).capacity,
            final(self).default_ttl == old(self).default_ttl,
            final(self).counters() == old(self).counters(),
    {
        let slot = self.slots.remove(i);
        self.slots.insert(0, slot);
        assert(self.chain() =~= move_front(old(self).chain(), i as int));
    }

    /// Drops the last slot of the access list, the least recently used entry.
    fn evict_lru(&mut self)
        requires
            old(self).evictions < u64::MAX,
            old(self).slots@.len() > 0,
        ensures
            final(self).chain() == old(self).chain().drop_last(),
            final(self).capacity == old(self).capacity,
            final(self).default_ttl == old(self).default_ttl,
            final(self).hits == old(self).hits,
            final(self).misses == old(self).misses,
            final(self).evictions == old(self).evictions + 1,
    {
        self.slots.pop();
        assert(self.chain() =~= old(self).chain().drop_last());
        self.evictions = self.evictions + 1;
    }

    /// Looks `key` up at `now`. An unexpired entry is a hit: its slot moves
    /// to the front and a copy is returned. Anything else is a miss, and an
    /// expired entry is removed.
    pub fn get_at(&mut self, key: &K, now: u64) -> (res: Option<CachedValue<V>>)
        requires
            old(self).wf(),
            old(self).counters().0 < u64::MAX,
            old(self).counters().1 < u64::MAX,
        ensures
            final(self).wf(),
            final(self).capacity_view() == old(self).capacity_view(),
            final(self).default_ttl_view() == old(self).default_ttl_view(),
            get_outcome(old(self).chain(), old(self).counters(), final(self).chain(), final(self).counters(), key@, now, res),
    {
        proof {
            lemma_wf_get(self.chain(), key@, now);
        }
        match self.find(key) {
            Some(i) => {
                if self.slots[i].entry.is_expired_at(now) {
                    self.misses = self.misses + 1;
                    self.remove_slot(i);
                    None
                } else {
                    self.hits = self.hits + 1;
                    let copy = clone_entry(&self.slots[i].entry);
                    self.move_to_front(i);
                    Some(copy)
                }
            },
            None => {
                self.misses = self.misses + 1;
                None
            },
        }
    }

    /// Stores `value` under `key` at `now`, expiring after `ttl`, or after
    /// the default time-to-live when `ttl` is `None`. A key that is already
    /// present keeps its slot, moved to the front. A new key gets a slot at
    /// the front, after the least recently used entry is evicted when the
    /// entries fill the capacity.
    pub fn set_at(&mut self, key: K, value: V, ttl: Option<u64>, now: u64)
        requires
            old(self).wf(),
            old(self).counters().2 < u64::MAX,
        ensures
            final(self).wf(),
            final(self).capacity_view() == old(self).capacity_view(),
            final(self).default_ttl_view() == old(self).default_ttl_view(),
            set_outcome(
                old(self).chain(),
                old(self).counters(),
                final(self).chain(),
                final(self).counters(),
                old(self).capacity_view(),
                key@,
                value,
                effective_ttl(ttl, old(self).default_ttl_view()),
                now,
            ),
    {
        let ttl = match ttl {
            Some(d) => Some(d),
            None => self.default_ttl,
        };
        let cached = CachedValue::new_at(value, ttl, now);
        let ghost entry = cached;
        let ghost c0 = self.chain();
        proof {
            lemma_wf_set(c0, key@, entry, self.capacity as nat);
        }
        match self.find(&key) {
            Some(i) => {
                self.move_to_front(i);
                let ghost c2 = self.chain();
                proof {
                    lemma_wf_move_front(c0, i as int);
                }
                self.slots.set(0, Slot { key, entry: cached });
                assert(self.chain() =~= c2.update(0, (key@, entry)));
            },
            None => {
                if self.slots.len() > 0 && self.slots.len() >= self.capacity {
                    self.evict_lru();
                }
                let ghost c1 = self.chain();
                self.slots.insert(0, Slot { key, entry: cached });
                assert(self.chain() =~= seq![(key@, entry)] + c1);
            },
        }
    }

    /// Looks `key` up now: as `get_at`, at the time the clock reads.
    pub fn get(&mut self, key: &K) -> (res: Option<CachedValue<V>>)
        requires
            old(self).wf(),
            old(self).counters().0 < u64::MAX,
            old(self).counters().1 < u64::MAX,
        ensures
            final(self).wf(),
            final(self).capacity_view() == old(self).capacity_view(),
            final(self).default_ttl_view() == old(self).default_ttl_view(),
            exists|now: u64| get_outcome(
                old(self).chain(),
                old(self).counters(),
                final(self).chain(),
                final(self).counters(),
                key@,
                now,
                res,
            ),
    {
        let now = crate::clock::now_millis();
        self.get_at(key, now)
    }

    /// Stores `value` under `key` now: as `set_at`, at the time the clock reads.
    pub fn set(&mut self, key: K, value: V, ttl: Option<u64>)
        requires
            old(self).wf(),
            old(self).counters().2 < u64::MAX,
        ensures
            final(self).wf(),
            final(self).capacity_view() == old(self).capacity_view(),
            final(self).default_ttl_view() == old(self).default_ttl_view(),
            exists|now: u64| set_outcome(
                old(self).chain(),
                old(self).counters(),
                final(self).chain(),
                final(self).counters(),
                old(self).capacity_view(),
                key@,
                value,
                effective_ttl(ttl, old(self).default_ttl_view()),
                now,
            ),
    {
        let now = crate::clock::now_millis();
        self.set_at(key, value, ttl, now)
    }

    /// Whether `key` has an entry that is unexpired now.
    pub fn key_exists(&self, key: &K) -> (res: bool)
        ensures
            exists|now: u64| res == get_hits(self.chain(), key@, now),
    {
        let now = crate::clock::now_millis();
        self.key_exists_at(key, now)
    }

    /// Removes the entry of `key`, returning whether there was one.
    pub fn delete(&mut self, key: &K) -> (res: bool)
        requires
            old(self).wf(),
        ensures
            final(self).wf(),
            res == find_key(old(self).chain(), key@) is Some,
            final(self).chain() == drop_key(old(self).chain(), key@),
            final(self).capacity_view() == old(self).capacity_view(),
            final(self).default_ttl_view() == old(self).default_ttl_view(),
            final(self).counters() == old(self).counters(),
    {
        proof {
            lemma_wf_drop_key(self.chain(), key@);
        }
        match self.find(key) {
            Some(i) => {
                self.remove_slot(i);
                true
            },
            None => false,
        }
    }

    /// Whether `key` has an entry that is unexpired at `now`.
    pub fn key_exists_at(&self, key: &K, now: u64) -> (res: bool)
        ensures
            res == get_hits(self.chain(), key@, now),
    {
        match self.find(key) {
            Some(i) => !self.slots[i].entry.is_expired_at(now),
            None => false,
        }
    }

    /// Removes every entry; the hit, miss and eviction counts stay.
    pub fn clear(&mut self)
        ensures
            final(self).wf(),
            final(self).chain() == Seq::<SlotView<K::V, V>>::empty(),
            final(self).capacity_view() == old(self).capacity_view(),
            final(self).default_ttl_view() == old(self).default_ttl_view(),
            final(self).counters() == old(self).counters(),
    {
        self.slots.clear();
        assert(self.chain() =~= Seq::<SlotView<K::V, V>>::empty());
    }

    /// The statistics: hits, misses, evictions and the number of entries.
    pub fn stats(&self) -> (res: CacheStats)
        ensures
            res.hits == self.counters().0,
            res.misses == self.counters().1,
            res.evictions == self.counters().2,
            res.size == self.chain().len(),
    {
        CacheStats {
            hits: self.hits,
            misses: self.misses,
            evictions: self.evictions,
            size: self.slots.len(),
        }
    }
}

/// Size bound: a cache that every operation has kept well-formed (and
/// `new`, `set`, `get`, `delete` and `clear` all do) holds no more entries
/// than its capacity, or one entry for a capacity of zero, and the size its
/// statistics report is that number.
pub proof fn lemma_cache_within_capacity<K: CacheKey, V: Clone>(cache: LruCache<K, V>)
    requires
        cache.wf(),
    ensures
        cache.chain().len() <= size_bound(cache.capacity_view()),
        cache.capacity_view() >= 1 ==> cache.chain().len() <= cache.capacity_view(),
{
}

/// The interface of a cache backend, for backends other than the in-memory
/// one to implement.
pub trait CacheBackend {
    type Key;
    type Value;

    /// Whether the backend can serve a call.
    spec fn ready(&self) -> bool;

    /// Gets a value from the cache.
    fn get(&mut self, key: &Self::Key) -> Option<CachedValue<Self::Value>>
        requires
            old(self).ready();

    /// Sets a value in the cache.
    fn set(&mut self, key: Self::Key, value: Self::Value, ttl: Option<u64>)
        requires
            old(self).ready();

    /// Deletes a value from the cache.
    fn delete(&mut self, key: &Self::Key) -> bool
        requires
            old(self).ready();

    /// Checks whether a key has a value.
    fn key_exists(&self, key: &Self::Key) -> bool;

    /// Clears all entries.
    fn clear(&mut self);

    /// Gets the cache statistics.
    fn stats(&self) -> CacheStats;
}

impl<K: CacheKey, V: Clone> CacheBackend for LruCache<K, V> {
    type Key = K;
    type Value = V;

    open spec fn ready(&self) -> bool {
        &&& self.wf()
        &&& self.counters().0 < u64::MAX
        &&& self.counters().1 < u64::MAX
        &&& self.counters().2 < u64::MAX
    }

    /// As `LruCache::get`.
    fn get(&mut self, key: &K) -> (res: Option<CachedValue<V>>)
        ensures
            final(self).wf(),
            final(self).capacity_view() == old(self).capacity_view(),
            final(self).default_ttl_view() == old(self).default_ttl_view(),
            exists|now: u64| get_outcome(
                old(self).chain(),
                old(self).counters(),
                final(self).chain(),
                final(self).counters(),
                key@,
                now,
                res,
            ),
    {
        LruCache::get(self, key)
    }

    /// As `LruCache::set`.
    fn set(&mut self, key: K, value: V, ttl: Option<u64>)
        ensures
            final(self).wf(),
            final(self).capacity_view() == old(self).capacity_view(),
            final(self).default_ttl_view() == old(self).default_ttl_view(),
            exists|now: u64| set_outcome(
                old(self).chain(),
                old(self).counters(),
                final(self).chain(),
                final(self).counters(),
                old(self).capacity_view(),
                key@,
                value,
                effective_ttl(ttl, old(self).default_ttl_view()),
                now,
            ),
    {
        LruCache::set(self, key, value, ttl)
    }

    /// As `LruCache::delete`.
    fn delete(&mut self, key: &K) -> (res: bool)
        ensures
            final(self).wf(),
            res == find_key(old(self).chain(), key@) is Some,
            final(self).chain() == drop_key(old(self).chain(), key@),
            final(self).capacity_view() == old(self).capacity_view(),
            final(self).default_ttl_view() == old(self).default_ttl_view(),
            final(self).counters() == old(self).counters(),
    {
        LruCache::delete(self, key)
    }

    /// As `LruCache::key_exists`.
    fn key_exists(&self, key: &K) -> (res: bool)
        ensures
            exists|now: u64| res == get_hits(self.chain(), key@, now),
    {
        LruCache::key_exists(self, key)
    }

    /// As `LruCache::clear`.
    fn clear(&mut self)
        ensures
            final(self).wf(),
            final(self).chain() == Seq::<SlotView<K::V, V>>::empty(),
            final(self).capacity_view() == old(self).capacity_view(),
            final(self).default_ttl_view() == old(self).default_ttl_view(),
            final(self).counters() == old(self).counters(),
    {
        LruCache::clear(self)
    }

    /// As `LruCache::stats`.
    fn stats(&self) -> (res: CacheStats)
        ensures
            res.hits == self.counters().0,
            res.misses == self.counters().1,
            res.evictions == self.counters().2,
            res.size == self.chain().len(),
    {
        LruCache::stats(self)
    }
}

/// Cache errors.
#[derive(Debug, Clone)]
pub enum CacheError {
    FetchFailed(String),
    Serialization(String),
    Backend(String),
}

/// The cache-aside pattern over an in-memory cache: read through the
/// cache, fetch from the source on a miss, and store what was fetched.
pub struct CacheAside<K, V> {
    cache: LruCache<K, V>,
}

/// What `get_or_fetch` does at `now`: a hit answers from the cache without
/// fetching; otherwise the fetch's answer is returned and, when it is a
/// value, a clone of it is stored under `k` with time-to-live `ttl`.
pub open spec fn fetch_outcome<KV, V: Clone, F: FnOnce() -> Result<V, CacheError>>(
    c: Seq<SlotView<KV, V>>,
    counts: (u64, u64, u64),
    c2: Seq<SlotView<KV, V>>,
    counts2: (u64, u64, u64),
    capacity: nat,
    default_ttl: Option<u64>,
    k: KV,
    fetch: F,
    ttl: Option<u64>,
    now: u64,
    res: Result<V, CacheError>,
) -> bool {
    if get_hits(c, k, now) {
        &&& c2 == get_chain(c, k, now)
        &&& counts2 == ((counts.0 + 1) as u64, counts.1, counts.2)
        &&& res matches Ok(v) && cloned::<V>(hit_entry(c, k).value, v)
    } else {
        let mid = get_chain(c, k, now);
        let mid_counts = (counts.0, (counts.1 + 1) as u64, counts.2);
        let eff_ttl = effective_ttl(ttl, default_ttl);
        &&& call_ensures(fetch, (), res)
        &&& res is Err ==> c2 == mid && counts2 == mid_counts
        &&& res matches Ok(v) ==> exists|stored: V| cloned::<V>(v, stored) && #[trigger] set_outcome(
            mid,
            mid_counts,
            c2,
            counts2,
            capacity,
            k,
            stored,
            eff_ttl,
            now,
        )
    }
}

impl<K: CacheKey, V: Clone> CacheAside<K, V> {
    /// The cache read through.
    pub closed spec fn cache_view(&self) -> LruCache<K, V> {
        self.cache
    }

    pub fn new(cache: LruCache<K, V>) -> (res: Self)
        ensures
            res.cache_view() == cache,
    {
        CacheAside { cache }
    }

    /// The cache read through.
    pub fn cache(&self) -> (res: &LruCache<K, V>)
        ensures
            *res == self.cache_view(),
    {
        &self.cache
    }

    /// Gets the value of `key` at `now`, calling `fetch` on a miss and
    /// storing a clone of the value it gives.
    pub fn get_or_fetch_at<F: FnOnce() -> Result<V, CacheError>>(
        &mut self,
        key: &K,
        fetch: F,
        ttl: Option<u64>,
        now: u64,
    ) -> (res: Result<V, CacheError>)
        requires
            old(self).cache_view().wf(),
            old(self).cache_view().counters().0 < u64::MAX,
            old(self).cache_view().counters().1 < u64::MAX,
            old(self).cache_view().counters().2 < u64::MAX,
            call_requires(fetch, ()),
        ensures
            final(self).cache_view().wf(),
            final(self).cache_view().capacity_view() == old(self).cache_view().capacity_view(),
            final(self).cache_view().default_ttl_view() == old(self).cache_view().default_ttl_view(),
            fetch_outcome(
                old(self).cache_view().chain(),
                old(self).cache_view().counters(),
                final(self).cache_view().chain(),
                final(self).cache_view().counters(),
                old(self).cache_view().capacity_view(),
                old(self).cache_view().default_ttl_view(),
                key@,
                fetch,
                ttl,
                now,
                res,
            ),
    {
        if let Some(cached) = self.cache.get_at(key, now) {
            return Ok(cached.value);
        }
        let fetched = fetch();
        match fetched {
            Ok(value) => {
                let stored = value.clone();
                self.cache.set_at(key.copy_key(), stored, ttl, now);
                Ok(value)
            },
            Err(e) => Err(e),
        }
    }

    /// Gets the value of `key` now, calling `fetch` on a miss.
    pub fn get_or_fetch<F: FnOnce() -> Result<V, CacheError>>(
        &mut self,
        key: &K,
        fetch: F,
        ttl: Option<u64>,
    ) -> (res: Result<V, CacheError>)
        requires
            old(self).cache_view().wf(),
            old(self).cache_view().counters().0 < u64::MAX,
            old(self).cache_view().counters().1 < u64::MAX,
            old(self).cache_view().counters().2 < u64::MAX,
            call_requires(fetch, ()),
        ensures
            final(self).cache_view().wf(),
            final(self).cache_view().capacity_view() == old(self).cache_view().capacity_view(),
            final(self).cache_view().default_ttl_view() == old(self).cache_view().default_ttl_view(),
            exists|now: u64| fetch_outcome(
                old(self).cache_view().chain(),
                old(self).cache_view().counters(),
                final(self).cache_view().chain(),
                final(self).cache_view().counters(),
                old(self).cache_view().capacity_view(),
                old(self).cache_view().default_ttl_view(),
                key@,
                fetch,
                ttl,
                now,
                res,
            ),
    {
        let now = crate::clock::now_millis();
        self.get_or_fetch_at(key, fetch, ttl, now)
    }

    /// Removes the cached value of `key`.
    pub fn invalidate(&mut self, key: &K)
        requires
            old(self).cache_view().wf(),
        ensures
            final(self).cache_view().wf(),
            final(self).cache_view().chain() == drop_key(old(self).cache_view().chain(), key@),
            final(self).cache_view().capacity_view() == old(self).cache_view().capacity_view(),
            final(self).cache_view().default_ttl_view() == old(self).cache_view().default_ttl_view(),
            final(self).cache_view().counters() == old(self).cache_view().counters(),
    {
        self.cache.delete(key);
    }

    /// The cache statistics.
    pub fn stats(&self) -> (res: CacheStats)
        ensures
            res.hits == self.cache_view().counters().0,
            res.misses == self.cache_view().counters().1,
            res.evictions == self.cache_view().counters().2,
            res.size == self.cache_view().chain().len(),
    {
        self.cache.stats()
    }
}

/// A cache of serialized values: it holds each value as the bytes of its
/// JSON encoding, which the caller produces and reads back.
pub struct TypedCache<K> {
    inner: LruCache<K, Vec<u8>>,
}

impl<K: CacheKey> TypedCache<K> {
    /// The underlying cache of byte strings.
    pub closed spec fn inner_view(&self) -> LruCache<K, Vec<u8>> {
        self.inner
    }

    pub fn new(capacity: usize) -> (res: Self)
        ensures
            res.inner_view().wf(),
            res.inner_view().chain() == Seq::<SlotView<K::V, Vec<u8>>>::empty(),
            res.inner_view().capacity_view() == capacity,
            res.inner_view().default_ttl_view() is None,
            res.inner_view().counters() == (0u64, 0u64, 0u64),
    {
        TypedCache { inner: LruCache::new(capacity) }
    }

    pub fn with_default_ttl(capacity: usize, ttl: u64) -> (res: Self)
        ensures
            res.inner_view().wf(),
            res.inner_view().chain() == Seq::<SlotView<K::V, Vec<u8>>>::empty(),
            res.inner_view().capacity_view() == capacity,
            res.inner_view().default_ttl_view() == Some(ttl),
            res.inner_view().counters() == (0u64, 0u64, 0u64),
    {
        TypedCache { inner: LruCache::new(capacity).with_default_ttl(ttl) }
    }

    /// The stored bytes of `key` at `now`, counted as a hit or a miss as in `LruCache::get_at`.
    pub fn get_bytes_at(&mut self, key: &K, now: u64) -> (res: Option<Vec<u8>>)
        requires
            old(self).inner_view().wf(),
            old(self).inner_view().counters().0 < u64::MAX,
            old(self).inner_view().counters().1 < u64::MAX,
        ensures
            final(self).inner_view().wf(),
            final(self).inner_view().capacity_view() == old(self).inner_view().capacity_view(),
            final(self).inner_view().default_ttl_view() == old(self).inner_view().default_ttl_view(),
            exists|r: Option<CachedValue<Vec<u8>>>| #[trigger] get_outcome(
                old(self).inner_view().chain(),
                old(self).inner_view().counters(),
                final(self).inner_view().chain(),
                final(self).inner_view().counters(),
                key@,
                now,
                r,
            ) && res == match r { Some(c) => Some(c.value), None => None },
    {
        match self.inner.get_at(key, now) {
            Some(c) => Some(c.value),
            None => None,
        }
    }

    /// The stored bytes of `key` now.
    pub fn get_bytes(&mut self, key: &K) -> (res: Option<Vec<u8>>)
        requires
            old(self).inner_view().wf(),
            old(self).inner_view().counters().0 < u64::MAX,
            old(self).inner_view().counters().1 < u64::MAX,
        ensures
            final(self).inner_view().wf(),
            final(self).inner_view().capacity_view() == old(self).inner_view().capacity_view(),
            final(self).inner_view().default_ttl_view() == old(self).inner_view().default_ttl_view(),
            exists|now: u64, r: Option<CachedValue<Vec<u8>>>| #[trigger] get_outcome(
                old(self).inner_view().chain(),
                old(self).inner_view().counters(),
                final(self).inner_view().chain(),
                final(self).inner_view().counters(),
                key@,
                now,
                r,
            ) && res == match r { Some(c) => Some(c.value), None => None },
    {
        let now = crate::clock::now_millis();
        self.get_bytes_at(key, now)
    }

    /// Stores the encoded bytes of a value under `key` at `now`.
    pub fn set_bytes_at(&mut self, key: K, bytes: Vec<u8>, ttl: Option<u64>, now: u64)
        requires
            old(self).inner_view().wf(),
            old(self).inner_view().counters().2 < u64::MAX,
        ensures
            final(self).inner_view().wf(),
            final(self).inner_view().capacity_view() == old(self).inner_view().capacity_view(),
            final(self).inner_view().default_ttl_view() == old(self).inner_view().default_ttl_view(),
            set_outcome(
                old(self).inner_view().chain(),
                old(self).inner_view().counters(),
                final(self).inner_view().chain(),
                final(self).inner_view().counters(),
                old(self).inner_view().capacity_view(),
                key@,
                bytes,
                effective_ttl(ttl, old(self).inner_view().default_ttl_view()),
                now,
            ),
    {
        self.inner.set_at(key, bytes, ttl, now)
    }

    /// Stores the encoded bytes of a value under `key` now.
    pub fn set_bytes(&mut self, key: K, bytes: Vec<u8>, ttl: Option<u64>)
        requires
            old(self).inner_view().wf(),
            old(self).inner_view().counters().2 < u64::MAX,
        ensures
            final(self).inner_view().wf(),
            final(self).inner_view().capacity_view() == old(self).inner_view().capacity_view(),
            final(self).inner_view().default_ttl_view() == old(self).inner_view().default_ttl_view(),
            exists|now: u64| set_outcome(
                old(self).inner_view().chain(),
                old(self).inner_view().counters(),
                final(self).inner_view().chain(),
                final(self).inner_view().counters(),
                old(self).inner_view().capacity_view(),
                key@,
                bytes,
                effective_ttl(ttl, old(self).inner_view().default_ttl_view()),
                now,
            ),
    {
        self.inner.set(key, bytes, ttl)
    }

    pub fn delete(&mut self, key: &K) -> (res: bool)
        requires
            old(self).inner_view().wf(),
        ensures
            final(self).inner_view().wf(),
            res == find_key(old(self).inner_view().chain(), key@) is Some,
            final(self).inner_view().chain() == drop_key(old(self).inner_view().chain(), key@),
            final(self).inner_view().capacity_view() == old(self).inner_view().capacity_view(),
            final(self).inner_view().default_ttl_view() == old(self).inner_view().default_ttl_view(),
            final(self).inner_view().counters() == old(self).inner_view().counters(),
    {
        self.inner.delete(key)
    }

    pub fn stats(&self) -> (res: CacheStats)
        ensures
            res.hits == self.inner_view().counters().0,
            res.misses == self.inner_view().counters().1,
            res.evictions == self.inner_view().counters().2,
            res.size == self.inner_view().chain().len(),
    {
        self.inner.stats()
    }
}

} // verus!
