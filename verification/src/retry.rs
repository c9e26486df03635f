//! Webhook retry queue: reliable delivery with exponential backoff and
//! jitter, a dead letter queue for items that keep failing, and
//! at-least-once delivery.
//!
//! Times are milliseconds since the Unix epoch, on the clock of
//! `crate::clock`; durations are milliseconds. Identifiers are the 128-bit
//! values of random UUIDs.

use std::collections::HashMap;
use vstd::prelude::*;

verus! {

broadcast use vstd::std_specs::hash::group_hash_axioms;

/// Maximum number of retry attempts before moving to the dead letter queue.
pub const DEFAULT_MAX_RETRIES: u32 = 5;

/// Base delay for exponential backoff, in milliseconds.
pub const DEFAULT_BASE_DELAY: u64 = 1000;

/// Maximum delay for exponential backoff, in milliseconds (5 minutes).
pub const DEFAULT_MAX_DELAY: u64 = 300_000;

/// Status of a queued item.
#[derive(Debug, Clone, Copy, PartialEq, Eq, Structural)]
pub enum QueueItemStatus {
    /// Waiting to be processed.
    Pending,
    /// Currently being processed.
    Processing,
    /// Successfully processed.
    Completed,
    /// Failed and will be retried.
    RetryPending,
    /// Permanently failed, moved to the dead letter queue.
    Failed,
}

/// A queued webhook or task item.
#[derive(Debug)]
pub struct QueueItem<T> {
    /// Unique identifier.
    pub id: u128,
    /// The payload to deliver.
    pub payload: T,
    /// Current status.
    pub status: QueueItemStatus,
    /// Number of attempts made.
    pub attempts: u32,
    /// Maximum retry attempts.
    pub max_retries: u32,
    /// When the item was created.
    pub created_at: u64,
    /// When to process next.
    pub process_at: u64,
    /// Last error message if failed.
    pub last_error: Option<String>,
    /// Organization ID.
    pub org_id: Option<String>,
    /// Correlation ID for tracing.
    pub correlation_id: Option<u128>,
    /// Custom metadata.
    pub metadata: Vec<(String, String)>,
}

/// `2^n`, capped at `u64::MAX`.
pub open spec fn capped_pow2(n: nat) -> int
    decreases n,
{
    if n == 0 {
        1
    } else {
        let p = capped_pow2((n - 1) as nat);
        if 2 * p > u64::MAX { u64::MAX as int } else { 2 * p }
    }
}

/// The backoff before jitter after `attempts` attempts: the base delay
/// doubled for each attempt, capped at the maximum delay.
pub open spec fn backoff_delay(attempts: u32) -> int {
    let exp = DEFAULT_BASE_DELAY * capped_pow2(attempts as nat);
    if exp > DEFAULT_MAX_DELAY { DEFAULT_MAX_DELAY as int } else { exp }
}

/// The delay with jitter `draw`: the backoff moved by `draw` minus a
/// quarter of the backoff, so that draws below half the backoff give a
/// delay within a quarter of it either way.
pub open spec fn jittered_delay(attempts: u32, draw: int) -> int {
    let d = backoff_delay(attempts);
    let range = d / 4;
    if range > 0 { d + draw - range } else { d }
}

/// `2^n`, saturating at `u64::MAX`.
fn saturating_pow2(n: u32) -> (res: u64)
    ensures
        res == capped_pow2(n as nat),
{
    let mut p: u64 = 1;
    let mut i: u32 = 0;
    while i < n
        invariant
            i <= n,
            p == capped_pow2(i as nat),
            1 <= p,
        decreases n - i,
    {
        p = if p > u64::MAX / 2 { u64::MAX } else { p * 2 };
        i = i + 1;
    }
    p
}

/// The backoff before jitter after `attempts` attempts.
pub fn retry_backoff(attempts: u32) -> (res: u64)
    ensures
        res == backoff_delay(attempts),
        res <= DEFAULT_MAX_DELAY,
{
    let p = saturating_pow2(attempts);
    proof {
        lemma_pow2_positive(attempts as nat);
    }
    proof {
        assert(1000 * (p as int) <= 1000 * u64::MAX) by (nonlinear_arith)
            requires p <= u64::MAX;
    }
    let exp: u128 = (DEFAULT_BASE_DELAY as u128) * (p as u128);
    if exp > DEFAULT_MAX_DELAY as u128 {
        DEFAULT_MAX_DELAY
    } else {
        exp as u64
    }
}

/// The delay after `attempts` attempts with jitter `draw`, which must lie
/// below half the backoff when a quarter of the backoff is not zero.
pub fn retry_delay_with_jitter(attempts: u32, draw: u64) -> (res: u64)
    requires
        backoff_delay(attempts) / 4 > 0 ==> draw < 2 * (backoff_delay(attempts) / 4),
    ensures
        res == jittered_delay(attempts, draw as int),
{
    let d = retry_backoff(attempts);
    let range = d / 4;
    if range > 0 {
        d + draw - range
    } else {
        d
    }
}

/// Exponential backoff stays within a quarter of the capped delay either
/// way: for every draw below half of the backoff.
pub proof fn lemma_jitter_bounds(attempts: u32, draw: int)
    requires
        0 <= draw,
        backoff_delay(attempts) / 4 > 0 ==> draw < 2 * (backoff_delay(attempts) / 4),
    ensures
        backoff_delay(attempts) - backoff_delay(attempts) / 4 <= jittered_delay(attempts, draw),
        jittered_delay(attempts, draw) < backoff_delay(attempts) + backoff_delay(attempts) / 4
            || backoff_delay(attempts) / 4 == 0,
        0 <= jittered_delay(attempts, draw) <= DEFAULT_MAX_DELAY + DEFAULT_MAX_DELAY / 4,
{
    lemma_pow2_positive(attempts as nat);
    let d = backoff_delay(attempts);
    assert(0 < d <= DEFAULT_MAX_DELAY);
    let range = d / 4;
    assert(0 <= range <= d);
}

/// The backoff doubles with each attempt until it reaches the cap.
pub proof fn lemma_backoff_doubles(attempts: u32)
    requires
        attempts < u32::MAX,
    ensures
        backoff_delay((attempts + 1) as u32) == if 2 * backoff_delay(attempts) > DEFAULT_MAX_DELAY {
            DEFAULT_MAX_DELAY as int
        } else {
            2 * backoff_delay(attempts)
        },
{
    let p = capped_pow2(attempts as nat);
    assert(capped_pow2((attempts + 1) as nat) == if 2 * p > u64::MAX { u64::MAX as int } else { 2 * p });
    lemma_pow2_positive(attempts as nat);
}

/// `capped_pow2` is at least one.
proof fn lemma_pow2_positive(n: nat)
    ensures
        capped_pow2(n) >= 1,
        capped_pow2(n) <= u64::MAX,
    decreases n,
{
    if n > 0 {
        lemma_pow2_positive((n - 1) as nat);
    }
}

/// `a + b`, capped at `u64::MAX`.
pub open spec fn capped_add(a: int, b: int) -> int {
    if a + b > u64::MAX { u64::MAX as int } else { a + b }
}

/// Copies a list of string pairs.
pub fn copy_pairs(v: &Vec<(String, String)>) -> (res: Vec<(String, String)>)
    ensures
        res@ == v@,
{
    let mut out: Vec<(String, String)> = Vec::new();
    let mut i: usize = 0;
    while i < v.len()
        invariant
            i <= v@.len(),
            out@ == v@.take(i as int),
        decreases v@.len() - i,
    {
        out.push((v[i].0.clone(), v[i].1.clone()));
        proof {
            assert(out@ =~= v@.take(i + 1));
        }
        i = i + 1;
    }
    assert(v@.take(i as int) =~= v@);
    out
}

/// Copies an optional string.
pub fn copy_opt_text(o: &Option<String>) -> (res: Option<String>)
    ensures
        res == *o,
{
    match o {
        Some(s) => Some(s.clone()),
        None => None,
    }
}

/// Whether `b` is a copy of `a`: the same fields, with a clone of the payload.
pub open spec fn is_copy<T: Clone>(a: QueueItem<T>, b: QueueItem<T>) -> bool {
    &&& cloned::<T>(a.payload, b.payload)
    &&& b.id == a.id
    &&& b.status == a.status
    &&& b.attempts == a.attempts
    &&& b.max_retries == a.max_retries
    &&& b.created_at == a.created_at
    &&& b.process_at == a.process_at
    &&& b.last_error == a.last_error
    &&& b.org_id == a.org_id
    &&& b.correlation_id == a.correlation_id
    &&& b.metadata@ == a.metadata@
}

/// Whether `b` is `a` with other status, attempts, process time and last error.
pub open spec fn same_but_progress<T>(a: QueueItem<T>, b: QueueItem<T>) -> bool {
    &&& b.payload == a.payload
    &&& b.id == a.id
    &&& b.max_retries == a.max_retries
    &&& b.created_at == a.created_at
    &&& b.org_id == a.org_id
    &&& b.correlation_id == a.correlation_id
    &&& b.metadata == a.metadata
}

/// What preparing a retry at `now` does: one more attempt, the error kept;
/// an item out of attempts fails, any other waits a jittered backoff.
pub open spec fn retry_prepared<T>(old_item: QueueItem<T>, new_item: QueueItem<T>, error: Option<String>, now: u64) -> bool {
    &&& same_but_progress(old_item, new_item)
    &&& new_item.attempts == old_item.attempts + 1
    &&& new_item.last_error == error
    &&& if new_item.attempts >= new_item.max_retries {
        &&& new_item.status == QueueItemStatus::Failed
        &&& new_item.process_at == old_item.process_at
    } else {
        &&& new_item.status == QueueItemStatus::RetryPending
        &&& exists|draw: int| #![trigger jittered_delay(new_item.attempts, draw)]
            0 <= draw && (backoff_delay(new_item.attempts) / 4 > 0 ==> draw < 2 * (backoff_delay(new_item.attempts) / 4))
            && new_item.process_at == capped_add(now as int, jittered_delay(new_item.attempts, draw))
    }
}

impl<T> QueueItem<T> {
    /// A pending item with identifier `id`, created at `now` and due then,
    /// allowed the default number of retries.
    pub fn new_with(payload: T, id: u128, now: u64) -> (res: Self)
        ensures
            res.payload == payload,
            res.id == id,
            res.status == QueueItemStatus::Pending,
            res.attempts == 0,
            res.max_retries == DEFAULT_MAX_RETRIES,
            res.created_at == now,
            res.process_at == now,
            res.last_error is None,
            res.org_id is None,
            res.correlation_id is None,
            res.metadata@.len() == 0,
    {
        QueueItem {
            id,
            payload,
            status: QueueItemStatus::Pending,
            attempts: 0,
            max_retries: DEFAULT_MAX_RETRIES,
            created_at: now,
            process_at: now,
            last_error: None,
            org_id: None,
            correlation_id: None,
            metadata: Vec::new(),
        }
    }

    /// A pending item with a fresh random identifier, created now and due now.
    pub fn new(payload: T) -> (res: Self)
        ensures
            res.payload == payload,
            crate::ids::is_random_uuid(res.id),
            res.status == QueueItemStatus::Pending,
            res.attempts == 0,
            res.max_retries == DEFAULT_MAX_RETRIES,
            res.process_at == res.created_at,
            res.last_error is None,
            res.org_id is None,
            res.correlation_id is None,
            res.metadata@.len() == 0,
    {
        let id = crate::ids::new_uuid();
        Self::new_with(payload, id, crate::clock::now_millis())
    }

    pub fn with_max_retries(self, max: u32) -> (res: Self)
        ensures
            res == (QueueItem { max_retries: max, ..self }),
    {
        QueueItem { max_retries: max, ..self }
    }

    pub fn with_org_id(self, org_id: String) -> (res: Self)
        ensures
            res == (QueueItem { org_id: Some(org_id), ..self }),
    {
        QueueItem { org_id: Some(org_id), ..self }
    }

    pub fn with_correlation_id(self, id: u128) -> (res: Self)
        ensures
            res == (QueueItem { correlation_id: Some(id), ..self }),
    {
        QueueItem { correlation_id: Some(id), ..self }
    }

    /// Makes the item due `delay` after `now` (capped at `u64::MAX`).
    pub fn with_delay_at(self, delay: u64, now: u64) -> (res: Self)
        ensures
            res == (QueueItem { process_at: capped_add(now as int, delay as int) as u64, ..self }),
    {
        QueueItem { process_at: now.saturating_add(delay), ..self }
    }

    /// Makes the item due `delay` from now.
    pub fn with_delay(self, delay: u64) -> (res: Self)
        ensures
            exists|now: u64| res == (QueueItem { process_at: capped_add(now as int, delay as int) as u64, ..self }),
    {
        let now = crate::clock::now_millis();
        self.with_delay_at(delay, now)
    }

    /// Whether the item has used up its retries and belongs in the dead letter queue.
    pub fn should_dlq(&self) -> (res: bool)
        ensures
            res == (self.attempts >= self.max_retries),
    {
        self.attempts >= self.max_retries
    }

    /// The next retry delay: exponential backoff capped at five minutes,
    /// moved by a random jitter of up to a quarter either way.
    pub fn next_retry_delay(&self) -> (res: u64)
        ensures
            exists|draw: int| #![trigger jittered_delay(self.attempts, draw)]
                0 <= draw && (backoff_delay(self.attempts) / 4 > 0 ==> draw < 2 * (backoff_delay(self.attempts) / 4))
                && res == jittered_delay(self.attempts, draw),
    {
        let d = retry_backoff(self.attempts);
        let range = d / 4;
        let draw = if range > 0 { crate::random::random_below(range * 2) } else { 0 };
        let res = retry_delay_with_jitter(self.attempts, draw);
        assert(res == jittered_delay(self.attempts, draw as int));
        res
    }

    /// Records a failed attempt at `now`: an item out of attempts fails,
    /// any other is scheduled for a retry after the backoff.
    pub fn prepare_retry_at(&mut self, error: Option<String>, now: u64)
        requires
            old(self).attempts < u32::MAX,
        ensures
            retry_prepared(*old(self), *final(self), error, now),
    {
        self.attempts = self.attempts + 1;
        self.last_error = error;
        if self.should_dlq() {
            self.status = QueueItemStatus::Failed;
        } else {
            self.status = QueueItemStatus::RetryPending;
            let delay = self.next_retry_delay();
            self.process_at = now.saturating_add(delay);
        }
    }

    /// Records a failed attempt now.
    pub fn prepare_retry(&mut self, error: Option<String>)
        requires
            old(self).attempts < u32::MAX,
        ensures
            exists|now: u64| #[trigger] retry_prepared(*old(self), *final(self), error, now),
    {
        let now = crate::clock::now_millis();
        self.prepare_retry_at(error, now);
    }

    /// Marks the item as completed.
    pub fn mark_completed(&mut self)
        ensures
            *final(self) == (QueueItem { status: QueueItemStatus::Completed, ..*old(self) }),
    {
        self.status = QueueItemStatus::Completed;
    }
}

impl<T: Clone> QueueItem<T> {
    /// A copy of the item, with a clone of its payload.
    pub fn copy(&self) -> (res: Self)
        ensures
            is_copy(*self, res),
    {
        QueueItem {
            id: self.id,
            payload: self.payload.clone(),
            status: self.status,
            attempts: self.attempts,
            max_retries: self.max_retries,
            created_at: self.created_at,
            process_at: self.process_at,
            last_error: copy_opt_text(&self.last_error),
            org_id: copy_opt_text(&self.org_id),
            correlation_id: self.correlation_id,
            metadata: copy_pairs(&self.metadata),
        }
    }
}

/// Configuration for the retry queue (durations in milliseconds).
#[derive(Debug, Clone, Copy)]
pub struct RetryQueueConfig {
    pub max_retries: u32,
    pub base_delay: u64,
    pub max_delay: u64,
    pub processing_timeout: u64,
    pub batch_size: usize,
}

impl Default for RetryQueueConfig {
    /// Five retries, backoff from one second to five minutes, a 30 second
    /// processing timeout and batches of ten.
    fn default() -> (res: Self)
        ensures
            res == (RetryQueueConfig {
                max_retries: DEFAULT_MAX_RETRIES,
                base_delay: DEFAULT_BASE_DELAY,
                max_delay: DEFAULT_MAX_DELAY,
                processing_timeout: 30_000,
                batch_size: 10,
            }),
    {
        RetryQueueConfig {
            max_retries: DEFAULT_MAX_RETRIES,
            base_delay: DEFAULT_BASE_DELAY,
            max_delay: DEFAULT_MAX_DELAY,
            processing_timeout: 30_000,
            batch_size: 10,
        }
    }
}

/// Queue statistics.
#[derive(Debug, Clone, Copy, Default)]
pub struct QueueStats {
    pub pending: u64,
    pub processing: u64,
    pub completed: u64,
    pub failed: u64,
    pub dlq_size: u64,
}

/// Queue errors.
#[derive(Debug, Clone)]
pub enum QueueError {
    NotFound(u128),
    Storage(String),
    Serialization(String),
}

/// Result of processing a queue item.
#[derive(Debug, Clone)]
pub enum ProcessResult {
    /// The item was processed successfully.
    Success,
    /// The item failed but should be retried.
    Retry(String),
    /// The item failed permanently and should go to the dead letter queue.
    Fail(String),
}

/// When an item enqueued at `now` becomes due: its process time, or now
/// when that has passed.
pub open spec fn due_time<T>(item: QueueItem<T>, now: u64) -> u64 {
    if item.process_at > now { item.process_at } else { now }
}

/// The first scheduled item with the earliest due time.
pub open spec fn earliest<T>(p: Seq<(u64, QueueItem<T>)>) -> int
    decreases p.len(),
{
    if p.len() <= 1 {
        0
    } else {
        let j = earliest(p.drop_last());
        if p[p.len() - 1].0 < p[j].0 { p.len() - 1 } else { j }
    }
}

/// Takes up to `limit` due items at `now`, earliest first, marking each as
/// processing: what is left scheduled, and what was taken.
pub open spec fn take_due<T>(p: Seq<(u64, QueueItem<T>)>, limit: nat, now: u64) -> (Seq<(u64, QueueItem<T>)>, Seq<QueueItem<T>>)
    decreases limit,
{
    if limit == 0 || p.len() == 0 {
        (p, Seq::empty())
    } else {
        let j = earliest(p);
        if p[j].0 > now {
            (p, Seq::empty())
        } else {
            let r = take_due(p.remove(j), (limit - 1) as nat, now);
            (r.0, seq![QueueItem { status: QueueItemStatus::Processing, ..p[j].1 }] + r.1)
        }
    }
}

/// The identifiers of a list of items.
pub open spec fn ids_of<T>(items: Seq<QueueItem<T>>) -> Set<u128> {
    items.map_values(|x: QueueItem<T>| x.id).to_set()
}

/// The last `n` items of `s` (all of them when there are fewer).
pub open spec fn keep_last<A>(s: Seq<A>, n: nat) -> Seq<A> {
    if s.len() > n { s.subrange(s.len() - n, s.len() as int) } else { s }
}

/// The first dead-lettered item with identifier `id`.
pub open spec fn first_with_id<T>(s: Seq<QueueItem<T>>, id: u128) -> Option<int>
    decreases s.len(),
{
    if s.len() == 0 {
        None
    } else {
        match first_with_id(s.drop_last(), id) {
            Some(i) => Some(i),
            None => if s[s.len() - 1].id == id { Some(s.len() - 1) } else { None },
        }
    }
}

/// An item taken back from the dead letter queue at `now`: pending again,
/// with no attempts and no error, due at once.
pub open spec fn revived<T>(item: QueueItem<T>, now: u64) -> QueueItem<T> {
    QueueItem {
        status: QueueItemStatus::Pending,
        attempts: 0,
        process_at: now,
        last_error: None,
        ..item
    }
}

/// The earliest index is an index.
pub proof fn lemma_earliest<T>(p: Seq<(u64, QueueItem<T>)>)
    requires
        p.len() > 0,
    ensures
        0 <= earliest(p) < p.len(),
        forall|i: int| 0 <= i < p.len() ==> p[earliest(p)].0 <= #[trigger] p[i].0,
    decreases p.len(),
{
    if p.len() > 1 {
        let d = p.drop_last();
        lemma_earliest(d);
        assert forall|i: int| 0 <= i < p.len() implies p[earliest(p)].0 <= #[trigger] p[i].0 by {
            if i < p.len() - 1 {
                assert(p[i] == d[i]);
            }
        }
    }
}

/// What `first_with_id` finds.
pub proof fn lemma_first_with_id<T>(s: Seq<QueueItem<T>>, id: u128)
    ensures
        first_with_id(s, id) matches Some(i) ==> 0 <= i < s.len() && s[i].id == id,
        first_with_id(s, id) is None ==> forall|i: int| 0 <= i < s.len() ==> s[i].id != id,
    decreases s.len(),
{
    if s.len() > 0 {
        lemma_first_with_id(s.drop_last(), id);
        let d = s.drop_last();
        assert forall|i: int| 0 <= i < d.len() implies d[i] == s[i] by {}
    }
}

/// The first item with `id` is at `i` when `i` has it and no earlier item does.
pub proof fn lemma_first_with_id_prefix<T>(s: Seq<QueueItem<T>>, id: u128, i: int)
    requires
        0 <= i < s.len(),
        s[i].id == id,
        forall|j: int| 0 <= j < i ==> s[j].id != id,
    ensures
        first_with_id(s, id) == Some(i),
    decreases s.len(),
{
    if s.len() - 1 > i {
        lemma_first_with_id_prefix(s.drop_last(), id, i);
    } else {
        lemma_first_with_id(s.drop_last(), id);
        assert forall|j: int| 0 <= j < s.drop_last().len() implies s.drop_last()[j].id != id by {
            assert(s.drop_last()[j] == s[j]);
        }
    }
}

/// Taking due items takes no more than `limit`, leaves the rest scheduled,
/// and takes only items that were scheduled.
pub proof fn lemma_take_due<T>(p: Seq<(u64, QueueItem<T>)>, limit: nat, now: u64)
    ensures
        take_due(p, limit, now).1.len() <= limit,
        take_due(p, limit, now).1.len() + take_due(p, limit, now).0.len() == p.len(),
        (forall|i: int| 0 <= i < p.len() ==> (#[trigger] p[i]).1.attempts < u32::MAX) ==> {
            &&& forall|i: int| 0 <= i < take_due(p, limit, now).1.len()
                ==> (#[trigger] take_due(p, limit, now).1[i]).attempts < u32::MAX
            &&& forall|i: int| 0 <= i < take_due(p, limit, now).0.len()
                ==> (#[trigger] take_due(p, limit, now).0[i]).1.attempts < u32::MAX
        },
    decreases limit,
{
    if limit == 0 || p.len() == 0 {
    } else {
        let j = earliest(p);
        lemma_earliest(p);
        if p[j].0 <= now {
            let q = p.remove(j);
            lemma_take_due(q, (limit - 1) as nat, now);
            if forall|i: int| 0 <= i < p.len() ==> (#[trigger] p[i]).1.attempts < u32::MAX {
                assert forall|i: int| 0 <= i < q.len() implies (#[trigger] q[i]).1.attempts < u32::MAX by {
                    if i < j {
                        assert(q[i] == p[i]);
                    } else {
                        assert(q[i] == p[i + 1]);
                    }
                }
                let r = take_due(q, (limit - 1) as nat, now);
                let taken = seq![QueueItem { status: QueueItemStatus::Processing, ..p[j].1 }] + r.1;
                assert forall|i: int| 0 <= i < taken.len() implies (#[trigger] taken[i]).attempts < u32::MAX by {
                    if i > 0 {
                        assert(taken[i] == r.1[i - 1]);
                    }
                }
            }
        }
    }
}

/// In-memory queue store for testing and development.
pub struct InMemoryQueueStore<T> {
    pending: Vec<(u64, QueueItem<T>)>,
    processing: HashMap<u128, QueueItem<T>>,
    completed: Vec<QueueItem<T>>,
    dlq: Vec<QueueItem<T>>,
    stats: QueueStats,
}

/// The number of completed items a store keeps.
pub const COMPLETED_KEPT: usize = 1000;

impl<T: Clone> InMemoryQueueStore<T> {
    /// The scheduled items, each with its due time.
    pub closed spec fn pending_view(&self) -> Seq<(u64, QueueItem<T>)> {
        self.pending@
    }

    /// The items being processed, by identifier: the copy the store holds
    /// of each.
    pub closed spec fn processing_view(&self) -> Map<u128, QueueItem<T>> {
        self.processing@
    }

    /// The identifiers of the items being processed.
    pub open spec fn processing_ids(&self) -> Set<u128> {
        self.processing_view().dom()
    }

    /// The most recently completed items, oldest first.
    pub closed spec fn completed_view(&self) -> Seq<QueueItem<T>> {
        self.completed@
    }

    /// The dead letter queue, oldest first.
    pub closed spec fn dlq_view(&self) -> Seq<QueueItem<T>> {
        self.dlq@
    }

    /// The statistics.
    pub closed spec fn stats_view(&self) -> QueueStats {
        self.stats
    }

    /// Whether every scheduled item can be retried once more (its attempt
    /// count can still grow).
    pub open spec fn wf(&self) -> bool {
        &&& forall|i: int| 0 <= i < self.pending_view().len() ==> (#[trigger] self.pending_view()[i]).1.attempts < u32::MAX
        &&& self.stats_view().pending == self.pending_view().len()
        &&& self.stats_view().dlq_size == self.dlq_view().len()
    }

    pub fn new() -> (res: Self)
        ensures
            res.wf(),
            res.pending_view().len() == 0,
            res.processing_view() == Map::<u128, QueueItem<T>>::empty(),
            res.completed_view().len() == 0,
            res.dlq_view().len() == 0,
            res.stats_view() == (QueueStats { pending: 0, processing: 0, completed: 0, failed: 0, dlq_size: 0 }),
    {
        let res = InMemoryQueueStore {
            pending: Vec::new(),
            processing: HashMap::new(),
            completed: Vec::new(),
            dlq: Vec::new(),
            stats: QueueStats { pending: 0, processing: 0, completed: 0, failed: 0, dlq_size: 0 },
        };
        assert(res.processing_view() =~= Map::<u128, QueueItem<T>>::empty());
        res
    }

    /// Schedules `item` at `now`, due at its process time or now, whichever is later.
    pub fn enqueue_at(&mut self, item: QueueItem<T>, now: u64) -> (res: Result<(), QueueError>)
        requires
            old(self).wf(),
            item.attempts < u32::MAX,
            old(self).stats_view().pending < u64::MAX,
        ensures
            final(self).wf(),
            res is Ok,
            final(self).pending_view() == old(self).pending_view().push((due_time(item, now), item)),
            final(self).processing_view() == old(self).processing_view(),
            final(self).completed_view() == old(self).completed_view(),
            final(self).dlq_view() == old(self).dlq_view(),
            final(self).stats_view() == (QueueStats {
                pending: capped_add(old(self).stats_view().pending as int, 1) as u64,
                ..old(self).stats_view()
            }),
    {
        let due = if item.process_at > now { item.process_at } else { now };
        self.pending.push((due, item));
        self.stats.pending = self.stats.pending.saturating_add(1);
        Ok(())
    }

    /// The index of the first scheduled item with the earliest due time.
    fn earliest_index(&self) -> (res: usize)
        requires
            self.pending@.len() > 0,
        ensures
            res == earliest(self.pending_view()),
            res < self.pending@.len(),
    {
        let mut best: usize = 0;
        let mut i: usize = 1;
        let ghost p = self.pending@;
        proof {
            assert(p.take(1).len() == 1);
        }
        while i < self.pending.len()
            invariant
                p == self.pending@,
                1 <= i <= p.len(),
                best < i,
                best == earliest(p.take(i as int)),
            decreases p.len() - i,
        {
            proof {
                assert(p.take(i + 1).drop_last() =~= p.take(i as int));
                assert(p.take(i + 1)[best as int] == p[best as int]);
            }
            if self.pending[i].0 < self.pending[best].0 {
                best = i;
            }
            i = i + 1;
        }
        assert(p.take(i as int) =~= p);
        best
    }

    /// Takes up to `limit` items that are due at `now`, earliest first, and
    /// marks them as processing.
    pub fn dequeue_at(&mut self, limit: usize, now: u64) -> (res: Result<Vec<QueueItem<T>>, QueueError>)
        requires
            old(self).wf(),
        ensures
            final(self).wf(),
            res matches Ok(items) && items@ == take_due(old(self).pending_view(), limit as nat, now).1,
            final(self).pending_view() == take_due(old(self).pending_view(), limit as nat, now).0,
            final(self).processing_ids() == old(self).processing_ids().union(
                ids_of(take_due(old(self).pending_view(), limit as nat, now).1),
            ),
            final(self).completed_view() == old(self).completed_view(),
            final(self).dlq_view() == old(self).dlq_view(),
            ({
                let k = take_due(old(self).pending_view(), limit as nat, now).1.len();
                final(self).stats_view() == (QueueStats {
                    pending: saturating_sub(old(self).stats_view().pending as int, k as int) as u64,
                    processing: capped_add(old(self).stats_view().processing as int, k as int) as u64,
                    ..old(self).stats_view()
                })
            }),
    {
        let ghost p0 = self.pending@;
        let ghost s0 = self.stats;
        let ghost ids0 = self.processing@.dom();
        let mut result: Vec<QueueItem<T>> = Vec::new();
        let mut more = true;
        while more && result.len() < limit
            invariant
                self.wf(),
                result@.len() <= limit,
                ({
                    let rest = take_due(self.pending@, (limit - result@.len()) as nat, now);
                    &&& take_due(p0, limit as nat, now).0 == rest.0
                    &&& take_due(p0, limit as nat, now).1 == result@ + rest.1
                }),
                !more ==> take_due(self.pending@, (limit - result@.len()) as nat, now).1.len() == 0
                    && take_due(self.pending@, (limit - result@.len()) as nat, now).0 == self.pending@,
                self.processing@.dom() == ids0.union(ids_of(result@)),
                self.completed@ == old(self).completed@,
                self.dlq@ == old(self).dlq@,
                self.stats == (QueueStats {
                    pending: saturating_sub(s0.pending as int, result@.len() as int) as u64,
                    processing: capped_add(s0.processing as int, result@.len() as int) as u64,
                    ..s0
                }),
            decreases limit - result@.len() + if more { 1int } else { 0int },
        {
            if self.pending.len() == 0 {
                more = false;
            } else {
                let j = self.earliest_index();
                if self.pending[j].0 > now {
                    more = false;
                } else {
                    let ghost cur = self.pending@;
                    let ghost n = (limit - result@.len()) as nat;
                    let (_, mut item) = self.pending.remove(j);
                    item.status = QueueItemStatus::Processing;
                    let copy = item.copy();
                    self.processing.insert(item.id, copy);
                    let ghost before = result@;
                    result.push(item);
                    self.stats.pending = self.stats.pending.saturating_sub(1);
                    self.stats.processing = self.stats.processing.saturating_add(1);
                    proof {
                        assert(self.pending@ =~= cur.remove(j as int));
                        let rest = take_due(self.pending@, (n - 1) as nat, now);
                        assert(take_due(cur, n, now).1 == seq![QueueItem { status: QueueItemStatus::Processing, ..cur[j as int].1 }] + rest.1);
                        assert(result@ + rest.1 =~= before + take_due(cur, n, now).1);
                        assert(ids_of(result@) =~= ids_of(before).insert(item.id)) by {
                            let m0 = before.map_values(|x: QueueItem<T>| x.id);
                            assert(result@.map_values(|x: QueueItem<T>| x.id) =~= m0.push(item.id));
                            m0.lemma_push_to_set_commute(item.id);
                        }
                        assert forall|i: int| 0 <= i < self.pending@.len() implies (#[trigger] self.pending@[i]).1.attempts < u32::MAX by {
                            if i < j {
                                assert(self.pending@[i] == cur[i]);
                            } else {
                                assert(self.pending@[i] == cur[i + 1]);
                            }
                        }
                    }
                }
            }
        }
        proof {
            if result@.len() == limit {
                assert(take_due(self.pending@, 0, now).1 =~= Seq::<QueueItem<T>>::empty());
            }
            assert(self.processing@.dom() =~= ids0.union(ids_of(take_due(p0, limit as nat, now).1))) by {
                let rest = take_due(self.pending@, (limit - result@.len()) as nat, now);
                assert(rest.1.len() == 0);
                assert(take_due(p0, limit as nat, now).1 =~= result@);
            }
            assert(take_due(p0, limit as nat, now).1 =~= result@) by {
                let rest = take_due(self.pending@, (limit - result@.len()) as nat, now);
                assert(rest.1.len() == 0);
            }
        }
        Ok(result)
    }

    /// Records the outcome held by `item`'s status at `now`. A completed
    /// item leaves processing and joins the completed items (of which the
    /// last thousand are kept); an item to retry leaves processing and is
    /// scheduled again; a failed item leaves processing. Any other status
    /// replaces the copy held for an item being processed.
    #[verifier::loop_isolation(false)]
    pub fn update_at(&mut self, item: &QueueItem<T>, now: u64) -> (res: Result<(), QueueError>)
        requires
            old(self).wf(),
            item.status == QueueItemStatus::RetryPending ==> item.attempts < u32::MAX,
            item.status == QueueItemStatus::RetryPending ==> old(self).stats_view().pending < u64::MAX,
        ensures
            final(self).wf(),
            res is Ok,
            final(self).dlq_view() == old(self).dlq_view(),
            updated(*old(self), *final(self), *item, now),
    {
        match item.status {
            QueueItemStatus::Completed => {
                self.processing.remove(&item.id);
                let ghost before = self.completed@;
                let c = item.copy();
                let mut kept: Vec<QueueItem<T>> = Vec::new();
                std::mem::swap(&mut kept, &mut self.completed);
                kept.push(c);
                let ghost pushed = kept@;
                while kept.len() > COMPLETED_KEPT
                    invariant
                        pushed.len() > 0,
                        kept@.len() <= pushed.len(),
                        kept@ == pushed.subrange(pushed.len() - kept@.len(), pushed.len() as int),
                        kept@.len() >= COMPLETED_KEPT || kept@ == pushed,
                    decreases kept@.len(),
                {
                    kept.remove(0);
                    assert(kept@ =~= pushed.subrange(pushed.len() - kept@.len(), pushed.len() as int));
                }
                proof {
                    assert(keep_last(before.push(c), COMPLETED_KEPT as nat) =~= kept@);
                }
                self.completed = kept;
                assert(is_copy(*item, c));
                assert(keep_last(old(self).completed_view().push(c), COMPLETED_KEPT as nat) == self.completed_view());
                assert(self.processing@ =~= old(self).processing@.remove(item.id));
                self.stats.processing = self.stats.processing.saturating_sub(1);
                self.stats.completed = self.stats.completed.saturating_add(1);
            },
            QueueItemStatus::RetryPending => {
                self.processing.remove(&item.id);
                let due = if item.process_at > now { item.process_at } else { now };
                let c = item.copy();
                self.pending.push((due, c));
                assert(is_copy(*item, c));
                assert(old(self).pending_view().push((due_time(*item, now), c)) == self.pending_view());
                assert(self.processing@ =~= old(self).processing@.remove(item.id));
                self.stats.processing = self.stats.processing.saturating_sub(1);
                self.stats.pending = self.stats.pending.saturating_add(1);
            },
            QueueItemStatus::Failed => {
                self.processing.remove(&item.id);
                assert(self.processing@ =~= old(self).processing@.remove(item.id));
                self.stats.processing = self.stats.processing.saturating_sub(1);
                self.stats.failed = self.stats.failed.saturating_add(1);
            },
            _ => {
                if self.processing.contains_key(&item.id) {
                    let c = item.copy();
                    self.processing.insert(item.id, c);
                    assert(is_copy(*item, c) && old(self).processing_view().insert(item.id, c) == self.processing_view());
                }
            },
        }
        Ok(())
    }

    /// Takes the first dead-lettered item with identifier `id` back into the
    /// queue at `now`, pending and due at once with no attempts; an error
    /// when there is none.
    #[verifier::loop_isolation(false)]
    pub fn retry_from_dlq_at(&mut self, id: u128, now: u64) -> (res: Result<(), QueueError>)
        requires
            old(self).wf(),
            old(self).stats_view().pending < u64::MAX,
        ensures
            final(self).wf(),
            final(self).processing_view() == old(self).processing_view(),
            final(self).completed_view() == old(self).completed_view(),
            dlq_retried(*old(self), *final(self), id, now, res),
    {
        proof {
            lemma_first_with_id(self.dlq@, id);
        }
        let mut i: usize = 0;
        while i < self.dlq.len()
            invariant
                i <= self.dlq@.len(),
                first_with_id(self.dlq@, id) == if first_with_id(self.dlq@.take(i as int), id) is Some {
                    first_with_id(self.dlq@.take(i as int), id)
                } else {
                    first_with_id(self.dlq@, id)
                },
                first_with_id(self.dlq@.take(i as int), id) is None,
                forall|j: int| 0 <= j < i ==> self.dlq@[j].id != id,
                *self == *old(self),
            decreases self.dlq@.len() - i,
        {
            if self.dlq[i].id == id {
                proof {
                    lemma_first_with_id(self.dlq@.take(i as int), id);
                    lemma_first_with_id(self.dlq@, id);
                    lemma_first_with_id_prefix(self.dlq@, id, i as int);
                }
                let mut item = self.dlq.remove(i);
                item.status = QueueItemStatus::Pending;
                item.attempts = 0;
                item.process_at = now;
                item.last_error = None;
                self.pending.push((now, item));
                self.stats.dlq_size = self.stats.dlq_size.saturating_sub(1);
                self.stats.pending = self.stats.pending.saturating_add(1);
                return Ok(());
            }
            proof {
                assert(self.dlq@.take(i + 1).drop_last() =~= self.dlq@.take(i as int));
            }
            i = i + 1;
        }
        proof {
            assert(self.dlq@.take(i as int) =~= self.dlq@);
        }
        Err(QueueError::NotFound(id))
    }

}

/// `a - b`, or zero where `b` is the larger.
pub open spec fn saturating_sub(a: int, b: int) -> int {
    if a >= b { a - b } else { 0 }
}

impl<T: Clone> Default for InMemoryQueueStore<T> {
    /// An empty store.
    fn default() -> (res: Self)
        ensures
            res.wf(),
            res.pending_view().len() == 0,
            res.dlq_view().len() == 0,
            res.stats_view() == (QueueStats { pending: 0, processing: 0, completed: 0, failed: 0, dlq_size: 0 }),
    {
        InMemoryQueueStore::new()
    }
}

/// Whether `items` is the page of `dead` that skips `offset` items and
/// holds at most `limit`: copies of the items from there on, in order.
pub open spec fn dlq_page<T: Clone>(dead: Seq<QueueItem<T>>, limit: usize, offset: usize, items: Seq<QueueItem<T>>) -> bool {
    let start = if offset < dead.len() { offset as int } else { dead.len() as int };
    let n = if dead.len() - start < limit { dead.len() - start } else { limit as int };
    &&& items.len() == n
    &&& forall|i: int| 0 <= i < n ==> is_copy(dead[start + i], #[trigger] items[i])
}

/// Whether `after` is `before` without its first item with identifier `id`.
pub open spec fn dlq_taken<T>(before: Seq<QueueItem<T>>, after: Seq<QueueItem<T>>, id: u128) -> bool {
    match first_with_id(before, id) {
        Some(i) => after == before.remove(i),
        None => false,
    }
}

/// A storage backend for the retry queue.
///
/// `ready` is what a backend keeps between calls; `counts` are its
/// statistics. Each method states how a successful call moves the counts,
/// and a backend may answer any call with an error.
pub trait QueueStore<T: Clone>: Sized {
    /// Whether the store is in a state its methods accept.
    spec fn ready(&self) -> bool;

    /// The store's statistics.
    spec fn counts(&self) -> QueueStats;

    /// The items in the store's dead letter queue, oldest first.
    spec fn dead_letters(&self) -> Seq<QueueItem<T>>;

    /// Whether the backend answers every call without an error of its own.
    spec fn infallible(&self) -> bool;

    /// The items a request for up to `limit` items takes when the store's
    /// clock reads `now`: those due then, marked as processing.
    spec fn due_items(&self, limit: nat, now: u64) -> Seq<QueueItem<T>>;

    /// Adds an item to the queue.
    fn enqueue(&mut self, item: QueueItem<T>) -> (res: Result<(), QueueError>)
        requires
            old(self).ready(),
            item.attempts < u32::MAX,
            old(self).counts().pending < u64::MAX,
        ensures
            final(self).ready(),
            final(self).infallible() == old(self).infallible(),
            old(self).infallible() ==> res is Ok,
            res is Ok ==> final(self).counts() == (QueueStats {
                pending: (old(self).counts().pending + 1) as u64,
                ..old(self).counts()
            }),
            res is Ok ==> final(self).dead_letters() == old(self).dead_letters(),
    ;

    /// Takes up to `limit` items that are due, marked as processing.
    fn dequeue(&mut self, limit: usize) -> (res: Result<Vec<QueueItem<T>>, QueueError>)
        requires
            old(self).ready(),
        ensures
            final(self).ready(),
            final(self).infallible() == old(self).infallible(),
            old(self).infallible() ==> res is Ok,
            res matches Ok(items) ==> exists|now: u64| items@ == #[trigger] old(self).due_items(limit as nat, now),
            res matches Ok(items) ==> {
                &&& items@.len() <= limit
                &&& items@.len() <= old(self).counts().pending
                &&& forall|i: int| 0 <= i < items@.len() ==> (#[trigger] items@[i]).attempts < u32::MAX
                &&& final(self).counts() == (QueueStats {
                    pending: (old(self).counts().pending - items@.len()) as u64,
                    processing: capped_add(old(self).counts().processing as int, items@.len() as int) as u64,
                    ..old(self).counts()
                })
                &&& final(self).dead_letters() == old(self).dead_letters()
            },
    ;

    /// Records the outcome held by the item's status.
    fn update(&mut self, item: &QueueItem<T>) -> (res: Result<(), QueueError>)
        requires
            old(self).ready(),
            item.status == QueueItemStatus::RetryPending ==> item.attempts < u32::MAX,
            item.status == QueueItemStatus::RetryPending ==> old(self).counts().pending < u64::MAX,
        ensures
            final(self).ready(),
            final(self).infallible() == old(self).infallible(),
            old(self).infallible() ==> res is Ok,
            res is Ok ==> final(self).counts() == counts_after_update(old(self).counts(), item.status),
            res is Ok ==> final(self).dead_letters() == old(self).dead_letters(),
    ;

    /// Moves an item to the dead letter queue.
    fn move_to_dlq(&mut self, item: &QueueItem<T>) -> (res: Result<(), QueueError>)
        requires
            old(self).ready(),
            old(self).counts().dlq_size < u64::MAX,
        ensures
            final(self).ready(),
            final(self).infallible() == old(self).infallible(),
            old(self).infallible() ==> res is Ok,
            res is Ok ==> final(self).counts() == (QueueStats {
                dlq_size: (old(self).counts().dlq_size + 1) as u64,
                ..old(self).counts()
            }),
            res is Ok ==> exists|c: QueueItem<T>| is_copy(*item, c) && #[trigger] old(self).dead_letters().push(c) == final(self).dead_letters(),
    ;

    /// Items from the dead letter queue: at most `limit`, after skipping `offset`.
    fn get_dlq(&self, limit: usize, offset: usize) -> (res: Result<Vec<QueueItem<T>>, QueueError>)
        ensures
            self.infallible() ==> res is Ok,
            res matches Ok(items) ==> dlq_page(self.dead_letters(), limit, offset, items@),
    ;

    /// Takes an item from the dead letter queue back into the queue.
    fn retry_from_dlq(&mut self, id: u128) -> (res: Result<(), QueueError>)
        requires
            old(self).ready(),
            old(self).counts().pending < u64::MAX,
        ensures
            final(self).ready(),
            final(self).infallible() == old(self).infallible(),
            old(self).infallible() ==> (res is Ok <==> first_with_id(old(self).dead_letters(), id) is Some),
            res is Ok ==> final(self).counts() == (QueueStats {
                pending: (old(self).counts().pending + 1) as u64,
                dlq_size: saturating_sub(old(self).counts().dlq_size as int, 1) as u64,
                ..old(self).counts()
            }),
            res is Ok ==> dlq_taken(old(self).dead_letters(), final(self).dead_letters(), id),
    ;

    /// The queue statistics.
    fn stats(&self) -> (res: Result<QueueStats, QueueError>)
        ensures
            self.infallible() ==> res is Ok,
            res matches Ok(s) ==> s == self.counts(),
    ;
}

/// How recording an outcome moves the statistics: a completed, retried or
/// failed item leaves processing and counts as completed, pending again or
/// failed; any other status changes nothing.
pub open spec fn counts_after_update(st: QueueStats, status: QueueItemStatus) -> QueueStats {
    match status {
        QueueItemStatus::Completed => QueueStats {
            processing: saturating_sub(st.processing as int, 1) as u64,
            completed: capped_add(st.completed as int, 1) as u64,
            ..st
        },
        QueueItemStatus::RetryPending => QueueStats {
            processing: saturating_sub(st.processing as int, 1) as u64,
            pending: capped_add(st.pending as int, 1) as u64,
            ..st
        },
        QueueItemStatus::Failed => QueueStats {
            processing: saturating_sub(st.processing as int, 1) as u64,
            failed: capped_add(st.failed as int, 1) as u64,
            ..st
        },
        _ => st,
    }
}

/// What taking the dead-lettered item `id` back at `now` does to an
/// in-memory store, from `before` to `after`, answering `res`: the first
/// such item leaves the dead letter queue and is pending again, due at
/// once with no attempts; with no such item the answer is `NotFound` and
/// nothing changes.
pub open spec fn dlq_retried<T: Clone>(
    before: InMemoryQueueStore<T>,
    after: InMemoryQueueStore<T>,
    id: u128,
    now: u64,
    res: Result<(), QueueError>,
) -> bool {
    match first_with_id(before.dlq_view(), id) {
        Some(i) => {
            &&& res is Ok
            &&& after.dlq_view() == before.dlq_view().remove(i)
            &&& after.pending_view() == before.pending_view().push((now, revived(before.dlq_view()[i], now)))
            &&& after.stats_view() == (QueueStats {
                dlq_size: saturating_sub(before.stats_view().dlq_size as int, 1) as u64,
                pending: capped_add(before.stats_view().pending as int, 1) as u64,
                ..before.stats_view()
            })
        },
        None => {
            &&& res == Err::<(), QueueError>(QueueError::NotFound(id))
            &&& after == before
        },
    }
}

/// What recording the outcome held by `item`'s status at `now` does to an
/// in-memory store, from `before` to `after`: a completed item leaves
/// processing for the completed records; an item to retry leaves it for
/// the pending items, due at its process time or at once when that has
/// passed; a failed item leaves processing; with any other status, the
/// copy held of the item, if it is being processed, is replaced by a copy
/// of `item`.
pub open spec fn updated<T: Clone>(before: InMemoryQueueStore<T>, after: InMemoryQueueStore<T>, item: QueueItem<T>, now: u64) -> bool {
    let st = before.stats_view();
    match item.status {
        QueueItemStatus::Completed => {
            &&& after.processing_view() == before.processing_view().remove(item.id)
            &&& after.pending_view() == before.pending_view()
            &&& exists|c: QueueItem<T>| is_copy(item, c)
                && #[trigger] keep_last(before.completed_view().push(c), COMPLETED_KEPT as nat) == after.completed_view()
            &&& after.stats_view() == (QueueStats {
                processing: saturating_sub(st.processing as int, 1) as u64,
                completed: capped_add(st.completed as int, 1) as u64,
                ..st
            })
        },
        QueueItemStatus::RetryPending => {
            &&& after.processing_view() == before.processing_view().remove(item.id)
            &&& after.completed_view() == before.completed_view()
            &&& exists|c: QueueItem<T>| is_copy(item, c)
                && #[trigger] before.pending_view().push((due_time(item, now), c)) == after.pending_view()
            &&& after.stats_view() == (QueueStats {
                processing: saturating_sub(st.processing as int, 1) as u64,
                pending: capped_add(st.pending as int, 1) as u64,
                ..st
            })
        },
        QueueItemStatus::Failed => {
            &&& after.processing_view() == before.processing_view().remove(item.id)
            &&& after.pending_view() == before.pending_view()
            &&& after.completed_view() == before.completed_view()
            &&& after.stats_view() == (QueueStats {
                processing: saturating_sub(st.processing as int, 1) as u64,
                failed: capped_add(st.failed as int, 1) as u64,
                ..st
            })
        },
        _ => {
            &&& if before.processing_view().contains_key(item.id) {
                exists|c: QueueItem<T>| is_copy(item, c)
                    && #[trigger] before.processing_view().insert(item.id, c) == after.processing_view()
            } else {
                after.processing_view() == before.processing_view()
            }
            &&& after.pending_view() == before.pending_view()
            &&& after.completed_view() == before.completed_view()
            &&& after.stats_view() == st
        },
    }
}

impl<T: Clone> QueueStore<T> for InMemoryQueueStore<T> {
    open spec fn ready(&self) -> bool {
        self.wf()
    }

    open spec fn counts(&self) -> QueueStats {
        self.stats_view()
    }

    open spec fn dead_letters(&self) -> Seq<QueueItem<T>> {
        self.dlq_view()
    }

    open spec fn infallible(&self) -> bool {
        true
    }

    open spec fn due_items(&self, limit: nat, now: u64) -> Seq<QueueItem<T>> {
        take_due(self.pending_view(), limit, now).1
    }

    /// Adds an item to the queue now: it is due at its process time, or at
    /// once when that has passed.
    fn enqueue(&mut self, item: QueueItem<T>) -> (res: Result<(), QueueError>)
        ensures
            res is Ok,
            exists|now: u64| #[trigger] old(self).pending_view().push((due_time(item, now), item)) == final(self).pending_view(),
            final(self).processing_view() == old(self).processing_view(),
            final(self).completed_view() == old(self).completed_view(),
            final(self).dlq_view() == old(self).dlq_view(),
    {
        let now = crate::clock::now_millis();
        let res = self.enqueue_at(item, now);
        assert(old(self).pending_view().push((due_time(item, now), item)) == self.pending_view());
        res
    }

    /// Takes up to `limit` items that are due now, earliest first.
    fn dequeue(&mut self, limit: usize) -> (res: Result<Vec<QueueItem<T>>, QueueError>)
        ensures
            exists|now: u64| {
                &&& res matches Ok(items) && items@ == #[trigger] take_due(old(self).pending_view(), limit as nat, now).1
                &&& final(self).pending_view() == take_due(old(self).pending_view(), limit as nat, now).0
                &&& final(self).processing_ids() == old(self).processing_ids().union(
                    ids_of(take_due(old(self).pending_view(), limit as nat, now).1),
                )
            },
            final(self).completed_view() == old(self).completed_view(),
            final(self).dlq_view() == old(self).dlq_view(),
    {
        let now = crate::clock::now_millis();
        let res = self.dequeue_at(limit, now);
        proof {
            lemma_take_due(old(self).pending_view(), limit as nat, now);
        }
        assert(res matches Ok(items) && items@ == take_due(old(self).pending_view(), limit as nat, now).1);
        assert(res matches Ok(items) && items@ == old(self).due_items(limit as nat, now));
        res
    }

    /// Records the outcome held by the item's status now.
    fn update(&mut self, item: &QueueItem<T>) -> (res: Result<(), QueueError>)
        ensures
            res is Ok,
            final(self).dlq_view() == old(self).dlq_view(),
            exists|now: u64| #[trigger] updated(*old(self), *final(self), *item, now),
    {
        let now = crate::clock::now_millis();
        let res = self.update_at(item, now);
        assert(updated(*old(self), *self, *item, now));
        res
    }

    /// Adds a copy of `item` to the dead letter queue.
    fn move_to_dlq(&mut self, item: &QueueItem<T>) -> (res: Result<(), QueueError>)
        ensures
            res is Ok,
            exists|c: QueueItem<T>| is_copy(*item, c) && #[trigger] old(self).dlq_view().push(c) == final(self).dlq_view(),
            final(self).pending_view() == old(self).pending_view(),
            final(self).processing_view() == old(self).processing_view(),
            final(self).completed_view() == old(self).completed_view(),
    {
        let c = item.copy();
        self.dlq.push(c);
        self.stats.dlq_size = self.stats.dlq_size.saturating_add(1);
        assert(is_copy(*item, c) && old(self).dlq_view().push(c) == self.dlq_view());
        assert(old(self).dead_letters().push(c) == self.dead_letters());
        Ok(())
    }

    /// Copies of up to `limit` dead-lettered items, skipping the first `offset`.
    #[verifier::loop_isolation(false)]
    fn get_dlq(&self, limit: usize, offset: usize) -> (res: Result<Vec<QueueItem<T>>, QueueError>)
        ensures
            res matches Ok(items) && dlq_page(self.dlq_view(), limit, offset, items@),
    {
        let start = if offset < self.dlq.len() { offset } else { self.dlq.len() };
        let n = if self.dlq.len() - start < limit { self.dlq.len() - start } else { limit };
        let mut out: Vec<QueueItem<T>> = Vec::new();
        let mut i: usize = 0;
        while i < n
            invariant
                i <= n,
                start + n <= self.dlq@.len(),
                out@.len() == i,
                forall|j: int| 0 <= j < i ==> is_copy(self.dlq@[start + j], #[trigger] out@[j]),
            decreases n - i,
        {
            out.push(self.dlq[start + i].copy());
            i = i + 1;
        }
        Ok(out)
    }

    /// The statistics.
    fn stats(&self) -> (res: Result<QueueStats, QueueError>)
        ensures
            res is Ok,
    {
        Ok(self.stats)
    }

    /// Takes the first dead-lettered item with identifier `id` back into the
    /// queue now; an error when there is none.
    fn retry_from_dlq(&mut self, id: u128) -> (res: Result<(), QueueError>)
        ensures
            first_with_id(old(self).dlq_view(), id) is Some <==> res is Ok,
            res is Err ==> *final(self) == *old(self),
            exists|now: u64| #[trigger] dlq_retried(*old(self), *final(self), id, now, res),
    {
        let now = crate::clock::now_millis();
        let res = self.retry_from_dlq_at(id, now);
        assert(dlq_retried(*old(self), *self, id, now, res));
        res
    }
}

/// Whether `after` is `before` with `k` more items at its end, each of
/// them failed.
pub open spec fn dead_lettered<T>(before: Seq<QueueItem<T>>, after: Seq<QueueItem<T>>, k: int) -> bool {
    &&& after.len() == before.len() + k
    &&& after.take(before.len() as int) == before
    &&& forall|i: int| before.len() <= i < after.len() ==> (#[trigger] after[i]).status == QueueItemStatus::Failed
}

/// Adding a copy of a failed item to a dead letter queue that `k` items
/// have joined since `d0` makes `k + 1`.
proof fn lemma_dead_letter_added<T: Clone>(
    d0: Seq<QueueItem<T>>,
    d: Seq<QueueItem<T>>,
    after: Seq<QueueItem<T>>,
    item: QueueItem<T>,
    k: int,
)
    requires
        0 <= k,
        dead_lettered(d0, d, k),
        item.status == QueueItemStatus::Failed,
        exists|c: QueueItem<T>| is_copy(item, c) && #[trigger] d.push(c) == after,
    ensures
        dead_lettered(d0, after, k + 1),
{
    let c = choose|c: QueueItem<T>| is_copy(item, c) && #[trigger] d.push(c) == after;
    assert(after.take(d0.len() as int) =~= d.take(d0.len() as int));
    assert(after[d.len() as int] == c);
}

/// Whether `out` is `item` settled by the handler's answer `result` at
/// `now`: completed on success; on a retry, one more attempt with the error
/// kept, failed when out of attempts and otherwise due again after the
/// backoff; failed, with the error kept, on a failure.
pub open spec fn settled<T>(item: QueueItem<T>, result: ProcessResult, out: QueueItem<T>, now: u64) -> bool {
    match result {
        ProcessResult::Success => out == QueueItem { status: QueueItemStatus::Completed, ..item },
        ProcessResult::Retry(e) => retry_prepared(item, out, Some(e), now),
        ProcessResult::Fail(e) => out == QueueItem { status: QueueItemStatus::Failed, last_error: Some(e), ..item },
    }
}

/// Settles `item` by the handler's answer `result` at `now`.
pub fn settle_at<T>(item: QueueItem<T>, result: ProcessResult, now: u64) -> (res: QueueItem<T>)
    requires
        item.attempts < u32::MAX,
    ensures
        settled(item, result, res, now),
{
    let mut item = item;
    match result {
        ProcessResult::Success => {
            item.mark_completed();
        },
        ProcessResult::Retry(error) => {
            item.prepare_retry_at(Some(error), now);
        },
        ProcessResult::Fail(error) => {
            item.status = QueueItemStatus::Failed;
            item.last_error = Some(error);
        },
    }
    item
}

/// Whether the handler, called on a clone of `item`'s payload, may answer
/// `answer`.
pub open spec fn answered<T: Clone, F: Fn(T) -> ProcessResult>(handler: F, item: QueueItem<T>, answer: ProcessResult) -> bool {
    exists|p: T| cloned::<T>(item.payload, p) && #[trigger] call_ensures(handler, (p,), answer)
}

/// Whether `out` is `item` settled by `answer` at some time.
pub open spec fn settles<T>(item: QueueItem<T>, answer: ProcessResult, out: QueueItem<T>) -> bool {
    exists|now: u64| #[trigger] settled(item, answer, out, now)
}

/// Whether the handler answered `answers` on (clones of) the payloads of
/// the items `taken`, one call per item in order, and the items settled by
/// those answers at time `at` are `done`.
pub open spec fn handled<T: Clone, F: Fn(T) -> ProcessResult>(
    handler: F,
    taken: Seq<QueueItem<T>>,
    answers: Seq<ProcessResult>,
    done: Seq<QueueItem<T>>,
    at: u64,
) -> bool {
    &&& answers.len() == taken.len()
    &&& done.len() == taken.len()
    &&& forall|i: int| 0 <= i < taken.len() ==> #[trigger] answered(handler, taken[i], answers[i])
    &&& forall|i: int| 0 <= i < taken.len() ==> #[trigger] settled(taken[i], answers[i], done[i], at)
}

/// How each handled item ends, by the handler's answer on its payload: a
/// success completes it; a failure fails it, the error kept; a retry counts
/// one more attempt, the error kept, and fails the item once it is out of
/// retries, else makes it due again only a backoff (less at most a quarter
/// of it) after the time it was handled, or at the end of time.
pub proof fn lemma_handled_outcomes<T: Clone, F: Fn(T) -> ProcessResult>(
    handler: F,
    taken: Seq<QueueItem<T>>,
    answers: Seq<ProcessResult>,
    done: Seq<QueueItem<T>>,
    at: u64,
    i: int,
)
    requires
        handled(handler, taken, answers, done, at),
        0 <= i < taken.len(),
    ensures
        answered(handler, taken[i], answers[i]),
        settles(taken[i], answers[i], done[i]),
        done[i].id == taken[i].id,
        done[i].payload == taken[i].payload,
        answers[i] is Success ==> done[i].status == QueueItemStatus::Completed && done[i].attempts == taken[i].attempts,
        answers[i] matches ProcessResult::Fail(e) ==> done[i].status == QueueItemStatus::Failed && done[i].last_error == Some(e),
        answers[i] matches ProcessResult::Retry(e) ==> {
            &&& done[i].attempts == taken[i].attempts + 1
            &&& done[i].last_error == Some(e)
            &&& (done[i].status == QueueItemStatus::Failed <==> done[i].attempts >= taken[i].max_retries)
            &&& done[i].status != QueueItemStatus::Failed ==> {
                &&& done[i].status == QueueItemStatus::RetryPending
                &&& (done[i].process_at == u64::MAX
                    || done[i].process_at >= at + backoff_delay(done[i].attempts) - backoff_delay(done[i].attempts) / 4)
            }
        },
{
    assert(settled(taken[i], answers[i], done[i], at));
    match answers[i] {
        ProcessResult::Retry(e) => {
            if done[i].attempts < done[i].max_retries {
                let a = done[i].attempts;
                let draw = choose|draw: int| #![trigger jittered_delay(a, draw)]
                    0 <= draw && (backoff_delay(a) / 4 > 0 ==> draw < 2 * (backoff_delay(a) / 4))
                    && done[i].process_at == capped_add(at as int, jittered_delay(a, draw));
                lemma_jitter_bounds(a, draw);
            }
        },
        _ => {},
    }
}

/// The statistics after `n` items were taken for processing.
pub open spec fn taken_counts(c: QueueStats, n: int) -> QueueStats {
    QueueStats {
        pending: (c.pending - n) as u64,
        processing: capped_add(c.processing as int, n) as u64,
        ..c
    }
}

/// The statistics after the settled items `done` were recorded in order,
/// each failed one also moved to the dead letter queue.
pub open spec fn counts_after_settling<T>(c: QueueStats, done: Seq<QueueItem<T>>) -> QueueStats
    decreases done.len(),
{
    if done.len() == 0 {
        c
    } else {
        let before = counts_after_settling(c, done.drop_last());
        let s = done.last();
        let moved = if s.status == QueueItemStatus::Failed {
            QueueStats { dlq_size: (before.dlq_size + 1) as u64, ..before }
        } else {
            before
        };
        counts_after_update(moved, s.status)
    }
}

/// The failed items of `done`, in order.
pub open spec fn failed_of<T>(done: Seq<QueueItem<T>>) -> Seq<QueueItem<T>>
    decreases done.len(),
{
    if done.len() == 0 {
        Seq::empty()
    } else {
        let f = failed_of(done.drop_last());
        if done.last().status == QueueItemStatus::Failed { f.push(done.last()) } else { f }
    }
}

/// Whether `after` is `before` followed by copies of the items `added`.
pub open spec fn dead_letters_added<T: Clone>(
    before: Seq<QueueItem<T>>,
    after: Seq<QueueItem<T>>,
    added: Seq<QueueItem<T>>,
) -> bool {
    &&& after.len() == before.len() + added.len()
    &&& after.take(before.len() as int) == before
    &&& forall|j: int| 0 <= j < added.len() ==> is_copy(added[j], #[trigger] after[before.len() + j])
}

/// One more handled item extends what was handled.
proof fn lemma_handled_step<T: Clone, F: Fn(T) -> ProcessResult>(
    handler: F,
    taken: Seq<QueueItem<T>>,
    i: int,
    answers: Seq<ProcessResult>,
    done: Seq<QueueItem<T>>,
    p: T,
    r: ProcessResult,
    s: QueueItem<T>,
    now: u64,
)
    requires
        0 <= i < taken.len(),
        handled(handler, taken.take(i), answers, done, now),
        cloned::<T>(taken[i].payload, p),
        call_ensures(handler, (p,), r),
        settled(taken[i], r, s, now),
    ensures
        handled(handler, taken.take(i + 1), answers.push(r), done.push(s), now),
{
    let t0 = taken.take(i);
    let t1 = taken.take(i + 1);
    let a1 = answers.push(r);
    let d1 = done.push(s);
    assert(answered(handler, taken[i], r));
    assert(settled(taken[i], r, s, now));
    assert forall|j: int| 0 <= j < t1.len() implies #[trigger] answered(handler, t1[j], a1[j]) by {
        if j < i {
            assert(t1[j] == t0[j]);
            assert(a1[j] == answers[j]);
            assert(answered(handler, t0[j], answers[j]));
        }
    }
    assert forall|j: int| 0 <= j < t1.len() implies #[trigger] settled(t1[j], a1[j], d1[j], now) by {
        if j < i {
            assert(t1[j] == t0[j]);
            assert(a1[j] == answers[j] && d1[j] == done[j]);
            assert(settled(t0[j], answers[j], done[j], now));
        }
    }
    assert(handled(handler, t1, a1, d1, now));
}

/// Moving a copy of one more failed item to the dead letter queue extends
/// the copies added.
proof fn lemma_dead_letters_added_step<T: Clone>(
    d0: Seq<QueueItem<T>>,
    d: Seq<QueueItem<T>>,
    after: Seq<QueueItem<T>>,
    done: Seq<QueueItem<T>>,
    s: QueueItem<T>,
)
    requires
        dead_letters_added(d0, d, failed_of(done)),
        s.status == QueueItemStatus::Failed,
        exists|c: QueueItem<T>| is_copy(s, c) && #[trigger] d.push(c) == after,
    ensures
        dead_letters_added(d0, after, failed_of(done.push(s))),
{
    let c = choose|c: QueueItem<T>| is_copy(s, c) && #[trigger] d.push(c) == after;
    assert(done.push(s).drop_last() =~= done);
    let f = failed_of(done);
    let f1 = failed_of(done.push(s));
    assert(f1 == f.push(s));
    assert(after.take(d0.len() as int) =~= d.take(d0.len() as int));
    assert forall|j: int| 0 <= j < f1.len() implies is_copy(f1[j], #[trigger] after[d0.len() + j]) by {
        if j < f.len() {
            assert(f1[j] == f[j]);
            assert(after[d0.len() + j] == d[d0.len() + j]);
        } else {
            assert(f1[j] == s);
            assert(after[d0.len() + j] == c);
        }
    }
}

/// The retry queue processor: takes due items from its store in batches,
/// hands each payload to a handler, and records the outcome.
pub struct RetryQueue<T, S> {
    store: S,
    config: RetryQueueConfig,
    marker: std::marker::PhantomData<T>,
}

/// How one round of processing moved the statistics from `a` to `b` when it
/// handled `n` items: each item taken from the pending ones ends completed,
/// failed or pending again, nothing stays in processing, and every failed
/// item went to the dead letter queue.
pub open spec fn processed_counts(a: QueueStats, b: QueueStats, n: int) -> bool {
    &&& n <= a.pending
    &&& b.processing == a.processing
    &&& b.completed >= a.completed
    &&& b.failed >= a.failed
    &&& b.pending >= a.pending - n
    &&& (b.completed - a.completed) + (b.failed - a.failed) + (b.pending - (a.pending - n)) == n
    &&& b.dlq_size - a.dlq_size == b.failed - a.failed
}

impl<T: Clone, S: QueueStore<T>> RetryQueue<T, S> {
    /// The store the queue works on.
    pub closed spec fn store_state(&self) -> S {
        self.store
    }

    /// The queue's configuration.
    pub closed spec fn configuration(&self) -> RetryQueueConfig {
        self.config
    }

    pub fn new(store: S, config: RetryQueueConfig) -> (res: Self)
        ensures
            res.store_state() == store,
            res.configuration() == config,
    {
        RetryQueue { store, config, marker: std::marker::PhantomData }
    }

    /// Adds a payload as a new item, allowed the configured number of
    /// retries; its identifier on success.
    pub fn enqueue(&mut self, payload: T) -> (res: Result<u128, QueueError>)
        requires
            old(self).store_state().ready(),
            old(self).store_state().counts().pending < u64::MAX,
        ensures
            final(self).store_state().ready(),
            final(self).configuration() == old(self).configuration(),
            final(self).store_state().infallible() == old(self).store_state().infallible(),
            old(self).store_state().infallible() ==> res is Ok,
            res matches Ok(id) ==> {
                &&& crate::ids::is_random_uuid(id)
                &&& final(self).store_state().counts() == (QueueStats {
                    pending: (old(self).store_state().counts().pending + 1) as u64,
                    ..old(self).store_state().counts()
                })
                &&& final(self).store_state().dead_letters() == old(self).store_state().dead_letters()
            },
    {
        let item = QueueItem::new(payload).with_max_retries(self.config.max_retries);
        let id = item.id;
        match self.store.enqueue(item) {
            Ok(()) => Ok(id),
            Err(e) => Err(e),
        }
    }

    /// Adds an item built by the caller; its identifier on success.
    pub fn enqueue_with_options(&mut self, item: QueueItem<T>) -> (res: Result<u128, QueueError>)
        requires
            old(self).store_state().ready(),
            old(self).store_state().counts().pending < u64::MAX,
            item.attempts < u32::MAX,
        ensures
            final(self).store_state().ready(),
            final(self).configuration() == old(self).configuration(),
            final(self).store_state().infallible() == old(self).store_state().infallible(),
            old(self).store_state().infallible() ==> res is Ok,
            res matches Ok(id) ==> {
                &&& id == item.id
                &&& final(self).store_state().counts() == (QueueStats {
                    pending: (old(self).store_state().counts().pending + 1) as u64,
                    ..old(self).store_state().counts()
                })
                &&& final(self).store_state().dead_letters() == old(self).store_state().dead_letters()
            },
    {
        let id = item.id;
        match self.store.enqueue(item) {
            Ok(()) => Ok(id),
            Err(e) => Err(e),
        }
    }

    /// Handles a batch of items taken for processing: each is settled at
    /// `now` by the handler's answer on its payload (see `settle_at`), moved
    /// to the dead letter queue when it ends failed, and its outcome
    /// recorded with the store. The number of items handled on success.
    fn handle_batch<F: Fn(T) -> ProcessResult>(&mut self, handler: F, items: Vec<QueueItem<T>>, now: u64) -> (res: Result<usize, QueueError>)
        requires
            old(self).store_state().ready(),
            forall|t: T| handler.requires((t,)),
            forall|i: int| 0 <= i < items@.len() ==> (#[trigger] items@[i]).attempts < u32::MAX,
            old(self).store_state().counts().processing >= items@.len(),
            old(self).store_state().counts().pending + items@.len() <= u64::MAX,
            old(self).store_state().counts().completed + items@.len() <= u64::MAX,
            old(self).store_state().counts().failed + items@.len() <= u64::MAX,
            old(self).store_state().counts().dlq_size + items@.len() <= u64::MAX,
        ensures
            final(self).store_state().ready(),
            final(self).configuration() == old(self).configuration(),
            final(self).store_state().infallible() == old(self).store_state().infallible(),
            old(self).store_state().infallible() ==> res is Ok,
            res matches Ok(n) ==> {
                let c1 = old(self).store_state().counts();
                let c = final(self).store_state().counts();
                &&& n == items@.len()
                &&& c.processing == c1.processing - n
                &&& c.completed >= c1.completed
                &&& c.failed >= c1.failed
                &&& c.pending >= c1.pending
                &&& (c.completed - c1.completed) + (c.failed - c1.failed) + (c.pending - c1.pending) == n
                &&& c.dlq_size - c1.dlq_size == c.failed - c1.failed
                &&& dead_lettered(
                    old(self).store_state().dead_letters(),
                    final(self).store_state().dead_letters(),
                    c.failed - c1.failed,
                )
                &&& exists|answers: Seq<ProcessResult>, done: Seq<QueueItem<T>>| {
                    &&& #[trigger] handled(handler, items@, answers, done, now)
                    &&& c == counts_after_settling(c1, done)
                    &&& dead_letters_added(
                        old(self).store_state().dead_letters(),
                        final(self).store_state().dead_letters(),
                        failed_of(done),
                    )
                }
            },
    {
        let ghost c1 = self.store.counts();
        let ghost d0 = self.store.dead_letters();
        let ghost taken = items@;
        let n = items.len();
        let mut items = items;
        let ghost mut answers: Seq<ProcessResult> = Seq::empty();
        let ghost mut done: Seq<QueueItem<T>> = Seq::empty();
        let mut processed: usize = 0;
        assert(d0.take(d0.len() as int) =~= d0);
        assert(taken.skip(0) =~= taken);
        assert(handled(handler, taken.take(0), answers, done, now));
        assert(dead_letters_added(d0, self.store.dead_letters(), failed_of(done))) by {
            assert(self.store.dead_letters().take(d0.len() as int) =~= d0);
        }
        while processed < n
            invariant
                items@.len() == n - processed,
                items@ == taken.skip(processed as int),
                taken.len() == n,
                self.config == old(self).config,
                forall|i: int| 0 <= i < taken.len() ==> (#[trigger] taken[i]).attempts < u32::MAX,
                self.store.ready(),
                self.store.infallible() == old(self).store.infallible(),
                forall|t: T| handler.requires((t,)),
                c1.processing >= n,
                c1.pending + n <= u64::MAX,
                c1.completed + n <= u64::MAX,
                c1.failed + n <= u64::MAX,
                c1.dlq_size + n <= u64::MAX,
                answers.len() == processed,
                done.len() == processed,
                handled(handler, taken.take(processed as int), answers, done, now),
                self.store.counts() == counts_after_settling(c1, done),
                dead_letters_added(d0, self.store.dead_letters(), failed_of(done)),
                ({
                    let c = self.store.counts();
                    &&& c.processing == c1.processing - processed
                    &&& c.completed >= c1.completed
                    &&& c.failed >= c1.failed
                    &&& c.pending >= c1.pending
                    &&& (c.completed - c1.completed) + (c.failed - c1.failed) + (c.pending - c1.pending) == processed
                    &&& c.dlq_size - c1.dlq_size == c.failed - c1.failed
                    &&& dead_lettered(d0, self.store.dead_letters(), c.failed - c1.failed)
                }),
            decreases n - processed,
        {
            proof {
                assert(items@[0] == taken[processed as int]);
            }
            let item = items.remove(0);
            proof {
                assert(items@ =~= taken.skip(processed + 1));
            }
            let ghost c = self.store.counts();
            let ghost d = self.store.dead_letters();
            let payload = item.payload.clone();
            let ghost p = payload;
            let result = handler(payload);
            let ghost answered = result;
            let settled = settle_at(item, result, now);
            let ghost prev_done = done;
            proof {
                lemma_handled_step(handler, taken, processed as int, answers, done, p, answered, settled, now);
                answers = answers.push(answered);
                done = done.push(settled);
            }
            if settled.status == QueueItemStatus::Failed {
                match self.store.move_to_dlq(&settled) {
                    Ok(()) => {},
                    Err(e) => return Err(e),
                }
                proof {
                    lemma_dead_letter_added(d0, d, self.store.dead_letters(), settled, c.failed - c1.failed);
                    lemma_dead_letters_added_step(d0, d, self.store.dead_letters(), prev_done, settled);
                }
            } else {
                proof {
                    assert(failed_of(done) == failed_of(prev_done)) by {
                        assert(done.drop_last() =~= prev_done);
                    }
                }
            }
            match self.store.update(&settled) {
                Ok(()) => {},
                Err(e) => return Err(e),
            }
            proof {
                assert(done.drop_last() =~= prev_done);
            }
            processed = processed + 1;
        }
        proof {
            assert(taken.take(n as int) =~= taken);
        }
        Ok(processed)
    }

    /// Processes one batch of due items with `handler`: the store hands out
    /// up to the batch size of the items due by its clock, and each is
    /// settled by the handler's answer on its payload (see `settle_at`),
    /// moved to the dead letter queue when it ends failed, and its outcome
    /// recorded with the store. The number of items handled on success.
    pub fn process<F: Fn(T) -> ProcessResult>(&mut self, handler: F) -> (res: Result<usize, QueueError>)
        requires
            old(self).store_state().ready(),
            forall|t: T| handler.requires((t,)),
            old(self).store_state().counts().processing + old(self).configuration().batch_size <= u64::MAX,
            old(self).store_state().counts().completed + old(self).configuration().batch_size <= u64::MAX,
            old(self).store_state().counts().failed + old(self).configuration().batch_size <= u64::MAX,
            old(self).store_state().counts().dlq_size + old(self).configuration().batch_size <= u64::MAX,
        ensures
            final(self).store_state().ready(),
            final(self).configuration() == old(self).configuration(),
            final(self).store_state().infallible() == old(self).store_state().infallible(),
            old(self).store_state().infallible() ==> res is Ok,
            res matches Ok(n) ==> {
                &&& n <= old(self).configuration().batch_size
                &&& processed_counts(old(self).store_state().counts(), final(self).store_state().counts(), n as int)
                &&& dead_lettered(
                    old(self).store_state().dead_letters(),
                    final(self).store_state().dead_letters(),
                    final(self).store_state().counts().failed - old(self).store_state().counts().failed,
                )
                &&& exists|now: u64, at: u64, answers: Seq<ProcessResult>, done: Seq<QueueItem<T>>| {
                    &&& #[trigger] handled(
                        handler,
                        old(self).store_state().due_items(old(self).configuration().batch_size as nat, now),
                        answers,
                        done,
                        at,
                    )
                    &&& old(self).store_state().due_items(old(self).configuration().batch_size as nat, now).len() == n
                    &&& final(self).store_state().counts()
                        == counts_after_settling(taken_counts(old(self).store_state().counts(), n as int), done)
                    &&& dead_letters_added(
                        old(self).store_state().dead_letters(),
                        final(self).store_state().dead_letters(),
                        failed_of(done),
                    )
                }
            },
    {
        let ghost c0 = self.store.counts();
        let batch = self.config.batch_size;
        let items = match self.store.dequeue(batch) {
            Ok(v) => v,
            Err(e) => return Err(e),
        };
        let ghost taken = items@;
        let ghost when = choose|now: u64| items@ == #[trigger] old(self).store.due_items(batch as nat, now);
        let now = crate::clock::now_millis();
        let res = self.handle_batch(handler, items, now);
        proof {
            if res is Ok {
                assert(taken == old(self).store_state().due_items(batch as nat, when));
            }
        }
        res
    }

    /// The queue statistics.
    pub fn stats(&self) -> (res: Result<QueueStats, QueueError>)
        ensures
            self.store_state().infallible() ==> res is Ok,
            res matches Ok(s) ==> s == self.store_state().counts(),
    {
        self.store.stats()
    }

    /// Takes an item from the dead letter queue back into the queue.
    pub fn retry_dlq_item(&mut self, id: u128) -> (res: Result<(), QueueError>)
        requires
            old(self).store_state().ready(),
            old(self).store_state().counts().pending < u64::MAX,
        ensures
            final(self).store_state().ready(),
            final(self).configuration() == old(self).configuration(),
            final(self).store_state().infallible() == old(self).store_state().infallible(),
            old(self).store_state().infallible()
                ==> (res is Ok <==> first_with_id(old(self).store_state().dead_letters(), id) is Some),
            res is Ok ==> final(self).store_state().counts() == (QueueStats {
                pending: (old(self).store_state().counts().pending + 1) as u64,
                dlq_size: saturating_sub(old(self).store_state().counts().dlq_size as int, 1) as u64,
                ..old(self).store_state().counts()
            }),
            res is Ok ==> dlq_taken(old(self).store_state().dead_letters(), final(self).store_state().dead_letters(), id),
    {
        self.store.retry_from_dlq(id)
    }

    /// Items from the dead letter queue: at most `limit`, after skipping `offset`.
    pub fn get_dlq(&self, limit: usize, offset: usize) -> (res: Result<Vec<QueueItem<T>>, QueueError>)
        ensures
            self.store_state().infallible() ==> res is Ok,
            res matches Ok(items) ==> dlq_page(self.store_state().dead_letters(), limit, offset, items@),
    {
        self.store.get_dlq(limit, offset)
    }
}

/// Whether `item` is a new item for `payload` with identifier `id`,
/// created at `now` and due then, allowed `max_retries` retries.
pub open spec fn fresh_item<T>(item: QueueItem<T>, payload: T, id: u128, now: u64, max_retries: u32) -> bool {
    &&& item.payload == payload
    &&& item.id == id
    &&& item.status == QueueItemStatus::Pending
    &&& item.attempts == 0
    &&& item.max_retries == max_retries
    &&& item.created_at == now
    &&& item.process_at == now
    &&& item.last_error is None
    &&& item.org_id is None
    &&& item.correlation_id is None
    &&& item.metadata@.len() == 0
}

impl<T: Clone> RetryQueue<T, InMemoryQueueStore<T>> {
    /// Adds a payload at `now` as a new item, due then and allowed the
    /// configured number of retries; its identifier.
    pub fn enqueue_at(&mut self, payload: T, now: u64) -> (res: Result<u128, QueueError>)
        requires
            old(self).store_state().wf(),
            old(self).store_state().stats_view().pending < u64::MAX,
        ensures
            final(self).store_state().wf(),
            final(self).configuration() == old(self).configuration(),
            res matches Ok(id) && {
                &&& crate::ids::is_random_uuid(id)
                &&& exists|item: QueueItem<T>| {
                    &&& #[trigger] fresh_item(item, payload, id, now, old(self).configuration().max_retries)
                    &&& final(self).store_state().pending_view() == old(self).store_state().pending_view().push((now, item))
                }
            },
            final(self).store_state().processing_view() == old(self).store_state().processing_view(),
            final(self).store_state().completed_view() == old(self).store_state().completed_view(),
            final(self).store_state().dlq_view() == old(self).store_state().dlq_view(),
            final(self).store_state().stats_view() == (QueueStats {
                pending: (old(self).store_state().stats_view().pending + 1) as u64,
                ..old(self).store_state().stats_view()
            }),
    {
        let id = crate::ids::new_uuid();
        let item = QueueItem::new_with(payload, id, now).with_max_retries(self.config.max_retries);
        let ghost queued = item;
        match self.store.enqueue_at(item, now) {
            Ok(()) => {},
            Err(e) => return Err(e),
        }
        assert(fresh_item(queued, payload, id, now, self.config.max_retries));
        Ok(id)
    }

    /// Processes one batch at `now`: the items due then (up to the batch
    /// size, earliest first) are taken, and each is settled at `now` by the
    /// handler's answer on its payload, moved to the dead letter queue when
    /// it ends failed, and its outcome recorded. The number of items handled.
    pub fn process_at<F: Fn(T) -> ProcessResult>(&mut self, handler: F, now: u64) -> (res: Result<usize, QueueError>)
        requires
            old(self).store_state().wf(),
            forall|t: T| handler.requires((t,)),
            old(self).store_state().counts().processing + old(self).configuration().batch_size <= u64::MAX,
            old(self).store_state().counts().completed + old(self).configuration().batch_size <= u64::MAX,
            old(self).store_state().counts().failed + old(self).configuration().batch_size <= u64::MAX,
            old(self).store_state().counts().dlq_size + old(self).configuration().batch_size <= u64::MAX,
        ensures
            final(self).store_state().wf(),
            final(self).configuration() == old(self).configuration(),
            res matches Ok(n) && {
                let taken = take_due(old(self).store_state().pending_view(), old(self).configuration().batch_size as nat, now).1;
                &&& n == taken.len()
                &&& processed_counts(old(self).store_state().counts(), final(self).store_state().counts(), n as int)
                &&& exists|answers: Seq<ProcessResult>, done: Seq<QueueItem<T>>| {
                    &&& #[trigger] handled(handler, take_due(old(self).store_state().pending_view(), old(self).configuration().batch_size as nat, now).1, answers, done, now)
                    &&& final(self).store_state().counts()
                        == counts_after_settling(taken_counts(old(self).store_state().counts(), n as int), done)
                    &&& dead_letters_added(
                        old(self).store_state().dead_letters(),
                        final(self).store_state().dead_letters(),
                        failed_of(done),
                    )
                }
            },
    {
        let ghost c0 = self.store.counts();
        let batch = self.config.batch_size;
        proof {
            lemma_take_due(self.store.pending_view(), batch as nat, now);
        }
        let items = match self.store.dequeue_at(batch, now) {
            Ok(v) => v,
            Err(e) => return Err(e),
        };
        assert(self.store.counts() == taken_counts(c0, items@.len() as int));
        let res = self.handle_batch(handler, items, now);
        res
    }
}

/// Create a webhook-specific payload type.
#[derive(Debug, Clone)]
pub struct WebhookPayload {
    /// Target URL.
    pub url: String,
    /// HTTP method.
    pub method: String,
    /// Request headers.
    pub headers: Vec<(String, String)>,
    /// Request body.
    pub body: String,
    /// Event type.
    pub event_type: String,
}

impl WebhookPayload {
    /// A POST of `body` to `url` for events of type `event_type`, with no headers.
    pub fn new(url: String, event_type: String, body: String) -> (res: Self)
        ensures
            res.url == url,
            res.method@ == "POST"@,
            res.headers@.len() == 0,
            res.body == body,
            res.event_type == event_type,
    {
        WebhookPayload { url, method: "POST".to_owned(), headers: Vec::new(), body, event_type }
    }

    /// Sets a request header, replacing an earlier value of the same name.
    pub fn with_header(self, key: String, value: String) -> (res: Self)
        requires
            forall|i: int, j: int| 0 <= i < j < self.headers@.len() ==> self.headers@[i].0@ != self.headers@[j].0@,
        ensures
            res.url == self.url,
            res.method == self.method,
            res.body == self.body,
            res.event_type == self.event_type,
            exists|i: int| 0 <= i < res.headers@.len() && (#[trigger] res.headers@[i]).0@ == key@ && res.headers@[i].1@ == value@,
            forall|i: int, j: int| 0 <= i < j < res.headers@.len() ==> res.headers@[i].0@ != res.headers@[j].0@,
            forall|i: int| 0 <= i < res.headers@.len() && (#[trigger] res.headers@[i]).0@ != key@ ==>
                self.headers@.contains(res.headers@[i]),
            forall|i: int| 0 <= i < self.headers@.len() && (#[trigger] self.headers@[i]).0@ != key@ ==>
                res.headers@.contains(self.headers@[i]),
    {
        let mut this = self;
        let mut i: usize = 0;
        while i < this.headers.len()
            invariant
                i <= this.headers@.len(),
                this.headers@ == self.headers@,
                this.url == self.url,
                this.method == self.method,
                this.body == self.body,
                this.event_type == self.event_type,
                forall|a: int, b: int| 0 <= a < b < self.headers@.len() ==> self.headers@[a].0@ != self.headers@[b].0@,
                forall|j: int| 0 <= j < i ==> this.headers@[j].0@ != key@,
            decreases this.headers@.len() - i,
        {
            if this.headers[i].0 == key {
                let ghost before = this.headers@;
                let name = this.headers[i].0.clone();
                this.headers.set(i, (name, value));
                proof {
                    let h = this.headers@;
                    assert(h[i as int].0@ == key@);
                    assert(before[i as int].0@ == key@);
                    assert forall|a: int| 0 <= a < h.len() implies (#[trigger] h[a]).0@ == before[a].0@ by {
                        if a == i {
                            assert(h[a].0 == before[a].0);
                        }
                    }
                    assert forall|a: int, b: int| 0 <= a < b < h.len() implies h[a].0@ != h[b].0@ by {
                        assert(h[a].0@ == before[a].0@);
                        assert(h[b].0@ == before[b].0@);
                    }
                    assert forall|a: int| 0 <= a < h.len() && (#[trigger] h[a]).0@ != key@ implies before.contains(h[a]) by {
                        assert(h[a] == before[a]);
                    }
                    assert forall|a: int| 0 <= a < before.len() && (#[trigger] before[a]).0@ != key@ implies h.contains(before[a]) by {
                        assert(h[a] == before[a]);
                    }
                }
                return WebhookPayload { headers: this.headers, ..this };
            }
            i = i + 1;
        }
        let ghost before = this.headers@;
        this.headers.push((key, value));
        proof {
            let h = this.headers@;
            assert(h[h.len() - 1].0@ == key@);
            assert forall|a: int| 0 <= a < h.len() && (#[trigger] h[a]).0@ != key@ implies before.contains(h[a]) by {
                assert(h[a] == before[a]);
            }
            assert forall|a: int| 0 <= a < before.len() && (#[trigger] before[a]).0@ != key@ implies h.contains(before[a]) by {
                assert(h[a] == before[a]);
            }
        }
        this
    }
}

} // verus!
