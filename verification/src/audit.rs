//! Structured audit logging for chain-of-custody operations: coverage
//! computation, gap analysis, conflict resolution, receipt minting and
//! verification.
//!
//! Times are milliseconds since the Unix epoch, on the clock of
//! `crate::clock`. Identifiers are the 128-bit values of UUIDs.

use crate::json::copy_fields;
use crate::json::set_field;
use crate::json::JsonValue;
use crate::retry::copy_opt_text;
use vstd::prelude::*;

verus! {

/// Audit event severity levels.
#[derive(Debug, Clone, Copy, PartialEq, Eq, Structural)]
pub enum AuditLevel {
    /// Informational events.
    Info,
    /// Warnings that may need attention.
    Warning,
    /// Errors requiring investigation.
    Error,
    /// Critical security events.
    Critical,
}

/// Types of operations that can be audited.
#[derive(Debug, Clone, PartialEq, Eq)]
pub enum CTEOperationType {
    /// Coverage computation for a policy.
    CoverageComputation,
    /// Gap analysis between policies.
    GapAnalysis,
    /// Conflict resolution between overlapping coverages.
    ConflictResolution,
    /// Receipt minting.
    ReceiptMint,
    /// Receipt verification.
    ReceiptVerify,
    /// Attestation ingestion.
    AttestationIngest,
    /// Policy creation.
    PolicyCreate,
    /// Policy update.
    PolicyUpdate,
    /// Policy deletion.
    PolicyDelete,
    /// Key rotation.
    KeyRotation,
    /// Session event.
    SessionEvent,
    /// Custom operation type.
    Custom(String),
}

impl CTEOperationType {
    /// What the operation type is: the variant's number, and the name of a
    /// custom type.
    pub open spec fn kind(&self) -> (nat, Seq<char>) {
        match self {
            CTEOperationType::CoverageComputation => (0, Seq::empty()),
            CTEOperationType::GapAnalysis => (1, Seq::empty()),
            CTEOperationType::ConflictResolution => (2, Seq::empty()),
            CTEOperationType::ReceiptMint => (3, Seq::empty()),
            CTEOperationType::ReceiptVerify => (4, Seq::empty()),
            CTEOperationType::AttestationIngest => (5, Seq::empty()),
            CTEOperationType::PolicyCreate => (6, Seq::empty()),
            CTEOperationType::PolicyUpdate => (7, Seq::empty()),
            CTEOperationType::PolicyDelete => (8, Seq::empty()),
            CTEOperationType::KeyRotation => (9, Seq::empty()),
            CTEOperationType::SessionEvent => (10, Seq::empty()),
            CTEOperationType::Custom(name) => (11, name@),
        }
    }

    /// The number of the variant.
    fn variant_number(&self) -> (res: u8)
        ensures
            res == self.kind().0,
    {
        match self {
            CTEOperationType::CoverageComputation => 0,
            CTEOperationType::GapAnalysis => 1,
            CTEOperationType::ConflictResolution => 2,
            CTEOperationType::ReceiptMint => 3,
            CTEOperationType::ReceiptVerify => 4,
            CTEOperationType::AttestationIngest => 5,
            CTEOperationType::PolicyCreate => 6,
            CTEOperationType::PolicyUpdate => 7,
            CTEOperationType::PolicyDelete => 8,
            CTEOperationType::KeyRotation => 9,
            CTEOperationType::SessionEvent => 10,
            CTEOperationType::Custom(_) => 11,
        }
    }

    /// Whether two operation types are the same.
    pub fn same_operation(&self, other: &CTEOperationType) -> (res: bool)
        ensures
            res == (self.kind() == other.kind()),
    {
        if self.variant_number() != other.variant_number() {
            false
        } else {
            match (self, other) {
                (CTEOperationType::Custom(a), CTEOperationType::Custom(b)) => a.eq(b),
                _ => true,
            }
        }
    }

    /// A copy of the operation type.
    pub fn copy(&self) -> (res: CTEOperationType)
        ensures
            res == *self,
    {
        match self {
            CTEOperationType::CoverageComputation => CTEOperationType::CoverageComputation,
            CTEOperationType::GapAnalysis => CTEOperationType::GapAnalysis,
            CTEOperationType::ConflictResolution => CTEOperationType::ConflictResolution,
            CTEOperationType::ReceiptMint => CTEOperationType::ReceiptMint,
            CTEOperationType::ReceiptVerify => CTEOperationType::ReceiptVerify,
            CTEOperationType::AttestationIngest => CTEOperationType::AttestationIngest,
            CTEOperationType::PolicyCreate => CTEOperationType::PolicyCreate,
            CTEOperationType::PolicyUpdate => CTEOperationType::PolicyUpdate,
            CTEOperationType::PolicyDelete => CTEOperationType::PolicyDelete,
            CTEOperationType::KeyRotation => CTEOperationType::KeyRotation,
            CTEOperationType::SessionEvent => CTEOperationType::SessionEvent,
            CTEOperationType::Custom(name) => CTEOperationType::Custom(name.clone()),
        }
    }
}

/// Outcome of an audited operation.
#[derive(Debug, Clone, Copy, PartialEq, Eq, Structural)]
pub enum OperationOutcome {
    Success,
    Failure,
    PartialSuccess,
    Pending,
    Skipped,
}

/// A structured audit log entry.
#[derive(Debug)]
pub struct AuditEntry {
    /// Unique identifier of the entry.
    pub id: u128,
    /// When the event occurred.
    pub timestamp: u64,
    /// Correlation identifier for request tracing.
    pub correlation_id: Option<u128>,
    /// The operation audited.
    pub operation: CTEOperationType,
    /// Severity level.
    pub level: AuditLevel,
    /// Outcome of the operation.
    pub outcome: OperationOutcome,
    /// Organization, if any.
    pub org_id: Option<String>,
    /// User who initiated the operation.
    pub user_id: Option<String>,
    /// Resource operated on.
    pub resource_id: Option<String>,
    /// Type of the resource (such as "policy", "receipt", "attestation").
    pub resource_type: Option<String>,
    /// Human-readable message.
    pub message: String,
    /// Structured metadata.
    pub metadata: Vec<(String, JsonValue)>,
    /// Duration of the operation in milliseconds.
    pub duration_ms: Option<u64>,
    /// IP address of the requester.
    pub ip_address: Option<String>,
    /// User agent of the requester.
    pub user_agent: Option<String>,
}

/// Whether `b` is a copy of `a`: the same fields and the same metadata.
pub open spec fn entry_copy(a: AuditEntry, b: AuditEntry) -> bool {
    &&& b.id == a.id
    &&& b.timestamp == a.timestamp
    &&& b.correlation_id == a.correlation_id
    &&& b.operation == a.operation
    &&& b.level == a.level
    &&& b.outcome == a.outcome
    &&& b.org_id == a.org_id
    &&& b.user_id == a.user_id
    &&& b.resource_id == a.resource_id
    &&& b.resource_type == a.resource_type
    &&& b.message == a.message
    &&& crate::json::data_of_fields(b.metadata@) == crate::json::data_of_fields(a.metadata@)
    &&& b.duration_ms == a.duration_ms
    &&& b.ip_address == a.ip_address
    &&& b.user_agent == a.user_agent
}

impl AuditEntry {
    /// An informational, successful entry with identifier `id` at `now`.
    pub fn new_with(operation: CTEOperationType, message: String, id: u128, now: u64) -> (res: Self)
        ensures
            res.id == id,
            res.timestamp == now,
            res.correlation_id is None,
            res.operation == operation,
            res.level == AuditLevel::Info,
            res.outcome == OperationOutcome::Success,
            res.org_id is None,
            res.user_id is None,
            res.resource_id is None,
            res.resource_type is None,
            res.message == message,
            res.metadata@.len() == 0,
            res.duration_ms is None,
            res.ip_address is None,
            res.user_agent is None,
    {
        AuditEntry {
            id,
            timestamp: now,
            correlation_id: None,
            operation,
            level: AuditLevel::Info,
            outcome: OperationOutcome::Success,
            org_id: None,
            user_id: None,
            resource_id: None,
            resource_type: None,
            message,
            metadata: Vec::new(),
            duration_ms: None,
            ip_address: None,
            user_agent: None,
        }
    }

    /// An informational, successful entry with a fresh random identifier,
    /// timestamped now.
    pub fn new(operation: CTEOperationType, message: String) -> (res: Self)
        ensures
            crate::ids::is_random_uuid(res.id),
            res.correlation_id is None,
            res.operation == operation,
            res.level == AuditLevel::Info,
            res.outcome == OperationOutcome::Success,
            res.org_id is None,
            res.user_id is None,
            res.resource_id is None,
            res.resource_type is None,
            res.message == message,
            res.metadata@.len() == 0,
            res.duration_ms is None,
            res.ip_address is None,
            res.user_agent is None,
    {
        let id = crate::ids::new_uuid();
        let now = crate::clock::now_millis();
        Self::new_with(operation, message, id, now)
    }

    /// Sets the correlation identifier.
    pub fn with_correlation_id(self, id: u128) -> (res: Self)
        ensures
            res == (AuditEntry { correlation_id: Some(id), ..self }),
    {
        AuditEntry { correlation_id: Some(id), ..self }
    }

    /// Sets the severity level.
    pub fn with_level(self, level: AuditLevel) -> (res: Self)
        ensures
            res == (AuditEntry { level, ..self }),
    {
        AuditEntry { level, ..self }
    }

    /// Sets the outcome.
    pub fn with_outcome(self, outcome: OperationOutcome) -> (res: Self)
        ensures
            res == (AuditEntry { outcome, ..self }),
    {
        AuditEntry { outcome, ..self }
    }

    /// Sets the organization.
    pub fn with_org_id(self, org_id: String) -> (res: Self)
        ensures
            res == (AuditEntry { org_id: Some(org_id), ..self }),
    {
        AuditEntry { org_id: Some(org_id), ..self }
    }

    /// Sets the user.
    pub fn with_user_id(self, user_id: String) -> (res: Self)
        ensures
            res == (AuditEntry { user_id: Some(user_id), ..self }),
    {
        AuditEntry { user_id: Some(user_id), ..self }
    }

    /// Sets the resource operated on.
    pub fn with_resource(self, resource_type: String, resource_id: String) -> (res: Self)
        ensures
            res == (AuditEntry { resource_type: Some(resource_type), resource_id: Some(resource_id), ..self }),
    {
        AuditEntry { resource_type: Some(resource_type), resource_id: Some(resource_id), ..self }
    }

    /// Sets a metadata field, replacing an earlier value of the same name.
    pub fn with_metadata(self, key: String, value: JsonValue) -> (res: Self)
        ensures
            res.metadata@ == crate::json::with_field(self.metadata@, key, value),
            res == (AuditEntry { metadata: res.metadata, ..self }),
    {
        let mut this = self;
        set_field(&mut this.metadata, key, value);
        this
    }

    /// Sets the duration of the operation.
    pub fn with_duration_ms(self, duration: u64) -> (res: Self)
        ensures
            res == (AuditEntry { duration_ms: Some(duration), ..self }),
    {
        AuditEntry { duration_ms: Some(duration), ..self }
    }

    /// Sets the client's address and user agent.
    pub fn with_client_info(self, ip: Option<String>, user_agent: Option<String>) -> (res: Self)
        ensures
            res == (AuditEntry { ip_address: ip, user_agent, ..self }),
    {
        AuditEntry { ip_address: ip, user_agent, ..self }
    }

    /// A copy of the entry.
    pub fn copy(&self) -> (res: Self)
        ensures
            entry_copy(*self, res),
    {
        AuditEntry {
            id: self.id,
            timestamp: self.timestamp,
            correlation_id: self.correlation_id,
            operation: self.operation.copy(),
            level: self.level,
            outcome: self.outcome,
            org_id: copy_opt_text(&self.org_id),
            user_id: copy_opt_text(&self.user_id),
            resource_id: copy_opt_text(&self.resource_id),
            resource_type: copy_opt_text(&self.resource_type),
            message: self.message.clone(),
            metadata: copy_fields(&self.metadata),
            duration_ms: self.duration_ms,
            ip_address: copy_opt_text(&self.ip_address),
            user_agent: copy_opt_text(&self.user_agent),
        }
    }
}


/// Filter for querying audit entries.
#[derive(Debug)]
pub struct AuditFilter {
    pub correlation_id: Option<u128>,
    pub operation: Option<CTEOperationType>,
    pub org_id: Option<String>,
    pub user_id: Option<String>,
    pub resource_id: Option<String>,
    pub level: Option<AuditLevel>,
    pub outcome: Option<OperationOutcome>,
    pub from_timestamp: Option<u64>,
    pub to_timestamp: Option<u64>,
    pub limit: Option<usize>,
    pub offset: Option<usize>,
}

/// The filter that selects every entry.
pub open spec fn empty_filter() -> AuditFilter {
    AuditFilter {
        correlation_id: None,
        operation: None,
        org_id: None,
        user_id: None,
        resource_id: None,
        level: None,
        outcome: None,
        from_timestamp: None,
        to_timestamp: None,
        limit: None,
        offset: None,
    }
}

impl Default for AuditFilter {
    /// A filter that selects every entry.
    fn default() -> (res: Self)
        ensures
            res == empty_filter(),
    {
        AuditFilter {
            correlation_id: None,
            operation: None,
            org_id: None,
            user_id: None,
            resource_id: None,
            level: None,
            outcome: None,
            from_timestamp: None,
            to_timestamp: None,
            limit: None,
            offset: None,
        }
    }
}

impl AuditFilter {
    /// A filter that selects every entry.
    pub fn new() -> (res: Self)
        ensures
            res == empty_filter(),
    {
        AuditFilter::default()
    }

    pub fn with_correlation_id(self, id: u128) -> (res: Self)
        ensures
            res == (AuditFilter { correlation_id: Some(id), ..self }),
    {
        AuditFilter { correlation_id: Some(id), ..self }
    }

    pub fn with_org_id(self, org_id: String) -> (res: Self)
        ensures
            res == (AuditFilter { org_id: Some(org_id), ..self }),
    {
        AuditFilter { org_id: Some(org_id), ..self }
    }

    pub fn with_operation(self, op: CTEOperationType) -> (res: Self)
        ensures
            res == (AuditFilter { operation: Some(op), ..self }),
    {
        AuditFilter { operation: Some(op), ..self }
    }

    pub fn with_limit(self, limit: usize) -> (res: Self)
        ensures
            res == (AuditFilter { limit: Some(limit), ..self }),
    {
        AuditFilter { limit: Some(limit), ..self }
    }
}

/// Whether an entry passes a filter: its correlation identifier,
/// organization, operation and level are those asked for, and its time lies
/// within the bounds given.
pub open spec fn passes(e: AuditEntry, f: AuditFilter) -> bool {
    &&& (f.correlation_id matches Some(c) ==> e.correlation_id == Some(c))
    &&& (f.org_id matches Some(o) ==> e.org_id matches Some(eo) && eo@ == o@)
    &&& (f.operation matches Some(op) ==> e.operation.kind() == op.kind())
    &&& (f.level matches Some(l) ==> e.level == l)
    &&& (f.from_timestamp matches Some(t) ==> e.timestamp >= t)
    &&& (f.to_timestamp matches Some(t) ==> e.timestamp <= t)
}

/// The entries a filter selects, in order.
pub open spec fn selected(entries: Seq<AuditEntry>, f: AuditFilter) -> Seq<AuditEntry> {
    entries.filter(|e: AuditEntry| passes(e, f))
}

/// A page of `s`: the first `offset` dropped, then at most `limit` kept.
pub open spec fn paged<A>(s: Seq<A>, offset: Option<usize>, limit: Option<usize>) -> Seq<A> {
    let rest = match offset {
        Some(o) => if o < s.len() { s.skip(o as int) } else { Seq::empty() },
        None => s,
    };
    match limit {
        Some(l) => if l < rest.len() { rest.take(l as int) } else { rest },
        None => rest,
    }
}

/// Whether `v` holds copies of the entries of `s`, in order.
pub open spec fn copies(s: Seq<AuditEntry>, v: Seq<AuditEntry>) -> bool {
    v.len() == s.len() && forall|i: int| 0 <= i < s.len() ==> entry_copy(s[i], #[trigger] v[i])
}

/// Whether `s` is what is kept of `t`: its last entries.
pub open spec fn kept_suffix(s: Seq<AuditEntry>, t: Seq<AuditEntry>) -> bool {
    s.len() <= t.len() && s == t.subrange(t.len() - s.len(), t.len() as int)
}

/// The first index of an entry with identifier `id`.
pub open spec fn first_entry(entries: Seq<AuditEntry>, id: u128, i: int) -> bool {
    &&& 0 <= i < entries.len()
    &&& entries[i].id == id
    &&& forall|j: int| 0 <= j < i ==> entries[j].id != id
}

/// Errors of audit operations.
#[derive(Debug, Clone)]
pub enum AuditError {
    Storage(String),
    Serialization(String),
    NotFound(u128),
}

/// A storage backend for audit entries.
pub trait AuditStore: Sized {
    /// The stored entries, oldest first.
    spec fn entries(&self) -> Seq<AuditEntry>;

    /// Whether the store answers every call without an error of its own.
    spec fn infallible(&self) -> bool;

    /// What the store answers to logging `entry`.
    spec fn log_answer(&self, entry: AuditEntry) -> Result<(), AuditError>;

    /// Logs an entry; a store may let its oldest entries go.
    fn log(&mut self, entry: AuditEntry) -> (res: Result<(), AuditError>)
        ensures
            final(self).infallible() == old(self).infallible(),
            old(self).infallible() ==> res is Ok,
            res == old(self).log_answer(entry),
            res is Ok ==> kept_suffix(final(self).entries(), old(self).entries().push(entry)),
    ;

    /// Copies of the entries the filter selects, paged by its offset and limit.
    fn query(&self, filter: AuditFilter) -> (res: Result<Vec<AuditEntry>, AuditError>)
        ensures
            self.infallible() ==> res is Ok,
            res matches Ok(found) ==> copies(paged(selected(self.entries(), filter), filter.offset, filter.limit), found@),
    ;

    /// A copy of the first entry with identifier `id`, if any.
    fn get(&self, id: u128) -> (res: Result<Option<AuditEntry>, AuditError>)
        ensures
            self.infallible() ==> res is Ok,
            res matches Ok(found) ==> match found {
                Some(e) => exists|i: int| first_entry(self.entries(), id, i) && entry_copy(self.entries()[i], e),
                None => forall|i: int| 0 <= i < self.entries().len() ==> self.entries()[i].id != id,
            },
    ;
}

/// In-memory audit store that keeps the newest entries up to a maximum.
pub struct InMemoryAuditStore {
    entries: Vec<AuditEntry>,
    max_entries: usize,
}

impl InMemoryAuditStore {
    /// The most entries kept.
    pub closed spec fn capacity(&self) -> usize {
        self.max_entries
    }

    /// Whether the store holds no more than its maximum.
    pub open spec fn wf(&self) -> bool {
        self.entries().len() <= self.capacity()
    }

    /// An empty store keeping at most `max_entries` entries.
    pub fn new(max_entries: usize) -> (res: Self)
        ensures
            res.wf(),
            res.entries().len() == 0,
            res.capacity() == max_entries,
    {
        InMemoryAuditStore { entries: Vec::new(), max_entries }
    }

    /// Whether an entry passes a filter.
    fn passes_filter(e: &AuditEntry, f: &AuditFilter) -> (res: bool)
        ensures
            res == passes(*e, *f),
    {
        if let Some(cid) = f.correlation_id {
            match e.correlation_id {
                Some(c) => {
                    if c != cid {
                        return false;
                    }
                },
                None => {
                    return false;
                },
            }
        }
        if let Some(org) = &f.org_id {
            match &e.org_id {
                Some(eo) => {
                    if !eo.eq(org) {
                        return false;
                    }
                },
                None => {
                    return false;
                },
            }
        }
        if let Some(op) = &f.operation {
            if !e.operation.same_operation(op) {
                return false;
            }
        }
        if let Some(level) = f.level {
            if e.level != level {
                return false;
            }
        }
        if let Some(from) = f.from_timestamp {
            if e.timestamp < from {
                return false;
            }
        }
        if let Some(to) = f.to_timestamp {
            if e.timestamp > to {
                return false;
            }
        }
        true
    }
}

impl Default for InMemoryAuditStore {
    /// An empty store keeping at most ten thousand entries.
    fn default() -> (res: Self)
        ensures
            res.wf(),
            res.entries().len() == 0,
            res.capacity() == 10000,
    {
        InMemoryAuditStore::new(10000)
    }
}

impl AuditStore for InMemoryAuditStore {
    closed spec fn entries(&self) -> Seq<AuditEntry> {
        self.entries@
    }

    open spec fn infallible(&self) -> bool {
        true
    }

    open spec fn log_answer(&self, entry: AuditEntry) -> Result<(), AuditError> {
        Ok(())
    }

    /// Logs an entry, then lets the oldest entries go while there are more
    /// than the maximum.
    fn log(&mut self, entry: AuditEntry) -> (res: Result<(), AuditError>)
        ensures
            res is Ok,
            final(self).capacity() == old(self).capacity(),
            final(self).entries() == crate::retry::keep_last(old(self).entries().push(entry), old(self).capacity() as nat),
            final(self).wf(),
    {
        let ghost pushed = self.entries@.push(entry);
        self.entries.push(entry);
        if self.entries.len() > self.max_entries {
            let excess = self.entries.len() - self.max_entries;
            let rest = self.entries.split_off(excess);
            self.entries = rest;
        }
        assert(self.entries@ =~= crate::retry::keep_last(pushed, self.max_entries as nat));
        assert(self.entries@ =~= pushed.subrange(pushed.len() - self.entries@.len(), pushed.len() as int));
        Ok(())
    }

    /// Copies of the entries the filter selects, oldest first, paged by its
    /// offset and limit.
    fn query(&self, filter: AuditFilter) -> (res: Result<Vec<AuditEntry>, AuditError>)
        ensures
            res is Ok,
    {
        let ghost pred = |e: AuditEntry| passes(e, filter);
        let ghost s = self.entries@;
        let mut results: Vec<AuditEntry> = Vec::new();
        let mut i: usize = 0;
        while i < self.entries.len()
            invariant
                s == self.entries@,
                i <= s.len(),
                pred == (|e: AuditEntry| passes(e, filter)),
                copies(s.take(i as int).filter(pred), results@),
            decreases s.len() - i,
        {
            proof {
                assert(s.take(i + 1) =~= s.take(i as int).push(s[i as int]));
                s.take(i as int).lemma_filter_push(s[i as int], pred);
            }
            if Self::passes_filter(&self.entries[i], &filter) {
                let c = self.entries[i].copy();
                results.push(c);
            }
            i = i + 1;
        }
        proof {
            assert(s.take(i as int) =~= s);
        }
        let ghost sel = s.filter(pred);
        assert(sel == selected(s, filter));
        if let Some(offset) = filter.offset {
            if offset < results.len() {
                let rest = results.split_off(offset);
                results = rest;
                assert(copies(sel.skip(offset as int), results@)) by {
                    assert forall|k: int| 0 <= k < sel.skip(offset as int).len() implies
                        entry_copy(sel.skip(offset as int)[k], #[trigger] results@[k]) by {
                        assert(sel.skip(offset as int)[k] == sel[k + offset]);
                    }
                }
            } else {
                results = Vec::new();
            }
        }
        let ghost rest_spec = match filter.offset {
            Some(o) => if o < sel.len() { sel.skip(o as int) } else { Seq::empty() },
            None => sel,
        };
        assert(copies(rest_spec, results@));
        if let Some(limit) = filter.limit {
            results.truncate(limit);
            assert(copies(paged(sel, filter.offset, filter.limit), results@)) by {
                if limit < rest_spec.len() {
                    assert forall|k: int| 0 <= k < rest_spec.take(limit as int).len() implies
                        entry_copy(rest_spec.take(limit as int)[k], #[trigger] results@[k]) by {
                        assert(rest_spec.take(limit as int)[k] == rest_spec[k]);
                    }
                }
            }
        }
        Ok(results)
    }

    /// A copy of the first entry with identifier `id`, if any.
    fn get(&self, id: u128) -> (res: Result<Option<AuditEntry>, AuditError>)
        ensures
            res is Ok,
    {
        let mut i: usize = 0;
        while i < self.entries.len()
            invariant
                i <= self.entries@.len(),
                forall|j: int| 0 <= j < i ==> self.entries@[j].id != id,
            decreases self.entries@.len() - i,
        {
            if self.entries[i].id == id {
                let c = self.entries[i].copy();
                assert(first_entry(self.entries@, id, i as int));
                return Ok(Some(c));
            }
            i = i + 1;
        }
        Ok(None)
    }
}

/// Whether `e` is the entry logged for a chain-of-custody operation with
/// these details: informational, with the outcome, correlation identifier,
/// organization and message given, the resource when both its type and
/// identifier are given, and the metadata given (or none).
pub open spec fn cte_entry(
    e: AuditEntry,
    operation: CTEOperationType,
    correlation_id: Option<u128>,
    org_id: Option<String>,
    resource_type: Option<String>,
    resource_id: Option<String>,
    outcome: OperationOutcome,
    message: String,
    metadata: Option<Vec<(String, JsonValue)>>,
) -> bool {
    &&& e.operation == operation
    &&& e.level == AuditLevel::Info
    &&& e.outcome == outcome
    &&& e.correlation_id == correlation_id
    &&& e.org_id == org_id
    &&& if resource_type is Some && resource_id is Some {
        e.resource_type == resource_type && e.resource_id == resource_id
    } else {
        e.resource_type is None && e.resource_id is None
    }
    &&& e.message == message
    &&& match metadata {
        Some(m) => e.metadata == m,
        None => e.metadata@.len() == 0,
    }
    &&& e.user_id is None
    &&& e.duration_ms is None
    &&& e.ip_address is None
    &&& e.user_agent is None
}

/// Logs a chain-of-custody operation; the new entry's identifier.
pub fn log_cte_operation<S: AuditStore>(
    store: &mut S,
    operation: CTEOperationType,
    correlation_id: Option<u128>,
    org_id: Option<String>,
    resource_type: Option<String>,
    resource_id: Option<String>,
    outcome: OperationOutcome,
    message: String,
    metadata: Option<Vec<(String, JsonValue)>>,
) -> (res: Result<u128, AuditError>)
    ensures
        final(store).infallible() == old(store).infallible(),
        old(store).infallible() ==> res is Ok,
        exists|e: AuditEntry| {
            &&& crate::ids::is_random_uuid(e.id)
            &&& #[trigger] cte_entry(e, operation, correlation_id, org_id, resource_type, resource_id, outcome, message, metadata)
            &&& match old(store).log_answer(e) {
                Ok(_) => {
                    &&& res == Ok::<u128, AuditError>(e.id)
                    &&& kept_suffix(final(store).entries(), old(store).entries().push(e))
                },
                Err(err) => res == Err::<u128, AuditError>(err),
            }
        },
{
    let mut entry = AuditEntry::new(operation, message).with_outcome(outcome);
    if let Some(cid) = correlation_id {
        entry = entry.with_correlation_id(cid);
    }
    if let Some(org) = org_id {
        entry = entry.with_org_id(org);
    }
    match (resource_type, resource_id) {
        (Some(rt), Some(rid)) => {
            entry = entry.with_resource(rt, rid);
        },
        _ => {},
    }
    if let Some(meta) = metadata {
        entry.metadata = meta;
    }
    let id = entry.id;
    let ghost logged = entry;
    assert(cte_entry(logged, operation, correlation_id, org_id, resource_type, resource_id, outcome, message, metadata));
    match store.log(entry) {
        Ok(()) => Ok(id),
        Err(e) => Err(e),
    }
}

/// An in-memory store never holds more than its maximum, and after logging
/// holds the newest entries: all of them while they fit.
pub proof fn lemma_store_bound(before: Seq<AuditEntry>, entry: AuditEntry, max: nat)
    requires
        before.len() <= max,
    ensures
        crate::retry::keep_last(before.push(entry), max).len() <= max,
        before.len() < max ==> crate::retry::keep_last(before.push(entry), max) == before.push(entry),
        max > 0 ==> crate::retry::keep_last(before.push(entry), max).last() == entry,
{
}

/// A query returns only entries that pass its filter, at most its limit,
/// and every passing entry when there is no offset or limit.
pub proof fn lemma_query_sound(entries: Seq<AuditEntry>, f: AuditFilter, found: Seq<AuditEntry>)
    requires
        copies(paged(selected(entries, f), f.offset, f.limit), found),
    ensures
        forall|i: int| 0 <= i < found.len() ==> passes(#[trigger] found[i], f),
        f.limit matches Some(l) ==> found.len() <= l,
        f.offset is None && f.limit is None ==> found.len() == selected(entries, f).len(),
{
    let pred = |e: AuditEntry| passes(e, f);
    let sel = selected(entries, f);
    assert forall|i: int| 0 <= i < sel.len() implies passes(#[trigger] sel[i], f) by {
        entries.lemma_filter_pred(pred, i);
    }
    let p = paged(sel, f.offset, f.limit);
    assert forall|i: int| 0 <= i < found.len() implies passes(#[trigger] found[i], f) by {
        assert(entry_copy(p[i], found[i]));
        let rest = match f.offset {
            Some(o) => if o < sel.len() { sel.skip(o as int) } else { Seq::empty() },
            None => sel,
        };
        match f.offset {
            Some(o) => {
                if o < sel.len() {
                    assert(rest[i] == sel[i + o]);
                }
            },
            None => {},
        }
        assert(p[i] == rest[i]);
        assert(passes(p[i], f));
    }
}


/// Queries return only entries that match every condition the filter sets:
/// the correlation identifier, organization, operation and level asked for,
/// and a time within the bounds given. An entry of another level, say, is
/// never returned when a level is asked for.
pub proof fn lemma_query_matches_filter(entries: Seq<AuditEntry>, f: AuditFilter, found: Seq<AuditEntry>, i: int)
    requires
        copies(paged(selected(entries, f), f.offset, f.limit), found),
        0 <= i < found.len(),
    ensures
        f.correlation_id matches Some(c) ==> found[i].correlation_id == Some(c),
        f.org_id matches Some(o) ==> found[i].org_id matches Some(eo) && eo@ == o@,
        f.operation matches Some(op) ==> found[i].operation.kind() == op.kind(),
        f.level matches Some(l) ==> found[i].level == l,
        f.from_timestamp matches Some(t) ==> found[i].timestamp >= t,
        f.to_timestamp matches Some(t) ==> found[i].timestamp <= t,
{
    lemma_query_sound(entries, f, found);
    assert(passes(found[i], f));
}

} // verus!
