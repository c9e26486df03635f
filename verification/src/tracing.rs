//! Request tracing: correlation identifiers (the `x-request-id` header)
//! carried through a request, and spans that time its operations.
//!
//! Span times are milliseconds since the Unix epoch, on the clock of
//! `crate::clock`; durations are milliseconds.

use crate::retry::copy_pairs;
use vstd::prelude::*;

verus! {

/// A correlation identifier for request tracing: the value of a UUID.
#[derive(Debug, Clone, Copy, PartialEq, Eq, Hash, Structural)]
pub struct CorrelationId(u128);

/// A correlation identifier that could not be read from a header.
#[derive(Debug, Clone)]
pub struct InvalidCorrelationId {
    /// Why the text is not a UUID.
    pub message: String,
}

impl CorrelationId {
    /// The UUID value of the identifier.
    pub closed spec fn value(&self) -> u128 {
        self.0
    }

    /// A new random correlation identifier.
    pub fn new() -> (res: Self)
        ensures
            crate::ids::is_random_uuid(res.value()),
    {
        CorrelationId(crate::ids::new_uuid())
    }

    /// The correlation identifier of an existing UUID.
    pub fn from_uuid(uuid: u128) -> (res: Self)
        ensures
            res.value() == uuid,
    {
        CorrelationId(uuid)
    }

    /// Reads a correlation identifier from its text (an `x-request-id`
    /// header value).
    pub fn parse(s: &str) -> (res: Result<Self, InvalidCorrelationId>)
        ensures
            match res {
                Ok(id) => crate::ids::uuid_parse(s@) == crate::ids::parsed(id.value()),
                Err(e) => crate::ids::uuid_parse(s@) == crate::ids::refused(e.message@),
            },
    {
        match crate::ids::parse_uuid(s) {
            Ok(v) => Ok(CorrelationId(v)),
            Err(message) => Err(InvalidCorrelationId { message }),
        }
    }

    /// The UUID value.
    pub fn as_uuid(&self) -> (res: u128)
        ensures
            res == self.value(),
    {
        self.0
    }

    /// The text for headers, which `parse` reads back as this identifier.
    pub fn to_header_value(&self) -> (res: String)
        ensures
            res@ == crate::ids::uuid_text(self.value()),
            crate::ids::uuid_parse(res@) == crate::ids::parsed(self.value()),
    {
        crate::ids::uuid_to_string(self.0)
    }
}

impl Default for CorrelationId {
    /// A new random correlation identifier.
    fn default() -> (res: Self)
        ensures
            crate::ids::is_random_uuid(res.value()),
    {
        CorrelationId::new()
    }
}

/// A span: one traced operation of a request.
#[derive(Debug)]
pub struct Span {
    /// Unique identifier of the span.
    pub span_id: u128,
    /// The parent span, for a child span.
    pub parent_span_id: Option<u128>,
    /// The correlation identifier linking the spans of a request.
    pub correlation_id: CorrelationId,
    /// Name of the operation.
    pub operation: String,
    /// When the span started.
    pub start_time: u64,
    /// When the span ended, once it has.
    pub end_time: Option<u64>,
    /// Tags of the span.
    pub tags: Vec<(String, String)>,
    /// Whether the operation succeeded, once known.
    pub success: Option<bool>,
}

/// Whether `s` is a span just started: no tags, not finished.
pub open spec fn fresh_span(s: Span, operation: String, correlation_id: CorrelationId, parent: Option<u128>) -> bool {
    &&& s.parent_span_id == parent
    &&& s.correlation_id == correlation_id
    &&& s.operation == operation
    &&& s.end_time is None
    &&& s.tags@.len() == 0
    &&& s.success is None
}

/// Whether `b` is a copy of `a`.
pub open spec fn span_copy(a: Span, b: Span) -> bool {
    &&& b.span_id == a.span_id
    &&& b.parent_span_id == a.parent_span_id
    &&& b.correlation_id == a.correlation_id
    &&& b.operation == a.operation
    &&& b.start_time == a.start_time
    &&& b.end_time == a.end_time
    &&& b.tags@ == a.tags@
    &&& b.success == a.success
}

/// The span finished at `now`.
pub open spec fn finished_at(s: Span, now: u64) -> Span {
    Span { end_time: Some(now), ..s }
}

/// The span finished at `now` with the outcome `ok`.
pub open spec fn finished_with(s: Span, now: u64, ok: bool) -> Span {
    Span { end_time: Some(now), success: Some(ok), ..s }
}

/// How long the span has run by `now`, or ran if it has finished; zero when
/// the clock went back.
pub open spec fn elapsed_by(s: Span, now: u64) -> int {
    let end = match s.end_time {
        Some(e) => e,
        None => now,
    };
    crate::retry::saturating_sub(end as int, s.start_time as int)
}

impl Span {
    /// A root span with identifier `span_id`, started at `now`.
    pub fn new_with(operation: String, correlation_id: CorrelationId, span_id: u128, now: u64) -> (res: Self)
        ensures
            res.span_id == span_id,
            res.start_time == now,
            fresh_span(res, operation, correlation_id, None),
    {
        Span {
            span_id,
            parent_span_id: None,
            correlation_id,
            operation,
            start_time: now,
            end_time: None,
            tags: Vec::new(),
            success: None,
        }
    }

    /// A root span with a fresh random identifier, started now.
    pub fn new(operation: String, correlation_id: CorrelationId) -> (res: Self)
        ensures
            crate::ids::is_random_uuid(res.span_id),
            fresh_span(res, operation, correlation_id, None),
    {
        let id = crate::ids::new_uuid();
        Self::new_with(operation, correlation_id, id, crate::clock::now_millis())
    }

    /// A child span with identifier `span_id`, started at `now`: the same
    /// correlation identifier, and this span as parent.
    pub fn child_with(&self, operation: String, span_id: u128, now: u64) -> (res: Self)
        ensures
            res.span_id == span_id,
            res.start_time == now,
            fresh_span(res, operation, self.correlation_id, Some(self.span_id)),
    {
        Span {
            span_id,
            parent_span_id: Some(self.span_id),
            correlation_id: self.correlation_id,
            operation,
            start_time: now,
            end_time: None,
            tags: Vec::new(),
            success: None,
        }
    }

    /// A child span with a fresh random identifier, started now.
    pub fn child(&self, operation: String) -> (res: Self)
        ensures
            crate::ids::is_random_uuid(res.span_id),
            fresh_span(res, operation, self.correlation_id, Some(self.span_id)),
    {
        let id = crate::ids::new_uuid();
        self.child_with(operation, id, crate::clock::now_millis())
    }

    /// Adds a tag.
    pub fn with_tag(self, key: String, value: String) -> (res: Self)
        ensures
            res.tags@ == self.tags@.push((key, value)),
            res == (Span { tags: res.tags, ..self }),
    {
        let mut this = self;
        this.tags.push((key, value));
        this
    }

    /// Marks the span as finished at `now`.
    pub fn finish_at(&mut self, now: u64)
        ensures
            *final(self) == finished_at(*old(self), now),
    {
        self.end_time = Some(now);
    }

    /// Marks the span as finished now.
    pub fn finish(&mut self)
        ensures
            exists|now: u64| *final(self) == #[trigger] finished_at(*old(self), now),
    {
        self.finish_at(crate::clock::now_millis());
    }

    /// Marks the span as finished at `now`, successfully.
    pub fn finish_ok_at(&mut self, now: u64)
        ensures
            *final(self) == finished_with(*old(self), now, true),
    {
        self.end_time = Some(now);
        self.success = Some(true);
    }

    /// Marks the span as finished now, successfully.
    pub fn finish_ok(&mut self)
        ensures
            exists|now: u64| *final(self) == finished_with(*old(self), now, true),
    {
        self.finish_ok_at(crate::clock::now_millis());
    }

    /// Marks the span as finished at `now`, with a failure.
    pub fn finish_err_at(&mut self, now: u64)
        ensures
            *final(self) == finished_with(*old(self), now, false),
    {
        self.end_time = Some(now);
        self.success = Some(false);
    }

    /// Marks the span as finished now, with a failure.
    pub fn finish_err(&mut self)
        ensures
            exists|now: u64| *final(self) == finished_with(*old(self), now, false),
    {
        self.finish_err_at(crate::clock::now_millis());
    }

    /// How long the span ran, once finished (zero when the clock went back).
    pub fn duration(&self) -> (res: Option<u64>)
        ensures
            res == match self.end_time {
                Some(end) => Some(crate::retry::saturating_sub(end as int, self.start_time as int) as u64),
                None => None::<u64>,
            },
    {
        match self.end_time {
            Some(end) => Some(end.saturating_sub(self.start_time)),
            None => None,
        }
    }

    /// How long the span has run by `now`, or ran if finished.
    pub fn elapsed_at(&self, now: u64) -> (res: u64)
        ensures
            res == elapsed_by(*self, now),
    {
        let end = match self.end_time {
            Some(e) => e,
            None => now,
        };
        end.saturating_sub(self.start_time)
    }

    /// How long the span has run by now, or ran if finished.
    pub fn elapsed(&self) -> (res: u64)
        ensures
            exists|now: u64| res == #[trigger] elapsed_by(*self, now),
    {
        self.elapsed_at(crate::clock::now_millis())
    }

    /// A copy of the span.
    pub fn copy(&self) -> (res: Self)
        ensures
            span_copy(*self, res),
    {
        Span {
            span_id: self.span_id,
            parent_span_id: self.parent_span_id,
            correlation_id: self.correlation_id,
            operation: self.operation.clone(),
            start_time: self.start_time,
            end_time: self.end_time,
            tags: copy_pairs(&self.tags),
            success: self.success,
        }
    }
}

/// A child span shares its parent's correlation identifier and names the
/// parent: for every parent and child created from it.
pub proof fn lemma_child_of(parent: Span, child: Span, operation: String)
    requires
        fresh_span(child, operation, parent.correlation_id, Some(parent.span_id)),
    ensures
        child.correlation_id == parent.correlation_id,
        child.parent_span_id == Some(parent.span_id),
{
}

/// Request context carried through the call stack.
#[derive(Debug)]
pub struct RequestContext {
    /// The correlation identifier of the request.
    pub correlation_id: CorrelationId,
    /// The span started last, if any.
    pub current_span: Option<Span>,
    /// Organization, once authenticated.
    pub org_id: Option<String>,
    /// User, once authenticated.
    pub user_id: Option<String>,
    /// Further attributes.
    pub attributes: Vec<(String, String)>,
}

/// Whether every span of the context carries its correlation identifier.
pub open spec fn spans_correlated(ctx: RequestContext) -> bool {
    ctx.current_span matches Some(s) ==> s.correlation_id == ctx.correlation_id
}

impl RequestContext {
    /// A context with a new random correlation identifier.
    pub fn new() -> (res: Self)
        ensures
            crate::ids::is_random_uuid(res.correlation_id.value()),
            res.current_span is None,
            res.org_id is None,
            res.user_id is None,
            res.attributes@.len() == 0,
    {
        RequestContext {
            correlation_id: CorrelationId::new(),
            current_span: None,
            org_id: None,
            user_id: None,
            attributes: Vec::new(),
        }
    }

    /// A context for an incoming request with `x-request-id` header
    /// `header_value`: its identifier, or a new random one when the header
    /// is not a UUID.
    pub fn from_header(header_value: &str) -> (res: Self)
        ensures
            match crate::ids::uuid_parse(header_value@) {
                Ok(v) => res.correlation_id.value() == v,
                Err(_) => crate::ids::is_random_uuid(res.correlation_id.value()),
            },
            res.current_span is None,
            res.org_id is None,
            res.user_id is None,
            res.attributes@.len() == 0,
    {
        let correlation_id = match CorrelationId::parse(header_value) {
            Ok(id) => id,
            Err(_) => CorrelationId::new(),
        };
        RequestContext { correlation_id, current_span: None, org_id: None, user_id: None, attributes: Vec::new() }
    }

    /// Sets the organization.
    pub fn with_org(self, org_id: String) -> (res: Self)
        ensures
            res == (RequestContext { org_id: Some(org_id), ..self }),
    {
        RequestContext { org_id: Some(org_id), ..self }
    }

    /// Sets the user.
    pub fn with_user(self, user_id: String) -> (res: Self)
        ensures
            res == (RequestContext { user_id: Some(user_id), ..self }),
    {
        RequestContext { user_id: Some(user_id), ..self }
    }

    /// Adds an attribute.
    pub fn with_attribute(self, key: String, value: String) -> (res: Self)
        ensures
            res.attributes@ == self.attributes@.push((key, value)),
            res == (RequestContext { attributes: res.attributes, ..self }),
    {
        let mut this = self;
        this.attributes.push((key, value));
        this
    }

    /// Starts a span in this context: a child of the current span, or a
    /// root span of the request when there is none. The new span becomes
    /// the current one; a copy of it is returned.
    pub fn start_span(&mut self, operation: String) -> (res: Span)
        ensures
            crate::ids::is_random_uuid(res.span_id),
            match old(self).current_span {
                Some(parent) => fresh_span(res, operation, parent.correlation_id, Some(parent.span_id)),
                None => fresh_span(res, operation, old(self).correlation_id, None),
            },
            final(self).current_span matches Some(s) && span_copy(res, s),
            *final(self) == (RequestContext { current_span: final(self).current_span, ..*old(self) }),
            spans_correlated(*old(self)) ==> spans_correlated(*final(self)) && res.correlation_id == old(self).correlation_id,
    {
        let span = match &self.current_span {
            Some(parent) => parent.child(operation),
            None => Span::new(operation, self.correlation_id),
        };
        self.current_span = Some(span.copy());
        span
    }

    /// The `x-request-id` header for outgoing requests.
    pub fn request_id_header(&self) -> (res: (&'static str, String))
        ensures
            res.0@ == "x-request-id"@,
            res.1@ == crate::ids::uuid_text(self.correlation_id.value()),
    {
        ("x-request-id", self.correlation_id.to_header_value())
    }
}

impl Default for RequestContext {
    /// A context with a new random correlation identifier.
    fn default() -> (res: Self)
        ensures
            crate::ids::is_random_uuid(res.correlation_id.value()),
            res.current_span is None,
            res.org_id is None,
            res.user_id is None,
            res.attributes@.len() == 0,
    {
        RequestContext::new()
    }
}

/// Receives finished spans.
pub trait SpanCollector {
    /// Called when a span is finished.
    fn collect(&self, span: &Span);
}

/// A collector that ignores spans.
pub struct NoopCollector;

impl SpanCollector for NoopCollector {
    fn collect(&self, span: &Span) {
    }
}

/// The status label of a span: `OK` after success, `ERR` after a failure,
/// `???` while unknown.
pub open spec fn status_text(success: Option<bool>) -> Seq<char> {
    match success {
        Some(true) => "OK"@,
        Some(false) => "ERR"@,
        None => "???"@,
    }
}

/// The status label of a span's outcome.
pub fn status_label(success: Option<bool>) -> (res: &'static str)
    ensures
        res@ == status_text(success),
{
    match success {
        Some(true) => "OK",
        Some(false) => "ERR",
        None => "???",
    }
}

/// What is recorded of a finished span.
#[derive(Debug)]
pub struct SpanSummary {
    pub correlation_id: CorrelationId,
    pub span_id: u128,
    pub operation: String,
    pub duration_ms: u64,
    pub status: &'static str,
}

/// The record of a span at `now`: its identifiers, operation, how long it
/// ran, and its status label.
pub fn span_summary(span: &Span, now: u64) -> (res: SpanSummary)
    ensures
        res.correlation_id == span.correlation_id,
        res.span_id == span.span_id,
        res.operation == span.operation,
        res.duration_ms == elapsed_by(*span, now),
        res.status@ == status_text(span.success),
{
    SpanSummary {
        correlation_id: span.correlation_id,
        span_id: span.span_id,
        operation: span.operation.clone(),
        duration_ms: span.elapsed_at(now),
        status: status_label(span.success),
    }
}

} // verus!
