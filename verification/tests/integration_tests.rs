use glacis_core::audit::{
    AuditEntry, AuditFilter, AuditStore, CTEOperationType, InMemoryAuditStore, OperationOutcome,
};
use glacis_core::cache::{CacheAside, LruCache};
use glacis_core::import::{CsvImporter, ImportConfig, ImportRecord, JsonImporter, OscalImporter, RecordValidator};
use glacis_core::json::JsonValue;
use glacis_core::keys::{generate_key_material, InMemoryKeyStore, KeyManager, KeyType, RotationConfig};
use glacis_core::metrics::{GlacisCounter, GlacisMetrics};
use glacis_core::rate_limit::{RateLimitConfig, RateLimiter};
use glacis_core::retry::{
    InMemoryQueueStore, ProcessResult, RetryQueue, RetryQueueConfig, WebhookPayload,
};
use glacis_core::tracing::{CorrelationId, RequestContext, Span};

fn to_json(v: serde_json::Value) -> JsonValue {
    match v {
        serde_json::Value::Null => JsonValue::Null,
        serde_json::Value::Bool(b) => JsonValue::Bool(b),
        serde_json::Value::Number(n) => {
            if let Some(u) = n.as_u64() {
                JsonValue::PosInt(u)
            } else if let Some(i) = n.as_i64() {
                JsonValue::NegInt(i)
            } else {
                JsonValue::Float(n.as_f64().unwrap_or(0.0).to_bits())
            }
        }
        serde_json::Value::String(s) => JsonValue::Text(s),
        serde_json::Value::Array(a) => JsonValue::Array(a.into_iter().map(to_json).collect()),
        serde_json::Value::Object(m) => {
            JsonValue::Object(m.into_iter().map(|(k, v)| (k, to_json(v))).collect())
        }
    }
}

fn decode_cell(value: String) -> JsonValue {
    match serde_json::from_str::<serde_json::Value>(&value) {
        Ok(v) => to_json(v),
        Err(_) => JsonValue::Text(value),
    }
}

fn decode(text: &str) -> JsonValue {
    to_json(serde_json::from_str(text).unwrap())
}

// ---------------------------------------------------------------- audit

#[test]
fn test_full_audit_workflow() {
    let mut store = InMemoryAuditStore::new(1000);

    // Simulate a coverage computation workflow
    let correlation_id = uuid::Uuid::new_v4().as_u128();
    let org_id = "org-integration-test";

    // Log operation start
    let entry_start = AuditEntry::new(
        CTEOperationType::CoverageComputation,
        "Starting coverage computation".to_string(),
    )
    .with_correlation_id(correlation_id)
    .with_org_id(org_id.to_string())
    .with_resource("policy".to_string(), "POL-123".to_string())
    .with_metadata("framework".to_string(), JsonValue::Text("SOC2".to_string()));

    store.log(entry_start).unwrap();

    // Log operation completion
    let entry_complete = AuditEntry::new(
        CTEOperationType::CoverageComputation,
        "Coverage computation complete".to_string(),
    )
    .with_correlation_id(correlation_id)
    .with_org_id(org_id.to_string())
    .with_resource("policy".to_string(), "POL-123".to_string())
    .with_outcome(OperationOutcome::Success)
    .with_metadata("coverage_score".to_string(), JsonValue::Float(0.85f64.to_bits()))
    .with_duration_ms(150);

    store.log(entry_complete).unwrap();

    // Query by correlation ID
    let filter = AuditFilter::new().with_correlation_id(correlation_id);
    let entries = store.query(filter).unwrap();

    assert_eq!(entries.len(), 2);
    assert!(entries.iter().all(|e| e.org_id == Some(org_id.to_string())));
}

#[test]
fn test_audit_filtering() {
    let mut store = InMemoryAuditStore::new(1000);

    // Log entries for different orgs
    for i in 0..10 {
        let org = if i % 2 == 0 { "org-a" } else { "org-b" };
        let op = if i % 3 == 0 {
            CTEOperationType::ReceiptMint
        } else {
            CTEOperationType::CoverageComputation
        };

        let entry = AuditEntry::new(op, format!("Entry {}", i)).with_org_id(org.to_string());

        store.log(entry).unwrap();
    }

    // Filter by org
    let filter = AuditFilter::new().with_org_id("org-a".to_string());
    let entries = store.query(filter).unwrap();
    assert_eq!(entries.len(), 5);

    // Filter by operation
    let filter = AuditFilter::new().with_operation(CTEOperationType::ReceiptMint);
    let entries = store.query(filter).unwrap();
    assert_eq!(entries.len(), 4);
}

// ---------------------------------------------------------------- metrics

#[test]
fn test_full_metrics_workflow() {
    let mut metrics = GlacisMetrics::new();

    // Simulate request processing
    for i in 0..100u64 {
        let duration_micros = (10 + (i % 50)) * 1000;
        metrics.record_request(duration_micros);

        if i % 10 == 0 {
            metrics.record_error();
        }

        if i % 3 == 0 {
            metrics.inc(GlacisCounter::CacheHits);
        } else {
            metrics.inc(GlacisCounter::CacheMisses);
        }
    }

    // Verify metrics
    assert_eq!(metrics.counter(GlacisCounter::RequestsTotal).get(), 100);
    assert_eq!(metrics.counter(GlacisCounter::RequestsErrors).get(), 10);
    let total = metrics.counter(GlacisCounter::RequestsTotal).get() as f64;
    let errors = metrics.counter(GlacisCounter::RequestsErrors).get() as f64;
    assert!((errors / total - 0.1).abs() < 0.01);

    // Check cache hit ratio
    let hits = metrics.counter(GlacisCounter::CacheHits).get() as f64;
    let misses = metrics.counter(GlacisCounter::CacheMisses).get() as f64;
    let hit_ratio = hits / (hits + misses);
    assert!(hit_ratio > 0.3 && hit_ratio < 0.4);

    // Check latency percentiles
    let snapshot = metrics.registry().snapshot();
    let latency = &snapshot.histograms.first().unwrap().1;
    assert!(latency.count > 0);
}

// ---------------------------------------------------------------- cache

#[test]
fn test_cache_aside_pattern() {
    let mut aside = CacheAside::new(LruCache::new(100));

    let mut fetch_count = 0;

    // First call should fetch
    let value = aside
        .get_or_fetch(
            &"key1".to_string(),
            || {
                fetch_count += 1;
                Ok(42i32)
            },
            Some(60_000),
        )
        .unwrap();

    assert_eq!(value, 42);
    assert_eq!(fetch_count, 1);

    // Second call should use cache
    let value = aside
        .get_or_fetch(
            &"key1".to_string(),
            || {
                fetch_count += 1;
                Ok(99i32)
            },
            Some(60_000),
        )
        .unwrap();

    assert_eq!(value, 42); // Cached value
    assert_eq!(fetch_count, 1); // No additional fetch

    // Check stats
    let stats = aside.stats();
    assert_eq!(stats.hits, 1);
    assert_eq!(stats.misses, 1);
}

#[test]
fn test_lru_eviction_under_load() {
    let mut cache: LruCache<u64, String> = LruCache::new(10);

    // Fill cache
    for i in 0..10 {
        cache.set(i, format!("value-{}", i), None);
    }

    // Access first 5 items to make them "recent"
    for i in 0..5 {
        cache.get(&i);
    }

    // Add 5 more items, should evict items 5-9
    for i in 10..15 {
        cache.set(i, format!("value-{}", i), None);
    }

    // Items 0-4 should still be present (recently accessed)
    for i in 0..5 {
        assert!(cache.get(&i).is_some(), "Item {} should exist", i);
    }

    // Items 5-9 should be evicted
    for i in 5..10 {
        assert!(cache.get(&i).is_none(), "Item {} should be evicted", i);
    }
}

// ---------------------------------------------------------------- rate limiting

#[test]
fn test_rate_limiter_burst_protection() {
    let config = RateLimitConfig {
        max_requests: 100,
        window: 60_000,
        burst_capacity: 10,
        refill_rate: 1_670, // ~100 per minute
    };

    let mut limiter = RateLimiter::new(config);

    // Should allow burst of 10
    for i in 0..10 {
        let result = limiter.check_org("test-org".to_string());
        assert!(result.allowed, "Request {} should be allowed in burst", i);
    }

    // 11th request should be rate limited (burst exceeded)
    let result = limiter.check_org("test-org".to_string());
    assert!(!result.allowed, "Request should be rate limited after burst");
    assert!(result.retry_after.is_some());
}

#[test]
fn test_per_endpoint_limits() {
    let mut limiter = RateLimiter::new(RateLimitConfig::default())
        .with_endpoint_config("/api/expensive".to_string(), RateLimitConfig::strict());

    // Normal endpoint allows many requests
    for _ in 0..20 {
        let result = limiter.check_endpoint("org-1".to_string(), "/api/normal".to_string());
        assert!(result.allowed);
    }

    // Expensive endpoint is strictly limited
    for i in 0..5 {
        let result = limiter.check_endpoint("org-1".to_string(), "/api/expensive".to_string());
        if i >= 3 {
            assert!(!result.allowed, "Strict endpoint should limit after 3 requests");
        }
    }
}

// ---------------------------------------------------------------- retry queue

#[test]
fn test_webhook_retry_workflow() {
    let store = InMemoryQueueStore::new();
    let mut queue = RetryQueue::new(store, RetryQueueConfig::default());

    // Enqueue a webhook
    let payload = WebhookPayload::new(
        "https://example.com/webhook".to_string(),
        "attestation.created".to_string(),
        r#"{"id": "123"}"#.to_string(),
    );

    let id = queue.enqueue(payload).unwrap();
    assert!(id != 0);

    // Process successfully
    let processed = queue.process(|_: WebhookPayload| ProcessResult::Success).unwrap();

    assert_eq!(processed, 1);

    let stats = queue.stats().unwrap();
    assert_eq!(stats.completed, 1);
    assert_eq!(stats.pending, 0);
}

#[test]
fn test_retry_with_backoff() {
    let store = InMemoryQueueStore::new();
    let config = RetryQueueConfig { max_retries: 3, ..Default::default() };
    let mut queue = RetryQueue::new(store, config);

    let attempt_count = std::cell::Cell::new(0usize);

    queue.enqueue("test".to_string()).unwrap();

    // Process with failures
    queue
        .process(|_: String| {
            attempt_count.set(attempt_count.get() + 1);
            ProcessResult::Retry("temporary error".to_string())
        })
        .unwrap();

    assert_eq!(attempt_count.get(), 1);

    // Item should be back in pending with scheduled retry
    let stats = queue.stats().unwrap();
    assert_eq!(stats.pending, 1);
}

// ---------------------------------------------------------------- keys

#[test]
fn test_key_rotation_workflow() {
    let store = InMemoryKeyStore::new();
    let mut manager = KeyManager::new(store, RotationConfig::default());

    // Create initial key
    let material1 = generate_key_material(32);
    let key1 = manager.create_key(KeyType::WebhookSecret, material1, "org-1".to_string()).unwrap();

    assert!(key1.is_active());
    assert_eq!(key1.version, 1);

    // Rotate key
    let material2 = generate_key_material(32);
    let key2 = manager.rotate_key("org-1", &KeyType::WebhookSecret, material2).unwrap();

    assert!(key2.is_active());
    assert_eq!(key2.version, 2);

    // Old key should still be valid for verification
    let verification_keys = manager.get_verification_keys("org-1", &KeyType::WebhookSecret).unwrap();

    assert_eq!(verification_keys.len(), 2);

    // Signing should use latest key
    let signing_key = manager.get_signing_key("org-1", &KeyType::WebhookSecret).unwrap();

    assert_eq!(signing_key.version, 2);
}

#[test]
fn integration_tests_test_key_revocation() {
    let store = InMemoryKeyStore::new();
    let mut manager = KeyManager::new(store, RotationConfig::default());

    let material = generate_key_material(32);
    let key = manager.create_key(KeyType::ApiKey, material, "org-1".to_string()).unwrap();

    // Revoke the key
    manager.revoke_key(key.id).unwrap();

    // Should not be available for signing
    let result = manager.get_signing_key("org-1", &KeyType::ApiKey);
    assert!(result.is_err());

    // Should not be available for verification either
    let keys = manager.get_verification_keys("org-1", &KeyType::ApiKey).unwrap();
    assert!(keys.is_empty());
}

// ---------------------------------------------------------------- import

#[test]
fn test_oscal_import() {
    let oscal_data = r#"{
        "catalog": {
            "uuid": "test-catalog",
            "groups": [{
                "id": "ac",
                "title": "Access Control",
                "controls": [
                    {
                        "id": "AC-1",
                        "title": "Access Control Policy and Procedures",
                        "parts": [{"name": "statement", "prose": "The organization develops..."}]
                    },
                    {
                        "id": "AC-2",
                        "title": "Account Management",
                        "parts": [{"name": "statement", "prose": "The organization manages..."}]
                    }
                ]
            }]
        }
    }"#;

    let importer = OscalImporter::default();
    let records = importer.records_from_catalog(&decode(oscal_data));

    assert_eq!(records.len(), 2);
    assert_eq!(records[0].get_string("control_id"), Some("AC-1".to_string()));
    assert_eq!(records[1].get_string("control_id"), Some("AC-2".to_string()));
    assert!(records[0].get_string("title").is_some());
    assert!(records[0].get_string("description").is_some());
}

#[test]
fn test_import_with_defaults() {
    let json_data = r#"[{"id": 1}, {"id": 2, "status": "active"}]"#;

    let defaults = vec![
        ("status".to_string(), JsonValue::Text("pending".to_string())),
        ("priority".to_string(), JsonValue::PosInt(5)),
    ];

    let config = ImportConfig { defaults, ..Default::default() };

    let importer = JsonImporter::new(config);
    let items = match decode(json_data) {
        JsonValue::Array(items) => items,
        _ => panic!("not an array"),
    };
    let records = importer.records_from_array(&items);

    // First record should have default status
    assert_eq!(records[0].get_string("status"), Some("pending".to_string()));

    // Second record should keep its own status
    assert_eq!(records[1].get_string("status"), Some("active".to_string()));

    // Both should have default priority
    assert_eq!(records[0].get_i64("priority"), Some(5));
    assert_eq!(records[1].get_i64("priority"), Some(5));
}

// ---------------------------------------------------------------- tracing

#[test]
fn test_request_context_propagation() {
    let header_value = "550e8400-e29b-41d4-a716-446655440000";
    let ctx = RequestContext::from_header(header_value);

    assert_eq!(ctx.correlation_id.to_header_value(), header_value);

    let (header_name, value) = ctx.request_id_header();
    assert_eq!(header_name, "x-request-id");
    assert_eq!(value, header_value);
}

#[test]
fn integration_tests_test_span_hierarchy() {
    let mut ctx = RequestContext::new()
        .with_org("test-org".to_string())
        .with_user("test-user".to_string());

    let parent_span = ctx.start_span("parent_operation".to_string());
    let parent_id = parent_span.span_id;

    let child_span = ctx.start_span("child_operation".to_string());
    let child_parent_id = child_span.parent_span_id;

    assert_eq!(child_parent_id, Some(parent_id));
}

#[test]
fn test_span_timing() {
    let cid = CorrelationId::new();
    let mut span = Span::new("test_operation".to_string(), cid);

    let start = std::time::Instant::now();
    while start.elapsed() < std::time::Duration::from_millis(12) {}
    span.finish_ok();

    let duration = span.duration().unwrap();
    assert!(duration >= 10);
    assert_eq!(span.success, Some(true));
}

#[test]
fn test_csv_import_with_validation() {
    let csv_data = "control_id,title,coverage
AC-1,Access Control Policy,0.95
AC-2,Account Management,0.80
AC-3,Access Enforcement,
";

    let importer = CsvImporter::default();
    let mut records = importer.parse(csv_data.as_bytes(), decode_cell).unwrap();

    // Validate records - check for non-empty coverage values
    let validator = RecordValidator::new().require_field("control_id").add_validator(|r: &ImportRecord| {
        let coverage = r.data.iter().find(|(k, _)| k == "coverage").map(|(_, v)| v);
        let out_of_range = |val: f64| val < 0.0 || val > 1.0;
        match coverage {
            Some(JsonValue::Text(s)) if s.is_empty() => vec!["Coverage is required".to_string()],
            Some(v) => {
                let value = match v {
                    JsonValue::Text(s) => s.parse::<f64>().ok(),
                    JsonValue::Float(bits) => Some(f64::from_bits(*bits)),
                    JsonValue::PosInt(n) => Some(*n as f64),
                    JsonValue::NegInt(n) => Some(*n as f64),
                    _ => None,
                };
                match value {
                    Some(val) if out_of_range(val) => vec!["Coverage must be between 0 and 1".to_string()],
                    _ => vec![],
                }
            }
            None => vec!["Coverage is required".to_string()],
        }
    });

    validator.validate_all(&mut records);

    assert_eq!(records.len(), 3);
    assert!(records[0].valid);
    assert!(records[1].valid);
    // Third record has empty coverage - should be invalid
    assert!(!records[2].valid);
}
