use glacis_core::audit::{
    AuditEntry, AuditFilter, AuditStore, CTEOperationType, InMemoryAuditStore,
};
use glacis_core::cache::{CacheAside, LruCache, TypedCache};
use glacis_core::import::{
    CsvImporter, ImportConfig, ImportFormat, ImportRecord, JsonImporter, JsonlLine, OscalImporter,
    RecordValidator,
};
use glacis_core::json::JsonValue;
use glacis_core::keys::{
    generate_key_material, InMemoryKeyStore, KeyManager, KeyType, RotationConfig, VersionedKey,
};
use glacis_core::metrics::{Counter, Gauge, GlacisCounter, GlacisMetrics, Histogram, MetricsRegistry};
use glacis_core::rate_limit::{RateLimitConfig, RateLimiter, SlidingWindow, TokenBucket};
use glacis_core::retry::{
    InMemoryQueueStore, ProcessResult, QueueItem, RetryQueue, RetryQueueConfig, WebhookPayload,
};
use glacis_core::tracing::{CorrelationId, RequestContext, Span};

fn now_ms() -> u64 {
    chrono::Utc::now().timestamp_millis() as u64
}

fn to_json(v: serde_json::Value) -> JsonValue {
    match v {
        serde_json::Value::Null => JsonValue::Null,
        serde_json::Value::Bool(b) => JsonValue::Bool(b),
        serde_json::Value::Number(n) => {
            if let Some(u) = n.as_u64() {
                JsonValue::PosInt(u)
            } else if let Some(i) = n.as_i64() {
                JsonValue::NegInt(i)
            } else {
                JsonValue::Float(n.as_f64().unwrap_or(0.0).to_bits())
            }
        }
        serde_json::Value::String(s) => JsonValue::Text(s),
        serde_json::Value::Array(a) => JsonValue::Array(a.into_iter().map(to_json).collect()),
        serde_json::Value::Object(m) => {
            JsonValue::Object(m.into_iter().map(|(k, v)| (k, to_json(v))).collect())
        }
    }
}

fn decode(text: &str) -> JsonValue {
    to_json(serde_json::from_str(text).unwrap())
}

fn decode_cell(value: String) -> JsonValue {
    match serde_json::from_str::<serde_json::Value>(&value) {
        Ok(j) => to_json(j),
        Err(_) => JsonValue::Text(value),
    }
}

fn jsonl_lines(data: &str) -> Vec<JsonlLine> {
    data.lines()
        .map(|line| JsonlLine {
            text: Ok(line.to_string()),
            decoded: serde_json::from_str::<serde_json::Value>(line)
                .map(to_json)
                .map_err(|e| e.to_string()),
        })
        .collect()
}

// ---------------------------------------------------------------- audit

#[test]
fn test_audit_entry_creation() {
    let entry = AuditEntry::new(CTEOperationType::CoverageComputation, "Computing coverage".to_string())
        .with_org_id("org-123".to_string())
        .with_user_id("user-456".to_string())
        .with_resource("policy".to_string(), "pol-789".to_string())
        .with_metadata("framework".to_string(), JsonValue::Text("SOC2".to_string()));

    assert_eq!(entry.org_id, Some("org-123".to_string()));
    assert_eq!(entry.resource_type, Some("policy".to_string()));
    assert!(entry.metadata.iter().any(|(k, _)| k == "framework"));
}

#[test]
fn test_in_memory_store() {
    let mut store = InMemoryAuditStore::new(100);

    let entry = AuditEntry::new(CTEOperationType::ReceiptMint, "Minted receipt".to_string())
        .with_org_id("test-org".to_string());

    store.log(entry.copy()).unwrap();

    let filter = AuditFilter::new().with_org_id("test-org".to_string());
    let results = store.query(filter).unwrap();

    assert_eq!(results.len(), 1);
    assert_eq!(results[0].org_id, Some("test-org".to_string()));
}

#[test]
fn test_store_max_entries() {
    let mut store = InMemoryAuditStore::new(5);

    for i in 0..10 {
        let entry = AuditEntry::new(CTEOperationType::ReceiptMint, format!("Entry {}", i));
        store.log(entry).unwrap();
    }

    let results = store.query(AuditFilter::default()).unwrap();
    assert_eq!(results.len(), 5);
}

// ---------------------------------------------------------------- cache

#[test]
fn test_lru_cache_basic() {
    let mut cache: LruCache<String, i32> = LruCache::new(3);

    cache.set("a".to_string(), 1, None);
    cache.set("b".to_string(), 2, None);
    cache.set("c".to_string(), 3, None);

    assert_eq!(cache.get(&"a".to_string()).map(|c| c.value), Some(1));
    assert_eq!(cache.get(&"b".to_string()).map(|c| c.value), Some(2));
    assert_eq!(cache.get(&"c".to_string()).map(|c| c.value), Some(3));
}

#[test]
fn test_lru_eviction() {
    let mut cache: LruCache<String, i32> = LruCache::new(2);

    cache.set("a".to_string(), 1, None);
    cache.set("b".to_string(), 2, None);

    // Access 'a' to make it more recent
    cache.get(&"a".to_string());

    // Add 'c', should evict 'b' (least recently used)
    cache.set("c".to_string(), 3, None);

    assert!(cache.get(&"a".to_string()).is_some());
    assert!(cache.get(&"b".to_string()).is_none());
    assert!(cache.get(&"c".to_string()).is_some());
}

#[test]
fn test_cache_ttl() {
    let mut cache: LruCache<String, i32> = LruCache::new(10);
    let start = 1_000_000u64;

    cache.set_at("a".to_string(), 1, Some(50), start);

    assert!(cache.get_at(&"a".to_string(), start).is_some());

    // 100 ms later the entry has expired
    assert!(cache.get_at(&"a".to_string(), start + 100).is_none());
}

#[test]
fn test_cache_stats() {
    let mut cache: LruCache<String, i32> = LruCache::new(10);

    cache.set("a".to_string(), 1, None);

    // Hit
    cache.get(&"a".to_string());
    // Miss
    cache.get(&"b".to_string());

    let stats = cache.stats();
    assert_eq!(stats.hits, 1);
    assert_eq!(stats.misses, 1);
    let ratio = stats.hits as f64 / (stats.hits + stats.misses) as f64;
    assert!((ratio - 0.5).abs() < 0.01);
}

#[test]
fn test_cache_aside() {
    let mut aside = CacheAside::new(LruCache::new(10));

    let value = aside.get_or_fetch(&"key".to_string(), || Ok(42), None).unwrap();

    assert_eq!(value, 42);

    // Should come from cache now
    let stats_before = aside.stats();
    let value2 = aside
        .get_or_fetch(&"key".to_string(), || Ok(99), None) // Different value, but shouldn't be used
        .unwrap();

    assert_eq!(value2, 42); // Should still be cached value

    let stats_after = aside.stats();
    assert_eq!(stats_after.hits, stats_before.hits + 1);
}

#[test]
fn test_typed_cache() {
    // The test data (name, value), serialized as JSON.
    type TestData = (String, i32);

    let mut cache: TypedCache<String> = TypedCache::new(10);

    let data: TestData = ("test".to_string(), 42);

    cache.set_bytes("key".to_string(), serde_json::to_vec(&data).unwrap(), None);

    let retrieved: Option<TestData> = cache
        .get_bytes(&"key".to_string())
        .and_then(|b| serde_json::from_slice(&b).ok());
    assert_eq!(retrieved, Some(data));
}

// ---------------------------------------------------------------- import

#[test]
fn test_csv_import() {
    let csv_data = "id,name,value\n1,foo,100\n2,bar,200";
    let importer = CsvImporter::default();
    let records = importer.parse(csv_data.as_bytes(), decode_cell).unwrap();

    assert_eq!(records.len(), 2);
    assert_eq!(records[0].get_string("name"), Some("foo".to_string()));
    // Numbers are parsed as JSON numbers, so use get_i64
    assert_eq!(records[1].get_i64("value"), Some(200));
}

#[test]
fn test_csv_with_mapping() {
    let csv_data = "ID,Name,Amount\n1,test,50";
    let mapping = vec![
        ("ID".to_string(), "id".to_string()),
        ("Name".to_string(), "name".to_string()),
        ("Amount".to_string(), "value".to_string()),
    ];

    let config = ImportConfig { field_mapping: Some(mapping), ..Default::default() };
    let importer = CsvImporter::new(config);
    let records = importer.parse(csv_data.as_bytes(), decode_cell).unwrap();

    assert_eq!(records[0].get_string("name"), Some("test".to_string()));
    // Numbers are parsed as JSON numbers, so use get_i64
    assert_eq!(records[0].get_i64("value"), Some(50));
}

#[test]
fn test_json_import() {
    let json_data = r#"[{"id": 1, "name": "foo"}, {"id": 2, "name": "bar"}]"#;
    let importer = JsonImporter::default();
    let items = match decode(json_data) {
        JsonValue::Array(items) => items,
        _ => panic!("not an array"),
    };
    let records = importer.records_from_array(&items);

    assert_eq!(records.len(), 2);
    assert_eq!(records[0].get_i64("id"), Some(1));
    assert_eq!(records[1].get_string("name"), Some("bar".to_string()));
}

#[test]
fn test_jsonl_import() {
    let jsonl_data = "{\"id\": 1, \"name\": \"foo\"}\n{\"id\": 2, \"name\": \"bar\"}\n";
    let importer = JsonImporter::default();
    let records = importer.records_from_lines(&jsonl_lines(jsonl_data));

    assert_eq!(records.len(), 2);
    assert!(records.iter().all(|r| r.valid));
}

#[test]
fn test_oscal_catalog_import() {
    let oscal_data = r#"{
        "catalog": {
            "groups": [{
                "controls": [{
                    "id": "AC-1",
                    "title": "Access Control Policy",
                    "parts": [{"prose": "The organization develops..."}]
                }]
            }]
        }
    }"#;

    let importer = OscalImporter::default();
    let records = importer.records_from_catalog(&decode(oscal_data));

    assert_eq!(records.len(), 1);
    assert_eq!(records[0].get_string("control_id"), Some("AC-1".to_string()));
    assert_eq!(records[0].get_string("title"), Some("Access Control Policy".to_string()));
}

#[test]
fn test_record_validation() {
    let mut record = ImportRecord::new(1, Vec::new());
    record.data.push(("name".to_string(), JsonValue::Text("test".to_string())));

    let validator = RecordValidator::<fn(&ImportRecord) -> Vec<String>>::new().require_field("name").require_field("id");

    validator.validate(&mut record);

    assert!(!record.valid);
    assert!(record.errors.iter().any(|e| e.contains("id")));
}

#[test]
fn test_import_format_detection() {
    assert_eq!(ImportFormat::from_extension("data.csv"), Some(ImportFormat::Csv));
    assert_eq!(ImportFormat::from_extension("data.json"), Some(ImportFormat::Json));
    assert_eq!(ImportFormat::from_extension("data.jsonl"), Some(ImportFormat::JsonL));
}

#[test]
fn test_oscal_format_detection() {
    assert_eq!(ImportFormat::detect_oscal(r#"{"catalog": {}}"#), Some(ImportFormat::OscalCatalog));
    assert_eq!(
        ImportFormat::detect_oscal(r#"{"system-security-plan": {}}"#),
        Some(ImportFormat::OscalSsp)
    );
}

// ---------------------------------------------------------------- keys

#[test]
fn test_key_creation() {
    let store = InMemoryKeyStore::new();
    let mut manager = KeyManager::new(store, RotationConfig::default());

    let material = generate_key_material(32);
    let key = manager.create_key(KeyType::WebhookSecret, material, "org-123".to_string()).unwrap();

    assert_eq!(key.version, 1);
    assert!(key.is_active());
    assert_eq!(key.org_id, "org-123");
}

#[test]
fn test_key_rotation() {
    let store = InMemoryKeyStore::new();
    let mut manager = KeyManager::new(store, RotationConfig::default());

    // Create initial key
    let material1 = generate_key_material(32);
    let _key1 = manager
        .create_key(KeyType::WebhookSecret, material1, "org-123".to_string())
        .unwrap();

    // Rotate key
    let material2 = generate_key_material(32);
    let key2 = manager.rotate_key("org-123", &KeyType::WebhookSecret, material2).unwrap();

    assert_eq!(key2.version, 2);
    assert!(key2.is_active());

    // Both keys should be valid for verification
    let verification_keys = manager
        .get_verification_keys("org-123", &KeyType::WebhookSecret)
        .unwrap();

    assert_eq!(verification_keys.len(), 2);
}

#[test]
fn mod_test_key_revocation() {
    let store = InMemoryKeyStore::new();
    let mut manager = KeyManager::new(store, RotationConfig::default());

    let material = generate_key_material(32);
    let key = manager.create_key(KeyType::ApiKey, material, "org-123".to_string()).unwrap();

    manager.revoke_key(key.id).unwrap();

    // Revoked key should not be available for signing
    let result = manager.get_signing_key("org-123", &KeyType::ApiKey);
    assert!(result.is_err());
}

#[test]
fn test_key_status_lifecycle() {
    let now = now_ms();
    let grace_start = now + 3_600_000;
    let expires = now + 7_200_000;

    let key = VersionedKey::new(KeyType::SessionKey, vec![1, 2, 3], "org".to_string())
        .with_grace_period(grace_start)
        .with_expiration(expires);

    assert!(key.is_active());
    assert!(key.is_valid_for_verification());
}

#[test]
fn test_generate_key_material() {
    let material = generate_key_material(32);
    assert_eq!(material.len(), 32);

    // Ensure randomness (extremely unlikely to be all zeros)
    assert!(material.iter().any(|&b| b != 0));
}

// ---------------------------------------------------------------- metrics

#[test]
fn test_counter() {
    let mut counter = Counter::new(vec![("operation".into(), "test".into())]);
    assert_eq!(counter.get(), 0);
    counter.inc();
    assert_eq!(counter.get(), 1);
    counter.inc_by(5);
    assert_eq!(counter.get(), 6);
}

#[test]
fn test_gauge() {
    let mut gauge = Gauge::new(vec![]);
    gauge.set(10);
    assert_eq!(gauge.get(), 10);
    gauge.inc();
    assert_eq!(gauge.get(), 11);
    gauge.dec();
    assert_eq!(gauge.get(), 10);
}

#[test]
fn test_histogram() {
    // Observations in microseconds: 0.05 s, 0.15 s, 0.50 s and 1.0 s.
    let mut histogram = Histogram::new(vec![]);
    histogram.observe(50_000);
    histogram.observe(150_000);
    histogram.observe(500_000);
    histogram.observe(1_000_000);

    assert_eq!(histogram.count(), 4);
    let sum_seconds = histogram.sum() as f64 / 1_000_000.0;
    assert!((sum_seconds - 1.70).abs() < 0.01);

    let percentiles = histogram.percentiles();
    assert!(percentiles.p50.is_some());
}

#[test]
fn test_metrics_registry() {
    let mut registry = MetricsRegistry::new();

    let counter1 = registry.counter("test_counter", vec![("env".into(), "prod".into())]);
    let counter2 = registry.counter("test_counter", vec![("env".into(), "prod".into())]);

    registry.inc_counter_by(counter1, 1);
    assert_eq!(registry.counter_at(counter2).get(), 1); // Same counter
}

#[test]
fn test_glacis_metrics() {
    let mut metrics = GlacisMetrics::new();

    metrics.record_request(50_000);
    metrics.record_request(100_000);
    metrics.record_error();

    assert_eq!(metrics.counter(GlacisCounter::RequestsTotal).get(), 2);
    assert_eq!(metrics.counter(GlacisCounter::RequestsErrors).get(), 1);
    let total = metrics.counter(GlacisCounter::RequestsTotal).get() as f64;
    let errors = metrics.counter(GlacisCounter::RequestsErrors).get() as f64;
    assert!((errors / total - 0.5).abs() < 0.01);
}

// ---------------------------------------------------------------- rate limiting

#[test]
fn test_token_bucket() {
    let start = 5_000u64;
    // 10 tokens, refilling one token a second
    let mut bucket = TokenBucket::new_at(10, 1_000, start);

    // Should allow initial burst
    for _ in 0..10 {
        assert!(bucket.try_consume(1, start));
    }

    // Should reject when empty
    assert!(!bucket.try_consume(1, start));
}

#[test]
fn test_sliding_window() {
    let now = 10_000u64;
    let mut window = SlidingWindow::new(1_000, 5);

    // Should allow up to max
    for _ in 0..5 {
        assert!(window.try_increment_at(now));
    }

    // Should reject after max
    assert!(!window.try_increment_at(now));
    assert_eq!(window.remaining_at(now), 0);
}

#[test]
fn test_rate_limiter() {
    let config = RateLimitConfig { max_requests: 10, window: 1_000, burst_capacity: 5, refill_rate: 10_000 };

    let mut limiter = RateLimiter::new(config);

    // Should allow initial requests
    for i in 0..5 {
        let result = limiter.check_org("org-1".to_string());
        assert!(result.allowed, "Request {} should be allowed", i);
    }

    // Should eventually reject
    let mut rejected = false;
    for _ in 0..20 {
        let result = limiter.check_org("org-1".to_string());
        if !result.allowed {
            rejected = true;
            break;
        }
    }
    assert!(rejected, "Should eventually reject requests");
}

#[test]
fn test_endpoint_specific_limits() {
    let mut limiter = RateLimiter::new(RateLimitConfig::default())
        .with_endpoint_config("/api/expensive".to_string(), RateLimitConfig::strict());

    // Regular endpoint should be allowed
    let result = limiter.check_endpoint("org-1".to_string(), "/api/normal".to_string());
    assert!(result.allowed);

    // Expensive endpoint should be limited quickly
    for _ in 0..5 {
        let result = limiter.check_endpoint("org-1".to_string(), "/api/expensive".to_string());
        if !result.allowed {
            return; // Test passes
        }
    }
    panic!("Strict endpoint should reject quickly");
}

#[test]
fn test_rate_limit_headers() {
    let mut limiter = RateLimiter::new(RateLimitConfig::default());
    let result = limiter.check_org("org-1".to_string());

    let headers = result.headers();
    assert!(headers.iter().any(|(k, _)| *k == "X-RateLimit-Remaining"));
    assert!(headers.iter().any(|(k, _)| *k == "X-RateLimit-Reset"));
}

// ---------------------------------------------------------------- retry queue

#[test]
fn test_queue_basic() {
    let store = InMemoryQueueStore::new();
    let mut queue = RetryQueue::new(store, RetryQueueConfig::default());

    let id = queue.enqueue("test payload".to_string()).unwrap();
    assert!(id != 0);

    let stats = queue.stats().unwrap();
    assert_eq!(stats.pending, 1);
}

#[test]
fn test_queue_processing() {
    let store = InMemoryQueueStore::new();
    let mut queue = RetryQueue::new(store, RetryQueueConfig::default());

    queue.enqueue("test".to_string()).unwrap();

    let processed = queue.process(|_payload: String| ProcessResult::Success).unwrap();

    assert_eq!(processed, 1);

    let stats = queue.stats().unwrap();
    assert_eq!(stats.completed, 1);
    assert_eq!(stats.pending, 0);
}

#[test]
fn test_queue_retry() {
    let store = InMemoryQueueStore::new();
    let mut queue = RetryQueue::new(store, RetryQueueConfig::default());

    queue.enqueue("test".to_string()).unwrap();

    // First attempt fails
    queue
        .process(|_: String| ProcessResult::Retry("temporary error".to_string()))
        .unwrap();

    let stats = queue.stats().unwrap();
    assert_eq!(stats.pending, 1); // Back in pending
    assert_eq!(stats.completed, 0);
}

#[test]
fn test_queue_dlq() {
    let store = InMemoryQueueStore::new();
    let config = RetryQueueConfig { max_retries: 1, ..Default::default() };
    let mut queue = RetryQueue::new(store, config);

    queue.enqueue("test".to_string()).unwrap();

    // Fail once
    queue.process(|_: String| ProcessResult::Retry("error".to_string())).unwrap();

    let stats = queue.stats().unwrap();
    // Item should either be in pending (waiting for retry) or in DLQ
    assert!(stats.pending > 0 || stats.dlq_size > 0);
}

#[test]
fn test_exponential_backoff() {
    let mut item = QueueItem::new("test".to_string());

    // First retry: ~1 second
    let delay1 = item.next_retry_delay();
    assert!(delay1 >= 750 && delay1 <= 1250);

    item.attempts = 1;
    // Second retry: ~2 seconds
    let delay2 = item.next_retry_delay();
    assert!(delay2 >= 1500 && delay2 <= 2500);

    item.attempts = 5;
    // Fifth retry: ~32 seconds
    let delay5 = item.next_retry_delay();
    assert!(delay5 >= 24000 && delay5 <= 40000);
}

#[test]
fn test_webhook_payload() {
    let payload = WebhookPayload::new(
        "https://example.com/webhook".to_string(),
        "attestation.created".to_string(),
        r#"{"id": "123"}"#.to_string(),
    )
    .with_header("X-Signature".to_string(), "sha256=abc123".to_string());

    assert_eq!(payload.url, "https://example.com/webhook");
    assert_eq!(payload.event_type, "attestation.created");
    assert!(payload.headers.iter().any(|(k, _)| k == "X-Signature"));
}

// ---------------------------------------------------------------- tracing

#[test]
fn test_correlation_id_creation() {
    let id1 = CorrelationId::new();
    let id2 = CorrelationId::new();
    assert_ne!(id1, id2);
}

#[test]
fn test_correlation_id_parsing() {
    let id = CorrelationId::new();
    let header = id.to_header_value();
    let parsed = CorrelationId::parse(&header).unwrap();
    assert_eq!(id, parsed);
}

#[test]
fn mod_test_span_hierarchy() {
    let cid = CorrelationId::new();
    let parent = Span::new("parent_op".to_string(), cid);
    let child = parent.child("child_op".to_string());

    assert_eq!(child.parent_span_id, Some(parent.span_id));
    assert_eq!(child.correlation_id, parent.correlation_id);
}

#[test]
fn test_request_context() {
    let ctx = RequestContext::new()
        .with_org("org-123".to_string())
        .with_user("user-456".to_string())
        .with_attribute("env".to_string(), "production".to_string());

    assert_eq!(ctx.org_id, Some("org-123".to_string()));
    assert_eq!(ctx.user_id, Some("user-456".to_string()));
    assert!(ctx.attributes.contains(&("env".to_string(), "production".to_string())));
}

#[test]
fn test_span_duration() {
    let cid = CorrelationId::new();
    let mut span = Span::new("test_op".to_string(), cid);
    let start = std::time::Instant::now();
    while start.elapsed() < std::time::Duration::from_millis(12) {}
    span.finish();

    let duration = span.duration().unwrap();
    assert!(duration >= 10);
}
