use glacis_core::audit::{AuditEntry, AuditFilter, AuditStore, CTEOperationType, InMemoryAuditStore};
use glacis_core::cache::{CacheAside, CacheError, CachedValue, LruCache};
use glacis_core::dashboard::{
    self, counter_ghosts, depth_glyph, heat_rgb, ledger_line, scanline_boost, status_alert, with_noise,
    DashboardState, FrameDraws,
};
use glacis_core::import::{
    apply_defaults, CsvImporter, ImportFormat, ImportRecord, JsonImporter, JsonlLine, OscalImporter,
    RecordValidator,
};
use glacis_core::json::JsonValue;
use glacis_core::keys::{
    InMemoryKeyStore, KeyError, KeyManager, KeyStatus, KeyStore, KeyType, RotationConfig, VersionedKey,
};
use glacis_core::metrics::{Histogram, MetricsRegistry};
use glacis_core::rate_limit::{
    rate_limit_middleware, RateLimitConfig, RateLimitError, RateLimitResult, RateLimiter, SlidingWindow, TokenBucket,
};
use glacis_core::retry::{
    retry_backoff, retry_delay_with_jitter, InMemoryQueueStore, ProcessResult, QueueError, QueueItem,
    QueueItemStatus, QueueStore, RetryQueue, RetryQueueConfig,
};
use glacis_core::tracing::{status_label, CorrelationId, RequestContext, Span};

// ---------------------------------------------------------------- cache

#[test]
fn law_get_after_delete_misses() {
    let mut cache: LruCache<String, i32> = LruCache::new(4);
    cache.set_at("k".to_string(), 7, None, 100);
    assert!(cache.delete(&"k".to_string()));
    assert!(cache.get_at(&"k".to_string(), 100).is_none());
    assert!(!cache.delete(&"k".to_string()));
}

#[test]
fn law_entry_expires_after_ttl() {
    let mut cache: LruCache<u64, i32> = LruCache::new(4).with_default_ttl(10);
    cache.set_at(1, 5, None, 1_000);
    // The default time-to-live applies: alive at the boundary, gone after it.
    assert_eq!(cache.get_at(&1, 1_010).map(|c| c.value), Some(5));
    assert!(cache.get_at(&1, 1_011).is_none());
    let stats = cache.stats();
    assert_eq!(stats.hits, 1);
    assert_eq!(stats.misses, 1);
}

#[test]
fn cached_value_times() {
    let v = CachedValue::new_at(3, Some(100), 1_000);
    assert_eq!(v.expires_at, Some(1_100));
    assert!(!v.is_expired_at(1_100));
    assert!(v.is_expired_at(1_101));
    assert_eq!(v.age_at(1_040), 40);
    assert_eq!(v.ttl_remaining_at(1_040), Some(60));
    assert_eq!(v.ttl_remaining_at(2_000), None);
    assert_eq!(v.ttl_remaining_at(1_100), None);
}

#[test]
fn cache_aside_fetch_error_passes_through() {
    let mut aside: CacheAside<String, i32> = CacheAside::new(LruCache::new(2));
    let res = aside.get_or_fetch(&"k".to_string(), || Err(CacheError::FetchFailed("down".to_string())), None);
    assert!(matches!(res, Err(CacheError::FetchFailed(ref m)) if m == "down"));
    // Nothing was stored, so the next call fetches again.
    let res = aside.get_or_fetch(&"k".to_string(), || Ok(9), None);
    assert_eq!(res.unwrap(), 9);
    assert_eq!(aside.stats().misses, 2);
}

#[test]
fn law_capacity_bound() {
    let mut cache: LruCache<u64, u64> = LruCache::new(3);
    for i in 0..20 {
        cache.set_at(i, i * 10, None, 0);
    }
    assert_eq!(cache.stats().size, 3);
    assert_eq!(cache.stats().evictions, 17);
    assert!(cache.get_at(&19, 0).is_some());
    assert!(cache.get_at(&16, 0).is_none());
}

// ---------------------------------------------------------------- rate limiting

#[test]
fn law_refused_request_leaves_no_record() {
    let mut window = SlidingWindow::new(1_000, 2);
    assert!(window.try_increment_at(0));
    assert!(window.try_increment_at(10));
    assert!(!window.try_increment_at(20));
    assert_eq!(window.count_at(20), 2);
    // The oldest request leaves the window after its length has passed.
    assert_eq!(window.reset_at_time(20), 1_000);
    assert!(window.try_increment_at(1_001));
    assert_eq!(window.remaining_at(1_001), 0);
}

#[test]
fn token_bucket_refills_at_its_rate() {
    // 2 tokens, one token a second
    let mut bucket = TokenBucket::new_at(2, 1_000, 0);
    assert!(bucket.try_consume(2, 0));
    assert!(!bucket.try_consume(1, 0));
    assert_eq!(bucket.time_until_available(1), 1_000);
    assert!(!bucket.try_consume(1, 999));
    assert!(bucket.try_consume(1, 1_000));
}

#[test]
fn middleware_refuses_with_the_result() {
    let config = RateLimitConfig { max_requests: 100, window: 60_000, burst_capacity: 1, refill_rate: 1_000 };
    let mut limiter = RateLimiter::new(config);
    assert!(rate_limit_middleware(&mut limiter, "org", None).is_ok());
    match rate_limit_middleware(&mut limiter, "org", None) {
        Err(RateLimitError::Exceeded(r)) => {
            assert!(!r.allowed);
            assert!(r.retry_after.is_some());
        }
        Ok(_) => panic!("second request should be refused"),
    }
    // Another organization has its own bucket.
    assert!(rate_limit_middleware(&mut limiter, "other", None).is_ok());
}

#[test]
fn headers_give_remaining_and_retry() {
    let config = RateLimitConfig { max_requests: 100, window: 60_000, burst_capacity: 1, refill_rate: 1_000 };
    let mut limiter = RateLimiter::new(config);
    let ok = limiter.check_at(glacis_core::rate_limit::RateLimitKey::org("o".to_string()), 5_000);
    assert!(ok.allowed);
    let refused = limiter.check_at(glacis_core::rate_limit::RateLimitKey::org("o".to_string()), 5_000);
    assert!(!refused.allowed);
    let headers = refused.headers_at(5_000);
    assert!(headers.iter().any(|(k, _)| *k == "Retry-After"));
    let remaining = headers.iter().find(|(k, _)| *k == "X-RateLimit-Remaining").unwrap();
    assert_eq!(remaining.1, refused.remaining.to_string());
}

// ---------------------------------------------------------------- metrics

#[test]
fn law_percentiles_ordered_and_exact() {
    let mut h = Histogram::new(vec![]);
    for v in [50_000u64, 150_000, 500_000, 1_000_000] {
        h.observe(v);
    }
    let p = h.percentiles();
    assert_eq!(p.p50, Some(250_000));
    assert_eq!(p.p90, Some(500_000));
    assert_eq!(p.p95, Some(500_000));
    assert_eq!(p.p99, Some(500_000));
    assert!(p.p50 <= p.p90 && p.p90 <= p.p95 && p.p95 <= p.p99);
    assert_eq!(Histogram::new(vec![]).percentile(50), None);
}

#[test]
fn registry_keys_by_name_and_labels() {
    let mut registry = MetricsRegistry::new();
    let a = registry.counter("c", vec![("env".into(), "prod".into())]);
    let b = registry.counter("c", vec![("env".into(), "dev".into())]);
    assert_ne!(a, b);
    registry.inc_counter_by(a, 3);
    assert_eq!(registry.counter_at(a).get(), 3);
    assert_eq!(registry.counter_at(b).get(), 0);
    let snapshot = registry.snapshot();
    assert_eq!(snapshot.counters.len(), 2);
}

// ---------------------------------------------------------------- retry queue

#[test]
fn law_backoff_doubles_to_the_cap() {
    assert_eq!(retry_backoff(0), 1_000);
    assert_eq!(retry_backoff(1), 2_000);
    assert_eq!(retry_backoff(5), 32_000);
    assert_eq!(retry_backoff(9), 300_000);
    assert_eq!(retry_backoff(60), 300_000);
    assert_eq!(retry_delay_with_jitter(0, 0), 750);
    assert_eq!(retry_delay_with_jitter(0, 499), 1_249);
}

#[test]
fn law_processing_conserves_items() {
    let store = InMemoryQueueStore::new();
    let config = RetryQueueConfig { max_retries: 3, ..Default::default() };
    let mut queue = RetryQueue::new(store, config);
    queue.enqueue("ok".to_string()).unwrap();
    queue.enqueue("again".to_string()).unwrap();
    queue.enqueue("bad".to_string()).unwrap();

    let n = queue
        .process(|p: String| match p.as_str() {
            "ok" => ProcessResult::Success,
            "again" => ProcessResult::Retry("later".to_string()),
            _ => ProcessResult::Fail("broken".to_string()),
        })
        .unwrap();
    assert_eq!(n, 3);
    let stats = queue.stats().unwrap();
    assert_eq!(stats.completed, 1);
    assert_eq!(stats.pending, 1);
    assert_eq!(stats.failed, 1);
    assert_eq!(stats.dlq_size, 1);
    assert_eq!(stats.processing, 0);

    let dead = queue.get_dlq(10, 0).unwrap();
    assert_eq!(dead.len(), 1);
    assert_eq!(dead[0].payload, "bad");
    assert_eq!(dead[0].last_error, Some("broken".to_string()));
    assert_eq!(dead[0].status, QueueItemStatus::Failed);
    assert!(queue.get_dlq(10, 1).unwrap().is_empty());

    queue.retry_dlq_item(dead[0].id).unwrap();
    let stats = queue.stats().unwrap();
    assert_eq!(stats.dlq_size, 0);
    assert_eq!(stats.pending, 2);
    assert!(queue.get_dlq(10, 0).unwrap().is_empty());
}

#[test]
fn retry_from_dlq_of_unknown_item_fails() {
    let mut store: InMemoryQueueStore<String> = InMemoryQueueStore::new();
    match store.retry_from_dlq_at(42, 0) {
        Err(QueueError::NotFound(id)) => assert_eq!(id, 42),
        _ => panic!("expected NotFound"),
    }
}

#[test]
fn store_schedules_by_due_time() {
    let mut store: InMemoryQueueStore<u32> = InMemoryQueueStore::new();
    store.enqueue_at(QueueItem::new_with(1, 11, 500), 0).unwrap();
    store.enqueue_at(QueueItem::new_with(2, 22, 100), 0).unwrap();
    // Nothing is due yet at 50; at 100 only the second item.
    assert!(store.dequeue_at(10, 50).unwrap().is_empty());
    let due = store.dequeue_at(10, 100).unwrap();
    assert_eq!(due.len(), 1);
    assert_eq!(due[0].id, 22);
    assert_eq!(due[0].status, QueueItemStatus::Processing);
    let due = store.dequeue_at(10, 1_000).unwrap();
    assert_eq!(due.len(), 1);
    assert_eq!(due[0].id, 11);
}

#[test]
fn prepare_retry_moves_to_failed_after_max() {
    let mut item = QueueItem::new_with("x".to_string(), 1, 0).with_max_retries(2);
    item.prepare_retry_at(Some("e1".to_string()), 1_000);
    assert_eq!(item.status, QueueItemStatus::RetryPending);
    assert_eq!(item.attempts, 1);
    // Backoff after one attempt: 2 s with a quarter jitter either way.
    assert!(item.process_at >= 2_500 && item.process_at < 3_500);
    item.prepare_retry_at(Some("e2".to_string()), 5_000);
    assert_eq!(item.status, QueueItemStatus::Failed);
    assert!(item.should_dlq());
}

// ---------------------------------------------------------------- keys

#[test]
fn law_cleanup_removes_exactly_the_expired() {
    let mut store = InMemoryKeyStore::new();
    let now = glacis_core::clock::now_millis();
    let expired = VersionedKey::new_with(KeyType::ApiKey, vec![1], "org".to_string(), 1, 0).with_expiration(10);
    let live = VersionedKey::new_with(KeyType::ApiKey, vec![2], "org".to_string(), 2, 0).with_expiration(now + 3_600_000);
    let other_org = VersionedKey::new_with(KeyType::ApiKey, vec![3], "else".to_string(), 3, 0).with_expiration(10);
    store.store(expired).unwrap();
    store.store(live).unwrap();
    store.store(other_org).unwrap();

    let mut manager = KeyManager::new(store, RotationConfig::default());
    assert_eq!(manager.cleanup_expired("org", &KeyType::ApiKey).unwrap(), 1);
    let left = manager.get_verification_keys("org", &KeyType::ApiKey).unwrap();
    assert_eq!(left.len(), 1);
    assert_eq!(left[0].id, 2);
}

#[test]
fn revoking_an_unknown_key_fails() {
    let mut manager = KeyManager::new(InMemoryKeyStore::new(), RotationConfig::default());
    match manager.revoke_key(7) {
        Err(KeyError::NotFound(text)) => assert_eq!(text, "00000000-0000-0000-0000-000000000007"),
        _ => panic!("expected NotFound"),
    }
}

#[test]
fn no_active_key_names_the_type() {
    let manager = KeyManager::new(InMemoryKeyStore::new(), RotationConfig::default());
    match manager.get_signing_key("org", &KeyType::Custom("hmac".to_string())) {
        Err(KeyError::NoActiveKey(KeyType::Custom(name))) => assert_eq!(name, "hmac"),
        _ => panic!("expected NoActiveKey"),
    }
}

#[test]
fn law_rotation_keeps_old_key_for_verification() {
    let mut manager = KeyManager::new(InMemoryKeyStore::new(), RotationConfig::default());
    let first = manager.create_key(KeyType::EncryptionKey, vec![9; 16], "o".to_string()).unwrap();
    let second = manager.rotate_key("o", &KeyType::EncryptionKey, vec![8; 16]).unwrap();
    let third = manager.rotate_key("o", &KeyType::EncryptionKey, vec![7; 16]).unwrap();
    assert_eq!((first.version, second.version, third.version), (1, 2, 3));
    assert_eq!(manager.get_signing_key("o", &KeyType::EncryptionKey).unwrap().id, third.id);
    assert_eq!(manager.get_verification_keys("o", &KeyType::EncryptionKey).unwrap().len(), 3);
}

#[test]
fn status_follows_time() {
    let mut key = VersionedKey::new_with(KeyType::SessionKey, vec![], "o".to_string(), 5, 100)
        .with_grace_period(200)
        .with_expiration(300);
    assert!(!key.is_active_at(50));
    assert!(key.is_active_at(250));
    key.update_status_at(250);
    assert_eq!(key.status, KeyStatus::GracePeriod);
    assert!(!key.is_active_at(250));
    assert!(key.is_valid_for_verification_at(250));
    key.update_status_at(301);
    assert_eq!(key.status, KeyStatus::Expired);
    assert!(!key.is_valid_for_verification_at(301));
}

// ---------------------------------------------------------------- audit

#[test]
fn query_pages_with_offset_and_limit() {
    let mut store = InMemoryAuditStore::new(100);
    for i in 0..6 {
        store.log(AuditEntry::new_with(CTEOperationType::GapAnalysis, format!("e{}", i), i as u128, i)).unwrap();
    }
    let mut filter = AuditFilter::new().with_limit(2);
    filter.offset = Some(3);
    let page = store.query(filter).unwrap();
    assert_eq!(page.iter().map(|e| e.id).collect::<Vec<_>>(), vec![3, 4]);

    let mut window = AuditFilter::new();
    window.from_timestamp = Some(1);
    window.to_timestamp = Some(2);
    assert_eq!(store.query(window).unwrap().len(), 2);

    assert_eq!(store.get(4).unwrap().map(|e| e.message), Some("e4".to_string()));
    assert!(store.get(99).unwrap().is_none());
}

#[test]
fn store_keeps_the_newest() {
    let mut store = InMemoryAuditStore::new(2);
    for i in 0..5u128 {
        store.log(AuditEntry::new_with(CTEOperationType::KeyRotation, String::new(), i, 0)).unwrap();
    }
    let ids: Vec<u128> = store.query(AuditFilter::default()).unwrap().iter().map(|e| e.id).collect();
    assert_eq!(ids, vec![3, 4]);
}

#[test]
fn custom_operations_match_by_name() {
    let mut store = InMemoryAuditStore::new(10);
    store.log(AuditEntry::new(CTEOperationType::Custom("a".to_string()), String::new())).unwrap();
    store.log(AuditEntry::new(CTEOperationType::Custom("b".to_string()), String::new())).unwrap();
    let found = store.query(AuditFilter::new().with_operation(CTEOperationType::Custom("b".to_string()))).unwrap();
    assert_eq!(found.len(), 1);
}

// ---------------------------------------------------------------- tracing

#[test]
fn header_text_reads_back() {
    let id = CorrelationId::from_uuid(0x550e8400_e29b_41d4_a716_446655440000);
    assert_eq!(id.to_header_value(), "550e8400-e29b-41d4-a716-446655440000");
    assert_eq!(CorrelationId::parse("550e8400-e29b-41d4-a716-446655440000").unwrap(), id);
    assert!(CorrelationId::parse("not-a-uuid").is_err());
    // A random identifier has version 4.
    assert_eq!((CorrelationId::new().as_uuid() >> 76) & 0xF, 4);
}

#[test]
fn bad_header_gets_a_new_identifier() {
    let ctx = RequestContext::from_header("garbage");
    assert_eq!((ctx.correlation_id.as_uuid() >> 76) & 0xF, 4);
}

#[test]
fn spans_started_in_a_context_chain() {
    let mut ctx = RequestContext::new();
    let root = ctx.start_span("a".to_string());
    let child = ctx.start_span("b".to_string());
    let grandchild = ctx.start_span("c".to_string());
    assert_eq!(root.parent_span_id, None);
    assert_eq!(child.parent_span_id, Some(root.span_id));
    assert_eq!(grandchild.parent_span_id, Some(child.span_id));
    assert_eq!(grandchild.correlation_id, ctx.correlation_id);
}

#[test]
fn span_times_and_status() {
    let mut span = Span::new_with("op".to_string(), CorrelationId::from_uuid(1), 2, 1_000);
    assert_eq!(span.duration(), None);
    assert_eq!(span.elapsed_at(1_250), 250);
    assert_eq!(status_label(span.success), "???");
    span.finish_err_at(1_300);
    assert_eq!(span.duration(), Some(300));
    assert_eq!(span.elapsed_at(9_999), 300);
    assert_eq!(status_label(span.success), "ERR");
    let tagged = span.with_tag("k".to_string(), "v".to_string());
    assert_eq!(tagged.tags, vec![("k".to_string(), "v".to_string())]);
}

// ---------------------------------------------------------------- import

#[test]
fn format_by_extension() {
    assert_eq!(ImportFormat::from_extension("dir/data.ndjson"), Some(ImportFormat::JsonL));
    assert_eq!(ImportFormat::from_extension("archive.tar.csv"), Some(ImportFormat::Csv));
    assert_eq!(ImportFormat::from_extension("notes.txt"), None);
    assert_eq!(ImportFormat::from_extension("csv"), None);
    assert_eq!(
        ImportFormat::detect_oscal(r#"{"component-definition": {}}"#),
        Some(ImportFormat::OscalComponent)
    );
    assert_eq!(ImportFormat::detect_oscal("{}"), None);
}

#[test]
fn csv_rows_that_fail_become_error_records() {
    let headers = vec!["a".to_string(), "b".to_string()];
    let rows = vec![
        Ok(vec![JsonValue::PosInt(1), JsonValue::Text("x".to_string()), JsonValue::Bool(true)]),
        Err("bad quote".to_string()),
    ];
    let records = CsvImporter::default().records_from_table(&headers, &rows);
    assert_eq!(records.len(), 2);
    assert_eq!(records[0].line_number, 2);
    assert_eq!(records[0].data.len(), 2); // the cell beyond the last column is dropped
    assert_eq!(records[1].line_number, 3);
    assert!(!records[1].valid);
    assert_eq!(records[1].errors, vec!["Parse error: bad quote".to_string()]);
}

#[test]
fn jsonl_skips_blank_lines_and_reports_errors() {
    let obj = |id: u64| JsonValue::Object(vec![("id".to_string(), JsonValue::PosInt(id))]);
    let lines = vec![
        JsonlLine { text: Ok(" {\"id\": 1} ".to_string()), decoded: Ok(obj(1)) },
        JsonlLine { text: Ok("   ".to_string()), decoded: Err("EOF".to_string()) },
        JsonlLine { text: Ok("[1]".to_string()), decoded: Ok(JsonValue::Array(vec![JsonValue::PosInt(1)])) },
        JsonlLine { text: Ok("{".to_string()), decoded: Err("EOF while parsing".to_string()) },
        JsonlLine { text: Err("io".to_string()), decoded: Ok(JsonValue::Null) },
    ];
    let records = JsonImporter::default().records_from_lines(&lines);
    assert_eq!(records.len(), 4);
    assert_eq!(records[0].get_i64("id"), Some(1));
    assert_eq!(records[1].line_number, 3);
    assert_eq!(records[1].errors, vec!["Expected JSON object".to_string()]);
    assert_eq!(records[2].errors, vec!["Invalid JSON: EOF while parsing".to_string()]);
    assert_eq!(records[3].line_number, 5);
    assert_eq!(records[3].errors, vec!["Read error: io".to_string()]);
}

#[test]
fn json_array_items_that_are_not_objects() {
    let items = vec![JsonValue::PosInt(3)];
    let records = JsonImporter::default().records_from_array(&items);
    assert_eq!(records[0].errors, vec!["Expected object, got different type".to_string()]);
    assert!(!records[0].valid);
}

#[test]
fn oscal_components_and_top_level_controls() {
    let text = |s: &str| JsonValue::Text(s.to_string());
    let component = JsonValue::Object(vec![
        ("uuid".to_string(), text("u-1")),
        ("title".to_string(), text("Gateway")),
        ("type".to_string(), text("service")),
        ("description".to_string(), JsonValue::PosInt(4)),
    ]);
    let doc = JsonValue::Object(vec![(
        "component-definition".to_string(),
        JsonValue::Object(vec![("components".to_string(), JsonValue::Array(vec![component]))]),
    )]);
    let records = OscalImporter::default().records_from_component(&doc);
    assert_eq!(records.len(), 1);
    assert_eq!(records[0].get_string("type"), Some("service".to_string()));
    assert_eq!(records[0].get_string("description"), None);

    let control = JsonValue::Object(vec![
        ("id".to_string(), text("SC-7")),
        ("params".to_string(), JsonValue::Array(vec![text("p")])),
    ]);
    let catalog = JsonValue::Object(vec![(
        "catalog".to_string(),
        JsonValue::Object(vec![("controls".to_string(), JsonValue::Array(vec![control]))]),
    )]);
    let records = OscalImporter::default().records_from_catalog(&catalog);
    assert_eq!(records.len(), 1);
    assert_eq!(records[0].get_string("control_id"), Some("SC-7".to_string()));
    assert!(records[0].data.iter().any(|(k, _)| k == "parameters"));
}

#[test]
fn law_defaults_never_override() {
    let mut data = vec![("a".to_string(), JsonValue::PosInt(1))];
    let defaults = vec![
        ("a".to_string(), JsonValue::PosInt(2)),
        ("b".to_string(), JsonValue::Bool(true)),
        ("b".to_string(), JsonValue::Bool(false)),
    ];
    apply_defaults(&mut data, &defaults);
    assert_eq!(data.len(), 2);
    let record = ImportRecord::new(1, data);
    assert_eq!(record.get_i64("a"), Some(1));
    assert_eq!(record.get_bool("b"), Some(true));
}

#[test]
fn validation_errors_name_the_field() {
    let mut records = vec![
        ImportRecord::new(1, vec![("id".to_string(), JsonValue::Null)]),
        ImportRecord::new(2, vec![]),
    ];
    RecordValidator::<fn(&ImportRecord) -> Vec<String>>::new().require_field("id").validate_all(&mut records);
    assert!(records[0].valid);
    assert!(!records[1].valid);
    assert_eq!(records[1].errors, vec!["Missing required field: id".to_string()]);
}

// ---------------------------------------------------------------- dashboard

#[test]
fn ledger_line_text() {
    assert_eq!(ledger_line(36_000, 1_402, 0x8f3a, 0x42c1), "[15:00:00] 0x8f3a...42c1 | POL-491 | ACTIVE");
    assert_eq!(ledger_line(610, 0, 0, 0xffff), "[14:01:01] 0x0000...ffff | POL-489 | ACTIVE");
}

#[test]
fn advance_applies_the_draws() {
    let mut state = DashboardState::initial();
    let draws = |step: u64| FrameDraws {
        receipt_step: step,
        blur_step: -2,
        twinkles: vec![(40, 20, 20), (80, 40, 10)],
        hash_prefix: 1,
        hash_suffix: 2,
    };
    state.advance(draws(3));
    assert_eq!(state.frame_count, 1);
    assert_eq!(state.receipt_count, 1_405);
    assert_eq!(state.scan_line_y, 3);
    assert_eq!(state.counter_blur_offset, -2);
    assert_eq!(state.grid_twinkle_map, vec![(40, 20, 5)]);
    assert_eq!(state.logs.len(), 3);
    assert_eq!(state.logs[0].1, 52);
    state.advance(draws(1));
    state.advance(draws(1));
    // The third frame brings a new ledger line in front.
    assert_eq!(state.logs.len(), 4);
    assert_eq!(state.logs[0], ("[14:00:00] 0x0001...0002 | POL-496 | ACTIVE".to_string(), 0));
    assert_eq!(state.last_log_frame, 3);
}

#[test]
fn law_ledger_keeps_thirty_lines() {
    let mut state = DashboardState::initial();
    for _ in 0..200 {
        state.tick();
    }
    assert_eq!(state.logs.len(), dashboard::LEDGER_LINES);
    assert!(state.scan_line_y < 100);
    assert!(state.counter_blur_offset.abs() < 20);
}

#[test]
fn depth_colours_and_glyphs() {
    assert_eq!(depth_glyph(0), ' ');
    assert_eq!(depth_glyph(9), '█');
    assert_eq!(heat_rgb(0), None);
    assert_eq!(heat_rgb(3), Some((20, 60, 80)));
    assert_eq!(with_noise((0, 253, 100), 1), (5, 255, 105));
    assert_eq!(with_noise((3, 10, 100), -1), (0, 5, 95));
    assert_eq!(scanline_boost((250, 10, 10), 0), (255, 50, 50));
    assert_eq!(counter_ghosts(0), (0, 0, 1));
    assert!(status_alert(29) && !status_alert(30));
}

#[test]
fn lru_evicts_least_recently_used_live_entry_after_reinsert() {
    let mut cache: LruCache<String, i32> = LruCache::new(2);
    cache.set("a".to_string(), 1, None);
    cache.set("b".to_string(), 2, None);
    assert!(cache.delete(&"a".to_string()));
    cache.set("a".to_string(), 3, None);
    cache.set("c".to_string(), 4, None);
    assert_eq!(cache.stats().size, 2);
    assert_eq!(cache.stats().evictions, 1);
    assert_eq!(cache.get(&"a".to_string()).map(|c| c.value), Some(3));
    assert!(cache.get(&"b".to_string()).is_none());
    assert_eq!(cache.get(&"c".to_string()).map(|c| c.value), Some(4));
}

#[test]
fn lru_never_holds_more_than_its_capacity() {
    let mut cache: LruCache<u64, u64> = LruCache::new(3);
    for i in 0..20u64 {
        cache.set(i % 5, i, None);
        if i % 3 == 0 {
            cache.delete(&(i % 4));
        }
        if i % 4 == 1 {
            cache.get(&(i % 5));
        }
        assert!(cache.stats().size <= 3);
    }
}

#[test]
fn custom_checks_run_in_order_after_required_fields() {
    let mut rec = ImportRecord::new(1, vec![]);
    let validator = RecordValidator::new()
        .require_field("a")
        .add_validator(|r: &ImportRecord| vec![format!("seen {}", r.errors.len())]);
    validator.validate(&mut rec);
    assert_eq!(rec.errors, vec!["Missing required field: a".to_string(), "seen 1".to_string()]);
    assert!(!rec.valid);
}

#[test]
fn csv_text_rows_become_records() {
    let importer = CsvImporter::default();
    let records = importer.parse(b"a,b\n1,x,extra\n2\n", |s: String| JsonValue::Text(s)).unwrap();
    assert_eq!(records.len(), 2);
    assert_eq!(records[0].line_number, 2);
    assert_eq!(records[0].data.len(), 2);
    assert_eq!(records[0].get_string("a"), Some("1".to_string()));
    assert_eq!(records[0].get_string("b"), Some("x".to_string()));
    assert_eq!(records[1].line_number, 3);
    assert_eq!(records[1].data.len(), 1);
}

#[test]
fn correlation_id_text_is_hyphenated_lower_hex() {
    let id = CorrelationId::from_uuid(0x0123_4567_89ab_cdef_0011_2233_4455_66ffu128);
    assert_eq!(id.to_header_value(), "01234567-89ab-cdef-0011-2233445566ff");
}

#[test]
fn queue_processing_at_given_times() {
    let mut queue = RetryQueue::new(InMemoryQueueStore::new(), RetryQueueConfig::default());
    let id = queue.enqueue_at("test".to_string(), 100).unwrap();
    // Not due before it was enqueued.
    assert_eq!(queue.process_at(|_p: String| ProcessResult::Success, 50).unwrap(), 0);
    assert_eq!(queue.process_at(|_p: String| ProcessResult::Success, 200).unwrap(), 1);
    let stats = queue.stats().unwrap();
    assert_eq!(stats.completed, 1);
    assert_eq!(stats.pending, 0);
    assert_ne!(id, 0);
}

#[test]
fn queue_retry_at_given_times() {
    let config = RetryQueueConfig { max_retries: 3, ..Default::default() };
    let mut queue = RetryQueue::new(InMemoryQueueStore::new(), config);
    queue.enqueue_at("test".to_string(), 100).unwrap();
    let calls = std::cell::Cell::new(0);
    let n = queue
        .process_at(
            |_p: String| {
                calls.set(calls.get() + 1);
                ProcessResult::Retry("temporary error".to_string())
            },
            100,
        )
        .unwrap();
    assert_eq!(n, 1);
    assert_eq!(calls.get(), 1);
    let stats = queue.stats().unwrap();
    assert_eq!(stats.pending, 1);
    assert_eq!(stats.completed, 0);
    assert_eq!(stats.dlq_size, 0);
}

#[test]
fn update_with_processing_status_keeps_item_in_processing() {
    let mut store: InMemoryQueueStore<u32> = InMemoryQueueStore::new();
    store.enqueue_at(QueueItem::new_with(1, 5, 0), 0).unwrap();
    let mut item = store.dequeue_at(1, 0).unwrap().remove(0);
    item.attempts = 2;
    store.update_at(&item, 0).unwrap();
    let stats = store.stats().unwrap();
    assert_eq!(stats.processing, 1);
    item.mark_completed();
    store.update_at(&item, 0).unwrap();
    assert_eq!(store.stats().unwrap().completed, 1);
}

#[test]
fn rate_limit_reset_header_counts_seconds_left() {
    let result = RateLimitResult { allowed: true, remaining: 4, reset_at: 61_500, retry_after: None };
    let headers = result.headers_at(1_000);
    assert_eq!(headers[0], ("X-RateLimit-Remaining", "4".to_string()));
    assert_eq!(headers[1], ("X-RateLimit-Reset", "60".to_string()));
    assert_eq!(result.headers_at(70_000)[1].1, "0");
}

#[test]
fn csv_row_that_is_not_utf8_becomes_an_error_record() {
    let data: &[u8] = b"a,b\n1,\xff\n2,y\n";
    let records = CsvImporter::default().parse(data, |s: String| JsonValue::Text(s)).unwrap();
    assert_eq!(records.len(), 2);
    assert!(!records[0].valid);
    assert_eq!(records[0].line_number, 2);
    assert!(records[0].errors[0].starts_with("Parse error: "));
    assert!(records[1].valid);
    assert_eq!(records[1].get_string("b"), Some("y".to_string()));
}
