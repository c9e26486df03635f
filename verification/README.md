# glacis_core

The core library of the Glacis chain-of-custody system, written in Verus:
every function in `src/` carries a contract that the verifier proves.

## Layout

- `src/` — the verified library, one module per concern:
  - `cache` — LRU cache with per-entry time-to-live, cache-aside and a
    byte-level typed cache;
  - `rate_limit` — token buckets, sliding windows and the per-organisation /
    per-endpoint rate limiter;
  - `metrics` — counters, gauges, histograms with percentiles, and the
    registry snapshot;
  - `keys` — versioned keys, their life cycle, rotation and the key manager;
  - `retry` — the retry queue, its in-memory store, backoff and jitter;
  - `audit` — audit entries, filters and the bounded in-memory audit store;
  - `tracing` — correlation identifiers, spans and request contexts;
  - `import` — CSV, JSON, JSONL and OSCAL records, defaults and validation;
  - `dashboard` — the state machine behind the launcher's live view;
  - `json`, `text`, `ids`, `clock`, `random` — JSON values, number
    formatting, UUIDs, the wall clock and random draws.
- `tests/` — unit, integration and law tests run against the compiled library.
- `app/` — the terminal launcher and the adapters that need I/O, async,
  serde or floating point.

Operations on the library's own types that read the clock have a twin
ending in `_at` that takes the time as an argument, and the twin's contract
states the result exactly; the clock-reading version states it for some
reading of the clock. The retry queue has twins (`enqueue_at`,
`process_at`) over the in-memory store. Operations that read the clock
inside a store trait that callers implement (`KeyManager::rotate_key`,
`KeyManager::get_signing_key`, `KeyManager::get_verification_keys`,
`KeyManager::cleanup_expired`, and `RetryQueue::process` over another
store) have none: the trait has no time parameter. Neither has
`log_cte_operation`, which stamps the entry with the clock. The laws of each
module are public proof functions named `lemma_*`.
