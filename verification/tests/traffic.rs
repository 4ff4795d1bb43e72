use mcp_proxy::admin::{cache_clear, cache_stats};
use mcp_proxy::cache::{is_cacheable, CacheHandle, CacheStats};
use mcp_proxy::coalesce::{coalesce_key, on_wait, Arrival, InFlight};
use mcp_proxy::config::{BackendCacheConfig, RetryConfig};
use mcp_proxy::float::Float;
use mcp_proxy::protocol::{CallToolParams, McpRequest, ReadResourceParams, Request, RequestId};
use mcp_proxy::retry::{is_retriable_error, McpRetryPolicy, RetryBudget};

fn object(members: &[(&str, serde_json::Value)]) -> serde_json::Value {
    let mut map = serde_json::Map::new();
    for (name, value) in members {
        map.insert(name.to_string(), value.clone());
    }
    serde_json::Value::Object(map)
}

fn call_with(name: &str, arguments: serde_json::Value) -> McpRequest {
    McpRequest::CallTool(CallToolParams {
        name: name.to_string(),
        arguments,
    })
}

fn tool_call(name: &str) -> McpRequest {
    call_with(name, object(&[("key", "value".into())]))
}

fn read(uri: &str) -> McpRequest {
    McpRequest::ReadResource(ReadResourceParams {
        uri: uri.to_string(),
    })
}

// ============================================================================
// Cache
// ============================================================================

fn run<F: std::future::Future>(future: F) -> F::Output {
    tokio::runtime::Builder::new_current_thread()
        .enable_all()
        .build()
        .unwrap()
        .block_on(future)
}

fn caches(namespace: &str, ttl_seconds: u64) -> CacheHandle {
    CacheHandle::new(vec![(
        namespace.to_string(),
        BackendCacheConfig {
            resource_ttl_seconds: ttl_seconds,
            tool_ttl_seconds: ttl_seconds,
            max_entries: 100,
        },
    )])
}

fn response(text: &str) -> tower_mcp::RouterResponse {
    tower_mcp::RouterResponse {
        id: tower_mcp::protocol::RequestId::Number(99),
        inner: Ok(tower_mcp::protocol::McpResponse::CallTool(
            tower_mcp::CallToolResult::text(text),
        )),
    }
}

fn text(response: &tower_mcp::RouterResponse) -> String {
    match &response.inner {
        Ok(tower_mcp::protocol::McpResponse::CallTool(result)) => result.all_text(),
        other => panic!("expected CallTool, got: {:?}", other),
    }
}

/// What a backend answers: the sum of two numbers, or how often it was called.
fn backend_text(request: &McpRequest, calls: u32) -> String {
    if let McpRequest::CallTool(params) = request {
        let number = |name: &str| params.arguments.get(name).and_then(|v| v.as_i64());
        if let (Some(a), Some(b)) = (number("a"), number("b")) {
            return format!("{}", a + b);
        }
    }
    format!("answer {calls}")
}

/// Sends a request through the caches to a backend, and counts its calls.
/// Gives back the identifier and the text of the answer.
fn send(
    handle: &mut CacheHandle,
    calls: &mut u32,
    id: i64,
    inner: McpRequest,
) -> (RequestId, String) {
    let request = Request {
        id: RequestId::Number(id),
        inner,
    };
    let mut backend = || {
        *calls += 1;
        response(&backend_text(&request.inner, *calls))
    };
    let Some(slot) = handle.resolve_cache(&request.inner) else {
        return (request.id, text(&backend()));
    };
    let cache = handle.cache(&slot).unwrap().clone();
    let found = run(cache.get(&slot.key));
    if let Some(answer) = handle.on_lookup(&slot, &request, found) {
        return (answer.id, text(&answer.body));
    }
    let fresh = backend();
    if is_cacheable(&fresh.inner) {
        run(cache.insert(slot.key, fresh.clone()));
    }
    (request.id, text(&fresh))
}

#[test]
fn test_cache_hit_returns_same_result() {
    let mut handle = caches("fs/", 60);
    let mut calls = 0;
    let (id1, resp1) = send(&mut handle, &mut calls, 1, tool_call("fs/read"));
    let (id2, resp2) = send(&mut handle, &mut calls, 2, tool_call("fs/read"));
    // Both should succeed with same content
    assert_eq!(resp1, resp2);
    assert_eq!(calls, 1);
    // Each under the identifier of its own request
    assert_eq!(id1, RequestId::Number(1));
    assert_eq!(id2, RequestId::Number(2));
}

#[test]
fn test_cache_disabled_passes_through() {
    let mut handle = caches("fs/", 0);
    assert!(handle.resolve_cache(&tool_call("fs/read")).is_none());
    assert!(handle.resolve_cache(&read("fs/read")).is_none());
    let mut calls = 0;
    send(&mut handle, &mut calls, 1, tool_call("fs/read"));
    send(&mut handle, &mut calls, 1, tool_call("fs/read"));
    assert_eq!(calls, 2);
    let stats = handle.stats();
    assert_eq!((stats[0].hits, stats[0].misses), (0, 0));
    assert_eq!(stats[0].entry_count, 0);
}

#[test]
fn test_cache_non_matching_namespace_passes_through() {
    let mut handle = caches("fs/", 60);
    assert!(handle.resolve_cache(&tool_call("db/query")).is_none());
    let mut calls = 0;
    let (_, resp) = send(&mut handle, &mut calls, 1, tool_call("db/query"));
    assert_eq!(resp, "answer 1");
}

#[test]
fn test_cache_list_tools_not_cached() {
    let handle = caches("fs/", 60);
    assert!(
        handle.resolve_cache(&McpRequest::ListTools).is_none(),
        "list_tools should pass through"
    );
    assert!(handle
        .resolve_cache(&McpRequest::Other("ping".to_string()))
        .is_none());
}

#[test]
fn test_cache_stats_tracks_hits_and_misses() {
    let mut handle = caches("fs/", 60);
    let mut calls = 0;

    // First call = miss
    send(&mut handle, &mut calls, 1, tool_call("fs/read"));
    let stats = handle.stats();
    assert_eq!(stats.len(), 1);
    assert_eq!(stats[0].hits, 0);
    assert_eq!(stats[0].misses, 1);

    // Second call = hit
    send(&mut handle, &mut calls, 1, tool_call("fs/read"));
    let stats = handle.stats();
    assert_eq!(stats[0].hits, 1);
    assert_eq!(stats[0].misses, 1);
    let hit_rate = stats[0].hits as f64 / stats[0].lookups() as f64;
    assert!((hit_rate - 0.5).abs() < f64::EPSILON);
}

#[test]
fn test_cache_clear_resets_stats() {
    let mut handle = caches("fs/", 60);
    let mut calls = 0;
    send(&mut handle, &mut calls, 1, tool_call("fs/read"));
    send(&mut handle, &mut calls, 1, tool_call("fs/read"));
    assert_eq!(calls, 1);

    handle.clear();
    let stats = handle.stats();
    assert_eq!(stats[0].hits, 0);
    assert_eq!(stats[0].misses, 0);

    // The entries are gone as well
    send(&mut handle, &mut calls, 1, tool_call("fs/read"));
    assert_eq!(calls, 2);
}

#[test]
fn test_proxy_with_cache_returns_cached_result() {
    let mut handle = caches("math/", 60);
    let mut calls = 0;
    let request = || call_with("math/add", object(&[("a", 5.into()), ("b", 5.into())]));
    let (_, r1) = send(&mut handle, &mut calls, 1, request());
    let (_, r2) = send(&mut handle, &mut calls, 2, request());
    assert_eq!(r1, "10");
    assert_eq!(r2, "10");
    assert_eq!(calls, 1);
}

#[test]
fn test_cache_stats_through_proxy() {
    let mut handle = caches("math/", 60);
    let mut calls = 0;
    let request =
        |a: i64, b: i64| call_with("math/add", object(&[("a", a.into()), ("b", b.into())]));
    // Miss
    send(&mut handle, &mut calls, 1, request(1, 2));
    // Hit
    send(&mut handle, &mut calls, 1, request(1, 2));
    // Miss (different args)
    send(&mut handle, &mut calls, 1, request(3, 4));

    let stats = handle.stats();
    assert_eq!(stats.len(), 1);
    assert_eq!(stats[0].namespace, "math/");
    assert_eq!(stats[0].hits, 1);
    assert_eq!(stats[0].misses, 2);
    assert_eq!(stats[0].lookups(), 3);

    // Clear and verify counters reset
    handle.clear();
    let stats = handle.stats();
    assert_eq!(stats[0].hits, 0);
    assert_eq!(stats[0].misses, 0);
}

#[test]
fn reads_and_calls_have_separate_caches() {
    let handle = CacheHandle::new(vec![
        (
            "fs/".to_string(),
            BackendCacheConfig {
                resource_ttl_seconds: 300,
                tool_ttl_seconds: 0,
                max_entries: 7,
            },
        ),
        (
            "fs/sub/".to_string(),
            BackendCacheConfig {
                resource_ttl_seconds: 0,
                tool_ttl_seconds: 60,
                max_entries: 1000,
            },
        ),
    ]);
    let slot = handle.resolve_cache(&read("fs/a")).unwrap();
    assert_eq!((slot.backend, slot.tool), (0, false));
    assert_eq!(slot.key, "res:fs/a");
    let policy = handle.cache(&slot).unwrap().policy();
    assert_eq!(policy.max_capacity(), Some(7));
    assert_eq!(
        policy.time_to_live(),
        Some(std::time::Duration::from_secs(300))
    );
    assert!(handle.resolve_cache(&tool_call("fs/a")).is_none());
    // The first namespace that matches counts, also where it has no cache.
    assert!(handle.resolve_cache(&tool_call("fs/sub/a")).is_none());
    assert!(handle.caches[0].tool_cache.is_none());
    let policy = handle.caches[1].tool_cache.as_ref().unwrap().policy();
    assert_eq!(policy.max_capacity(), Some(1000));
    assert_eq!(
        policy.time_to_live(),
        Some(std::time::Duration::from_secs(60))
    );
}

#[test]
fn the_longest_time_to_live_is_accepted() {
    let handle = caches("fs/", mcp_proxy::cache::MAX_TTL_SECONDS);
    assert!(handle.resolve_cache(&read("fs/a")).is_some());
}

#[test]
fn only_successes_are_cached() {
    assert!(is_cacheable::<u8, u8>(&Ok(1)));
    assert!(!is_cacheable::<u8, u8>(&Err(1)));
}

#[test]
fn test_cache_stats_no_cache() {
    assert!(cache_stats(&None).is_empty());
    assert_eq!(cache_stats(&Some(caches("a/", 1))).len(), 1);
}

#[test]
fn test_cache_clear_no_cache() {
    assert_eq!(cache_clear(&mut None), "no caches configured");
    let mut handle = Some(caches("a/", 1));
    handle.as_mut().unwrap().caches[0].stats = CacheStats { hits: 3, misses: 4 };
    assert_eq!(cache_clear(&mut handle), "caches cleared");
    assert_eq!(cache_stats(&handle)[0].lookups(), 0);
}

// ============================================================================
// Coalescing
// ============================================================================

#[test]
fn test_coalesce_passes_through_single_request() {
    let mut in_flight: InFlight<u32> = InFlight::new();
    let request = call_with("fs/read", object(&[]));
    let key = match in_flight.arrive(&request) {
        Arrival::Lead(key) => key,
        _ => panic!("the first request leads"),
    };
    assert_eq!(key, "tool:fs/read:{}");
    in_flight.register(key.clone(), 7);
    in_flight.finish(&key);
    assert!(matches!(in_flight.arrive(&request), Arrival::Lead(_)));
}

#[test]
fn test_coalesce_non_coalesceable_passes_through() {
    let in_flight: InFlight<u32> = InFlight::new();
    assert!(
        matches!(
            in_flight.arrive(&McpRequest::ListTools),
            Arrival::Forward
        ),
        "list_tools should pass through"
    );
}

#[test]
fn test_coalesce_key_includes_arguments() {
    // Different arguments should produce different keys
    let key1 = coalesce_key(&call_with("tool", object(&[("a", 1.into())])));
    let key2 = coalesce_key(&call_with("tool", object(&[("a", 2.into())])));
    assert_ne!(key1, key2, "different args should have different keys");
    assert_eq!(key1.as_deref(), Some("tool:tool:{\"a\":1}"));
}

#[test]
fn identical_requests_wait() {
    let mut in_flight: InFlight<u32> = InFlight::new();
    let key = coalesce_key(&read("fs/a")).unwrap();
    in_flight.register(key.clone(), 7);
    match in_flight.arrive(&read("fs/a")) {
        Arrival::Wait(waiters) => assert_eq!(*waiters, 7),
        _ => panic!("an identical request is under way"),
    }
    assert!(matches!(in_flight.arrive(&read("fs/b")), Arrival::Lead(_)));
    in_flight.finish(&key);
    assert!(matches!(in_flight.arrive(&read("fs/a")), Arrival::Lead(_)));
}

#[test]
fn waiters_are_answered_under_their_own_identifier() {
    let request = Request {
        id: RequestId::Text("mine".to_string()),
        inner: read("fs/a"),
    };
    let answer = on_wait(&request, Some("shared")).unwrap();
    assert_eq!(answer.id, RequestId::Text("mine".to_string()));
    assert_eq!(answer.body, "shared");
    assert!(on_wait::<u8>(&request, None).is_none());
}

// ============================================================================
// Retries
// ============================================================================

fn float(value: f64) -> Float {
    Float {
        bits: value.to_bits(),
    }
}

fn make_config(max_retries: u32) -> RetryConfig {
    RetryConfig {
        max_retries,
        initial_backoff_ms: 10,
        max_backoff_ms: 100,
        budget_percent: None,
        min_retries_per_sec: 10,
    }
}

fn make_config_with_budget(max_retries: u32, budget_percent: f64) -> RetryConfig {
    RetryConfig {
        budget_percent: Some(float(budget_percent)),
        min_retries_per_sec: 0, // disable floor for deterministic tests
        ..make_config(max_retries)
    }
}

#[test]
fn test_retries_internal_error() {
    let (mut policy, mut budget) = McpRetryPolicy::from_config(&make_config(3), 0);
    let retry = policy.retry(&mut budget, 0, Some(-32603));
    assert!(retry.is_some(), "should retry internal error");
    assert_eq!(policy.attempts, 1);
    // The first retry comes after the initial backoff, the next after twice as long.
    assert_eq!(retry, Some(10));
    assert_eq!(policy.retry(&mut budget, 0, Some(-32603)), Some(20));
    assert_eq!(policy.retry(&mut budget, 0, Some(-32603)), Some(40));
}

#[test]
fn test_does_not_retry_success() {
    let (mut policy, mut budget) = McpRetryPolicy::from_config(&make_config(3), 0);
    let retry = policy.retry(&mut budget, 0, None);
    assert!(retry.is_none(), "should not retry success");
    assert_eq!(policy.attempts, 0);
}

#[test]
fn test_does_not_retry_client_error() {
    let (mut policy, mut budget) = McpRetryPolicy::from_config(&make_config(3), 0);
    // Method not found
    let retry = policy.retry(&mut budget, 0, Some(-32601));
    assert!(retry.is_none(), "should not retry client errors");
}

#[test]
fn test_stops_after_max_retries() {
    let (mut policy, mut budget) = McpRetryPolicy::from_config(&make_config(2), 0);
    // First retry
    assert!(policy
        .retry(&mut budget, 0, Some(-32603))
        .is_some());
    // Second retry
    assert!(policy
        .retry(&mut budget, 0, Some(-32603))
        .is_some());
    // Should stop
    assert!(policy
        .retry(&mut budget, 0, Some(-32603))
        .is_none());
    assert_eq!(policy.attempts, 2);
}

#[test]
fn test_backoff_increases() {
    let policy = McpRetryPolicy {
        max_retries: 5,
        attempts: 0,
        initial_backoff_ms: 100,
        max_backoff_ms: 5000,
    };

    // attempt 0: 100ms
    assert_eq!(policy.backoff_duration(), 100);

    let policy2 = McpRetryPolicy {
        attempts: 1,
        ..policy
    };
    // attempt 1: 200ms
    assert_eq!(policy2.backoff_duration(), 200);

    let policy3 = McpRetryPolicy {
        attempts: 3,
        ..policy
    };
    // attempt 3: 800ms
    assert_eq!(policy3.backoff_duration(), 800);

    let policy4 = McpRetryPolicy {
        attempts: 10,
        ..policy
    };
    // attempt 10: would be 102400ms but capped at 5000ms
    assert_eq!(policy4.backoff_duration(), 5000);
}

#[test]
fn backoff_does_not_overflow() {
    let policy = McpRetryPolicy {
        max_retries: 100,
        attempts: 31,
        initial_backoff_ms: 1,
        max_backoff_ms: u64::MAX,
    };
    assert_eq!(policy.backoff_duration(), 1 << 31);
    let policy = McpRetryPolicy {
        attempts: 32,
        ..policy
    };
    assert_eq!(policy.backoff_duration(), u64::from(u32::MAX));
    let policy = McpRetryPolicy {
        attempts: 1_000,
        initial_backoff_ms: 4_294_967_296,
        ..policy
    };
    assert_eq!(policy.backoff_duration(), 4_294_967_296 * 4_294_967_295);
    let policy = McpRetryPolicy {
        attempts: 2,
        initial_backoff_ms: u64::MAX,
        ..policy
    };
    assert_eq!(policy.backoff_duration(), u64::MAX);
}

#[test]
fn test_retries_server_error_range() {
    let (mut policy, mut budget) = McpRetryPolicy::from_config(&make_config(3), 0);
    // Server error in -32000 to -32099 range
    assert!(
        policy
            .retry(&mut budget, 0, Some(-32000))
            .is_some(),
        "should retry server errors"
    );
}

#[test]
fn codes_that_are_retried() {
    for code in [-32603, -32000, -32050, -32099] {
        assert!(is_retriable_error(code), "{code}");
    }
    for code in [
        -32700, -32602, -32601, -32600, -32604, -31999, -32100, 0, 1, i32::MIN, i32::MAX,
    ] {
        assert!(!is_retriable_error(code), "{code}");
    }
}

#[test]
fn test_budget_allows_retries_under_limit() {
    let mut budget = RetryBudget::new(float(50.0), 0, 0); // 50% budget, no floor

    // Simulate 10 requests
    for _ in 0..10 {
        budget.record_request(0);
    }

    // Should allow retries while under 50%
    assert!(
        budget.allow_retry(0),
        "should allow first retry"
    );
    assert!(
        budget.allow_retry(0),
        "should allow second retry"
    );
    assert!(
        budget.allow_retry(0),
        "should allow third retry"
    );

    let (requests, retries) = budget.stats();
    assert_eq!(requests, 10);
    assert_eq!(retries, 3);
}

#[test]
fn test_budget_blocks_retries_over_limit() {
    let mut budget = RetryBudget::new(float(10.0), 0, 0); // 10% budget, no floor

    // Simulate 10 requests
    for _ in 0..10 {
        budget.record_request(0);
    }

    // First retry: 1/(10+1) = 9% < 10% -- allowed
    assert!(
        budget.allow_retry(0),
        "first retry should be allowed"
    );

    // Second retry: 2/(10+2) = 16.7% > 10% -- blocked
    assert!(
        !budget.allow_retry(0),
        "second retry should be blocked"
    );
    assert_eq!(budget.stats(), (10, 1));
}

#[test]
fn test_budget_min_retries_floor() {
    let mut budget = RetryBudget::new(float(1.0), 100, 0); // 1% budget, but 100 retries/sec floor

    // No requests at all
    // Floor allows 100/sec * 10sec window = 1000 retries
    assert!(
        budget.allow_retry(0),
        "floor should allow retry"
    );
    assert!(
        budget.allow_retry(0),
        "floor should allow retry"
    );
    for _ in 2..1000 {
        assert!(budget.allow_retry(0));
    }
    assert!(!budget.allow_retry(0));
}

#[test]
fn test_budget_integrated_with_policy() {
    let config = make_config_with_budget(10, 10.0); // 10% budget
    let (mut policy, mut budget) = McpRetryPolicy::from_config(&config, 0);

    // Record some requests to establish a baseline
    for _ in 0..10 {
        budget.as_mut().unwrap().record_request(0);
    }

    // First retry should work (under budget)
    assert!(
        policy
            .retry(&mut budget, 0, Some(-32603))
            .is_some(),
        "first retry under budget"
    );

    // Second retry -- budget now exceeded (retries/total > 10%)
    assert!(
        policy
            .retry(&mut budget, 0, Some(-32603))
            .is_none(),
        "second retry should be blocked by budget"
    );
    assert_eq!(policy.attempts, 1);
    // Every attempt counted as a request.
    assert_eq!(budget.unwrap().stats(), (12, 1));
}

#[test]
fn test_budget_no_budget_allows_all() {
    let config = make_config(3); // No budget
    let (_, budget) = McpRetryPolicy::from_config(&config, 0);
    assert!(budget.is_none());
}

#[test]
fn ratios_are_compared_with_percentages() {
    assert!(float(10.0).is_above_ratio(1, 11));
    assert!(!float(10.0).is_above_ratio(1, 10));
    assert!(!float(10.0).is_above_ratio(2, 12));
    assert!(float(12.5).is_above_ratio(1, 9));
    assert!(!float(12.5).is_above_ratio(1, 8));
    assert!(float(100.0).is_above_ratio(u64::MAX - 1, u64::MAX));
    assert!(!float(100.0).is_above_ratio(u64::MAX, u64::MAX));
    assert!(float(f64::INFINITY).is_above_ratio(5, 5));
    assert!(float(f64::MAX).is_above_ratio(u64::MAX, 1));
    assert!(!float(5e-324).is_above_ratio(1, u64::MAX));
    for percent in [0.0, -0.0, -5.0, f64::NAN, f64::NEG_INFINITY] {
        assert!(!float(percent).is_above_ratio(1, 1_000), "{percent}");
    }
    for percent in 0..=120u32 {
        for whole in 1..40u64 {
            for part in 1..=whole {
                let expected = (part as f64) / (whole as f64) < f64::from(percent) / 100.0;
                assert_eq!(
                    float(f64::from(percent)).is_above_ratio(part, whole),
                    expected,
                    "{part}/{whole} {percent}%"
                );
            }
        }
    }
}

#[test]
fn budgets_are_kept_whatever_happens() {
    let mut budget = RetryBudget::new(float(30.0), 0, 0);
    let mut seed: u64 = 7;
    for step in 0..2_000u64 {
        seed = seed
            .wrapping_mul(6364136223846793005)
            .wrapping_add(1442695040888963407);
        let before = budget.stats();
        if seed >> 63 == 0 {
            budget.record_request(step);
            assert_eq!(budget.stats(), (before.0 + 1, before.1));
        } else if budget.allow_retry(step) {
            assert_eq!(budget.stats(), (before.0, before.1 + 1));
        } else {
            assert_eq!(budget.stats(), before);
        }
        let (requests, retries) = budget.stats();
        assert!(retries == 0 || retries * 100 < 30 * (requests + retries));
    }
    assert!(budget.stats().1 > 0);
}

#[test]
fn failures_are_not_cached() {
    let mut handle = caches("fs/", 60);
    let request = Request {
        id: RequestId::Number(1),
        inner: read("fs/a"),
    };
    for misses in 1..=2 {
        let slot = handle.resolve_cache(&request.inner).unwrap();
        let cache = handle.cache(&slot).unwrap().clone();
        let found = run(cache.get(&slot.key));
        assert!(handle.on_lookup(&slot, &request, found).is_none());
        let failed: Result<u8, u8> = Err(1);
        assert!(!is_cacheable(&failed));
        assert_eq!(handle.stats()[0].misses, misses);
    }
}

#[test]
fn the_window_rolls_over() {
    let mut budget = RetryBudget::new(float(10.0), 0, 1_000);
    for _ in 0..5 {
        budget.record_request(10_999);
    }
    assert_eq!(budget.stats(), (5, 0));
    budget.record_request(11_000);
    assert_eq!(budget.stats(), (1, 0));
    assert_eq!(budget.window_start_ms, 11_000);
    // A clock that runs backwards does not end the window.
    budget.record_request(5);
    assert_eq!(budget.stats(), (2, 0));
    budget.maybe_rotate_window(u64::MAX);
    assert_eq!(budget.stats(), (0, 0));
}
