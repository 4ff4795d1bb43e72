use mcp_proxy::config::{
    AliasConfig, AuthConfig, BackendCacheConfig, BackendConfig, CircuitBreakerConfig,
    ConcurrencyConfig, HedgingConfig, InjectArgsConfig, ListenConfig, ObservabilityConfig,
    OutlierDetectionConfig, PerformanceConfig, ProxyConfig, ProxySettings, RateLimitConfig,
    RetryConfig, RoleConfig, RoleMappingConfig, SecurityConfig, TimeoutConfig, ToolExposure,
    TransportType,
};
use mcp_proxy::float::Float;
use mcp_proxy::gateway;
use mcp_proxy::names::NameMap;
use mcp_proxy::proxy::{
    backend_meta, build_mcp_proxy, build_middleware_stack, shared_ejection_percent, Middleware,
};
use mcp_proxy::reload::{
    build_backend_layer, connection, has_middleware, on_watch_event, BackendChange,
    BackendFingerprint, BackendLayer, Connection, EventKind, ReloadState, WatchEvent, WatchStep,
};

fn backend(name: &str) -> BackendConfig {
    BackendConfig {
        name: name.to_string(),
        transport: TransportType::Stdio,
        command: Some("echo".to_string()),
        args: vec!["-n".to_string()],
        url: None,
        env: NameMap::new(),
        timeout: None,
        circuit_breaker: None,
        rate_limit: None,
        concurrency: None,
        retry: None,
        outlier_detection: None,
        hedging: None,
        mirror_of: None,
        mirror_percent: 100,
        cache: None,
        bearer_token: None,
        forward_auth: false,
        aliases: vec![],
        default_args: serde_json::Map::new(),
        inject_args: vec![],
        expose_tools: vec![],
        hide_tools: vec![],
        expose_resources: vec![],
        hide_resources: vec![],
        expose_prompts: vec![],
        hide_prompts: vec![],
        canary_of: None,
        weight: 100,
        failover_for: None,
    }
}

fn outlier(percent: u32) -> OutlierDetectionConfig {
    OutlierDetectionConfig {
        consecutive_errors: 5,
        interval_seconds: 10,
        base_ejection_seconds: 30,
        max_ejection_percent: percent,
    }
}

fn retry() -> RetryConfig {
    RetryConfig {
        max_retries: 3,
        initial_backoff_ms: 100,
        max_backoff_ms: 5000,
        budget_percent: None,
        min_retries_per_sec: 10,
    }
}

fn layered(name: &str) -> BackendConfig {
    BackendConfig {
        retry: Some(retry()),
        hedging: Some(HedgingConfig {
            delay_ms: 200,
            max_hedges: 2,
        }),
        concurrency: Some(ConcurrencyConfig { max_concurrent: 4 }),
        rate_limit: Some(RateLimitConfig {
            requests: 100,
            period_seconds: 2,
        }),
        timeout: Some(TimeoutConfig { seconds: 30 }),
        circuit_breaker: Some(CircuitBreakerConfig {
            failure_rate_threshold: Float {
                bits: 0.5f64.to_bits(),
            },
            minimum_calls: 5,
            wait_duration_seconds: 30,
            permitted_calls_in_half_open: 3,
        }),
        outlier_detection: Some(outlier(50)),
        ..backend(name)
    }
}

fn config(backends: Vec<BackendConfig>) -> ProxyConfig {
    ProxyConfig {
        proxy: ProxySettings {
            name: "test".to_string(),
            version: "1.0.0".to_string(),
            separator: "/".to_string(),
            listen: ListenConfig {
                host: "127.0.0.1".to_string(),
                port: 8080,
            },
            instructions: None,
            shutdown_timeout_seconds: 30,
            hot_reload: false,
            tool_exposure: ToolExposure::Direct,
            tool_discovery: false,
        },
        backends,
        auth: None,
        performance: PerformanceConfig::default(),
        security: SecurityConfig::default(),
        observability: ObservabilityConfig::default(),
    }
}

// ============================================================================
// Layers around a backend
// ============================================================================

#[test]
fn layers_stand_inner_to_outer() {
    let backend = layered("api");
    assert!(has_middleware(&backend));
    let layers = build_backend_layer(&backend);
    assert_eq!(layers.len(), 7);
    assert!(matches!(&layers[0], BackendLayer::Retry(r) if r.max_retries == 3));
    match &layers[1] {
        BackendLayer::Hedge {
            delay_ms,
            max_attempts,
            name,
        } => {
            assert_eq!(*delay_ms, Some(200));
            assert_eq!(*max_attempts, 3);
            assert_eq!(name, "api-hedge");
        }
        other => panic!("{other:?}"),
    }
    assert!(matches!(layers[2], BackendLayer::Concurrency(4)));
    match &layers[3] {
        BackendLayer::RateLimit {
            requests,
            period_seconds,
            name,
        } => {
            assert_eq!((*requests, *period_seconds), (100, 2));
            assert_eq!(name, "api-ratelimit");
        }
        other => panic!("{other:?}"),
    }
    assert!(matches!(layers[4], BackendLayer::Timeout(30)));
    match &layers[5] {
        BackendLayer::CircuitBreaker { config, name } => {
            assert_eq!(config.minimum_calls, 5);
            assert_eq!(name, "api-cb");
        }
        other => panic!("{other:?}"),
    }
    assert!(matches!(&layers[6], BackendLayer::OutlierDetection(o) if o.max_ejection_percent == 50));
}

#[test]
fn no_layers_without_configuration() {
    let backend = backend("plain");
    assert!(!has_middleware(&backend));
    assert!(build_backend_layer(&backend).is_empty());
}

#[test]
fn hedging_without_delay_sends_at_once() {
    let backend = BackendConfig {
        hedging: Some(HedgingConfig {
            delay_ms: 0,
            max_hedges: 1,
        }),
        ..backend("h")
    };
    match &build_backend_layer(&backend)[0] {
        BackendLayer::Hedge {
            delay_ms,
            max_attempts,
            ..
        } => {
            assert_eq!(*delay_ms, None);
            assert_eq!(*max_attempts, 2);
        }
        other => panic!("{other:?}"),
    }
}

#[test]
fn gateways_have_fewer_layers() {
    let layers = gateway::build_gateway_layers(&layered("api"));
    assert_eq!(layers.len(), 5);
    assert!(matches!(layers[0], BackendLayer::Retry(_)));
    assert!(matches!(layers[1], BackendLayer::Concurrency(4)));
    assert!(matches!(layers[2], BackendLayer::RateLimit { .. }));
    assert!(matches!(layers[3], BackendLayer::Timeout(30)));
    assert!(matches!(layers[4], BackendLayer::CircuitBreaker { .. }));
}

// ============================================================================
// Connections
// ============================================================================

#[test]
fn connections_by_transport() {
    match connection(&backend("a")).unwrap() {
        Connection::Stdio { command, args, env } => {
            assert_eq!(command, "echo");
            assert_eq!(args, ["-n"]);
            assert!(env.is_empty());
        }
        other => panic!("{other:?}"),
    }
    let http = BackendConfig {
        transport: TransportType::Http,
        url: Some("http://localhost".to_string()),
        bearer_token: Some("secret".to_string()),
        ..backend("b")
    };
    match connection(&http).unwrap() {
        Connection::Http { url, bearer_token } => {
            assert_eq!(url, "http://localhost");
            assert_eq!(bearer_token.as_deref(), Some("secret"));
        }
        other => panic!("{other:?}"),
    }
    let plans = gateway::build_proxy(&config(vec![http]));
    assert_eq!(plans.len(), 1);
    match &plans[0].connection {
        Connection::Http { url, bearer_token } => {
            assert_eq!(url, "http://localhost");
            assert_eq!(bearer_token.as_deref(), None);
        }
        other => panic!("{other:?}"),
    }
    let ws = BackendConfig {
        transport: TransportType::Websocket,
        url: Some("ws://localhost".to_string()),
        ..backend("c")
    };
    assert!(matches!(
        connection(&ws),
        Ok(Connection::Websocket { url, bearer_token: None }) if url == "ws://localhost"
    ));
}

#[test]
fn connections_that_lack_something() {
    let lacking = |transport: TransportType| {
        connection(&BackendConfig {
            transport,
            command: None,
            ..backend("a")
        })
        .unwrap_err()
        .message()
    };
    assert_eq!(
        lacking(TransportType::Stdio),
        "stdio backend requires 'command'"
    );
    assert_eq!(lacking(TransportType::Http), "http backend requires 'url'");
    assert_eq!(
        lacking(TransportType::Websocket),
        "websocket backend requires 'url'"
    );
}

#[test]
fn every_backend_is_planned() {
    let plans = build_mcp_proxy(&config(vec![backend("a"), layered("b")]));
    assert_eq!(plans.len(), 2);
    assert_eq!(plans[0].name, "a");
    assert!(plans[0].layers.is_empty());
    assert_eq!(plans[1].name, "b");
    assert_eq!(plans[1].layers.len(), 7);
}

#[test]
fn the_shared_limit_is_the_maximum() {
    assert_eq!(shared_ejection_percent(&config(vec![backend("a")])), None);
    let with = |percents: &[u32]| {
        let mut backends: Vec<BackendConfig> = percents
            .iter()
            .map(|p| BackendConfig {
                outlier_detection: Some(outlier(*p)),
                ..backend("x")
            })
            .collect();
        backends.push(backend("plain"));
        shared_ejection_percent(&config(backends))
    };
    assert_eq!(with(&[10, 70, 30]), Some(70));
    assert_eq!(with(&[0]), Some(0));
}

#[test]
fn metadata_names_the_transports() {
    let http = BackendConfig {
        transport: TransportType::Http,
        ..backend("b")
    };
    let ws = BackendConfig {
        transport: TransportType::Websocket,
        ..backend("c")
    };
    let meta = backend_meta(&config(vec![backend("a"), http, ws]));
    assert_eq!(meta.len(), 3);
    assert_eq!(meta.get("a").unwrap().transport, "stdio");
    assert_eq!(meta.get("b").unwrap().transport, "http");
    assert_eq!(meta.get("c").unwrap().transport, "websocket");
}

#[test]
fn addresses_and_log_filter() {
    let config = config(vec![]);
    assert_eq!(config.listen_address(), "127.0.0.1:8080");
    assert_eq!(config.resource_url(), "http://127.0.0.1:8080");
    assert_eq!(config.log_filter(), "tower_mcp=info,mcp_proxy=info");
}

// ============================================================================
// Middleware stack
// ============================================================================

fn kind(middleware: &Middleware) -> &'static str {
    match middleware {
        Middleware::InjectArgs(_) => "inject",
        Middleware::Canary(_) => "canary",
        Middleware::Failover(_) => "failover",
        Middleware::Mirror(_) => "mirror",
        Middleware::Cache(_) => "cache",
        Middleware::Coalesce => "coalesce",
        Middleware::Validation(_) => "validation",
        Middleware::Filter(_) => "filter",
        Middleware::SearchMode(_) => "search",
        Middleware::Alias(_) => "alias",
        Middleware::Rbac(_) => "rbac",
        Middleware::TokenPassthrough(_) => "passthrough",
        Middleware::Metrics => "metrics",
        Middleware::AccessLog => "access_log",
        Middleware::Audit => "audit",
    }
}

fn full_config() -> ProxyConfig {
    let mut default_args = serde_json::Map::new();
    default_args.insert("dry_run".to_string(), true.into());
    let primary = BackendConfig {
        cache: Some(BackendCacheConfig {
            resource_ttl_seconds: 60,
            tool_ttl_seconds: 0,
            max_entries: 10,
        }),
        aliases: vec![AliasConfig {
            from: "read_file".to_string(),
            to: "read".to_string(),
        }],
        default_args,
        hide_tools: vec!["delete".to_string()],
        forward_auth: true,
        weight: 90,
        ..backend("primary")
    };
    let canary = BackendConfig {
        canary_of: Some("primary".to_string()),
        weight: 10,
        ..backend("canary")
    };
    let mirror = BackendConfig {
        mirror_of: Some("primary".to_string()),
        mirror_percent: 25,
        inject_args: vec![InjectArgsConfig {
            tool: "x".to_string(),
            args: serde_json::Map::new(),
            overwrite: false,
        }],
        ..backend("mirror")
    };
    let failover = BackendConfig {
        failover_for: Some("primary".to_string()),
        ..backend("failover")
    };
    let mut mapping = NameMap::new();
    mapping.insert("admin".to_string(), "admin".to_string());
    let mut config = config(vec![primary, canary, mirror, failover]);
    config.proxy.tool_exposure = ToolExposure::Search;
    config.auth = Some(AuthConfig::Jwt {
        issuer: "i".to_string(),
        audience: "a".to_string(),
        jwks_uri: "u".to_string(),
        roles: vec![RoleConfig {
            name: "admin".to_string(),
            allow_tools: vec![],
            deny_tools: vec!["primary/read".to_string()],
        }],
        role_mapping: Some(RoleMappingConfig {
            claim: "scope".to_string(),
            mapping,
        }),
    });
    config.performance.coalesce_requests = true;
    config.security.max_argument_size = Some(1024);
    config.observability.audit = true;
    config.observability.metrics.enabled = true;
    config.observability.access_log.enabled = true;
    config
}

#[test]
fn every_middleware_stands_in_its_place() {
    let config = full_config();
    assert!(config.validate().is_ok());
    let stack = build_middleware_stack(&config);
    let kinds: Vec<&str> = stack.iter().map(kind).collect();
    assert_eq!(
        kinds,
        [
            "inject",
            "canary",
            "failover",
            "mirror",
            "cache",
            "coalesce",
            "validation",
            "filter",
            "search",
            "alias",
            "rbac",
            "passthrough",
            "metrics",
            "access_log",
            "audit",
        ]
    );
}

#[test]
fn what_the_middlewares_hold() {
    for middleware in build_middleware_stack(&full_config()) {
        match middleware {
            Middleware::InjectArgs(rules) => {
                let rules: Vec<(&str, usize)> = rules
                    .iter()
                    .map(|r| (r.namespace.as_str(), r.backend))
                    .collect();
                assert_eq!(rules, [("primary/", 0), ("mirror/", 2)]);
            }
            Middleware::Canary(routes) => {
                assert_eq!(routes.len(), 1);
                let route = routes.get("primary").unwrap();
                assert_eq!(route.canary, "canary");
                assert_eq!((route.primary_weight, route.canary_weight), (90, 10));
            }
            Middleware::Failover(routes) => {
                assert_eq!(routes.get("primary").unwrap(), "failover");
                assert_eq!(routes.len(), 1);
            }
            Middleware::Mirror(routes) => {
                let route = routes.get("primary").unwrap();
                assert_eq!(route.mirror, "mirror");
                assert_eq!(route.percent, 25);
            }
            Middleware::Cache(configs) => {
                assert_eq!(configs.len(), 1);
                assert_eq!(configs[0].0, "primary/");
                assert_eq!(configs[0].1.max_entries, 10);
            }
            Middleware::Validation(limit) => assert_eq!(limit, 1024),
            Middleware::Filter(filters) => {
                let namespaces: Vec<&str> = filters.iter().map(|f| f.namespace.as_str()).collect();
                assert!(namespaces.contains(&"primary/"));
                assert!(namespaces.contains(&"canary/"));
                let primary = filters.iter().find(|f| f.namespace == "primary/").unwrap();
                assert!(!primary.tool_filter.allows("delete"));
                assert!(primary.tool_filter.allows("read"));
            }
            Middleware::SearchMode(prefix) => assert_eq!(prefix, "proxy/"),
            Middleware::Alias(aliases) => {
                assert_eq!(
                    aliases.forward.get("primary/read_file").unwrap(),
                    "primary/read"
                );
            }
            Middleware::Rbac(rules) => {
                assert!(rules.is_tool_allowed("admin", "primary/write"));
                assert!(!rules.is_tool_allowed("admin", "primary/read"));
            }
            Middleware::TokenPassthrough(namespaces) => {
                assert_eq!(namespaces.len(), 1);
                assert!(namespaces.contains("primary/"));
            }
            Middleware::Coalesce
            | Middleware::Metrics
            | Middleware::AccessLog
            | Middleware::Audit => {}
        }
    }
}

#[test]
fn an_empty_configuration_has_an_empty_stack() {
    assert!(build_middleware_stack(&config(vec![backend("a")])).is_empty());
    assert!(gateway::build_middleware_stack(&config(vec![backend("a")])).is_empty());
}

#[test]
fn gateways_have_a_smaller_stack() {
    let stack = gateway::build_middleware_stack(&full_config());
    let kinds: Vec<&str> = stack.iter().map(kind).collect();
    assert_eq!(
        kinds,
        [
            "cache",
            "coalesce",
            "validation",
            "filter",
            "alias",
            "rbac",
            "metrics",
            "audit",
        ]
    );
}

// ============================================================================
// Reload
// ============================================================================

fn fingerprints(backends: &[(&str, &str)]) -> Vec<BackendFingerprint> {
    backends
        .iter()
        .map(|(name, fingerprint)| BackendFingerprint {
            name: name.to_string(),
            fingerprint: fingerprint.to_string(),
        })
        .collect()
}

#[test]
fn test_fingerprint_map_detects_additions_and_removals() {
    let v1 = fingerprints(&[("api", "http://api:8080"), ("db", "http://db:5432")]);
    let v2 = fingerprints(&[("api", "http://api:8080"), ("cache", "http://cache:6379")]);
    let mut state = ReloadState::new(&v1);
    let plan = state.plan(&v2);
    let added: Vec<&str> = v2
        .iter()
        .zip(&plan.changes)
        .filter(|(_, change)| matches!(change, BackendChange::Add))
        .map(|(b, _)| b.name.as_str())
        .collect();
    assert_eq!(added.len(), 1, "one backend should be added");
    assert!(added.contains(&"cache"));
    assert_eq!(plan.removed.len(), 1, "one backend should be removed");
    assert!(plan.removed.contains(&"db".to_string()));
    assert!(matches!(plan.changes[0], BackendChange::Keep));
}

#[test]
fn test_fingerprint_map_detects_modifications() {
    let mut state = ReloadState::new(&fingerprints(&[("api", "http://api:8080")]));
    let plan = state.plan(&fingerprints(&[("api", "http://api:9090")]));
    assert!(
        matches!(plan.changes[0], BackendChange::Replace),
        "modified backend should have a different fingerprint"
    );
    assert!(plan.removed.is_empty());
}

#[test]
fn a_reload_without_change_does_nothing() {
    let backends = fingerprints(&[("a", "1"), ("b", "2")]);
    let mut state = ReloadState::new(&backends);
    for _ in 0..2 {
        let plan = state.plan(&backends);
        assert!(plan.removed.is_empty());
        assert!(plan
            .changes
            .iter()
            .all(|c| matches!(c, BackendChange::Keep)));
    }
}

#[test]
fn reloads_build_on_each_other() {
    let mut state = ReloadState::new(&fingerprints(&[("a", "1")]));
    let next = fingerprints(&[("a", "1"), ("b", "2")]);
    assert!(matches!(state.plan(&next).changes[1], BackendChange::Add));
    assert!(matches!(state.plan(&next).changes[1], BackendChange::Keep));
    // A configuration that cannot be loaded changes nothing.
    assert!(state.on_load(None).is_none());
    assert!(matches!(
        state.on_load(Some(&next)).unwrap().changes[1],
        BackendChange::Keep
    ));
    let plan = state.on_load(Some(&fingerprints(&[]))).unwrap();
    assert_eq!(plan.removed.len(), 2);
    assert!(plan.changes.is_empty());
}

#[test]
fn watch_events() {
    let changed = |kinds: Vec<EventKind>| on_watch_event(&WatchEvent::Changed(kinds));
    assert!(matches!(changed(vec![EventKind::Any]), WatchStep::Reload));
    assert!(matches!(
        changed(vec![EventKind::AnyContinuous, EventKind::Any]),
        WatchStep::Reload
    ));
    assert!(matches!(
        changed(vec![EventKind::AnyContinuous]),
        WatchStep::Wait
    ));
    assert!(matches!(changed(vec![]), WatchStep::Wait));
    assert!(matches!(
        on_watch_event(&WatchEvent::Failed),
        WatchStep::Wait
    ));
    assert!(matches!(
        on_watch_event(&WatchEvent::Closed),
        WatchStep::Stop
    ));
}
