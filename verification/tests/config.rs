use mcp_proxy::config::{
    default_base_ejection_seconds, default_consecutive_errors, default_failure_rate,
    default_half_open_calls, default_hedge_delay_ms, default_host, default_initial_backoff_ms,
    default_interval_seconds, default_log_level, default_max_backoff_ms,
    default_max_cache_entries, default_max_ejection_percent, default_max_hedges,
    default_max_retries, default_min_calls, default_min_retries_per_sec, default_mirror_percent,
    default_otlp_endpoint, default_port, default_rate_period, default_separator,
    default_service_name, default_shutdown_timeout, default_version, default_wait_duration,
    default_weight, AccessLogConfig, AliasConfig, AuthConfig, BackendCacheConfig, BackendConfig,
    CircuitBreakerConfig, ConcurrencyConfig, HedgingConfig, InjectArgsConfig, ListenConfig,
    MetricsConfig, NameFilter, ObservabilityConfig, OutlierDetectionConfig, PerformanceConfig,
    ProxyConfig, ProxySettings, RateLimitConfig, RetryConfig, RoleConfig, RoleMappingConfig,
    SecurityConfig, TimeoutConfig, ToolExposure, TracingConfig, TransportType,
};
use mcp_proxy::float::Float;
use mcp_proxy::names::NameMap;

type Table = toml::Table;

fn text(t: &Table, key: &str) -> Option<String> {
    t.get(key).and_then(|v| v.as_str()).map(String::from)
}

fn flag(t: &Table, key: &str) -> bool {
    t.get(key).and_then(|v| v.as_bool()).unwrap_or(false)
}

fn number(t: &Table, key: &str) -> Option<u64> {
    t.get(key).and_then(|v| v.as_integer()).map(|n| n as u64)
}

fn float(t: &Table, key: &str) -> Option<Float> {
    t.get(key).and_then(|v| v.as_float()).map(|f| Float { bits: f.to_bits() })
}

fn list(t: &Table, key: &str) -> Vec<String> {
    match t.get(key).and_then(|v| v.as_array()) {
        Some(items) => items.iter().map(|v| v.as_str().unwrap().to_string()).collect(),
        None => Vec::new(),
    }
}

fn table<'a>(t: &'a Table, key: &str) -> Option<&'a Table> {
    t.get(key).and_then(|v| v.as_table())
}

fn tables<'a>(t: &'a Table, key: &str) -> Vec<&'a Table> {
    match t.get(key).and_then(|v| v.as_array()) {
        Some(items) => items.iter().map(|v| v.as_table().unwrap()).collect(),
        None => Vec::new(),
    }
}

fn names(t: Option<&Table>) -> NameMap<String> {
    let mut map = NameMap::new();
    if let Some(t) = t {
        for (key, value) in t {
            map.insert(key.clone(), value.as_str().unwrap().to_string());
        }
    }
    map
}

fn json(value: &toml::Value) -> serde_json::Value {
    match value {
        toml::Value::String(s) => serde_json::Value::from(s.clone()),
        toml::Value::Integer(n) => serde_json::Value::from(*n),
        toml::Value::Float(f) => serde_json::Value::from(*f),
        toml::Value::Boolean(b) => serde_json::Value::from(*b),
        toml::Value::Datetime(d) => serde_json::Value::from(d.to_string()),
        toml::Value::Array(items) => items.iter().map(json).collect(),
        toml::Value::Table(t) => serde_json::Value::Object(json_map(Some(t))),
    }
}

fn json_map(t: Option<&Table>) -> serde_json::Map<String, serde_json::Value> {
    let mut map = serde_json::Map::new();
    if let Some(t) = t {
        for (key, value) in t {
            map.insert(key.clone(), json(value));
        }
    }
    map
}

fn backend(t: &Table) -> BackendConfig {
    BackendConfig {
        name: text(t, "name").unwrap(),
        transport: match text(t, "transport").unwrap().as_str() {
            "stdio" => TransportType::Stdio,
            "http" => TransportType::Http,
            "websocket" => TransportType::Websocket,
            other => panic!("unknown transport {other}"),
        },
        command: text(t, "command"),
        args: list(t, "args"),
        url: text(t, "url"),
        env: names(table(t, "env")),
        timeout: table(t, "timeout").map(|t| TimeoutConfig {
            seconds: number(t, "seconds").unwrap(),
        }),
        circuit_breaker: table(t, "circuit_breaker").map(|t| CircuitBreakerConfig {
            failure_rate_threshold: float(t, "failure_rate_threshold")
                .unwrap_or_else(default_failure_rate),
            minimum_calls: number(t, "minimum_calls")
                .map_or_else(default_min_calls, |n| n as usize),
            wait_duration_seconds: number(t, "wait_duration_seconds")
                .unwrap_or_else(default_wait_duration),
            permitted_calls_in_half_open: number(t, "permitted_calls_in_half_open")
                .map_or_else(default_half_open_calls, |n| n as usize),
        }),
        rate_limit: table(t, "rate_limit").map(|t| RateLimitConfig {
            requests: number(t, "requests").unwrap() as usize,
            period_seconds: number(t, "period_seconds").unwrap_or_else(default_rate_period),
        }),
        concurrency: table(t, "concurrency").map(|t| ConcurrencyConfig {
            max_concurrent: number(t, "max_concurrent").unwrap() as usize,
        }),
        retry: table(t, "retry").map(|t| RetryConfig {
            max_retries: number(t, "max_retries").map_or_else(default_max_retries, |n| n as u32),
            initial_backoff_ms: number(t, "initial_backoff_ms")
                .unwrap_or_else(default_initial_backoff_ms),
            max_backoff_ms: number(t, "max_backoff_ms").unwrap_or_else(default_max_backoff_ms),
            budget_percent: float(t, "budget_percent"),
            min_retries_per_sec: number(t, "min_retries_per_sec")
                .map_or_else(default_min_retries_per_sec, |n| n as u32),
        }),
        outlier_detection: table(t, "outlier_detection").map(|t| OutlierDetectionConfig {
            consecutive_errors: number(t, "consecutive_errors")
                .map_or_else(default_consecutive_errors, |n| n as u32),
            interval_seconds: number(t, "interval_seconds")
                .unwrap_or_else(default_interval_seconds),
            base_ejection_seconds: number(t, "base_ejection_seconds")
                .unwrap_or_else(default_base_ejection_seconds),
            max_ejection_percent: number(t, "max_ejection_percent")
                .map_or_else(default_max_ejection_percent, |n| n as u32),
        }),
        hedging: table(t, "hedging").map(|t| HedgingConfig {
            delay_ms: number(t, "delay_ms").unwrap_or_else(default_hedge_delay_ms),
            max_hedges: number(t, "max_hedges").map_or_else(default_max_hedges, |n| n as usize),
        }),
        mirror_of: text(t, "mirror_of"),
        mirror_percent: number(t, "mirror_percent")
            .map_or_else(default_mirror_percent, |n| n as u32),
        cache: table(t, "cache").map(|t| BackendCacheConfig {
            resource_ttl_seconds: number(t, "resource_ttl_seconds").unwrap_or(0),
            tool_ttl_seconds: number(t, "tool_ttl_seconds").unwrap_or(0),
            max_entries: number(t, "max_entries").unwrap_or_else(default_max_cache_entries),
        }),
        bearer_token: text(t, "bearer_token"),
        forward_auth: flag(t, "forward_auth"),
        aliases: tables(t, "aliases")
            .into_iter()
            .map(|t| AliasConfig {
                from: text(t, "from").unwrap(),
                to: text(t, "to").unwrap(),
            })
            .collect(),
        default_args: json_map(table(t, "default_args")),
        inject_args: tables(t, "inject_args")
            .into_iter()
            .map(|t| InjectArgsConfig {
                tool: text(t, "tool").unwrap(),
                args: json_map(table(t, "args")),
                overwrite: flag(t, "overwrite"),
            })
            .collect(),
        expose_tools: list(t, "expose_tools"),
        hide_tools: list(t, "hide_tools"),
        expose_resources: list(t, "expose_resources"),
        hide_resources: list(t, "hide_resources"),
        expose_prompts: list(t, "expose_prompts"),
        hide_prompts: list(t, "hide_prompts"),
        canary_of: text(t, "canary_of"),
        weight: number(t, "weight").map_or_else(default_weight, |n| n as u32),
        failover_for: text(t, "failover_for"),
    }
}

fn auth(t: &Table) -> AuthConfig {
    match text(t, "type").unwrap().as_str() {
        "bearer" => AuthConfig::Bearer {
            tokens: list(t, "tokens"),
        },
        _ => AuthConfig::Jwt {
            issuer: text(t, "issuer").unwrap(),
            audience: text(t, "audience").unwrap(),
            jwks_uri: text(t, "jwks_uri").unwrap(),
            roles: tables(t, "roles")
                .into_iter()
                .map(|t| RoleConfig {
                    name: text(t, "name").unwrap(),
                    allow_tools: list(t, "allow_tools"),
                    deny_tools: list(t, "deny_tools"),
                })
                .collect(),
            role_mapping: table(t, "role_mapping").map(|t| RoleMappingConfig {
                claim: text(t, "claim").unwrap(),
                mapping: names(table(t, "mapping")),
            }),
        },
    }
}

fn observability(t: &Table) -> ObservabilityConfig {
    ObservabilityConfig {
        audit: flag(t, "audit"),
        log_level: text(t, "log_level").unwrap_or_else(default_log_level),
        json_logs: flag(t, "json_logs"),
        metrics: match table(t, "metrics") {
            Some(t) => MetricsConfig {
                enabled: flag(t, "enabled"),
            },
            None => MetricsConfig::default(),
        },
        tracing: match table(t, "tracing") {
            Some(t) => TracingConfig {
                enabled: flag(t, "enabled"),
                endpoint: text(t, "endpoint").unwrap_or_else(default_otlp_endpoint),
                service_name: text(t, "service_name").unwrap_or_else(default_service_name),
            },
            None => TracingConfig::default(),
        },
        access_log: AccessLogConfig::default(),
    }
}

/// Reads a configuration and checks its rules. An error is given by its text.
fn parse(toml: &str) -> Result<ProxyConfig, String> {
    let t: Table = toml.parse().map_err(|e: toml::de::Error| e.to_string())?;
    let p = table(&t, "proxy").unwrap();
    let listen = table(p, "listen").unwrap();
    let config = ProxyConfig {
        proxy: ProxySettings {
            name: text(p, "name").unwrap(),
            version: text(p, "version").unwrap_or_else(default_version),
            separator: text(p, "separator").unwrap_or_else(default_separator),
            listen: ListenConfig {
                host: text(listen, "host").unwrap_or_else(default_host),
                port: number(listen, "port").map_or_else(default_port, |n| n as u16),
            },
            instructions: text(p, "instructions"),
            shutdown_timeout_seconds: number(p, "shutdown_timeout_seconds")
                .unwrap_or_else(default_shutdown_timeout),
            hot_reload: flag(p, "hot_reload"),
            tool_exposure: ToolExposure::Direct,
            tool_discovery: flag(p, "tool_discovery"),
        },
        backends: tables(&t, "backends").into_iter().map(backend).collect(),
        auth: table(&t, "auth").map(auth),
        performance: match table(&t, "performance") {
            Some(t) => PerformanceConfig {
                coalesce_requests: flag(t, "coalesce_requests"),
            },
            None => PerformanceConfig::default(),
        },
        security: match table(&t, "security") {
            Some(t) => SecurityConfig {
                max_argument_size: number(t, "max_argument_size").map(|n| n as usize),
            },
            None => SecurityConfig::default(),
        },
        observability: match table(&t, "observability") {
            Some(t) => observability(t),
            None => ObservabilityConfig::default(),
        },
    };
    match config.validate() {
        Ok(()) => Ok(config),
        Err(e) => Err(e.message()),
    }
}

fn minimal_config() -> &'static str {
    r#"
    [proxy]
    name = "test"
    [proxy.listen]

    [[backends]]
    name = "echo"
    transport = "stdio"
    command = "echo"
    "#
}

#[test]
fn test_parse_minimal_config() {
    let config = parse(minimal_config()).unwrap();
    assert_eq!(config.proxy.name, "test");
    assert_eq!(config.proxy.version, "0.1.0"); // default
    assert_eq!(config.proxy.separator, "/"); // default
    assert_eq!(config.proxy.listen.host, "127.0.0.1"); // default
    assert_eq!(config.proxy.listen.port, 8080); // default
    assert_eq!(config.proxy.shutdown_timeout_seconds, 30); // default
    assert!(!config.proxy.hot_reload); // default false
    assert_eq!(config.backends.len(), 1);
    assert_eq!(config.backends[0].name, "echo");
    assert!(config.auth.is_none());
    assert!(!config.observability.audit);
    assert!(!config.observability.metrics.enabled);
}

#[test]
fn test_parse_full_config() {
    let toml = r#"
    [proxy]
    name = "full-gw"
    version = "2.0.0"
    separator = "."
    shutdown_timeout_seconds = 60
    hot_reload = true
    instructions = "A test proxy"
    [proxy.listen]
    host = "0.0.0.0"
    port = 9090

    [[backends]]
    name = "files"
    transport = "stdio"
    command = "file-server"
    args = ["--root", "/tmp"]
    expose_tools = ["read_file"]

    [backends.env]
    LOG_LEVEL = "debug"

    [backends.timeout]
    seconds = 30

    [backends.concurrency]
    max_concurrent = 5

    [backends.rate_limit]
    requests = 100
    period_seconds = 10

    [backends.circuit_breaker]
    failure_rate_threshold = 0.5
    minimum_calls = 10
    wait_duration_seconds = 60
    permitted_calls_in_half_open = 2

    [backends.cache]
    resource_ttl_seconds = 300
    tool_ttl_seconds = 60
    max_entries = 500

    [[backends.aliases]]
    from = "read_file"
    to = "read"

    [[backends]]
    name = "remote"
    transport = "http"
    url = "http://localhost:3000"

    [observability]
    audit = true
    log_level = "debug"
    json_logs = true

    [observability.metrics]
    enabled = true

    [observability.tracing]
    enabled = true
    endpoint = "http://jaeger:4317"
    service_name = "test-gw"

    [performance]
    coalesce_requests = true

    [security]
    max_argument_size = 1048576
    "#;

    let config = parse(toml).unwrap();
    assert_eq!(config.proxy.name, "full-gw");
    assert_eq!(config.proxy.version, "2.0.0");
    assert_eq!(config.proxy.separator, ".");
    assert_eq!(config.proxy.shutdown_timeout_seconds, 60);
    assert!(config.proxy.hot_reload);
    assert_eq!(config.proxy.instructions.as_deref(), Some("A test proxy"));
    assert_eq!(config.proxy.listen.host, "0.0.0.0");
    assert_eq!(config.proxy.listen.port, 9090);

    assert_eq!(config.backends.len(), 2);

    let files = &config.backends[0];
    assert_eq!(files.command.as_deref(), Some("file-server"));
    assert_eq!(files.args, vec!["--root", "/tmp"]);
    assert_eq!(files.expose_tools, vec!["read_file"]);
    assert_eq!(files.env.get("LOG_LEVEL").unwrap(), "debug");
    assert_eq!(files.timeout.as_ref().unwrap().seconds, 30);
    assert_eq!(files.concurrency.as_ref().unwrap().max_concurrent, 5);
    assert_eq!(files.rate_limit.as_ref().unwrap().requests, 100);
    assert_eq!(files.cache.as_ref().unwrap().resource_ttl_seconds, 300);
    assert_eq!(files.cache.as_ref().unwrap().tool_ttl_seconds, 60);
    assert_eq!(files.cache.as_ref().unwrap().max_entries, 500);
    assert_eq!(files.aliases.len(), 1);
    assert_eq!(files.aliases[0].from, "read_file");
    assert_eq!(files.aliases[0].to, "read");

    let cb = files.circuit_breaker.as_ref().unwrap();
    assert_eq!(f64::from_bits(cb.failure_rate_threshold.bits), 0.5);
    assert_eq!(cb.minimum_calls, 10);
    assert_eq!(cb.wait_duration_seconds, 60);
    assert_eq!(cb.permitted_calls_in_half_open, 2);

    let remote = &config.backends[1];
    assert_eq!(remote.url.as_deref(), Some("http://localhost:3000"));

    assert!(config.observability.audit);
    assert_eq!(config.observability.log_level, "debug");
    assert!(config.observability.json_logs);
    assert!(config.observability.metrics.enabled);
    assert!(config.observability.tracing.enabled);
    assert_eq!(config.observability.tracing.endpoint, "http://jaeger:4317");

    assert!(config.performance.coalesce_requests);
    assert_eq!(config.security.max_argument_size, Some(1048576));
}

#[test]
fn test_parse_bearer_auth() {
    let toml = r#"
    [proxy]
    name = "auth-gw"
    [proxy.listen]

    [[backends]]
    name = "echo"
    transport = "stdio"
    command = "echo"

    [auth]
    type = "bearer"
    tokens = ["token-1", "token-2"]
    "#;

    let config = parse(toml).unwrap();
    match &config.auth {
        Some(AuthConfig::Bearer { tokens }) => {
            assert_eq!(tokens, &["token-1", "token-2"]);
        }
        other => panic!("expected Bearer auth, got: {:?}", other),
    }
}

#[test]
fn test_parse_jwt_auth_with_rbac() {
    let toml = r#"
    [proxy]
    name = "jwt-gw"
    [proxy.listen]

    [[backends]]
    name = "echo"
    transport = "stdio"
    command = "echo"

    [auth]
    type = "jwt"
    issuer = "https://auth.example.com"
    audience = "mcp-proxy"
    jwks_uri = "https://auth.example.com/.well-known/jwks.json"

    [[auth.roles]]
    name = "reader"
    allow_tools = ["echo/read"]

    [[auth.roles]]
    name = "admin"

    [auth.role_mapping]
    claim = "scope"
    mapping = { "mcp:read" = "reader", "mcp:admin" = "admin" }
    "#;

    let config = parse(toml).unwrap();
    match &config.auth {
        Some(AuthConfig::Jwt {
            issuer,
            audience,
            jwks_uri,
            roles,
            role_mapping,
        }) => {
            assert_eq!(issuer, "https://auth.example.com");
            assert_eq!(audience, "mcp-proxy");
            assert_eq!(jwks_uri, "https://auth.example.com/.well-known/jwks.json");
            assert_eq!(roles.len(), 2);
            assert_eq!(roles[0].name, "reader");
            assert_eq!(roles[0].allow_tools, vec!["echo/read"]);
            let mapping = role_mapping.as_ref().unwrap();
            assert_eq!(mapping.claim, "scope");
            assert_eq!(mapping.mapping.get("mcp:read").unwrap(), "reader");
        }
        other => panic!("expected Jwt auth, got: {:?}", other),
    }
}

// ========================================================================
// Validation errors
// ========================================================================

#[test]
fn test_reject_no_backends() {
    let toml = r#"
    [proxy]
    name = "empty"
    [proxy.listen]
    "#;

    let err = parse(toml).unwrap_err();
    assert!(
        err.contains("at least one backend"),
        "unexpected error: {err}"
    );
}

#[test]
fn test_reject_stdio_without_command() {
    let toml = r#"
    [proxy]
    name = "bad"
    [proxy.listen]

    [[backends]]
    name = "broken"
    transport = "stdio"
    "#;

    let err = parse(toml).unwrap_err();
    assert!(
        err.contains("stdio transport requires 'command'"),
        "unexpected error: {err}"
    );
}

#[test]
fn test_reject_http_without_url() {
    let toml = r#"
    [proxy]
    name = "bad"
    [proxy.listen]

    [[backends]]
    name = "broken"
    transport = "http"
    "#;

    let err = parse(toml).unwrap_err();
    assert!(
        err.contains("http transport requires 'url'"),
        "unexpected error: {err}"
    );
}

#[test]
fn test_reject_invalid_circuit_breaker_threshold() {
    let toml = r#"
    [proxy]
    name = "bad"
    [proxy.listen]

    [[backends]]
    name = "svc"
    transport = "stdio"
    command = "echo"

    [backends.circuit_breaker]
    failure_rate_threshold = 1.5
    "#;

    let err = parse(toml).unwrap_err();
    assert!(
        err.contains("failure_rate_threshold must be in (0.0, 1.0]"),
        "unexpected error: {err}"
    );
}

#[test]
fn test_reject_zero_rate_limit() {
    let toml = r#"
    [proxy]
    name = "bad"
    [proxy.listen]

    [[backends]]
    name = "svc"
    transport = "stdio"
    command = "echo"

    [backends.rate_limit]
    requests = 0
    "#;

    let err = parse(toml).unwrap_err();
    assert!(
        err.contains("rate_limit.requests must be > 0"),
        "unexpected error: {err}"
    );
}

#[test]
fn test_reject_zero_concurrency() {
    let toml = r#"
    [proxy]
    name = "bad"
    [proxy.listen]

    [[backends]]
    name = "svc"
    transport = "stdio"
    command = "echo"

    [backends.concurrency]
    max_concurrent = 0
    "#;

    let err = parse(toml).unwrap_err();
    assert!(
        err.contains("concurrency.max_concurrent must be > 0"),
        "unexpected error: {err}"
    );
}

#[test]
fn test_reject_expose_and_hide_tools() {
    let toml = r#"
    [proxy]
    name = "bad"
    [proxy.listen]

    [[backends]]
    name = "svc"
    transport = "stdio"
    command = "echo"
    expose_tools = ["read"]
    hide_tools = ["write"]
    "#;

    let err = parse(toml).unwrap_err();
    assert!(
        err.contains("cannot specify both expose_tools and hide_tools"),
        "unexpected error: {err}"
    );
}

#[test]
fn test_reject_expose_and_hide_resources() {
    let toml = r#"
    [proxy]
    name = "bad"
    [proxy.listen]

    [[backends]]
    name = "svc"
    transport = "stdio"
    command = "echo"
    expose_resources = ["file:///a"]
    hide_resources = ["file:///b"]
    "#;

    let err = parse(toml).unwrap_err();
    assert!(
        err.contains("cannot specify both expose_resources and hide_resources"),
        "unexpected error: {err}"
    );
}

#[test]
fn test_reject_expose_and_hide_prompts() {
    let toml = r#"
    [proxy]
    name = "bad"
    [proxy.listen]

    [[backends]]
    name = "svc"
    transport = "stdio"
    command = "echo"
    expose_prompts = ["help"]
    hide_prompts = ["admin"]
    "#;

    let err = parse(toml).unwrap_err();
    assert!(
        err.contains("cannot specify both expose_prompts and hide_prompts"),
        "unexpected error: {err}"
    );
}

// ========================================================================
// Env var resolution
// ========================================================================

#[test]
fn test_resolve_env_vars() {
    let mut environment = NameMap::new();
    environment.insert("MCP_GW_TEST_TOKEN".to_string(), "secret-123".to_string());

    let toml = r#"
    [proxy]
    name = "env-test"
    [proxy.listen]

    [[backends]]
    name = "svc"
    transport = "stdio"
    command = "echo"

    [backends.env]
    API_TOKEN = "${MCP_GW_TEST_TOKEN}"
    STATIC_VAL = "unchanged"
    "#;

    let mut config = parse(toml).unwrap();
    config.resolve_env_vars(&environment);

    assert_eq!(
        config.backends[0].env.get("API_TOKEN").unwrap(),
        "secret-123"
    );
    assert_eq!(
        config.backends[0].env.get("STATIC_VAL").unwrap(),
        "unchanged"
    );

}

#[test]
fn test_parse_bearer_token_and_forward_auth() {
    let toml = r#"
    [proxy]
    name = "token-gw"
    [proxy.listen]

    [[backends]]
    name = "github"
    transport = "http"
    url = "http://localhost:3000"
    bearer_token = "ghp_abc123"
    forward_auth = true

    [[backends]]
    name = "db"
    transport = "http"
    url = "http://localhost:5432"
    "#;

    let config = parse(toml).unwrap();
    assert_eq!(
        config.backends[0].bearer_token.as_deref(),
        Some("ghp_abc123")
    );
    assert!(config.backends[0].forward_auth);
    assert!(config.backends[1].bearer_token.is_none());
    assert!(!config.backends[1].forward_auth);
}

#[test]
fn test_resolve_bearer_token_env_var() {
    let mut environment = NameMap::new();
    environment.insert("MCP_GW_TEST_BEARER".to_string(), "resolved-token".to_string());

    let toml = r#"
    [proxy]
    name = "env-token"
    [proxy.listen]

    [[backends]]
    name = "api"
    transport = "http"
    url = "http://localhost:3000"
    bearer_token = "${MCP_GW_TEST_BEARER}"
    "#;

    let mut config = parse(toml).unwrap();
    config.resolve_env_vars(&environment);

    assert_eq!(
        config.backends[0].bearer_token.as_deref(),
        Some("resolved-token")
    );

}

#[test]
fn test_parse_outlier_detection() {
    let toml = r#"
    [proxy]
    name = "od-gw"
    [proxy.listen]

    [[backends]]
    name = "flaky"
    transport = "http"
    url = "http://localhost:8080"

    [backends.outlier_detection]
    consecutive_errors = 3
    interval_seconds = 5
    base_ejection_seconds = 60
    max_ejection_percent = 25
    "#;

    let config = parse(toml).unwrap();
    let od = config.backends[0]
        .outlier_detection
        .as_ref()
        .expect("should have outlier_detection");
    assert_eq!(od.consecutive_errors, 3);
    assert_eq!(od.interval_seconds, 5);
    assert_eq!(od.base_ejection_seconds, 60);
    assert_eq!(od.max_ejection_percent, 25);
}

#[test]
fn test_parse_outlier_detection_defaults() {
    let toml = r#"
    [proxy]
    name = "od-gw"
    [proxy.listen]

    [[backends]]
    name = "flaky"
    transport = "http"
    url = "http://localhost:8080"

    [backends.outlier_detection]
    "#;

    let config = parse(toml).unwrap();
    let od = config.backends[0]
        .outlier_detection
        .as_ref()
        .expect("should have outlier_detection");
    assert_eq!(od.consecutive_errors, 5);
    assert_eq!(od.interval_seconds, 10);
    assert_eq!(od.base_ejection_seconds, 30);
    assert_eq!(od.max_ejection_percent, 50);
}

#[test]
fn test_parse_mirror_config() {
    let toml = r#"
    [proxy]
    name = "mirror-gw"
    [proxy.listen]

    [[backends]]
    name = "api"
    transport = "http"
    url = "http://localhost:8080"

    [[backends]]
    name = "api-v2"
    transport = "http"
    url = "http://localhost:8081"
    mirror_of = "api"
    mirror_percent = 10
    "#;

    let config = parse(toml).unwrap();
    assert!(config.backends[0].mirror_of.is_none());
    assert_eq!(config.backends[1].mirror_of.as_deref(), Some("api"));
    assert_eq!(config.backends[1].mirror_percent, 10);
}

#[test]
fn test_mirror_percent_defaults_to_100() {
    let toml = r#"
    [proxy]
    name = "mirror-gw"
    [proxy.listen]

    [[backends]]
    name = "api"
    transport = "http"
    url = "http://localhost:8080"

    [[backends]]
    name = "api-v2"
    transport = "http"
    url = "http://localhost:8081"
    mirror_of = "api"
    "#;

    let config = parse(toml).unwrap();
    assert_eq!(config.backends[1].mirror_percent, 100);
}

#[test]
fn test_reject_mirror_unknown_backend() {
    let toml = r#"
    [proxy]
    name = "bad"
    [proxy.listen]

    [[backends]]
    name = "api-v2"
    transport = "http"
    url = "http://localhost:8081"
    mirror_of = "nonexistent"
    "#;

    let err = parse(toml).unwrap_err();
    assert!(
        err.contains("mirror_of references unknown backend"),
        "unexpected error: {err}"
    );
}

#[test]
fn test_reject_mirror_self() {
    let toml = r#"
    [proxy]
    name = "bad"
    [proxy.listen]

    [[backends]]
    name = "api"
    transport = "http"
    url = "http://localhost:8080"
    mirror_of = "api"
    "#;

    let err = parse(toml).unwrap_err();
    assert!(
        err.contains("mirror_of cannot reference itself"),
        "unexpected error: {err}"
    );
}

#[test]
fn test_parse_hedging_config() {
    let toml = r#"
    [proxy]
    name = "hedge-gw"
    [proxy.listen]

    [[backends]]
    name = "api"
    transport = "http"
    url = "http://localhost:8080"

    [backends.hedging]
    delay_ms = 150
    max_hedges = 2
    "#;

    let config = parse(toml).unwrap();
    let hedge = config.backends[0]
        .hedging
        .as_ref()
        .expect("should have hedging");
    assert_eq!(hedge.delay_ms, 150);
    assert_eq!(hedge.max_hedges, 2);
}

#[test]
fn test_parse_hedging_defaults() {
    let toml = r#"
    [proxy]
    name = "hedge-gw"
    [proxy.listen]

    [[backends]]
    name = "api"
    transport = "http"
    url = "http://localhost:8080"

    [backends.hedging]
    "#;

    let config = parse(toml).unwrap();
    let hedge = config.backends[0]
        .hedging
        .as_ref()
        .expect("should have hedging");
    assert_eq!(hedge.delay_ms, 200);
    assert_eq!(hedge.max_hedges, 1);
}

// ========================================================================
// Capability filter building
// ========================================================================

#[test]
fn test_build_filter_allowlist() {
    let toml = r#"
    [proxy]
    name = "filter"
    [proxy.listen]

    [[backends]]
    name = "svc"
    transport = "stdio"
    command = "echo"
    expose_tools = ["read", "list"]
    "#;

    let config = parse(toml).unwrap();
    let filter = config.backends[0]
        .build_filter(&config.proxy.separator)
        .expect("should have filter");
    assert_eq!(filter.namespace, "svc/");
    assert!(filter.tool_filter.allows("read"));
    assert!(filter.tool_filter.allows("list"));
    assert!(!filter.tool_filter.allows("delete"));
}

#[test]
fn test_build_filter_denylist() {
    let toml = r#"
    [proxy]
    name = "filter"
    [proxy.listen]

    [[backends]]
    name = "svc"
    transport = "stdio"
    command = "echo"
    hide_tools = ["delete", "write"]
    "#;

    let config = parse(toml).unwrap();
    let filter = config.backends[0]
        .build_filter(&config.proxy.separator)
        .expect("should have filter");
    assert!(filter.tool_filter.allows("read"));
    assert!(!filter.tool_filter.allows("delete"));
    assert!(!filter.tool_filter.allows("write"));
}

#[test]
fn test_parse_inject_args() {
    let toml = r#"
    [proxy]
    name = "inject-gw"
    [proxy.listen]

    [[backends]]
    name = "db"
    transport = "http"
    url = "http://localhost:8080"

    [backends.default_args]
    timeout = 30

    [[backends.inject_args]]
    tool = "query"
    args = { read_only = true, max_rows = 1000 }

    [[backends.inject_args]]
    tool = "dangerous_op"
    args = { dry_run = true }
    overwrite = true
    "#;

    let config = parse(toml).unwrap();
    let backend = &config.backends[0];

    assert_eq!(backend.default_args.len(), 1);
    assert_eq!(backend.default_args["timeout"], 30);

    assert_eq!(backend.inject_args.len(), 2);
    assert_eq!(backend.inject_args[0].tool, "query");
    assert_eq!(backend.inject_args[0].args["read_only"], true);
    assert_eq!(backend.inject_args[0].args["max_rows"], 1000);
    assert!(!backend.inject_args[0].overwrite);

    assert_eq!(backend.inject_args[1].tool, "dangerous_op");
    assert_eq!(backend.inject_args[1].args["dry_run"], true);
    assert!(backend.inject_args[1].overwrite);
}

#[test]
fn test_parse_inject_args_defaults_to_empty() {
    let config = parse(minimal_config()).unwrap();
    assert!(config.backends[0].default_args.is_empty());
    assert!(config.backends[0].inject_args.is_empty());
}

#[test]
fn test_build_filter_none_when_no_filtering() {
    let config = parse(minimal_config()).unwrap();
    assert!(
        config.backends[0]
            .build_filter(&config.proxy.separator)
            .is_none()
    );
}

// ============================================================================
// References, bounds and names
// ============================================================================

fn base_config(proxy_name: &str, port: u16) -> String {
    format!(
        r#"
[proxy]
name = "{proxy_name}"
[proxy.listen]
host = "127.0.0.1"
port = {port}
"#
    )
}

fn minimal_backend(name: &str) -> String {
    format!(
        r#"
[[backends]]
name = "{name}"
transport = "stdio"
command = "echo"
"#
    )
}

#[test]
fn unknown_backend_references_are_rejected() {
    for field in ["mirror_of", "canary_of", "failover_for"] {
        for ghost in ["ghost", "a", "primary2"] {
            let toml = format!(
                "{}{}{}{field} = \"{ghost}\"\n",
                base_config("p", 8080),
                minimal_backend("primary"),
                minimal_backend("secondary"),
            );
            let err = parse(&toml).unwrap_err();
            assert_eq!(
                err,
                format!("backend 'secondary': {field} references unknown backend '{ghost}'")
            );
        }
    }
}

#[test]
fn self_references_are_rejected() {
    for field in ["mirror_of", "canary_of", "failover_for"] {
        let toml = format!(
            "{}{}{field} = \"me\"\n",
            base_config("p", 8080),
            minimal_backend("me"),
        );
        let err = parse(&toml).unwrap_err();
        assert_eq!(err, format!("backend 'me': {field} cannot reference itself"));
    }
}

fn canary_config(weight: u32) -> String {
    format!(
        "{}{}{}canary_of = \"primary\"\nweight = {weight}\n",
        base_config("p", 8080),
        minimal_backend("primary"),
        minimal_backend("canary"),
    )
}

#[test]
fn canary_weight_out_of_bounds_is_rejected() {
    for weight in [101, 500, 9_999] {
        assert_eq!(
            parse(&canary_config(weight)).unwrap_err(),
            "backend 'canary': weight must be <= 100"
        );
    }
    assert_eq!(
        parse(&canary_config(0)).unwrap_err(),
        "backend 'canary': weight must be > 0"
    );
    assert!(parse(&canary_config(1)).is_ok());
    assert!(parse(&canary_config(100)).is_ok());
}

#[test]
fn weight_counts_only_for_canaries() {
    let toml = format!(
        "{}{}weight = 0\n",
        base_config("p", 8080),
        minimal_backend("plain"),
    );
    assert!(parse(&toml).is_ok());
}

#[test]
fn mirror_percent_out_of_bounds_is_rejected() {
    let mirror = |percent: u32| {
        format!(
            "{}{}{}mirror_of = \"primary\"\nmirror_percent = {percent}\n",
            base_config("p", 8080),
            minimal_backend("primary"),
            minimal_backend("mirror"),
        )
    };
    for percent in [101, 1_000, 9_999] {
        assert_eq!(
            parse(&mirror(percent)).unwrap_err(),
            "backend 'mirror': mirror_percent must be <= 100"
        );
    }
    assert!(parse(&mirror(0)).is_ok());
    assert!(parse(&mirror(100)).is_ok());
}

#[test]
fn duplicate_backend_names_are_rejected() {
    let toml = format!(
        "{}{}{}{}",
        base_config("p", 8080),
        minimal_backend("a"),
        minimal_backend("b"),
        minimal_backend("a"),
    );
    assert_eq!(
        parse(&toml).unwrap_err(),
        "backend 'a': backend names must be unique"
    );
}

#[test]
fn websocket_requires_url() {
    let toml = format!(
        "{}[[backends]]\nname = \"ws\"\ntransport = \"websocket\"\n",
        base_config("p", 8080),
    );
    assert_eq!(
        parse(&toml).unwrap_err(),
        "backend 'ws': websocket transport requires 'url'"
    );
    assert!(parse(&format!("{toml}url = \"ws://localhost\"\n")).is_ok());
}

#[test]
fn full_error_texts() {
    let one = |extra: &str| {
        parse(&format!(
            "{}{}{extra}",
            base_config("p", 8080),
            minimal_backend("svc"),
        ))
        .unwrap_err()
    };
    assert_eq!(
        parse(&base_config("p", 1)).unwrap_err(),
        "at least one backend is required"
    );
    assert_eq!(
        one("[backends.circuit_breaker]\nfailure_rate_threshold = 0.0\n"),
        "backend 'svc': circuit_breaker.failure_rate_threshold must be in (0.0, 1.0]"
    );
    assert_eq!(
        one("[backends.circuit_breaker]\nfailure_rate_threshold = nan\n"),
        "backend 'svc': circuit_breaker.failure_rate_threshold must be in (0.0, 1.0]"
    );
    assert_eq!(
        one("[backends.rate_limit]\nrequests = 0\n"),
        "backend 'svc': rate_limit.requests must be > 0"
    );
    assert_eq!(
        one("[backends.concurrency]\nmax_concurrent = 0\n"),
        "backend 'svc': concurrency.max_concurrent must be > 0"
    );
}

#[test]
fn the_first_broken_rule_is_reported() {
    // Each group of rules is looked at on all backends before the next.
    let toml = format!(
        "{}{}mirror_of = \"nowhere\"\n{}{}",
        base_config("p", 8080),
        minimal_backend("a"),
        minimal_backend("a"),
        "[[backends]]\nname = \"b\"\ntransport = \"http\"\n",
    );
    assert_eq!(
        parse(&toml).unwrap_err(),
        "backend 'b': http transport requires 'url'"
    );
}

#[test]
fn failure_rate_is_compared_as_a_number() {
    let accepted = |rate: f64| {
        !(Float {
            bits: rate.to_bits(),
        })
        .outside_unit_interval()
    };
    for rate in [f64::MIN_POSITIVE, 5e-324, 0.1, 0.5, 0.999_999, 1.0] {
        assert!(accepted(rate), "{rate}");
    }
    for rate in [
        0.0,
        -0.0,
        -0.5,
        -1.0,
        1.000_000_000_000_000_2,
        1.5,
        2.0,
        f64::MAX,
        f64::INFINITY,
        f64::NEG_INFINITY,
    ] {
        assert!(!accepted(rate), "{rate}");
    }
    // What is no number lies in no interval.
    assert!(!accepted(f64::NAN));
    assert!(!accepted(-f64::NAN));
}

#[test]
fn floats_agree_with_comparison() {
    let mut bits: u64 = 1;
    for _ in 0..2_000 {
        bits = bits.wrapping_mul(6364136223846793005).wrapping_add(1442695040888963407);
        let f = f64::from_bits(bits);
        let outside = Float { bits }.outside_unit_interval();
        assert_eq!(outside, f.is_nan() || f <= 0.0 || f > 1.0, "{f}");
    }
}

#[test]
fn defaults_are_the_documented_ones() {
    assert_eq!(f64::from_bits(default_failure_rate().bits), 0.5);
    assert_eq!(default_min_calls(), 5);
    assert_eq!(default_wait_duration(), 30);
    assert_eq!(default_half_open_calls(), 3);
    assert_eq!(default_rate_period(), 1);
    assert_eq!(default_max_retries(), 3);
    assert_eq!(default_initial_backoff_ms(), 100);
    assert_eq!(default_max_backoff_ms(), 5000);
    assert_eq!(default_min_retries_per_sec(), 10);
    assert_eq!(default_max_cache_entries(), 1000);
    assert_eq!(default_weight(), 100);
    let config = parse(&format!(
        "{}{}",
        base_config("p", 8080),
        minimal_backend("a")
    ))
    .unwrap();
    assert_eq!(config.observability.log_level, "info");
    assert_eq!(config.observability.tracing.endpoint, "http://localhost:4317");
    assert_eq!(config.observability.tracing.service_name, "mcp-proxy");
    assert!(!config.observability.access_log.enabled);
    assert_eq!(config.security.max_argument_size, None);
    assert!(!config.performance.coalesce_requests);
}

#[test]
fn env_references_that_stay() {
    let toml = format!(
        "{}{}bearer_token = \"${{UNSET}}\"\n[backends.env]\nA = \"${{UNSET}}\"\nB = \"${{SET\"\nC = \"x${{SET}}\"\nD = \"${{SET}}\"\nE = \"${{}}\"\n",
        base_config("p", 8080),
        minimal_backend("a"),
    );
    let mut environment = NameMap::new();
    environment.insert("SET".to_string(), "value".to_string());
    let mut config = parse(&toml).unwrap();
    config.resolve_env_vars(&environment);
    let env = &config.backends[0].env;
    assert_eq!(env.get("A").unwrap(), "${UNSET}");
    assert_eq!(env.get("B").unwrap(), "${SET");
    assert_eq!(env.get("C").unwrap(), "x${SET}");
    assert_eq!(env.get("D").unwrap(), "value");
    assert_eq!(env.get("E").unwrap(), "${}");
    assert_eq!(env.len(), 5);
    assert_eq!(
        config.backends[0].bearer_token.as_deref(),
        Some("${UNSET}")
    );
    assert_eq!(config.backends[0].command.as_deref(), Some("echo"));
}

#[test]
fn accepted_tokens_are_resolved() {
    let toml = format!(
        "{}{}[auth]\ntype = \"bearer\"\ntokens = [\"${{API_TOKEN}}\", \"plain\", \"${{UNSET}}\"]\n",
        base_config("p", 8080),
        minimal_backend("a"),
    );
    let mut environment = NameMap::new();
    environment.insert("API_TOKEN".to_string(), "s3cret".to_string());
    let mut config = parse(&toml).unwrap();
    config.resolve_env_vars(&environment);
    match &config.auth {
        Some(AuthConfig::Bearer { tokens }) => {
            assert_eq!(tokens, &["s3cret", "plain", "${UNSET}"]);
        }
        other => panic!("expected Bearer auth, got: {:?}", other),
    }
}

#[test]
fn name_filters() {
    let filter = NameFilter::deny_list(&vec!["delete".to_string()]);
    assert!(filter.allows("read"));
    assert!(!filter.allows("delete"));

    let filter = NameFilter::allow_list(&vec!["read".to_string()]);
    assert!(filter.allows("read"));
    assert!(!filter.allows("write"));
    assert!(!filter.clone().allows("write"));

    assert!(NameFilter::PassAll.allows("anything"));
}

#[test]
fn canaries_hide_everything() {
    let config = parse(&canary_config(10)).unwrap();
    assert!(config.backends[0].build_filter("/").is_none());
    let filter = config.backends[1].build_filter("/").unwrap();
    assert_eq!(filter.namespace, "canary/");
    assert!(!filter.tool_filter.allows("read"));
    assert!(!filter.resource_filter.allows("read"));
    assert!(!filter.prompt_filter.allows("read"));
    assert!(!filter.hide_destructive);
    assert!(!filter.read_only_only);
}

#[test]
fn resource_and_prompt_lists_make_a_filter() {
    let toml = format!(
        "{}{}hide_resources = [\"file:///b\"]\nexpose_prompts = [\"help\"]\n",
        base_config("p", 8080),
        minimal_backend("a"),
    );
    let config = parse(&toml).unwrap();
    let filter = config.backends[0].build_filter("/").unwrap();
    assert!(filter.tool_filter.allows("any"));
    assert!(filter.resource_filter.allows("file:///a"));
    assert!(!filter.resource_filter.allows("file:///b"));
    assert!(filter.prompt_filter.allows("help"));
    assert!(!filter.prompt_filter.allows("admin"));
}
