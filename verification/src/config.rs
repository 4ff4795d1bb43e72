//! Proxy configuration: its types, its defaults and its rules.

use vstd::arithmetic::power2::*;
use vstd::prelude::*;

use crate::float::{the_unit_interval_is_a_range_of_patterns, Float};
use crate::names::{NameMap, NameSet};
use crate::text::{
    before_suffix, behind_prefix, concat2, concat3, prefixes_come_off, same_text, strip_prefix,
    strip_suffix, suffixes_come_off, texts,
};

verus! {

/// Top-level proxy configuration, typically loaded from a TOML file.
#[derive(Debug)]
pub struct ProxyConfig {
    /// Core proxy settings (name, version, listen address).
    pub proxy: ProxySettings,
    /// Backend MCP servers to proxy.
    pub backends: Vec<BackendConfig>,
    /// Inbound authentication configuration.
    pub auth: Option<AuthConfig>,
    /// Performance tuning options.
    pub performance: PerformanceConfig,
    /// Security policies.
    pub security: SecurityConfig,
    /// Logging, metrics, and tracing configuration.
    pub observability: ObservabilityConfig,
}

/// Core proxy identity and server settings.
#[derive(Debug)]
pub struct ProxySettings {
    /// Proxy name, used in MCP server info.
    pub name: String,
    /// Proxy version, used in MCP server info (default: "0.1.0").
    pub version: String,
    /// Namespace separator between backend name and tool/resource name (default: "/").
    pub separator: String,
    /// HTTP listen address.
    pub listen: ListenConfig,
    /// Optional instructions text sent to MCP clients.
    pub instructions: Option<String>,
    /// Graceful shutdown timeout in seconds (default: 30).
    pub shutdown_timeout_seconds: u64,
    /// Enable hot reload: watch the config file for changed backends.
    pub hot_reload: bool,
    /// How backend tools are listed to clients (default: direct).
    pub tool_exposure: ToolExposure,
    /// Index all tools and offer the discovery tools (default: false).
    pub tool_discovery: bool,
}

/// How backend tools are listed to clients.
#[derive(Debug, Clone, Copy, PartialEq, Eq, Structural)]
pub enum ToolExposure {
    /// Every tool is listed.
    Direct,
    /// Only the proxy's own tools are listed; the others are found by search.
    Search,
}

/// HTTP server listen address.
#[derive(Debug)]
pub struct ListenConfig {
    /// Bind host (default: "127.0.0.1").
    pub host: String,
    /// Bind port (default: 8080).
    pub port: u16,
}

/// Configuration for a single backend MCP server.
#[derive(Debug)]
pub struct BackendConfig {
    /// Unique backend name, used as the namespace prefix for its tools/resources.
    pub name: String,
    /// Transport protocol to use when connecting to this backend.
    pub transport: TransportType,
    /// Command for stdio backends.
    pub command: Option<String>,
    /// Arguments for stdio backends.
    pub args: Vec<String>,
    /// URL for HTTP and WebSocket backends.
    pub url: Option<String>,
    /// Environment variables for subprocess backends.
    pub env: NameMap<String>,
    /// Per-backend timeout.
    pub timeout: Option<TimeoutConfig>,
    /// Per-backend circuit breaker.
    pub circuit_breaker: Option<CircuitBreakerConfig>,
    /// Per-backend rate limit.
    pub rate_limit: Option<RateLimitConfig>,
    /// Per-backend concurrency limit.
    pub concurrency: Option<ConcurrencyConfig>,
    /// Per-backend retry policy.
    pub retry: Option<RetryConfig>,
    /// Per-backend outlier detection (passive health checks).
    pub outlier_detection: Option<OutlierDetectionConfig>,
    /// Per-backend request hedging (parallel redundant requests).
    pub hedging: Option<HedgingConfig>,
    /// Mirror traffic from another backend (fire-and-forget).
    /// Set to the name of the source backend to mirror.
    pub mirror_of: Option<String>,
    /// Percentage of requests to mirror (default: 100).
    pub mirror_percent: u32,
    /// Per-backend cache policy.
    pub cache: Option<BackendCacheConfig>,
    /// Static bearer token for authenticating to this backend.
    /// Supports `${ENV_VAR}` syntax for env var resolution.
    pub bearer_token: Option<String>,
    /// Forward the client's inbound auth token to this backend.
    pub forward_auth: bool,
    /// Tool aliases: rename tools exposed by this backend.
    pub aliases: Vec<AliasConfig>,
    /// Default arguments injected into all tool calls for this backend.
    pub default_args: serde_json::Map<String, serde_json::Value>,
    /// Per-tool argument injection rules.
    pub inject_args: Vec<InjectArgsConfig>,
    /// Capability filtering: only expose these tools (allowlist).
    pub expose_tools: Vec<String>,
    /// Capability filtering: hide these tools (denylist).
    pub hide_tools: Vec<String>,
    /// Capability filtering: only expose these resources (allowlist, by URI).
    pub expose_resources: Vec<String>,
    /// Capability filtering: hide these resources (denylist, by URI).
    pub hide_resources: Vec<String>,
    /// Capability filtering: only expose these prompts (allowlist).
    pub expose_prompts: Vec<String>,
    /// Capability filtering: hide these prompts (denylist).
    pub hide_prompts: Vec<String>,
    /// Canary routing: name of the primary backend this is a canary for.
    /// When set, this backend's capabilities are hidden and requests targeting
    /// the primary are probabilistically routed here based on weight.
    pub canary_of: Option<String>,
    /// Routing weight for canary deployments (1-100, default: 100).
    pub weight: u32,
    /// Failover: name of the primary backend this one stands in for.
    pub failover_for: Option<String>,
}

/// Backend transport protocol.
#[derive(Debug, Clone, Copy, PartialEq, Eq, Structural)]
pub enum TransportType {
    /// Subprocess communicating via stdin/stdout.
    Stdio,
    /// HTTP+SSE remote server.
    Http,
    /// WebSocket remote server.
    Websocket,
}

/// Per-backend request timeout.
#[derive(Debug, Clone, Copy)]
pub struct TimeoutConfig {
    /// Timeout duration in seconds.
    pub seconds: u64,
}

/// Per-backend circuit breaker configuration.
#[derive(Debug, Clone, Copy)]
pub struct CircuitBreakerConfig {
    /// Failure rate threshold (0.0-1.0) to trip open (default: 0.5).
    pub failure_rate_threshold: Float,
    /// Minimum number of calls before evaluating failure rate (default: 5).
    pub minimum_calls: usize,
    /// Seconds to wait in open state before half-open (default: 30).
    pub wait_duration_seconds: u64,
    /// Number of permitted calls in half-open state (default: 3).
    pub permitted_calls_in_half_open: usize,
}

/// Per-backend rate limiting configuration.
#[derive(Debug, Clone, Copy)]
pub struct RateLimitConfig {
    /// Maximum requests per period.
    pub requests: usize,
    /// Period in seconds (default: 1).
    pub period_seconds: u64,
}

/// Per-backend concurrency limit configuration.
#[derive(Debug, Clone, Copy)]
pub struct ConcurrencyConfig {
    /// Maximum concurrent requests.
    pub max_concurrent: usize,
}

/// Per-backend retry policy with exponential backoff.
#[derive(Debug, Clone, Copy)]
pub struct RetryConfig {
    /// Maximum number of retry attempts (default: 3).
    pub max_retries: u32,
    /// Initial backoff in milliseconds (default: 100).
    pub initial_backoff_ms: u64,
    /// Maximum backoff in milliseconds (default: 5000).
    pub max_backoff_ms: u64,
    /// Maximum percentage of requests that can be retries (default: none / unlimited).
    /// Evaluated over a 10-second rolling window.
    pub budget_percent: Option<Float>,
    /// Minimum retries per second allowed regardless of budget (default: 10).
    pub min_retries_per_sec: u32,
}

/// Passive health check / outlier detection configuration.
#[derive(Debug, Clone, Copy)]
pub struct OutlierDetectionConfig {
    /// Number of consecutive errors before ejecting (default: 5).
    pub consecutive_errors: u32,
    /// Evaluation interval in seconds (default: 10).
    pub interval_seconds: u64,
    /// How long to eject in seconds (default: 30).
    pub base_ejection_seconds: u64,
    /// Maximum percentage of backends that can be ejected (default: 50).
    pub max_ejection_percent: u32,
}

/// Per-tool argument injection configuration.
#[derive(Debug)]
pub struct InjectArgsConfig {
    /// Tool name (backend-local, without namespace prefix).
    pub tool: String,
    /// Arguments to inject into the tool call arguments.
    pub args: serde_json::Map<String, serde_json::Value>,
    /// Whether injected args should overwrite existing values (default: false).
    pub overwrite: bool,
}

/// Request hedging configuration.
#[derive(Debug, Clone, Copy)]
pub struct HedgingConfig {
    /// Delay in milliseconds before sending a hedge request (default: 200).
    /// Set to 0 for parallel mode (all requests fire immediately).
    pub delay_ms: u64,
    /// Maximum number of additional hedge requests (default: 1).
    pub max_hedges: usize,
}

/// Inbound authentication configuration.
#[derive(Debug)]
pub enum AuthConfig {
    /// Static bearer token authentication.
    Bearer {
        /// Accepted bearer tokens.
        tokens: Vec<String>,
    },
    /// JWT authentication via JWKS endpoint.
    Jwt {
        /// Expected token issuer (`iss` claim).
        issuer: String,
        /// Expected token audience (`aud` claim).
        audience: String,
        /// URL to fetch the JSON Web Key Set for token verification.
        jwks_uri: String,
        /// RBAC role definitions.
        roles: Vec<RoleConfig>,
        /// Map JWT claims to roles.
        role_mapping: Option<RoleMappingConfig>,
    },
}

/// RBAC role definition.
#[derive(Debug)]
pub struct RoleConfig {
    /// Role name, referenced by `RoleMappingConfig`.
    pub name: String,
    /// Tools this role can access (namespaced, e.g. "files/read_file").
    pub allow_tools: Vec<String>,
    /// Tools this role cannot access.
    pub deny_tools: Vec<String>,
}

/// Maps JWT claim values to RBAC role names.
#[derive(Debug)]
pub struct RoleMappingConfig {
    /// JWT claim to read for role resolution (e.g. "scope", "role", "groups").
    pub claim: String,
    /// Map claim values to role names.
    pub mapping: NameMap<String>,
}

/// Tool alias: exposes a backend tool under a different name.
#[derive(Debug)]
pub struct AliasConfig {
    /// Original tool name (backend-local, without namespace prefix).
    pub from: String,
    /// New tool name to expose (will be namespaced as backend/to).
    pub to: String,
}

/// Per-backend response cache configuration.
#[derive(Debug, Clone, Copy)]
pub struct BackendCacheConfig {
    /// TTL for cached resource reads in seconds (0 = disabled).
    pub resource_ttl_seconds: u64,
    /// TTL for cached tool call results in seconds (0 = disabled).
    pub tool_ttl_seconds: u64,
    /// Maximum number of cached entries per backend (default: 1000).
    pub max_entries: u64,
}

/// Performance tuning options.
#[derive(Debug, Clone, Copy)]
pub struct PerformanceConfig {
    /// Deduplicate identical concurrent tool calls and resource reads.
    pub coalesce_requests: bool,
}

/// Security policies.
#[derive(Debug, Clone, Copy)]
pub struct SecurityConfig {
    /// Maximum size of tool call arguments in bytes (default: unlimited).
    pub max_argument_size: Option<usize>,
}

/// Logging, metrics, and distributed tracing configuration.
#[derive(Debug)]
pub struct ObservabilityConfig {
    /// Enable audit logging of all MCP requests (default: false).
    pub audit: bool,
    /// Log level filter (default: "info").
    pub log_level: String,
    /// Emit structured JSON logs (default: false).
    pub json_logs: bool,
    /// Prometheus metrics configuration.
    pub metrics: MetricsConfig,
    /// OpenTelemetry distributed tracing configuration.
    pub tracing: TracingConfig,
    /// Structured access logging configuration.
    pub access_log: AccessLogConfig,
}

/// Prometheus metrics configuration.
#[derive(Debug, Clone, Copy)]
pub struct MetricsConfig {
    /// Enable Prometheus metrics at `/admin/metrics` (default: false).
    pub enabled: bool,
}

/// Structured access logging configuration.
#[derive(Debug, Clone, Copy)]
pub struct AccessLogConfig {
    /// Log one line per request (default: false).
    pub enabled: bool,
}

/// OpenTelemetry distributed tracing configuration.
#[derive(Debug)]
pub struct TracingConfig {
    /// Enable OTLP trace export (default: false).
    pub enabled: bool,
    /// OTLP endpoint (default: http://localhost:4317).
    pub endpoint: String,
    /// Service name for traces (default: "mcp-proxy").
    pub service_name: String,
}

/// The default proxy version.
pub fn default_version() -> (value: String)
    ensures
        value@ == "0.1.0"@,
{
    "0.1.0".to_owned()
}

/// The default namespace separator.
pub fn default_separator() -> (value: String)
    ensures
        value@ == "/"@,
{
    "/".to_owned()
}

/// The default bind host.
pub fn default_host() -> (value: String)
    ensures
        value@ == "127.0.0.1"@,
{
    "127.0.0.1".to_owned()
}

/// The default bind port.
pub fn default_port() -> (value: u16)
    ensures
        value == 8080,
{
    8080
}

/// The default log level.
pub fn default_log_level() -> (value: String)
    ensures
        value@ == "info"@,
{
    "info".to_owned()
}

/// The default failure rate threshold, one half.
pub fn default_failure_rate() -> (value: Float)
    ensures
        value == (Float { bits: 0x3fe0_0000_0000_0000 }),
        !value.negative(),
        2 * value.magnitude() == pow2(1074),
{
    proof {
        let value = Float { bits: 0x3fe0_0000_0000_0000 };
        assert(value.exponent() == 1022 && value.fraction() == 0);
        lemma2_to64_rest();
        lemma_pow2_adds(52, 1021);
        lemma_pow2_adds(1, 1073);
        lemma2_to64();
    }
    Float { bits: 0x3fe0_0000_0000_0000 }
}

/// The default minimum number of calls of a circuit breaker.
pub fn default_min_calls() -> (value: usize)
    ensures
        value == 5,
{
    5
}

/// The default seconds in the open state of a circuit breaker.
pub fn default_wait_duration() -> (value: u64)
    ensures
        value == 30,
{
    30
}

/// The default permitted calls in the half-open state.
pub fn default_half_open_calls() -> (value: usize)
    ensures
        value == 3,
{
    3
}

/// The default rate limit period in seconds.
pub fn default_rate_period() -> (value: u64)
    ensures
        value == 1,
{
    1
}

/// The default number of retries.
pub fn default_max_retries() -> (value: u32)
    ensures
        value == 3,
{
    3
}

/// The default first backoff in milliseconds.
pub fn default_initial_backoff_ms() -> (value: u64)
    ensures
        value == 100,
{
    100
}

/// The default longest backoff in milliseconds.
pub fn default_max_backoff_ms() -> (value: u64)
    ensures
        value == 5000,
{
    5000
}

/// The default floor of the retry budget.
pub fn default_min_retries_per_sec() -> (value: u32)
    ensures
        value == 10,
{
    10
}

/// The default number of errors before an ejection.
pub fn default_consecutive_errors() -> (value: u32)
    ensures
        value == 5,
{
    5
}

/// The default evaluation interval of outlier detection.
pub fn default_interval_seconds() -> (value: u64)
    ensures
        value == 10,
{
    10
}

/// The default length of an ejection in seconds.
pub fn default_base_ejection_seconds() -> (value: u64)
    ensures
        value == 30,
{
    30
}

/// The default percentage of backends that may be ejected.
pub fn default_max_ejection_percent() -> (value: u32)
    ensures
        value == 50,
{
    50
}

/// The default hedge delay in milliseconds.
pub fn default_hedge_delay_ms() -> (value: u64)
    ensures
        value == 200,
{
    200
}

/// The default number of hedge requests.
pub fn default_max_hedges() -> (value: usize)
    ensures
        value == 1,
{
    1
}

/// The default percentage of mirrored requests.
pub fn default_mirror_percent() -> (value: u32)
    ensures
        value == 100,
{
    100
}

/// The default canary weight.
pub fn default_weight() -> (value: u32)
    ensures
        value == 100,
{
    100
}

/// The default number of cached entries.
pub fn default_max_cache_entries() -> (value: u64)
    ensures
        value == 1000,
{
    1000
}

/// The default shutdown timeout in seconds.
pub fn default_shutdown_timeout() -> (value: u64)
    ensures
        value == 30,
{
    30
}

/// The default trace endpoint.
pub fn default_otlp_endpoint() -> (value: String)
    ensures
        value@ == "http://localhost:4317"@,
{
    "http://localhost:4317".to_owned()
}

/// The default service name for traces.
pub fn default_service_name() -> (value: String)
    ensures
        value@ == "mcp-proxy"@,
{
    "mcp-proxy".to_owned()
}

impl Default for PerformanceConfig {
    fn default() -> (config: PerformanceConfig)
        ensures
            !config.coalesce_requests,
    {
        PerformanceConfig { coalesce_requests: false }
    }
}

impl Default for SecurityConfig {
    fn default() -> (config: SecurityConfig)
        ensures
            config.max_argument_size is None,
    {
        SecurityConfig { max_argument_size: None }
    }
}

impl Default for MetricsConfig {
    fn default() -> (config: MetricsConfig)
        ensures
            !config.enabled,
    {
        MetricsConfig { enabled: false }
    }
}

impl Default for AccessLogConfig {
    fn default() -> (config: AccessLogConfig)
        ensures
            !config.enabled,
    {
        AccessLogConfig { enabled: false }
    }
}

impl Default for TracingConfig {
    fn default() -> (config: TracingConfig)
        ensures
            !config.enabled,
            config.endpoint@ == "http://localhost:4317"@,
            config.service_name@ == "mcp-proxy"@,
    {
        TracingConfig {
            enabled: false,
            endpoint: default_otlp_endpoint(),
            service_name: default_service_name(),
        }
    }
}

impl Default for ObservabilityConfig {
    fn default() -> (config: ObservabilityConfig)
        ensures
            !config.audit,
            config.log_level@ == "info"@,
            !config.json_logs,
            !config.metrics.enabled,
            !config.tracing.enabled,
            config.tracing.endpoint@ == "http://localhost:4317"@,
            config.tracing.service_name@ == "mcp-proxy"@,
            !config.access_log.enabled,
    {
        ObservabilityConfig {
            audit: false,
            log_level: default_log_level(),
            json_logs: false,
            metrics: MetricsConfig::default(),
            tracing: TracingConfig::default(),
            access_log: AccessLogConfig::default(),
        }
    }
}

/// Resolved filter rules for a backend's capabilities.
#[derive(Debug)]
pub struct BackendFilter {
    /// Namespace prefix (e.g. "db/") this filter applies to.
    pub namespace: String,
    /// Filter for tool names.
    pub tool_filter: NameFilter,
    /// Filter for resource URIs.
    pub resource_filter: NameFilter,
    /// Filter for prompt names.
    pub prompt_filter: NameFilter,
    /// Leave tools that are marked as destructive out of listings.
    pub hide_destructive: bool,
    /// Leave tools that are not marked as read-only out of listings.
    pub read_only_only: bool,
}

/// A name-based allow/deny filter.
#[derive(Debug)]
pub enum NameFilter {
    /// No filtering -- everything passes.
    PassAll,
    /// Only items in this set are allowed.
    AllowList(NameSet),
    /// Items in this set are denied.
    DenyList(NameSet),
}

/// Which names a filter lets pass.
pub ghost enum Passing {
    /// All names.
    All,
    /// The names in a set.
    Only(Set<Seq<char>>),
    /// The names outside a set.
    Except(Set<Seq<char>>),
}

impl Passing {
    /// Whether a name passes.
    pub open spec fn passes(self, name: Seq<char>) -> bool {
        match self {
            Passing::All => true,
            Passing::Only(set) => set.contains(name),
            Passing::Except(set) => !set.contains(name),
        }
    }
}

impl View for NameFilter {
    type V = Passing;

    open spec fn view(&self) -> Passing {
        match self {
            NameFilter::PassAll => Passing::All,
            NameFilter::AllowList(set) => Passing::Only(set@),
            NameFilter::DenyList(set) => Passing::Except(set@),
        }
    }
}

impl NameFilter {
    /// Check if a capability name is allowed by this filter.
    pub fn allows(&self, name: &str) -> (allowed: bool)
        ensures
            allowed == self@.passes(name@),
    {
        match self {
            NameFilter::PassAll => true,
            NameFilter::AllowList(set) => set.contains(name),
            NameFilter::DenyList(set) => !set.contains(name),
        }
    }

    /// A filter that lets only the given names pass.
    pub fn allow_list(names: &Vec<String>) -> (filter: NameFilter)
        ensures
            filter@ == Passing::Only(texts(names@).to_set()),
    {
        NameFilter::AllowList(NameSet::from_names(names))
    }

    /// A filter that lets all but the given names pass.
    pub fn deny_list(names: &Vec<String>) -> (filter: NameFilter)
        ensures
            filter@ == Passing::Except(texts(names@).to_set()),
    {
        NameFilter::DenyList(NameSet::from_names(names))
    }

    /// The filter of an expose list and a hide list: the expose list counts
    /// where it is not empty, else the hide list.
    fn of_lists(expose: &Vec<String>, hide: &Vec<String>) -> (filter: NameFilter)
        ensures
            filter@ == listed(expose@, hide@),
    {
        if expose.len() > 0 {
            NameFilter::allow_list(expose)
        } else if hide.len() > 0 {
            NameFilter::deny_list(hide)
        } else {
            NameFilter::PassAll
        }
    }

    /// Whether this filter lets everything pass without a list.
    fn is_pass_all(&self) -> (all: bool)
        ensures
            all == (self@ is All),
    {
        match self {
            NameFilter::PassAll => true,
            _ => false,
        }
    }
}

impl Clone for NameFilter {
    fn clone(&self) -> (copy: NameFilter)
        ensures
            copy@ == self@,
    {
        match self {
            NameFilter::PassAll => NameFilter::PassAll,
            NameFilter::AllowList(set) => NameFilter::AllowList(set.clone()),
            NameFilter::DenyList(set) => NameFilter::DenyList(set.clone()),
        }
    }
}

/// The names that pass an expose list and a hide list.
pub open spec fn listed(expose: Seq<String>, hide: Seq<String>) -> Passing {
    if expose.len() > 0 {
        Passing::Only(texts(expose).to_set())
    } else if hide.len() > 0 {
        Passing::Except(texts(hide).to_set())
    } else {
        Passing::All
    }
}

/// What the filter of a backend says.
pub ghost struct FilterRules {
    /// The prefix of the names that it governs.
    pub namespace: Seq<char>,
    /// The tools that pass, by what stands behind the prefix.
    pub tools: Passing,
    /// The resources that pass.
    pub resources: Passing,
    /// The prompts that pass.
    pub prompts: Passing,
    /// Whether destructive tools are left out of listings.
    pub hide_destructive: bool,
    /// Whether tools that are not read-only are left out of listings.
    pub read_only_only: bool,
}

impl View for BackendFilter {
    type V = FilterRules;

    open spec fn view(&self) -> FilterRules {
        FilterRules {
            namespace: self.namespace@,
            tools: self.tool_filter@,
            resources: self.resource_filter@,
            prompts: self.prompt_filter@,
            hide_destructive: self.hide_destructive,
            read_only_only: self.read_only_only,
        }
    }
}

impl Clone for BackendFilter {
    fn clone(&self) -> (copy: BackendFilter)
        ensures
            copy@ == self@,
    {
        BackendFilter {
            namespace: self.namespace.clone(),
            tool_filter: self.tool_filter.clone(),
            resource_filter: self.resource_filter.clone(),
            prompt_filter: self.prompt_filter.clone(),
            hide_destructive: self.hide_destructive,
            read_only_only: self.read_only_only,
        }
    }
}

impl BackendConfig {
    /// The filter rules of this backend, where it has any: a canary shows
    /// nothing, any other backend what its expose and hide lists let pass.
    pub open spec fn filter_rules(&self, separator: Seq<char>) -> Option<FilterRules> {
        let tools = listed(self.expose_tools@, self.hide_tools@);
        let resources = listed(self.expose_resources@, self.hide_resources@);
        let prompts = listed(self.expose_prompts@, self.hide_prompts@);
        let nothing = Passing::Only(Set::empty());
        if self.canary_of is Some {
            Some(
                FilterRules {
                    namespace: self.name@ + separator,
                    tools: nothing,
                    resources: nothing,
                    prompts: nothing,
                    hide_destructive: false,
                    read_only_only: false,
                },
            )
        } else if tools is All && resources is All && prompts is All {
            None
        } else {
            Some(
                FilterRules {
                    namespace: self.name@ + separator,
                    tools,
                    resources,
                    prompts,
                    hide_destructive: false,
                    read_only_only: false,
                },
            )
        }
    }

    /// Build a [`BackendFilter`] from this backend's expose/hide lists.
    /// Returns `None` if no filtering is configured.
    ///
    /// Canary backends automatically hide all capabilities so their tools
    /// don't appear in `ListTools` responses (traffic reaches them via the
    /// canary routing middleware, not direct tool calls).
    pub fn build_filter(&self, separator: &str) -> (filter: Option<BackendFilter>)
        ensures
            match filter {
                Some(f) => self.filter_rules(separator@) == Some(f@),
                None => self.filter_rules(separator@) is None,
            },
    {
        if self.canary_of.is_some() {
            return Some(
                BackendFilter {
                    namespace: concat2(self.name.as_str(), separator),
                    tool_filter: NameFilter::AllowList(NameSet::new()),
                    resource_filter: NameFilter::AllowList(NameSet::new()),
                    prompt_filter: NameFilter::AllowList(NameSet::new()),
                    hide_destructive: false,
                    read_only_only: false,
                },
            );
        }
        let tool_filter = NameFilter::of_lists(&self.expose_tools, &self.hide_tools);
        let resource_filter = NameFilter::of_lists(&self.expose_resources, &self.hide_resources);
        let prompt_filter = NameFilter::of_lists(&self.expose_prompts, &self.hide_prompts);
        // Only create a filter if at least one dimension has filtering
        if tool_filter.is_pass_all() && resource_filter.is_pass_all()
            && prompt_filter.is_pass_all() {
            return None;
        }
        Some(
            BackendFilter {
                namespace: concat2(self.name.as_str(), separator),
                tool_filter,
                resource_filter,
                prompt_filter,
                hide_destructive: false,
                read_only_only: false,
            },
        )
    }
}

/// What is wrong with a backend.
#[derive(Debug)]
pub enum BackendFault {
    /// A stdio backend has no command.
    StdioWithoutCommand,
    /// An HTTP backend has no URL.
    HttpWithoutUrl,
    /// A WebSocket backend has no URL.
    WebsocketWithoutUrl,
    /// The failure rate threshold is no number, not above zero, or above one.
    FailureRateOutOfRange,
    /// The rate limit admits no request.
    ZeroRateLimit,
    /// The concurrency limit admits no request.
    ZeroConcurrency,
    /// Tools are both exposed and hidden.
    ExposeAndHideTools,
    /// Resources are both exposed and hidden.
    ExposeAndHideResources,
    /// Prompts are both exposed and hidden.
    ExposeAndHidePrompts,
    /// An earlier backend has the same name.
    DuplicateName,
    /// The mirrored backend does not exist.
    UnknownMirrorSource(String),
    /// The backend mirrors itself.
    MirrorOfItself,
    /// More than all requests are to be mirrored.
    MirrorPercentOutOfRange,
    /// The backend of which this is a canary does not exist.
    UnknownCanaryPrimary(String),
    /// The backend is a canary of itself.
    CanaryOfItself,
    /// The canary gets no requests.
    ZeroWeight,
    /// The weight of the canary is above its bound.
    WeightOutOfRange,
    /// The backend for which this one stands in does not exist.
    UnknownFailoverPrimary(String),
    /// The backend stands in for itself.
    FailoverForItself,
}

/// Why a configuration is refused.
#[derive(Debug)]
pub enum ConfigError {
    /// There is no backend.
    NoBackends,
    /// A backend breaks a rule.
    Backend {
        /// The name of the backend.
        name: String,
        /// What is wrong with it.
        fault: BackendFault,
    },
}

impl BackendFault {
    /// The fault in words.
    pub open spec fn text(self) -> Seq<char> {
        match self {
            BackendFault::StdioWithoutCommand => "stdio transport requires 'command'"@,
            BackendFault::HttpWithoutUrl => "http transport requires 'url'"@,
            BackendFault::WebsocketWithoutUrl => "websocket transport requires 'url'"@,
            BackendFault::FailureRateOutOfRange => "circuit_breaker.failure_rate_threshold must be in (0.0, 1.0]"@,
            BackendFault::ZeroRateLimit => "rate_limit.requests must be > 0"@,
            BackendFault::ZeroConcurrency => "concurrency.max_concurrent must be > 0"@,
            BackendFault::ExposeAndHideTools => "cannot specify both expose_tools and hide_tools"@,
            BackendFault::ExposeAndHideResources => "cannot specify both expose_resources and hide_resources"@,
            BackendFault::ExposeAndHidePrompts => "cannot specify both expose_prompts and hide_prompts"@,
            BackendFault::DuplicateName => "backend names must be unique"@,
            BackendFault::UnknownMirrorSource(name) => "mirror_of references unknown backend '"@ + name@ + "'"@,
            BackendFault::MirrorOfItself => "mirror_of cannot reference itself"@,
            BackendFault::MirrorPercentOutOfRange => "mirror_percent must be <= 100"@,
            BackendFault::UnknownCanaryPrimary(name) => "canary_of references unknown backend '"@ + name@ + "'"@,
            BackendFault::CanaryOfItself => "canary_of cannot reference itself"@,
            BackendFault::ZeroWeight => "weight must be > 0"@,
            BackendFault::WeightOutOfRange => "weight must be <= 100"@,
            BackendFault::UnknownFailoverPrimary(name) => "failover_for references unknown backend '"@ + name@ + "'"@,
            BackendFault::FailoverForItself => "failover_for cannot reference itself"@,
        }
    }

    /// The fault in words.
    pub fn message(&self) -> (message: String)
        ensures
            message@ == self.text(),
    {
        match self {
            BackendFault::StdioWithoutCommand => "stdio transport requires 'command'".to_owned(),
            BackendFault::HttpWithoutUrl => "http transport requires 'url'".to_owned(),
            BackendFault::WebsocketWithoutUrl => "websocket transport requires 'url'".to_owned(),
            BackendFault::FailureRateOutOfRange => "circuit_breaker.failure_rate_threshold must be in (0.0, 1.0]".to_owned(),
            BackendFault::ZeroRateLimit => "rate_limit.requests must be > 0".to_owned(),
            BackendFault::ZeroConcurrency => "concurrency.max_concurrent must be > 0".to_owned(),
            BackendFault::ExposeAndHideTools => "cannot specify both expose_tools and hide_tools".to_owned(),
            BackendFault::ExposeAndHideResources => "cannot specify both expose_resources and hide_resources".to_owned(),
            BackendFault::ExposeAndHidePrompts => "cannot specify both expose_prompts and hide_prompts".to_owned(),
            BackendFault::DuplicateName => "backend names must be unique".to_owned(),
            BackendFault::UnknownMirrorSource(name) => concat3(
                "mirror_of references unknown backend '",
                name.as_str(),
                "'",
            ),
            BackendFault::MirrorOfItself => "mirror_of cannot reference itself".to_owned(),
            BackendFault::MirrorPercentOutOfRange => "mirror_percent must be <= 100".to_owned(),
            BackendFault::UnknownCanaryPrimary(name) => concat3(
                "canary_of references unknown backend '",
                name.as_str(),
                "'",
            ),
            BackendFault::CanaryOfItself => "canary_of cannot reference itself".to_owned(),
            BackendFault::ZeroWeight => "weight must be > 0".to_owned(),
            BackendFault::WeightOutOfRange => "weight must be <= 100".to_owned(),
            BackendFault::UnknownFailoverPrimary(name) => concat3(
                "failover_for references unknown backend '",
                name.as_str(),
                "'",
            ),
            BackendFault::FailoverForItself => "failover_for cannot reference itself".to_owned(),
        }
    }
}

impl ConfigError {
    /// The error in words.
    pub open spec fn text(self) -> Seq<char> {
        match self {
            ConfigError::NoBackends => "at least one backend is required"@,
            ConfigError::Backend { name, fault } => "backend '"@ + name@ + "': "@ + fault.text(),
        }
    }

    /// The error in words.
    pub fn message(&self) -> (message: String)
        ensures
            message@ == self.text(),
    {
        match self {
            ConfigError::NoBackends => "at least one backend is required".to_owned(),
            ConfigError::Backend { name, fault } => {
                let place = concat3("backend '", name.as_str(), "': ");
                concat2(place.as_str(), fault.message().as_str())
            },
        }
    }
}

/// Some backend has the name.
pub open spec fn is_backend(backends: Seq<BackendConfig>, name: Seq<char>) -> bool {
    exists|i: int| 0 <= i < backends.len() && (#[trigger] backends[i]).name@ == name
}

impl BackendConfig {
    /// What this backend breaks of the rules on a backend by itself, the
    /// first rule first.
    pub open spec fn own_fault(self) -> Option<BackendFault> {
        if self.transport is Stdio && self.command is None {
            Some(BackendFault::StdioWithoutCommand)
        } else if self.transport is Http && self.url is None {
            Some(BackendFault::HttpWithoutUrl)
        } else if self.transport is Websocket && self.url is None {
            Some(BackendFault::WebsocketWithoutUrl)
        } else if self.circuit_breaker matches Some(cb) && (cb.failure_rate_threshold.is_nan()
            || cb.failure_rate_threshold.at_most_zero() || cb.failure_rate_threshold.above_one()) {
            Some(BackendFault::FailureRateOutOfRange)
        } else if self.rate_limit matches Some(rl) && rl.requests == 0 {
            Some(BackendFault::ZeroRateLimit)
        } else if self.concurrency matches Some(cc) && cc.max_concurrent == 0 {
            Some(BackendFault::ZeroConcurrency)
        } else if self.expose_tools@.len() > 0 && self.hide_tools@.len() > 0 {
            Some(BackendFault::ExposeAndHideTools)
        } else if self.expose_resources@.len() > 0 && self.hide_resources@.len() > 0 {
            Some(BackendFault::ExposeAndHideResources)
        } else if self.expose_prompts@.len() > 0 && self.hide_prompts@.len() > 0 {
            Some(BackendFault::ExposeAndHidePrompts)
        } else {
            None
        }
    }

    /// What this backend breaks of the rules on mirrors.
    pub open spec fn mirror_fault(self, backends: Seq<BackendConfig>) -> Option<BackendFault> {
        match self.mirror_of {
            None => None,
            Some(source) => if !is_backend(backends, source@) {
                Some(BackendFault::UnknownMirrorSource(source))
            } else if source@ == self.name@ {
                Some(BackendFault::MirrorOfItself)
            } else if self.mirror_percent > 100 {
                Some(BackendFault::MirrorPercentOutOfRange)
            } else {
                None
            },
        }
    }

    /// What this backend breaks of the rules on canaries.
    pub open spec fn canary_fault(self, backends: Seq<BackendConfig>) -> Option<BackendFault> {
        match self.canary_of {
            None => None,
            Some(primary) => if !is_backend(backends, primary@) {
                Some(BackendFault::UnknownCanaryPrimary(primary))
            } else if primary@ == self.name@ {
                Some(BackendFault::CanaryOfItself)
            } else if self.weight == 0 {
                Some(BackendFault::ZeroWeight)
            } else if self.weight > 100 {
                Some(BackendFault::WeightOutOfRange)
            } else {
                None
            },
        }
    }

    /// What this backend breaks of the rules on failovers.
    pub open spec fn failover_fault(self, backends: Seq<BackendConfig>) -> Option<BackendFault> {
        match self.failover_for {
            None => None,
            Some(primary) => if !is_backend(backends, primary@) {
                Some(BackendFault::UnknownFailoverPrimary(primary))
            } else if primary@ == self.name@ {
                Some(BackendFault::FailoverForItself)
            } else {
                None
            },
        }
    }

    fn find_own_fault(&self) -> (fault: Option<BackendFault>)
        ensures
            fault == self.own_fault(),
    {
        match self.transport {
            TransportType::Stdio => {
                if self.command.is_none() {
                    return Some(BackendFault::StdioWithoutCommand);
                }
            },
            TransportType::Http => {
                if self.url.is_none() {
                    return Some(BackendFault::HttpWithoutUrl);
                }
            },
            TransportType::Websocket => {
                if self.url.is_none() {
                    return Some(BackendFault::WebsocketWithoutUrl);
                }
            },
        }
        if let Some(cb) = &self.circuit_breaker {
            if cb.failure_rate_threshold.outside_unit_interval() {
                return Some(BackendFault::FailureRateOutOfRange);
            }
        }
        if let Some(rl) = &self.rate_limit {
            if rl.requests == 0 {
                return Some(BackendFault::ZeroRateLimit);
            }
        }
        if let Some(cc) = &self.concurrency {
            if cc.max_concurrent == 0 {
                return Some(BackendFault::ZeroConcurrency);
            }
        }
        if self.expose_tools.len() > 0 && self.hide_tools.len() > 0 {
            return Some(BackendFault::ExposeAndHideTools);
        }
        if self.expose_resources.len() > 0 && self.hide_resources.len() > 0 {
            return Some(BackendFault::ExposeAndHideResources);
        }
        if self.expose_prompts.len() > 0 && self.hide_prompts.len() > 0 {
            return Some(BackendFault::ExposeAndHidePrompts);
        }
        None
    }

    fn find_mirror_fault(&self, backends: &Vec<BackendConfig>, names: &NameSet) -> (fault: Option<
        BackendFault,
    >)
        requires
            forall|name: Seq<char>| #[trigger]
                names@.contains(name) <==> is_backend(backends@, name),
        ensures
            fault == self.mirror_fault(backends@),
    {
        if let Some(source) = &self.mirror_of {
            if !names.contains(source.as_str()) {
                return Some(BackendFault::UnknownMirrorSource(source.clone()));
            }
            if same_text(source.as_str(), self.name.as_str()) {
                return Some(BackendFault::MirrorOfItself);
            }
            if self.mirror_percent > 100 {
                return Some(BackendFault::MirrorPercentOutOfRange);
            }
        }
        None
    }

    fn find_canary_fault(&self, backends: &Vec<BackendConfig>, names: &NameSet) -> (fault: Option<
        BackendFault,
    >)
        requires
            forall|name: Seq<char>| #[trigger]
                names@.contains(name) <==> is_backend(backends@, name),
        ensures
            fault == self.canary_fault(backends@),
    {
        if let Some(primary) = &self.canary_of {
            if !names.contains(primary.as_str()) {
                return Some(BackendFault::UnknownCanaryPrimary(primary.clone()));
            }
            if same_text(primary.as_str(), self.name.as_str()) {
                return Some(BackendFault::CanaryOfItself);
            }
            if self.weight == 0 {
                return Some(BackendFault::ZeroWeight);
            }
            if self.weight > 100 {
                return Some(BackendFault::WeightOutOfRange);
            }
        }
        None
    }

    fn find_failover_fault(&self, backends: &Vec<BackendConfig>, names: &NameSet) -> (fault: Option<
        BackendFault,
    >)
        requires
            forall|name: Seq<char>| #[trigger]
                names@.contains(name) <==> is_backend(backends@, name),
        ensures
            fault == self.failover_fault(backends@),
    {
        if let Some(primary) = &self.failover_for {
            if !names.contains(primary.as_str()) {
                return Some(BackendFault::UnknownFailoverPrimary(primary.clone()));
            }
            if same_text(primary.as_str(), self.name.as_str()) {
                return Some(BackendFault::FailoverForItself);
            }
        }
        None
    }
}

/// The groups of rules on backends, in the order in which they are looked at:
/// each group on all backends before the next.
#[derive(Debug, Clone, Copy)]
pub enum RuleGroup {
    /// What holds of a backend by itself.
    Own,
    /// Names are unique.
    Names,
    /// What a mirror refers to.
    Mirrors,
    /// What a canary refers to.
    Canaries,
    /// What a failover refers to.
    Failovers,
}

/// What the backend at a position breaks of a group of rules.
pub open spec fn fault_at(backends: Seq<BackendConfig>, group: RuleGroup, i: int) -> Option<
    BackendFault,
> {
    match group {
        RuleGroup::Own => backends[i].own_fault(),
        RuleGroup::Names => if is_backend(backends.take(i), backends[i].name@) {
            Some(BackendFault::DuplicateName)
        } else {
            None
        },
        RuleGroup::Mirrors => backends[i].mirror_fault(backends),
        RuleGroup::Canaries => backends[i].canary_fault(backends),
        RuleGroup::Failovers => backends[i].failover_fault(backends),
    }
}

/// The error for the first of the backends before position `n` that breaks a
/// group of rules.
pub open spec fn first_error(backends: Seq<BackendConfig>, group: RuleGroup, n: nat) -> Option<
    ConfigError,
>
    decreases n,
{
    if n == 0 {
        None
    } else {
        match first_error(backends, group, (n - 1) as nat) {
            Some(error) => Some(error),
            None => match fault_at(backends, group, n - 1) {
                Some(fault) => Some(ConfigError::Backend { name: backends[n - 1].name, fault }),
                None => None,
            },
        }
    }
}

proof fn lemma_first_error_stays(
    backends: Seq<BackendConfig>,
    group: RuleGroup,
    m: nat,
    n: nat,
)
    requires
        m <= n,
        first_error(backends, group, m) is Some,
    ensures
        first_error(backends, group, n) == first_error(backends, group, m),
    decreases n,
{
    if m < n {
        lemma_first_error_stays(backends, group, m, (n - 1) as nat);
    }
}

/// No backend breaks a rule exactly where no first error is found.
proof fn lemma_no_first_error(backends: Seq<BackendConfig>, group: RuleGroup, n: nat)
    ensures
        first_error(backends, group, n) is None <==> forall|i: int|
            0 <= i < n ==> (#[trigger] fault_at(backends, group, i)) is None,
    decreases n,
{
    if n > 0 {
        lemma_no_first_error(backends, group, (n - 1) as nat);
        if first_error(backends, group, n) is None {
            assert forall|i: int| 0 <= i < n implies (#[trigger] fault_at(
                backends,
                group,
                i,
            )) is None by {
                if i == n - 1 {
                }
            }
        } else if first_error(backends, group, (n - 1) as nat) is None {
            assert(fault_at(backends, group, n - 1) is Some);
        } else {
            let i = choose|i: int|
                0 <= i < n - 1 && (#[trigger] fault_at(backends, group, i)) is Some;
            assert(fault_at(backends, group, i) is Some);
        }
    }
}

/// A configuration that keeps every rule: there is a backend, each has what
/// its transport needs, every limit is in its range, no two share a name, and
/// mirrors, canaries and failovers refer to other backends that exist.
pub open spec fn keeps_rules(config: ProxyConfig) -> bool {
    let backends = config.backends@;
    &&& backends.len() > 0
    &&& forall|i: int| 0 <= i < backends.len() ==> (#[trigger] backends[i]).own_fault() is None
    &&& forall|i: int, j: int|
        0 <= i < j < backends.len() ==> (#[trigger] backends[i]).name@ != (
        #[trigger] backends[j]).name@
    &&& forall|i: int|
        0 <= i < backends.len() ==> (#[trigger] backends[i]).mirror_fault(backends) is None
    &&& forall|i: int|
        0 <= i < backends.len() ==> (#[trigger] backends[i]).canary_fault(backends) is None
    &&& forall|i: int|
        0 <= i < backends.len() ==> (#[trigger] backends[i]).failover_fault(backends) is None
}

/// The error for which a configuration is refused, `None` where it is not:
/// the first one, group of rules by group of rules.
pub open spec fn config_error(config: ProxyConfig) -> Option<ConfigError> {
    let backends = config.backends@;
    let n = backends.len();
    if n == 0 {
        Some(ConfigError::NoBackends)
    } else if first_error(backends, RuleGroup::Own, n) is Some {
        first_error(backends, RuleGroup::Own, n)
    } else if first_error(backends, RuleGroup::Names, n) is Some {
        first_error(backends, RuleGroup::Names, n)
    } else if first_error(backends, RuleGroup::Mirrors, n) is Some {
        first_error(backends, RuleGroup::Mirrors, n)
    } else if first_error(backends, RuleGroup::Canaries, n) is Some {
        first_error(backends, RuleGroup::Canaries, n)
    } else {
        first_error(backends, RuleGroup::Failovers, n)
    }
}

/// A configuration is refused exactly where it breaks a rule.
pub proof fn refused_exactly_where_a_rule_is_broken(config: ProxyConfig)
    ensures
        config_error(config) is None <==> keeps_rules(config),
{
    let backends = config.backends@;
    let n = backends.len();
    lemma_no_first_error(backends, RuleGroup::Own, n);
    lemma_no_first_error(backends, RuleGroup::Names, n);
    lemma_no_first_error(backends, RuleGroup::Mirrors, n);
    lemma_no_first_error(backends, RuleGroup::Canaries, n);
    lemma_no_first_error(backends, RuleGroup::Failovers, n);
    if config_error(config) is None {
        assert forall|i: int, j: int| 0 <= i < j < n implies (#[trigger] backends[i]).name@ != (
        #[trigger] backends[j]).name@ by {
            assert(fault_at(backends, RuleGroup::Names, j) is None);
            assert(backends.take(j)[i] == backends[i]);
        }
        assert forall|i: int| 0 <= i < n implies {
            &&& (#[trigger] backends[i]).own_fault() is None
            &&& backends[i].mirror_fault(backends) is None
            &&& backends[i].canary_fault(backends) is None
            &&& backends[i].failover_fault(backends) is None
        } by {
            assert(fault_at(backends, RuleGroup::Own, i) is None);
            assert(fault_at(backends, RuleGroup::Mirrors, i) is None);
            assert(fault_at(backends, RuleGroup::Canaries, i) is None);
            assert(fault_at(backends, RuleGroup::Failovers, i) is None);
        }
    }
    if keeps_rules(config) {
        assert forall|j: int| 0 <= j < n implies (#[trigger] fault_at(
            backends,
            RuleGroup::Names,
            j,
        )) is None by {
            if is_backend(backends.take(j), backends[j].name@) {
                let i = choose|i: int|
                    0 <= i < backends.take(j).len() && (#[trigger] backends.take(j)[i]).name@
                        == backends[j].name@;
                assert(backends.take(j)[i] == backends[i]);
            }
        }
    }
}

/// In a configuration that is not refused, a backend that mirrors another one,
/// is its canary or stands in for it is not the backend it refers to, and that
/// one exists.
pub proof fn references_lead_to_other_backends(config: ProxyConfig, i: int)
    requires
        config_error(config) is None,
        0 <= i < config.backends@.len(),
    ensures
        config.backends@[i].mirror_of matches Some(source) ==> is_backend(
            config.backends@,
            source@,
        ) && source@ != config.backends@[i].name@,
        config.backends@[i].canary_of matches Some(primary) ==> is_backend(
            config.backends@,
            primary@,
        ) && primary@ != config.backends@[i].name@,
        config.backends@[i].failover_for matches Some(primary) ==> is_backend(
            config.backends@,
            primary@,
        ) && primary@ != config.backends@[i].name@,
{
    refused_exactly_where_a_rule_is_broken(config);
    let backend = config.backends@[i];
    assert(backend.mirror_fault(config.backends@) is None);
    assert(backend.canary_fault(config.backends@) is None);
    assert(backend.failover_fault(config.backends@) is None);
}

/// In a configuration that is not refused, the weight of a canary is from 1 to
/// 100, and no mirror gets more than all requests.
pub proof fn accepted_shares_are_in_bounds(config: ProxyConfig, i: int)
    requires
        config_error(config) is None,
        0 <= i < config.backends@.len(),
    ensures
        config.backends@[i].canary_of is Some ==> 1 <= config.backends@[i].weight <= 100,
        config.backends@[i].mirror_of is Some ==> config.backends@[i].mirror_percent <= 100,
{
    refused_exactly_where_a_rule_is_broken(config);
    let backend = config.backends@[i];
    assert(backend.mirror_fault(config.backends@) is None);
    assert(backend.canary_fault(config.backends@) is None);
}

/// In a configuration that is not refused, a name leads to one backend.
pub proof fn accepted_names_are_unique(config: ProxyConfig, i: int, j: int)
    requires
        config_error(config) is None,
        0 <= i < config.backends@.len(),
        0 <= j < config.backends@.len(),
        config.backends@[i].name@ == config.backends@[j].name@,
    ensures
        i == j,
{
    refused_exactly_where_a_rule_is_broken(config);
}

/// The set of the names of the backends.
fn backend_names(backends: &Vec<BackendConfig>) -> (names: NameSet)
    ensures
        forall|name: Seq<char>| #[trigger]
            names@.contains(name) <==> is_backend(backends@, name),
{
    let mut names = NameSet::new();
    let mut i: usize = 0;
    while i < backends.len()
        invariant
            i <= backends@.len(),
            forall|name: Seq<char>| #[trigger]
                names@.contains(name) <==> exists|j: int|
                    0 <= j < i && (#[trigger] backends@[j]).name@ == name,
        decreases backends@.len() - i,
    {
        let ghost before = names@;
        names.insert(backends[i].name.clone());
        proof {
            assert forall|name: Seq<char>| #[trigger] names@.contains(name) <==> exists|j: int|
                0 <= j < i + 1 && (#[trigger] backends@[j]).name@ == name by {
                if before.contains(name) {
                    let j = choose|j: int| 0 <= j < i && (#[trigger] backends@[j]).name@ == name;
                    assert(0 <= j < i + 1 && backends@[j].name@ == name);
                }
                if name == backends@[i as int].name@ {
                    assert(0 <= i < i + 1 && backends@[i as int].name@ == name);
                }
            }
        }
        i = i + 1;
    }
    names
}

impl ProxyConfig {
    /// Whether a backend before a position has the name of the one there.
    fn is_name_taken(&self, i: usize) -> (taken: bool)
        requires
            i < self.backends@.len(),
        ensures
            taken == is_backend(self.backends@.take(i as int), self.backends@[i as int].name@),
    {
        let ghost earlier = self.backends@.take(i as int);
        let mut j: usize = 0;
        while j < i
            invariant
                j <= i < self.backends@.len(),
                earlier == self.backends@.take(i as int),
                forall|k: int|
                    0 <= k < j ==> (#[trigger] earlier[k]).name@ != self.backends@[i as int].name@,
            decreases i - j,
        {
            assert(earlier[j as int] == self.backends@[j as int]);
            if same_text(self.backends[j].name.as_str(), self.backends[i].name.as_str()) {
                return true;
            }
            j = j + 1;
        }
        false
    }

    fn find_fault(&self, group: RuleGroup, i: usize, names: &NameSet) -> (fault: Option<
        BackendFault,
    >)
        requires
            i < self.backends@.len(),
            forall|name: Seq<char>| #[trigger]
                names@.contains(name) <==> is_backend(self.backends@, name),
        ensures
            fault == fault_at(self.backends@, group, i as int),
    {
        let backend = &self.backends[i];
        match group {
            RuleGroup::Own => backend.find_own_fault(),
            RuleGroup::Names => if self.is_name_taken(i) {
                Some(BackendFault::DuplicateName)
            } else {
                None
            },
            RuleGroup::Mirrors => backend.find_mirror_fault(&self.backends, names),
            RuleGroup::Canaries => backend.find_canary_fault(&self.backends, names),
            RuleGroup::Failovers => backend.find_failover_fault(&self.backends, names),
        }
    }

    fn check(&self, group: RuleGroup, names: &NameSet) -> (result: Result<(), ConfigError>)
        requires
            forall|name: Seq<char>| #[trigger]
                names@.contains(name) <==> is_backend(self.backends@, name),
        ensures
            match result {
                Ok(_) => first_error(self.backends@, group, self.backends@.len()) is None,
                Err(error) => first_error(self.backends@, group, self.backends@.len()) == Some(
                    error,
                ),
            },
    {
        let mut i: usize = 0;
        while i < self.backends.len()
            invariant
                i <= self.backends@.len(),
                first_error(self.backends@, group, i as nat) is None,
                forall|name: Seq<char>| #[trigger]
                    names@.contains(name) <==> is_backend(self.backends@, name),
            decreases self.backends@.len() - i,
        {
            if let Some(fault) = self.find_fault(group, i, names) {
                let error = ConfigError::Backend { name: self.backends[i].name.clone(), fault };
                proof {
                    assert(first_error(self.backends@, group, (i + 1) as nat) == Some(error));
                    lemma_first_error_stays(
                        self.backends@,
                        group,
                        (i + 1) as nat,
                        self.backends@.len(),
                    );
                }
                return Err(error);
            }
            i = i + 1;
        }
        Ok(())
    }

    /// Checks the rules that a configuration keeps.
    pub fn validate(&self) -> (result: Result<(), ConfigError>)
        ensures
            match result {
                Ok(_) => config_error(*self) is None,
                Err(error) => config_error(*self) == Some(error),
            },
            result is Ok <==> keeps_rules(*self),
    {
        proof {
            refused_exactly_where_a_rule_is_broken(*self);
        }
        if self.backends.len() == 0 {
            return Err(ConfigError::NoBackends);
        }
        let names = backend_names(&self.backends);
        match self.check(RuleGroup::Own, &names) {
            Ok(_) => {},
            Err(error) => return Err(error),
        }
        match self.check(RuleGroup::Names, &names) {
            Ok(_) => {},
            Err(error) => return Err(error),
        }
        match self.check(RuleGroup::Mirrors, &names) {
            Ok(_) => {},
            Err(error) => return Err(error),
        }
        match self.check(RuleGroup::Canaries, &names) {
            Ok(_) => {},
            Err(error) => return Err(error),
        }
        self.check(RuleGroup::Failovers, &names)
    }
}

/// The name in a reference `${NAME}` to an environment variable.
pub open spec fn variable_name(value: Seq<char>) -> Option<Seq<char>> {
    match behind_prefix(value, "${"@) {
        Some(rest) => before_suffix(rest, "}"@),
        None => None,
    }
}

/// A value with its reference to an environment variable resolved. A value
/// that is no such reference stays, and so does one whose variable is not set.
pub open spec fn resolved(value: Seq<char>, environment: Map<Seq<char>, String>) -> Seq<char> {
    match variable_name(value) {
        Some(name) => if environment.contains_key(name) {
            environment[name]@
        } else {
            value
        },
        None => value,
    }
}

/// `after` is `before` with the references in its environment and its bearer
/// token resolved, and all else as it was.
pub open spec fn resolved_backend(
    before: BackendConfig,
    after: BackendConfig,
    environment: Map<Seq<char>, String>,
) -> bool {
    &&& after == BackendConfig { env: after.env, bearer_token: after.bearer_token, ..before }
    &&& after.env@.dom() == before.env@.dom()
    &&& forall|name: Seq<char>| #[trigger]
        before.env@.contains_key(name) ==> after.env@[name]@ == resolved(
            before.env@[name]@,
            environment,
        )
    &&& match before.bearer_token {
        Some(token) => after.bearer_token matches Some(t) && t@ == resolved(token@, environment),
        None => after.bearer_token is None,
    }
}

/// `after` is `before` with the references in accepted bearer tokens resolved,
/// and all else as it was.
pub open spec fn resolved_auth(
    before: Option<AuthConfig>,
    after: Option<AuthConfig>,
    environment: Map<Seq<char>, String>,
) -> bool {
    match before {
        Some(AuthConfig::Bearer { tokens }) => {
            &&& after matches Some(AuthConfig::Bearer { tokens: results })
            &&& results@.len() == tokens@.len()
            &&& forall|i: int|
                0 <= i < tokens@.len() ==> (#[trigger] results@[i])@ == resolved(
                    tokens@[i]@,
                    environment,
                )
        },
        _ => after == before,
    }
}

/// `${NAME}` is replaced by the value of the variable `NAME`, and stays where
/// that variable is not set.
pub proof fn references_are_resolved(name: Seq<char>, environment: Map<Seq<char>, String>)
    ensures
        variable_name("${"@ + name + "}"@) == Some(name),
        resolved("${"@ + name + "}"@, environment) == (if environment.contains_key(name) {
            environment[name]@
        } else {
            "${"@ + name + "}"@
        }),
{
    reveal_strlit("${");
    reveal_strlit("}");
    let value = "${"@ + name + "}"@;
    let rest = value.skip(2);
    assert("${"@.is_prefix_of(value)) by {
        assert(value.take(2) =~= "${"@);
    }
    assert(rest =~= name + "}"@);
    assert("}"@.is_suffix_of(rest)) by {
        assert(rest.skip(rest.len() - 1) =~= "}"@);
    }
    assert(rest.take(rest.len() - 1) =~= name);
}

/// A value that does not begin with `${` or does not end with `}` stays.
pub proof fn other_values_stay(value: Seq<char>, environment: Map<Seq<char>, String>)
    requires
        !"${"@.is_prefix_of(value) || !"}"@.is_suffix_of(value),
    ensures
        resolved(value, environment) == value,
{
    if "${"@.is_prefix_of(value) {
        let rest = value.skip("${"@.len() as int);
        if "}"@.is_suffix_of(rest) {
            reveal_strlit("}");
            assert(value.last() == rest.last());
            assert("}"@.is_suffix_of(value));
        }
    }
}

fn resolve_value(value: &String, environment: &NameMap<String>) -> (result: String)
    ensures
        result@ == resolved(value@, environment@),
{
    if let Some(rest) = strip_prefix(value.as_str(), "${") {
        if let Some(name) = strip_suffix(rest, "}") {
            if let Some(found) = environment.get(name) {
                return found.clone();
            }
        }
    }
    value.clone()
}

fn resolve_list(values: &Vec<String>, environment: &NameMap<String>) -> (results: Vec<String>)
    ensures
        results@.len() == values@.len(),
        forall|i: int|
            0 <= i < values@.len() ==> (#[trigger] results@[i])@ == resolved(
                values@[i]@,
                environment@,
            ),
{
    let mut results: Vec<String> = Vec::new();
    let mut i: usize = 0;
    while i < values.len()
        invariant
            i <= values@.len(),
            results@.len() == i,
            forall|j: int|
                0 <= j < i ==> (#[trigger] results@[j])@ == resolved(values@[j]@, environment@),
        decreases values@.len() - i,
    {
        results.push(resolve_value(&values[i], environment));
        i = i + 1;
    }
    results
}

fn resolve_values(values: &NameMap<String>, environment: &NameMap<String>) -> (result: NameMap<
    String,
>)
    ensures
        result@.dom() == values@.dom(),
        forall|name: Seq<char>| #[trigger]
            values@.contains_key(name) ==> result@[name]@ == resolved(
                values@[name]@,
                environment@,
            ),
{
    let names = values.names();
    let ghost order = texts(names@);
    let mut result: NameMap<String> = NameMap::new();
    let mut i: usize = 0;
    while i < names.len()
        invariant
            i <= names@.len(),
            order == texts(names@),
            order.to_set() == values@.dom(),
            forall|name: Seq<char>| #[trigger]
                result@.contains_key(name) <==> order.take(i as int).contains(name),
            forall|name: Seq<char>| #[trigger]
                result@.contains_key(name) ==> values@.contains_key(name) && result@[name]@
                    == resolved(values@[name]@, environment@),
        decreases names@.len() - i,
    {
        let ghost before = result@;
        let ghost key = order[i as int];
        assert(values@.dom().contains(key));
        if let Some(value) = values.get(names[i].as_str()) {
            result.insert(names[i].clone(), resolve_value(value, environment));
        }
        proof {
            let done = order.take(i as int);
            let next = order.take(i + 1);
            assert(next =~= done.push(key));
            assert forall|name: Seq<char>| #[trigger] result@.contains_key(name) <==> next.contains(
                name,
            ) by {
                assert(result@.contains_key(name) <==> before.contains_key(name) || name == key);
                if done.contains(name) {
                    let j = choose|j: int| 0 <= j < done.len() && done[j] == name;
                    assert(next[j] == name);
                }
                assert(next[i as int] == key);
                if next.contains(name) && name != key {
                    let j = choose|j: int| 0 <= j < next.len() && next[j] == name;
                    assert(done[j] == name);
                }
            }
            assert forall|name: Seq<char>| #[trigger]
                result@.contains_key(name) implies values@.contains_key(name) && result@[name]@
                == resolved(values@[name]@, environment@) by {
                if name != key {
                    assert(before.contains_key(name));
                }
            }
        }
        i = i + 1;
    }
    proof {
        assert(order.take(names@.len() as int) =~= order);
        assert forall|name: Seq<char>| result@.dom().contains(name) <==> values@.dom().contains(
            name,
        ) by {
            assert(result@.contains_key(name) <==> order.contains(name));
        }
        assert(result@.dom() =~= values@.dom());
        assert forall|name: Seq<char>| #[trigger]
            values@.contains_key(name) implies result@[name]@ == resolved(
            values@[name]@,
            environment@,
        ) by {
            assert(result@.dom().contains(name));
            assert(result@.contains_key(name));
        }
    }
    result
}

impl ProxyConfig {
    /// Resolve environment variable references in config values.
    /// Replaces `${VAR_NAME}` with the value of the environment variable.
    pub fn resolve_env_vars(&mut self, environment: &NameMap<String>)
        ensures
            *final(self) == (ProxyConfig {
                backends: final(self).backends,
                auth: final(self).auth,
                ..*old(self)
            }),
            resolved_auth(old(self).auth, final(self).auth, environment@),
            final(self).backends@.len() == old(self).backends@.len(),
            forall|i: int|
                0 <= i < old(self).backends@.len() ==> resolved_backend(
                    #[trigger] old(self).backends@[i],
                    final(self).backends@[i],
                    environment@,
                ),
    {
        let mut i: usize = 0;
        while i < self.backends.len()
            invariant
                i <= self.backends@.len(),
                *self == (ProxyConfig { backends: self.backends, ..*old(self) }),
                self.backends@.len() == old(self).backends@.len(),
                forall|j: int|
                    0 <= j < i ==> resolved_backend(
                        #[trigger] old(self).backends@[j],
                        self.backends@[j],
                        environment@,
                    ),
                forall|j: int|
                    i <= j < self.backends@.len() ==> self.backends@[j] == #[trigger] old(
                        self,
                    ).backends@[j],
            decreases self.backends@.len() - i,
        {
            let env = resolve_values(&self.backends[i].env, environment);
            let bearer_token: Option<String> = match &self.backends[i].bearer_token {
                Some(token) => Some(resolve_value(token, environment)),
                None => None,
            };
            let backend = &mut self.backends[i];
            backend.env = env;
            backend.bearer_token = bearer_token;
            i = i + 1;
        }
        let resolved_tokens: Option<Vec<String>> = match &self.auth {
            Some(AuthConfig::Bearer { tokens }) => Some(resolve_list(tokens, environment)),
            _ => None,
        };
        if let Some(tokens) = resolved_tokens {
            self.auth = Some(AuthConfig::Bearer { tokens });
        }
    }
}

proof fn lemma_listed_passes(expose: Seq<String>, hide: Seq<String>, name: Seq<char>)
    ensures
        listed(expose, hide).passes(name) <==> if expose.len() > 0 {
            exists|k: int| 0 <= k < expose.len() && (#[trigger] expose[k])@ == name
        } else {
            forall|k: int| 0 <= k < hide.len() ==> (#[trigger] hide[k])@ != name
        },
        listed(expose, hide) is All <==> expose.len() == 0 && hide.len() == 0,
{
    lemma_in_list(expose, name);
    lemma_in_list(hide, name);
}

proof fn lemma_in_list(list: Seq<String>, name: Seq<char>)
    ensures
        texts(list).to_set().contains(name) <==> exists|k: int|
            0 <= k < list.len() && (#[trigger] list[k])@ == name,
{
    if texts(list).contains(name) {
        let k = choose|k: int| 0 <= k < texts(list).len() && texts(list)[k] == name;
        assert(list[k]@ == name);
    }
    if exists|k: int| 0 <= k < list.len() && (#[trigger] list[k])@ == name {
        let k = choose|k: int| 0 <= k < list.len() && (#[trigger] list[k])@ == name;
        assert(texts(list)[k] == name);
    }
}

/// A backend that is no canary has a filter exactly where one of its six lists
/// is not empty. The filter is for its namespace, and decides on each kind of
/// name by the lists of that kind: where names are exposed only those pass,
/// else all but the hidden ones.
pub proof fn filters_follow_the_lists(
    backend: BackendConfig,
    separator: Seq<char>,
    name: Seq<char>,
)
    requires
        backend.canary_of is None,
    ensures
        backend.filter_rules(separator) is None <==> {
            &&& backend.expose_tools@.len() == 0
            &&& backend.hide_tools@.len() == 0
            &&& backend.expose_resources@.len() == 0
            &&& backend.hide_resources@.len() == 0
            &&& backend.expose_prompts@.len() == 0
            &&& backend.hide_prompts@.len() == 0
        },
        backend.filter_rules(separator) matches Some(rules) ==> {
            &&& rules.namespace == backend.name@ + separator
            &&& !rules.hide_destructive
            &&& !rules.read_only_only
            &&& rules.tools.passes(name) <==> if backend.expose_tools@.len() > 0 {
                exists|k: int|
                    0 <= k < backend.expose_tools@.len() && (#[trigger] backend.expose_tools@[k])@
                        == name
            } else {
                forall|k: int|
                    0 <= k < backend.hide_tools@.len() ==> (#[trigger] backend.hide_tools@[k])@
                        != name
            }
            &&& rules.resources.passes(name) <==> if backend.expose_resources@.len() > 0 {
                exists|k: int|
                    0 <= k < backend.expose_resources@.len() && (
                    #[trigger] backend.expose_resources@[k])@ == name
            } else {
                forall|k: int|
                    0 <= k < backend.hide_resources@.len() ==> (
                    #[trigger] backend.hide_resources@[k])@ != name
            }
            &&& rules.prompts.passes(name) <==> if backend.expose_prompts@.len() > 0 {
                exists|k: int|
                    0 <= k < backend.expose_prompts@.len() && (
                    #[trigger] backend.expose_prompts@[k])@ == name
            } else {
                forall|k: int|
                    0 <= k < backend.hide_prompts@.len() ==> (#[trigger] backend.hide_prompts@[k])@
                        != name
            }
        },
{
    lemma_listed_passes(backend.expose_tools@, backend.hide_tools@, name);
    lemma_listed_passes(backend.expose_resources@, backend.hide_resources@, name);
    lemma_listed_passes(backend.expose_prompts@, backend.hide_prompts@, name);
}

/// A canary always has a filter, for its namespace, and nothing passes it.
pub proof fn canaries_have_a_filter(
    backend: BackendConfig,
    separator: Seq<char>,
    name: Seq<char>,
)
    requires
        backend.canary_of is Some,
    ensures
        backend.filter_rules(separator) matches Some(rules) && {
            &&& rules.namespace == backend.name@ + separator
            &&& !rules.tools.passes(name)
            &&& !rules.resources.passes(name)
            &&& !rules.prompts.passes(name)
        },
{
}

/// A filter says what it holds, and a name passes by what its set holds.
pub proof fn filters_say_what_they_hold(filter: BackendFilter, name: Seq<char>)
    ensures
        filter@.namespace == filter.namespace@,
        filter@.tools == filter.tool_filter@,
        filter@.resources == filter.resource_filter@,
        filter@.prompts == filter.prompt_filter@,
        filter@.hide_destructive == filter.hide_destructive,
        filter@.read_only_only == filter.read_only_only,
        filter.tool_filter@.passes(name) <==> match filter.tool_filter {
            NameFilter::PassAll => true,
            NameFilter::AllowList(set) => set@.contains(name),
            NameFilter::DenyList(set) => !set@.contains(name),
        },
{
}

/// What is wrong with a backend by itself, in the order in which it is looked
/// for: its transport lacks a command or a URL, the failure rate is not above
/// zero and at most one, the rate limit or the concurrency limit is zero, or
/// one kind of names is both exposed and hidden.
pub proof fn backends_are_refused_for_what_is_wrong(backend: BackendConfig)
    ensures
        ({
            let no_command = backend.transport is Stdio && backend.command is None;
            let no_http_url = backend.transport is Http && backend.url is None;
            let no_websocket_url = backend.transport is Websocket && backend.url is None;
            let unconnected = no_command || no_http_url || no_websocket_url;
            let bad_rate = backend.circuit_breaker is Some
                && !(0 < backend.circuit_breaker->0.failure_rate_threshold.bits
                <= 0x3ff0_0000_0000_0000);
            let no_rate = backend.rate_limit is Some && backend.rate_limit->0.requests == 0;
            let no_concurrency = backend.concurrency is Some
                && backend.concurrency->0.max_concurrent == 0;
            let tools = backend.expose_tools@.len() > 0 && backend.hide_tools@.len() > 0;
            let resources = backend.expose_resources@.len() > 0 && backend.hide_resources@.len()
                > 0;
            let prompts = backend.expose_prompts@.len() > 0 && backend.hide_prompts@.len() > 0;
            &&& backend.own_fault() is None <==> !(unconnected || bad_rate || no_rate
                || no_concurrency || tools || resources || prompts)
            &&& no_command ==> backend.own_fault() == Some(BackendFault::StdioWithoutCommand)
            &&& no_http_url ==> backend.own_fault() == Some(BackendFault::HttpWithoutUrl)
            &&& no_websocket_url ==> backend.own_fault() == Some(BackendFault::WebsocketWithoutUrl)
            &&& !unconnected && bad_rate ==> backend.own_fault() == Some(
                BackendFault::FailureRateOutOfRange,
            )
            &&& !unconnected && !bad_rate && no_rate ==> backend.own_fault() == Some(
                BackendFault::ZeroRateLimit,
            )
            &&& !unconnected && !bad_rate && !no_rate && no_concurrency ==> backend.own_fault()
                == Some(BackendFault::ZeroConcurrency)
            &&& !unconnected && !bad_rate && !no_rate && !no_concurrency && tools
                ==> backend.own_fault() == Some(BackendFault::ExposeAndHideTools)
            &&& !unconnected && !bad_rate && !no_rate && !no_concurrency && !tools && resources
                ==> backend.own_fault() == Some(BackendFault::ExposeAndHideResources)
            &&& !unconnected && !bad_rate && !no_rate && !no_concurrency && !tools && !resources
                && prompts ==> backend.own_fault() == Some(BackendFault::ExposeAndHidePrompts)
        }),
{
    if backend.circuit_breaker is Some {
        the_unit_interval_is_a_range_of_patterns(
            backend.circuit_breaker->0.failure_rate_threshold,
        );
    }
}

/// What is wrong with the references of a backend, in the order in which it is
/// looked for: they lead to no backend, to the backend itself, or the share of
/// the requests is out of its bounds.
pub proof fn references_are_refused_for_what_is_wrong(
    backend: BackendConfig,
    backends: Seq<BackendConfig>,
)
    ensures
        match backend.mirror_of {
            None => backend.mirror_fault(backends) is None,
            Some(source) => {
                let exists_source = exists|j: int|
                    0 <= j < backends.len() && (#[trigger] backends[j]).name@ == source@;
                &&& !exists_source ==> backend.mirror_fault(backends) == Some(
                    BackendFault::UnknownMirrorSource(source),
                )
                &&& exists_source && source@ == backend.name@ ==> backend.mirror_fault(backends)
                    == Some(BackendFault::MirrorOfItself)
                &&& exists_source && source@ != backend.name@ && backend.mirror_percent > 100
                    ==> backend.mirror_fault(backends) == Some(
                    BackendFault::MirrorPercentOutOfRange,
                )
                &&& exists_source && source@ != backend.name@ && backend.mirror_percent <= 100
                    ==> backend.mirror_fault(backends) is None
            },
        },
        match backend.canary_of {
            None => backend.canary_fault(backends) is None,
            Some(primary) => {
                let exists_primary = exists|j: int|
                    0 <= j < backends.len() && (#[trigger] backends[j]).name@ == primary@;
                &&& !exists_primary ==> backend.canary_fault(backends) == Some(
                    BackendFault::UnknownCanaryPrimary(primary),
                )
                &&& exists_primary && primary@ == backend.name@ ==> backend.canary_fault(backends)
                    == Some(BackendFault::CanaryOfItself)
                &&& exists_primary && primary@ != backend.name@ && backend.weight == 0
                    ==> backend.canary_fault(backends) == Some(BackendFault::ZeroWeight)
                &&& exists_primary && primary@ != backend.name@ && backend.weight > 100
                    ==> backend.canary_fault(backends) == Some(BackendFault::WeightOutOfRange)
                &&& exists_primary && primary@ != backend.name@ && 1 <= backend.weight <= 100
                    ==> backend.canary_fault(backends) is None
            },
        },
        match backend.failover_for {
            None => backend.failover_fault(backends) is None,
            Some(primary) => {
                let exists_primary = exists|j: int|
                    0 <= j < backends.len() && (#[trigger] backends[j]).name@ == primary@;
                &&& !exists_primary ==> backend.failover_fault(backends) == Some(
                    BackendFault::UnknownFailoverPrimary(primary),
                )
                &&& exists_primary && primary@ == backend.name@ ==> backend.failover_fault(backends)
                    == Some(BackendFault::FailoverForItself)
                &&& exists_primary && primary@ != backend.name@ ==> backend.failover_fault(
                    backends,
                ) is None
            },
        },
{
}

/// A configuration is accepted exactly where it has a backend, no backend has
/// anything wrong with itself or its references, and no two have one name.
pub proof fn accepted_exactly_where_nothing_is_wrong(config: ProxyConfig)
    ensures
        config_error(config) is None <==> {
            let b = config.backends@;
            &&& b.len() > 0
            &&& forall|i: int| 0 <= i < b.len() ==> (#[trigger] b[i]).own_fault() is None
            &&& forall|i: int, j: int|
                0 <= i < j < b.len() ==> (#[trigger] b[i]).name@ != (#[trigger] b[j]).name@
            &&& forall|i: int| 0 <= i < b.len() ==> (#[trigger] b[i]).mirror_fault(b) is None
            &&& forall|i: int| 0 <= i < b.len() ==> (#[trigger] b[i]).canary_fault(b) is None
            &&& forall|i: int| 0 <= i < b.len() ==> (#[trigger] b[i]).failover_fault(b) is None
        },
{
    refused_exactly_where_a_rule_is_broken(config);
}

proof fn lemma_no_error_before(backends: Seq<BackendConfig>, group: RuleGroup, n: nat)
    requires
        forall|j: int| 0 <= j < n ==> (#[trigger] fault_at(backends, group, j)) is None,
    ensures
        first_error(backends, group, n) is None,
{
    lemma_no_first_error(backends, group, n);
}

proof fn lemma_first_error_is(backends: Seq<BackendConfig>, group: RuleGroup, i: int)
    requires
        0 <= i < backends.len(),
        fault_at(backends, group, i) is Some,
        forall|j: int| 0 <= j < i ==> (#[trigger] fault_at(backends, group, j)) is None,
    ensures
        first_error(backends, group, backends.len()) == Some(
            ConfigError::Backend {
                name: backends[i].name,
                fault: fault_at(backends, group, i)->0,
            },
        ),
{
    lemma_no_error_before(backends, group, i as nat);
    lemma_first_error_stays(backends, group, (i + 1) as nat, backends.len());
}

/// Where backends have something wrong with themselves, the first of them is
/// reported, with what is wrong with it.
pub proof fn faults_of_backends_are_reported_first(config: ProxyConfig, i: int)
    requires
        0 <= i < config.backends@.len(),
        config.backends@[i].own_fault() is Some,
        forall|j: int| 0 <= j < i ==> (#[trigger] config.backends@[j]).own_fault() is None,
    ensures
        config_error(config) == Some(
            ConfigError::Backend {
                name: config.backends@[i].name,
                fault: config.backends@[i].own_fault()->0,
            },
        ),
{
    let b = config.backends@;
    assert forall|j: int| 0 <= j < i implies (#[trigger] fault_at(
        b,
        RuleGroup::Own,
        j,
    )) is None by {
        assert(b[j].own_fault() is None);
    }
    lemma_first_error_is(b, RuleGroup::Own, i);
}

proof fn lemma_own_rules_kept(b: Seq<BackendConfig>)
    requires
        forall|j: int| 0 <= j < b.len() ==> (#[trigger] b[j]).own_fault() is None,
    ensures
        first_error(b, RuleGroup::Own, b.len()) is None,
{
    assert forall|j: int| 0 <= j < b.len() implies (#[trigger] fault_at(
        b,
        RuleGroup::Own,
        j,
    )) is None by {
        assert(b[j].own_fault() is None);
    }
    lemma_no_error_before(b, RuleGroup::Own, b.len());
}

proof fn lemma_names_free(b: Seq<BackendConfig>, n: int, j: int)
    requires
        0 <= j < n <= b.len(),
        forall|a: int, c: int|
            0 <= a < c < n ==> (#[trigger] b[a]).name@ != (#[trigger] b[c]).name@,
    ensures
        fault_at(b, RuleGroup::Names, j) is None,
{
    if is_backend(b.take(j), b[j].name@) {
        let i = choose|i: int|
            0 <= i < b.take(j).len() && (#[trigger] b.take(j)[i]).name@ == b[j].name@;
        assert(b.take(j)[i] == b[i]);
    }
}

/// Where nothing is wrong with the backends themselves, the first one that has
/// the name of an earlier one is reported.
pub proof fn names_that_occur_twice_are_reported(config: ProxyConfig, i: int, k: int)
    requires
        0 <= i < k < config.backends@.len(),
        forall|j: int|
            0 <= j < config.backends@.len() ==> (#[trigger] config.backends@[j]).own_fault() is None,
        config.backends@[i].name@ == config.backends@[k].name@,
        forall|a: int, c: int|
            0 <= a < c < k ==> (#[trigger] config.backends@[a]).name@ != (
            #[trigger] config.backends@[c]).name@,
    ensures
        config_error(config) == Some(
            ConfigError::Backend {
                name: config.backends@[k].name,
                fault: BackendFault::DuplicateName,
            },
        ),
{
    let b = config.backends@;
    lemma_own_rules_kept(b);
    assert forall|j: int| 0 <= j < k implies (#[trigger] fault_at(
        b,
        RuleGroup::Names,
        j,
    )) is None by {
        lemma_names_free(b, k, j);
    }
    assert(b.take(k)[i] == b[i]);
    lemma_first_error_is(b, RuleGroup::Names, k);
}

proof fn lemma_names_kept(b: Seq<BackendConfig>)
    requires
        forall|a: int, c: int|
            0 <= a < c < b.len() ==> (#[trigger] b[a]).name@ != (#[trigger] b[c]).name@,
    ensures
        first_error(b, RuleGroup::Names, b.len()) is None,
{
    assert forall|j: int| 0 <= j < b.len() implies (#[trigger] fault_at(
        b,
        RuleGroup::Names,
        j,
    )) is None by {
        lemma_names_free(b, b.len() as int, j);
    }
    lemma_no_error_before(b, RuleGroup::Names, b.len());
}

/// After that, the first mirror with something wrong is reported.
pub proof fn faults_of_mirrors_are_reported(config: ProxyConfig, i: int)
    requires
        0 <= i < config.backends@.len(),
        forall|j: int|
            0 <= j < config.backends@.len() ==> (#[trigger] config.backends@[j]).own_fault() is None,
        forall|a: int, c: int|
            0 <= a < c < config.backends@.len() ==> (#[trigger] config.backends@[a]).name@ != (
            #[trigger] config.backends@[c]).name@,
        config.backends@[i].mirror_fault(config.backends@) is Some,
        forall|j: int|
            0 <= j < i ==> (#[trigger] config.backends@[j]).mirror_fault(
                config.backends@,
            ) is None,
    ensures
        config_error(config) == Some(
            ConfigError::Backend {
                name: config.backends@[i].name,
                fault: config.backends@[i].mirror_fault(config.backends@)->0,
            },
        ),
{
    let b = config.backends@;
    lemma_own_rules_kept(b);
    lemma_names_kept(b);
    assert forall|j: int| 0 <= j < i implies (#[trigger] fault_at(
        b,
        RuleGroup::Mirrors,
        j,
    )) is None by {
        assert(b[j].mirror_fault(b) is None);
    }
    lemma_first_error_is(b, RuleGroup::Mirrors, i);
}

proof fn lemma_mirrors_kept(b: Seq<BackendConfig>)
    requires
        forall|j: int| 0 <= j < b.len() ==> (#[trigger] b[j]).mirror_fault(b) is None,
    ensures
        first_error(b, RuleGroup::Mirrors, b.len()) is None,
{
    assert forall|j: int| 0 <= j < b.len() implies (#[trigger] fault_at(
        b,
        RuleGroup::Mirrors,
        j,
    )) is None by {
        assert(b[j].mirror_fault(b) is None);
    }
    lemma_no_error_before(b, RuleGroup::Mirrors, b.len());
}

/// After that, the first canary with something wrong is reported.
pub proof fn faults_of_canaries_are_reported(config: ProxyConfig, i: int)
    requires
        0 <= i < config.backends@.len(),
        forall|j: int|
            0 <= j < config.backends@.len() ==> (#[trigger] config.backends@[j]).own_fault() is None,
        forall|a: int, c: int|
            0 <= a < c < config.backends@.len() ==> (#[trigger] config.backends@[a]).name@ != (
            #[trigger] config.backends@[c]).name@,
        forall|j: int|
            0 <= j < config.backends@.len() ==> (#[trigger] config.backends@[j]).mirror_fault(
                config.backends@,
            ) is None,
        config.backends@[i].canary_fault(config.backends@) is Some,
        forall|j: int|
            0 <= j < i ==> (#[trigger] config.backends@[j]).canary_fault(
                config.backends@,
            ) is None,
    ensures
        config_error(config) == Some(
            ConfigError::Backend {
                name: config.backends@[i].name,
                fault: config.backends@[i].canary_fault(config.backends@)->0,
            },
        ),
{
    let b = config.backends@;
    lemma_own_rules_kept(b);
    lemma_names_kept(b);
    lemma_mirrors_kept(b);
    assert forall|j: int| 0 <= j < i implies (#[trigger] fault_at(
        b,
        RuleGroup::Canaries,
        j,
    )) is None by {
        assert(b[j].canary_fault(b) is None);
    }
    lemma_first_error_is(b, RuleGroup::Canaries, i);
}

/// After that, the first failover with something wrong is reported.
pub proof fn faults_of_failovers_are_reported(config: ProxyConfig, i: int)
    requires
        0 <= i < config.backends@.len(),
        forall|j: int|
            0 <= j < config.backends@.len() ==> (#[trigger] config.backends@[j]).own_fault() is None,
        forall|a: int, c: int|
            0 <= a < c < config.backends@.len() ==> (#[trigger] config.backends@[a]).name@ != (
            #[trigger] config.backends@[c]).name@,
        forall|j: int|
            0 <= j < config.backends@.len() ==> (#[trigger] config.backends@[j]).mirror_fault(
                config.backends@,
            ) is None,
        forall|j: int|
            0 <= j < config.backends@.len() ==> (#[trigger] config.backends@[j]).canary_fault(
                config.backends@,
            ) is None,
        config.backends@[i].failover_fault(config.backends@) is Some,
        forall|j: int|
            0 <= j < i ==> (#[trigger] config.backends@[j]).failover_fault(
                config.backends@,
            ) is None,
    ensures
        config_error(config) == Some(
            ConfigError::Backend {
                name: config.backends@[i].name,
                fault: config.backends@[i].failover_fault(config.backends@)->0,
            },
        ),
{
    let b = config.backends@;
    lemma_own_rules_kept(b);
    lemma_names_kept(b);
    lemma_mirrors_kept(b);
    assert forall|j: int| 0 <= j < b.len() implies (#[trigger] fault_at(
        b,
        RuleGroup::Canaries,
        j,
    )) is None by {
        assert(b[j].canary_fault(b) is None);
    }
    lemma_no_error_before(b, RuleGroup::Canaries, b.len());
    assert forall|j: int| 0 <= j < i implies (#[trigger] fault_at(
        b,
        RuleGroup::Failovers,
        j,
    )) is None by {
        assert(b[j].failover_fault(b) is None);
    }
    lemma_first_error_is(b, RuleGroup::Failovers, i);
}

/// A configuration without backends is refused for that.
pub proof fn configurations_need_a_backend(config: ProxyConfig)
    requires
        config.backends@.len() == 0,
    ensures
        config_error(config) == Some(ConfigError::NoBackends),
{
}

/// An error on a backend gives its name and what is wrong with it in words.
pub proof fn errors_say_what_is_wrong(name: String, fault: BackendFault)
    ensures
        ConfigError::NoBackends.text() == "at least one backend is required"@,
        (ConfigError::Backend { name, fault }).text() == "backend '"@ + name@ + "': "@
            + fault.text(),
        match fault {
            BackendFault::StdioWithoutCommand => fault.text()
                == "stdio transport requires 'command'"@,
            BackendFault::HttpWithoutUrl => fault.text() == "http transport requires 'url'"@,
            BackendFault::WebsocketWithoutUrl => fault.text()
                == "websocket transport requires 'url'"@,
            BackendFault::FailureRateOutOfRange => fault.text()
                == "circuit_breaker.failure_rate_threshold must be in (0.0, 1.0]"@,
            BackendFault::ZeroRateLimit => fault.text() == "rate_limit.requests must be > 0"@,
            BackendFault::ZeroConcurrency => fault.text()
                == "concurrency.max_concurrent must be > 0"@,
            BackendFault::ExposeAndHideTools => fault.text()
                == "cannot specify both expose_tools and hide_tools"@,
            BackendFault::ExposeAndHideResources => fault.text()
                == "cannot specify both expose_resources and hide_resources"@,
            BackendFault::ExposeAndHidePrompts => fault.text()
                == "cannot specify both expose_prompts and hide_prompts"@,
            BackendFault::DuplicateName => fault.text() == "backend names must be unique"@,
            BackendFault::UnknownMirrorSource(other) => fault.text()
                == "mirror_of references unknown backend '"@ + other@ + "'"@,
            BackendFault::MirrorOfItself => fault.text() == "mirror_of cannot reference itself"@,
            BackendFault::MirrorPercentOutOfRange => fault.text()
                == "mirror_percent must be <= 100"@,
            BackendFault::UnknownCanaryPrimary(other) => fault.text()
                == "canary_of references unknown backend '"@ + other@ + "'"@,
            BackendFault::CanaryOfItself => fault.text() == "canary_of cannot reference itself"@,
            BackendFault::ZeroWeight => fault.text() == "weight must be > 0"@,
            BackendFault::WeightOutOfRange => fault.text() == "weight must be <= 100"@,
            BackendFault::UnknownFailoverPrimary(other) => fault.text()
                == "failover_for references unknown backend '"@ + other@ + "'"@,
            BackendFault::FailoverForItself => fault.text()
                == "failover_for cannot reference itself"@,
        },
{
}

/// A value is resolved exactly where it is `${`, the name of a variable that
/// is set, and `}`: then it becomes the value of that variable. Any other
/// value stays.
pub proof fn values_are_resolved_or_stay(
    value: Seq<char>,
    name: Seq<char>,
    environment: Map<Seq<char>, String>,
)
    ensures
        value == "${"@ + name + "}"@ && environment.contains_key(name) ==> resolved(
            value,
            environment,
        ) == environment[name]@,
        (forall|n: Seq<char>|
            environment.contains_key(n) ==> value != #[trigger] ("${"@ + n + "}"@)) ==> resolved(
            value,
            environment,
        ) == value,
{
    references_are_resolved(name, environment);
    if variable_name(value) is Some {
        let n = variable_name(value)->0;
        let rest = behind_prefix(value, "${"@)->0;
        prefixes_come_off(value, "${"@, rest);
        suffixes_come_off(rest, "}"@, n);
        assert(value =~= "${"@ + n + "}"@);
    }
}

/// Resolving the references of a backend resolves its bearer token and each
/// value of its environment, and leaves everything else as it was.
pub proof fn tokens_and_environments_are_resolved(
    before: BackendConfig,
    after: BackendConfig,
    environment: Map<Seq<char>, String>,
    name: Seq<char>,
)
    requires
        resolved_backend(before, after, environment),
    ensures
        after == (BackendConfig { env: after.env, bearer_token: after.bearer_token, ..before }),
        before.bearer_token is None <==> after.bearer_token is None,
        before.bearer_token is Some ==> after.bearer_token->0@ == resolved(
            before.bearer_token->0@,
            environment,
        ),
        after.env@.contains_key(name) <==> before.env@.contains_key(name),
        before.env@.contains_key(name) ==> after.env@[name]@ == resolved(
            before.env@[name]@,
            environment,
        ),
{
    assert(after.env@.dom().contains(name) == before.env@.dom().contains(name));
}

/// Resolving the references of the authentication resolves each accepted
/// bearer token, and leaves any other authentication as it was.
pub proof fn accepted_tokens_are_resolved(
    before: Option<AuthConfig>,
    after: Option<AuthConfig>,
    environment: Map<Seq<char>, String>,
)
    requires
        resolved_auth(before, after, environment),
    ensures
        match before {
            Some(AuthConfig::Bearer { tokens }) => after matches Some(
                AuthConfig::Bearer { tokens: results },
            ) && results@.len() == tokens@.len() && forall|i: int|
                0 <= i < tokens@.len() ==> (#[trigger] results@[i])@ == resolved(
                    tokens@[i]@,
                    environment,
                ),
            _ => after == before,
        },
{
}

/// An expose list that is not empty decides alone: it lets pass what it holds.
/// Else a hide list that is not empty does: it lets pass what it does not hold.
/// Without either everything passes.
pub proof fn expose_lists_come_before_hide_lists(
    expose: Seq<String>,
    hide: Seq<String>,
    name: Seq<char>,
)
    ensures
        listed(expose, hide) is Only <==> expose.len() > 0,
        listed(expose, hide) is All <==> expose.len() == 0 && hide.len() == 0,
        listed(expose, hide).passes(name) <==> if expose.len() > 0 {
            exists|k: int| 0 <= k < expose.len() && (#[trigger] expose[k])@ == name
        } else {
            forall|k: int| 0 <= k < hide.len() ==> (#[trigger] hide[k])@ != name
        },
{
    lemma_listed_passes(expose, hide, name);
}

} // verus!
