use mcp_proxy::admin::{
    health_response, AdminState, BackendHealth, BackendMeta, BackendStatus, HealthTracker,
    Timestamp,
};
use mcp_proxy::admin_tools::{
    add_backend_text, admin_tool_names, backend_info, call_failure_text, health_check,
    list_backends, session_count, AddBackendInput, CallFailure,
};
use mcp_proxy::discovery::{
    build_index, default_similar_k, default_top_k, extract_params, group_tools, index_tools,
    is_indexable, search_tools, similar_tools, sort_categories, tool_categories, tool_definition_to_spec,
    CategorySummary, SearchResultEntry, ToolDefinition,
};
use mcp_proxy::names::{NameMap, NameSet};
use mcp_proxy::protocol::ToolAnnotations;
use mcp_proxy::skills::{build_skills, prompt_text};
use mcp_proxy::text;

const NOW: Timestamp = Timestamp {
    seconds: 1_700_000_000,
    nanoseconds: 500_000_000,
};

fn status(name: &str, healthy: bool) -> BackendStatus {
    BackendStatus {
        namespace: name.to_string(),
        healthy,
        last_checked_at: Some(NOW),
        consecutive_failures: if healthy { 0 } else { 3 },
        error: if healthy {
            None
        } else {
            Some("ping failed".to_string())
        },
        transport: Some(if healthy { "http" } else { "stdio" }.to_string()),
    }
}

fn make_state(statuses: Vec<BackendStatus>) -> AdminState {
    let mut state = AdminState::new("test-gw".to_string(), "1.0.0".to_string(), statuses.len());
    state.set_health(statuses);
    state
}

// ============================================================================
// Admin state
// ============================================================================

#[test]
fn test_admin_state_accessors() {
    let state = make_state(vec![status("db/", true)]);
    assert_eq!(state.proxy_name(), "test-gw");
    assert_eq!(state.proxy_version(), "1.0.0");
    assert_eq!(state.backend_count(), 1);

    let health = state.health();
    assert_eq!(health.len(), 1);
    assert!(health[0].healthy);
}

#[test]
fn test_health_endpoint_all_healthy() {
    let state = make_state(vec![status("db/", true), status("api/", true)]);
    let response = health_response(&state.health());
    assert_eq!(response.status, "healthy");
    assert!(response.unhealthy_backends.is_empty());
}

#[test]
fn test_health_endpoint_degraded() {
    let state = make_state(vec![status("db/", true), status("flaky/", false)]);
    let response = health_response(&state.health());
    assert_eq!(response.status, "degraded");
    assert_eq!(response.unhealthy_backends.len(), 1);
    assert_eq!(response.unhealthy_backends[0], "flaky/");
}

#[test]
fn test_backends_endpoint() {
    let state = make_state(vec![status("db/", true)]);
    let response = state.backends_response(2);
    assert_eq!(response.proxy.name, "test-gw");
    assert_eq!(response.proxy.version, "1.0.0");
    assert_eq!(response.proxy.backend_count, 1);
    assert_eq!(response.proxy.active_sessions, 2);
    assert_eq!(response.backends.len(), 1);
    assert_eq!(response.backends[0].namespace, "db/");
    assert!(response.backends[0].healthy);
}

#[test]
fn no_backends_are_healthy() {
    assert_eq!(health_response(&vec![]).status, "healthy");
    let result = health_check(&make_state(vec![]));
    assert_eq!(result.status, "healthy");
    assert_eq!((result.healthy_count, result.total_count), (0, 0));
}

#[test]
fn failures_are_counted() {
    let mut tracker = HealthTracker::new();
    let mut meta = NameMap::new();
    meta.insert(
        "a".to_string(),
        BackendMeta {
            transport: "http".to_string(),
        },
    );
    let mut check = |a: bool, b: bool| {
        tracker.check(
            &vec![
                BackendHealth {
                    namespace: "a".to_string(),
                    healthy: a,
                },
                BackendHealth {
                    namespace: "b".to_string(),
                    healthy: b,
                },
            ],
            NOW,
            &meta,
        )
    };
    let counts = |s: &Vec<BackendStatus>| (s[0].consecutive_failures, s[1].consecutive_failures);
    assert_eq!(counts(&check(true, false)), (0, 1));
    assert_eq!(counts(&check(false, false)), (1, 2));
    let statuses = check(false, true);
    assert_eq!(counts(&statuses), (2, 0));
    assert_eq!(statuses[0].error.as_deref(), Some("ping failed"));
    assert_eq!(statuses[0].transport.as_deref(), Some("http"));
    assert_eq!(statuses[0].last_checked_at, Some(NOW));
    assert_eq!(statuses[1].error, None);
    assert_eq!(statuses[1].transport, None);
    assert_eq!(counts(&check(true, false)), (0, 1));
}

// ============================================================================
// Admin tools
// ============================================================================

#[test]
fn backends_are_listed_with_their_times() {
    let state = make_state(vec![status("db/", true), status("x/", false)]);
    let result = list_backends(&state);
    assert_eq!(result.proxy_name, "test-gw");
    assert_eq!(result.proxy_version, "1.0.0");
    assert_eq!(result.backend_count, 2);
    assert_eq!(result.backends.len(), 2);
    let first = &result.backends[0];
    assert_eq!(first.namespace, "db/");
    assert_eq!(
        first.last_checked_at.as_deref(),
        Some("2023-11-14T22:13:20.500+00:00")
    );
    let second = &result.backends[1];
    assert!(!second.healthy);
    assert_eq!(second.consecutive_failures, 3);
    assert_eq!(second.error.as_deref(), Some("ping failed"));
    assert_eq!(second.transport.as_deref(), Some("stdio"));
}

#[test]
fn times_that_cannot_be_shown_are_left_out() {
    let mut unchecked = status("a/", true);
    unchecked.last_checked_at = None;
    let mut far = status("b/", true);
    far.last_checked_at = Some(Timestamp {
        seconds: i64::MAX,
        nanoseconds: 0,
    });
    let result = list_backends(&make_state(vec![unchecked, far]));
    assert_eq!(result.backends[0].last_checked_at, None);
    assert_eq!(result.backends[1].last_checked_at, None);
    let info = backend_info(&status("c/", true), Some("then".to_string()));
    assert_eq!(info.last_checked_at.as_deref(), Some("then"));
}

#[test]
fn healthy_backends_are_counted() {
    let state = make_state(vec![
        status("a/", true),
        status("b/", false),
        status("c/", true),
    ]);
    let result = health_check(&state);
    assert_eq!(result.status, "degraded");
    assert_eq!((result.healthy_count, result.total_count), (2, 3));
    assert_eq!(result.backends.len(), 3);
    assert_eq!(session_count(5).active_sessions, 5);
}

#[test]
fn answers_of_the_tools() {
    let input = AddBackendInput {
        name: "new".to_string(),
        url: "http://x".to_string(),
    };
    assert_eq!(
        add_backend_text(&input, None),
        "Backend 'new' added successfully at http://x"
    );
    assert_eq!(
        add_backend_text(&input, Some("refused")),
        "Failed to add backend 'new': refused"
    );
    assert_eq!(
        call_failure_text("t", &CallFailure::UnexpectedResponse),
        "Unexpected response type for tool 't'"
    );
    assert_eq!(
        call_failure_text("t", &CallFailure::Error("boom".to_string())),
        "Error calling 't': boom"
    );
    assert_eq!(
        call_failure_text("t", &CallFailure::Internal),
        "Internal error calling 't'"
    );
}

#[test]
fn names_of_the_tools() {
    let discovery = vec!["search_tools".to_string()];
    assert_eq!(
        admin_tool_names(false, &vec![]),
        [
            "list_backends",
            "health_check",
            "session_count",
            "add_backend",
            "config"
        ]
    );
    assert_eq!(
        admin_tool_names(true, &discovery)[5..],
        ["call_tool".to_string(), "search_tools".to_string()]
    );
}

// ============================================================================
// Discovery
// ============================================================================

fn object(members: &[(&str, serde_json::Value)]) -> serde_json::Value {
    let mut map = serde_json::Map::new();
    for (name, value) in members {
        map.insert(name.to_string(), value.clone());
    }
    serde_json::Value::Object(map)
}

fn schema() -> serde_json::Value {
    object(&[
        (
            "properties",
            object(&[
                (
                    "path",
                    object(&[
                        ("type", "string".into()),
                        ("description", "Where to read".into()),
                    ]),
                ),
                ("untyped", object(&[])),
            ]),
        ),
        ("required", serde_json::Value::Array(vec!["path".into()])),
    ])
}

fn tool(name: &str, description: &str) -> ToolDefinition {
    ToolDefinition {
        name: name.to_string(),
        description: Some(description.to_string()),
        input_schema: schema(),
        annotations: None,
    }
}

fn tools() -> Vec<ToolDefinition> {
    vec![
        tool("files/read", "Read a document from storage"),
        tool("files/write", "Write a document to storage"),
        tool("db/query", "Run a statement against the warehouse"),
        tool("standalone", "Tell the weather"),
    ]
}

fn ids(entries: &[SearchResultEntry]) -> Vec<&str> {
    let mut ids: Vec<&str> = entries.iter().map(|e| e.id.as_str()).collect();
    ids.sort();
    ids
}

#[test]
fn parameters_come_from_the_schema() {
    let params = extract_params(&schema());
    assert_eq!(params.len(), 2);
    let path = params.iter().find(|p| p.name == "path").unwrap();
    assert_eq!(path.param_type.as_deref(), Some("string"));
    assert!(path.required);
    assert_eq!(path.description.as_deref(), Some("Where to read"));
    let untyped = params.iter().find(|p| p.name == "untyped").unwrap();
    assert_eq!(untyped.param_type, None);
    assert!(!untyped.required);
    assert!(extract_params(&serde_json::Value::Null).is_empty());
    assert!(extract_params(&object(&[("properties", 1.into())])).is_empty());
    let loose = object(&[
        ("properties", object(&[("a", 1.into())])),
        ("required", "a".into()),
    ]);
    assert!(!extract_params(&loose)[0].required);
}

#[test]
fn definitions_become_specs() {
    let mut definition = tool("files/sub/read", "Read");
    definition.annotations = Some(ToolAnnotations {
        read_only_hint: true,
        destructive_hint: true,
        idempotent_hint: true,
        open_world_hint: true,
    });
    let spec = tool_definition_to_spec(&definition, "/");
    assert_eq!(spec.name, "sub/read");
    assert_eq!(spec.category.as_deref(), Some("files"));
    assert_eq!(
        spec.tags,
        ["destructive", "read-only", "idempotent", "open-world"]
    );
    assert_eq!(spec.description.as_deref(), Some("Read"));
    assert_eq!(spec.summary.as_deref(), Some("Read"));
    assert_eq!(spec.params.len(), 2);
    let spec = tool_definition_to_spec(&tool("plain", "x"), "/");
    assert_eq!(spec.name, "plain");
    assert_eq!(spec.category, None);
    assert!(spec.tags.is_empty());
}

#[test]
fn descriptions_that_can_be_indexed() {
    for description in [
        "",
        "plain",
        "\"",
        "``",
        "`",
        "`\"\"`",
        "`\"x\"` and `y",
        "`a`\"`b`",
        "` `\"",
        "`\" \"`",
        "`'\"`",
    ] {
        assert!(is_indexable(description), "{description}");
        // The index takes them.
        build_index(&[tool("files/read", description)], "/");
    }
    for description in [
        "`\"`",
        "`\"",
        "Quotes with ` \" ` signs",
        "`a` b `\u{a0}\"\n`",
        "``\"`\"`",
    ] {
        assert!(!is_indexable(description), "{description}");
    }
}

#[test]
fn tools_are_grouped_by_namespace() {
    let groups = group_tools(&tools(), "/");
    let names: Vec<(&str, usize)> = groups
        .iter()
        .map(|g| (g.namespace.as_str(), g.tools.len()))
        .collect();
    assert_eq!(names, [("files", 2), ("db", 1), ("default", 1)]);
}

#[test]
fn searches_find_what_matches() {
    let registry = build_index(&tools(), "/");
    let found = search_tools(&registry, "document", default_top_k());
    assert_eq!(ids(&found), ["files:read", "files:write"]);
    let entry = found.iter().find(|e| e.id == "files:read").unwrap();
    assert_eq!(entry.server, "files");
    assert_eq!(entry.name, "read");
    assert_eq!(entry.category.as_deref(), Some("files"));
    assert_eq!(
        entry.description.as_deref(),
        Some("Read a document from storage")
    );
    assert!(f64::from_bits(entry.score.bits) > 0.0);
    assert_eq!(
        ids(&search_tools(&registry, "weather", 10)),
        ["default:standalone"]
    );
    assert!(search_tools(&registry, "nonexistentterm", 10).is_empty());
    assert!(search_tools(&registry, "", 10).is_empty());
    assert_eq!(search_tools(&registry, "document", 1).len(), 1);
    assert!(search_tools(&registry, "document", 0).is_empty());
    assert_eq!(default_top_k(), 10);
}

#[test]
fn better_results_come_first() {
    let registry = build_index(&tools(), "/");
    let found = search_tools(&registry, "read document storage", 10);
    assert_eq!(found[0].id, "files:read");
    let scores: Vec<f64> = found
        .iter()
        .map(|e| f64::from_bits(e.score.bits))
        .collect();
    assert!(scores.windows(2).all(|w| w[0] >= w[1]));
}

#[test]
fn similar_tools_are_found() {
    let registry = build_index(&tools(), "/");
    let found = similar_tools(&registry, "files:read", default_similar_k());
    assert!(ids(&found).contains(&"files:write"));
    assert!(!ids(&found).contains(&"files:read"));
    assert!(similar_tools(&registry, "none:none", 5).is_empty());
    assert_eq!(similar_tools(&registry, "files:read", 1).len(), 1);
    assert_eq!(default_similar_k(), 5);
}

#[test]
fn reindexing_replaces_the_tools_of_a_server() {
    let mut registry = build_index(&tools(), "/");
    index_tools(
        &mut registry,
        &[tool("files/scan", "Scan a document")],
        "/",
    );
    assert_eq!(
        ids(&search_tools(&registry, "document", 10)),
        ["files:scan"]
    );
    assert_eq!(
        ids(&search_tools(&registry, "weather", 10)),
        ["default:standalone"]
    );
    assert!(search_tools(&build_index(&[], "/"), "document", 10).is_empty());
}

#[test]
fn categories_with_more_tools_come_first() {
    let result = tool_categories(&build_index(&tools(), "/"));
    assert_eq!(result.total_categories, 2);
    let first = &result.categories[0];
    assert_eq!((first.name.as_str(), first.tool_count), ("files", 2));
    assert_eq!(first.servers, ["files"]);
    assert!(first.subcategories.is_empty());
    assert_eq!(result.categories[1].name, "db");
    assert_eq!(result.categories[1].tool_count, 1);
}

#[test]
fn equal_categories_keep_their_order() {
    let category = |name: &str, tool_count: usize| CategorySummary {
        name: name.to_string(),
        tool_count,
        servers: vec![],
        subcategories: vec![],
    };
    let sorted = sort_categories(vec![
        category("a", 1),
        category("b", 3),
        category("c", 1),
        category("d", 3),
        category("e", 2),
    ]);
    let names: Vec<&str> = sorted.iter().map(|c| c.name.as_str()).collect();
    assert_eq!(names, ["b", "d", "e", "a", "c"]);
}

// ============================================================================
// Skills
// ============================================================================

#[test]
fn prompts() {
    let skills = build_skills();
    let names: Vec<&str> = skills.iter().map(|s| s.name.as_str()).collect();
    assert_eq!(
        names,
        [
            "setup",
            "configure_auth",
            "configure_resilience",
            "check_config",
            "diagnose",
            "status",
            "explain_config"
        ]
    );
    assert_eq!(prompt_text(&skills[0], "guide", "[proxy]"), "guide");
    assert_eq!(
        prompt_text(&skills[3], "guide", "[proxy]"),
        "guide\n\n## Current Configuration\n\n```toml\n[proxy]\n```"
    );
    assert_eq!(
        skills[6].with_config.as_deref(),
        Some("Configuration explanation")
    );
}

// ============================================================================
// Text and names
// ============================================================================

#[test]
fn text_agrees_with_std() {
    let samples = [
        "",
        " ",
        "a",
        "a/b",
        "a/b/c",
        "//",
        "ab//cd",
        " lead and trail ",
        "tab\tnew\nline\r\u{b}\u{c}",
        "\u{85}next\u{a0}nbsp\u{1680}ogham\u{2003}em\u{3000}wide",
        "\u{200b}zero\u{feff}width",
        "\u{2028}\u{2029}\u{202f}\u{205f}",
        "h\u{e9}llo/w\u{f6}rld \u{1f600}/x",
    ];
    for s in samples {
        assert_eq!(
            text::split_whitespace(s),
            s.split_whitespace().collect::<Vec<_>>(),
            "{s:?}"
        );
        for d in ["/", "//", "a", "\u{f6}", "", "\u{1f600}"] {
            assert_eq!(text::split_once(s, d), s.split_once(d), "{s:?} {d:?}");
            assert_eq!(text::strip_prefix(s, d), s.strip_prefix(d));
            assert_eq!(text::strip_suffix(s, d), s.strip_suffix(d));
            assert_eq!(text::starts_with(s, d), s.starts_with(d));
            assert_eq!(text::concat2(s, d), format!("{s}{d}"));
            assert_eq!(text::concat3(d, s, d), format!("{d}{s}{d}"));
        }
    }
    for n in [0, 9, 10, 99, 100, 1_234_567_890, u64::MAX] {
        assert_eq!(text::decimal(n), format!("{n}"));
    }
}

#[test]
fn name_sets_and_maps() {
    let mut set = NameSet::from_names(&vec!["a".to_string(), "b".to_string(), "a".to_string()]);
    assert_eq!(set.len(), 2);
    set.insert("c".to_string());
    set.insert("c".to_string());
    assert_eq!(set.len(), 3);
    assert!(set.contains("c") && !set.contains("d"));
    assert!(NameSet::new().is_empty());

    let mut map: NameMap<u32> = NameMap::new();
    map.insert("x".to_string(), 1);
    map.insert("y".to_string(), 2);
    map.insert("x".to_string(), 3);
    assert_eq!(map.len(), 2);
    assert_eq!(map.get("x"), Some(&3));
    map.remove("x");
    map.remove("z");
    assert_eq!(map.get("x"), None);
    assert!(map.contains_key("y"));
    assert_eq!(map.names(), &vec!["y".to_string()]);
}
