use mcp_proxy::config::{RoleConfig, RoleMappingConfig};
use mcp_proxy::names::NameMap;
use mcp_proxy::protocol::{
    CallToolParams, Entry, McpRequest, McpResponse, Request, RequestId, Response,
};
use mcp_proxy::rbac::{RbacConfig, RbacService, TokenClaims};

struct Mock {
    tools: Vec<&'static str>,
}

impl Mock {
    fn with_tools(names: &[&'static str]) -> Self {
        Mock {
            tools: names.to_vec(),
        }
    }

    fn answer(&self, request: &Request) -> Response<String> {
        let inner = match &request.inner {
            McpRequest::ListTools => McpResponse::ListTools(
                self.tools
                    .iter()
                    .map(|name| Entry {
                        name: name.to_string(),
                        annotations: None,
                        payload: name.to_string(),
                    })
                    .collect(),
            ),
            McpRequest::CallTool(params) => McpResponse::Other(format!("called: {}", params.name)),
            other => McpResponse::Other(other.method_name().to_string()),
        };
        Response {
            id: request.id.clone(),
            inner: Ok(inner),
        }
    }
}

fn names(pairs: &[(&str, &str)]) -> NameMap<String> {
    let mut map = NameMap::new();
    for (key, value) in pairs {
        map.insert(key.to_string(), value.to_string());
    }
    map
}

fn roles() -> Vec<RoleConfig> {
    vec![
        RoleConfig {
            name: "admin".into(),
            allow_tools: vec![],
            deny_tools: vec![],
        },
        RoleConfig {
            name: "reader".into(),
            allow_tools: vec!["fs/read".into()],
            deny_tools: vec![],
        },
    ]
}

fn test_rbac_config() -> RbacConfig {
    let mapping = RoleMappingConfig {
        claim: "scope".into(),
        mapping: names(&[("admin", "admin"), ("read-only", "reader")]),
    };
    RbacConfig::new(&roles(), &mapping)
}

fn scope(scope: &str) -> TokenClaims {
    TokenClaims {
        scope: Some(scope.to_string()),
        extra: NameMap::new(),
    }
}

fn call(
    svc: &mut RbacService<Mock>,
    claims: Option<&TokenClaims>,
    inner: McpRequest,
) -> Response<String> {
    let request = Request {
        id: RequestId::Number(1),
        inner,
    };
    let role = svc.rules().resolve_role(claims);
    if let Some(refusal) = svc.on_request(role.as_deref(), &request) {
        return Response {
            id: refusal.id,
            inner: Err(refusal.error),
        };
    }
    let response = svc.service().answer(&request);
    svc.on_response(role.as_deref(), response)
}

fn call_tool(name: &str) -> McpRequest {
    McpRequest::CallTool(CallToolParams {
        name: name.to_string(),
        arguments: serde_json::Value::Object(serde_json::Map::new()),
    })
}

fn listed(response: Response<String>) -> Vec<String> {
    match response.inner.unwrap() {
        McpResponse::ListTools(tools) => tools.into_iter().map(|t| t.name).collect(),
        other => panic!("expected ListTools, got: {:?}", other),
    }
}

#[test]
fn test_rbac_admin_can_call_any_tool() {
    let mock = Mock::with_tools(&["fs/read", "fs/write"]);
    let mut svc = RbacService::new(mock, test_rbac_config());

    let resp = call(&mut svc, Some(&scope("admin")), call_tool("fs/write"));
    assert!(resp.inner.is_ok(), "admin should call any tool");
}

#[test]
fn test_rbac_reader_denied_write() {
    let mock = Mock::with_tools(&["fs/read", "fs/write"]);
    let mut svc = RbacService::new(mock, test_rbac_config());

    let resp = call(&mut svc, Some(&scope("read-only")), call_tool("fs/write"));
    let err = resp.inner.unwrap_err();
    assert!(err.message.contains("not authorized"));
    assert_eq!(
        err.message,
        "Role 'reader' is not authorized to call tool: fs/write"
    );
    assert_eq!(err.code, -32602);
}

#[test]
fn test_rbac_reader_allowed_read() {
    let mock = Mock::with_tools(&["fs/read"]);
    let mut svc = RbacService::new(mock, test_rbac_config());

    let resp = call(&mut svc, Some(&scope("read-only")), call_tool("fs/read"));
    assert!(resp.inner.is_ok(), "reader should call allowed tools");
}

#[test]
fn test_rbac_filters_list_tools_for_role() {
    let mock = Mock::with_tools(&["fs/read", "fs/write", "fs/delete"]);
    let mut svc = RbacService::new(mock, test_rbac_config());

    let names = listed(call(
        &mut svc,
        Some(&scope("read-only")),
        McpRequest::ListTools,
    ));
    assert!(names.contains(&"fs/read".to_string()));
    assert!(!names.contains(&"fs/write".to_string()));
    assert!(!names.contains(&"fs/delete".to_string()));
}

#[test]
fn test_rbac_no_claims_passes_through() {
    let mock = Mock::with_tools(&["fs/write"]);
    let mut svc = RbacService::new(mock, test_rbac_config());

    let resp = call(&mut svc, None, call_tool("fs/write"));
    assert!(resp.inner.is_ok(), "no claims should pass through");
}

#[test]
fn scopes_that_are_not_mapped_give_no_role() {
    let config = test_rbac_config();
    assert_eq!(config.resolve_role(Some(&scope("other things"))), None);
    assert_eq!(config.resolve_role(Some(&scope(""))), None);
    assert_eq!(
        config
            .resolve_role(Some(&scope("  other\tread-only \u{3000} more")))
            .as_deref(),
        Some("reader")
    );
    let none = TokenClaims {
        scope: None,
        extra: NameMap::new(),
    };
    assert_eq!(config.resolve_role(Some(&none)), None);
}

#[test]
fn one_of_several_mapped_scopes_counts() {
    let config = test_rbac_config();
    let role = config.resolve_role(Some(&scope("admin read-only"))).unwrap();
    assert!(role == "admin" || role == "reader");
}

fn claim(value: serde_json::Value) -> TokenClaims {
    let mut extra = NameMap::new();
    extra.insert("groups".to_string(), value);
    TokenClaims {
        scope: Some("admin".to_string()),
        extra,
    }
}

#[test]
fn other_claims_are_read_as_text() {
    let mapping = RoleMappingConfig {
        claim: "groups".into(),
        mapping: names(&[
            ("staff", "reader"),
            ("two words", "both"),
            ("two", "first"),
            ("7", "seven"),
            ("true", "flag"),
            ("[\"a\",1]", "list"),
        ]),
    };
    let config = RbacConfig::new(&roles(), &mapping);
    let role = |value: serde_json::Value| config.resolve_role(Some(&claim(value)));
    assert_eq!(role("staff".into()).as_deref(), Some("reader"));
    assert_eq!(role("x staff".into()).as_deref(), Some("reader"));
    assert_eq!(role("two words".into()).as_deref(), Some("both"));
    assert_eq!(role("words two staff".into()).as_deref(), Some("first"));
    assert_eq!(role(7.into()).as_deref(), Some("seven"));
    assert_eq!(role(true.into()).as_deref(), Some("flag"));
    assert_eq!(
        role(serde_json::Value::Array(vec!["a".into(), 1.into()])).as_deref(),
        Some("list")
    );
    assert_eq!(role("nobody".into()), None);
    assert_eq!(config.resolve_role(Some(&scope("staff"))), None);
    assert_eq!(
        config
            .role_of(&vec!["none".to_string(), "two".to_string(), "7".to_string()])
            .as_deref(),
        Some("first")
    );
    assert_eq!(config.role_of_text("a b 7").as_deref(), Some("seven"));
}

#[test]
fn deny_lists_take_tools_away() {
    let roles = vec![RoleConfig {
        name: "ops".into(),
        allow_tools: vec!["fs/read".into(), "fs/write".into()],
        deny_tools: vec!["fs/write".into()],
    }];
    let mapping = RoleMappingConfig {
        claim: "scope".into(),
        mapping: names(&[("ops", "ops")]),
    };
    let config = RbacConfig::new(&roles, &mapping);
    assert!(config.is_tool_allowed("ops", "fs/read"));
    assert!(!config.is_tool_allowed("ops", "fs/write"));
    assert!(!config.is_tool_allowed("ops", "fs/delete"));
    assert!(config.is_tool_allowed("unknown", "fs/delete"));

    let tools = ["fs/read", "fs/write", "fs/delete"];
    let mut svc = RbacService::new(Mock::with_tools(&tools), config);
    let claims = scope("ops");
    assert_eq!(
        listed(call(&mut svc, Some(&claims), McpRequest::ListTools)),
        ["fs/read"]
    );
    for tool in tools {
        let allowed = call(&mut svc, Some(&claims), call_tool(tool)).inner.is_ok();
        assert_eq!(allowed, tool == "fs/read");
    }
}
