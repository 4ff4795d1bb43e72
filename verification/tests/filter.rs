use mcp_proxy::config::{BackendFilter, NameFilter};
use mcp_proxy::filter::{
    check_prompt_denied, check_resource_denied, check_tool_denied, CapabilityFilterLayer,
    CapabilityFilterService, SearchModeFilterLayer, SearchModeFilterService,
};
use mcp_proxy::protocol::{
    CallToolParams, Entry, GetPromptParams, JsonRpcError, McpRequest, McpResponse,
    ReadResourceParams, Request, RequestId, Response, ToolAnnotations,
};

/// A backend that lists some tools and answers every call.
struct Mock {
    tools: Vec<(&'static str, Option<ToolAnnotations>)>,
}

impl Mock {
    fn with_tools(names: &[&'static str]) -> Self {
        Mock {
            tools: names.iter().map(|n| (*n, None)).collect(),
        }
    }

    fn answer(&self, request: &Request) -> Response<String> {
        let inner = match &request.inner {
            McpRequest::ListTools => McpResponse::ListTools(
                self.tools
                    .iter()
                    .map(|(name, annotations)| Entry {
                        name: name.to_string(),
                        annotations: *annotations,
                        payload: format!("definition of {name}"),
                    })
                    .collect(),
            ),
            McpRequest::CallTool(params) => McpResponse::Other(format!("called: {}", params.name)),
            other => McpResponse::Other(format!("answered: {}", other.method_name())),
        };
        Response {
            id: request.id.clone(),
            inner: Ok(inner),
        }
    }
}

fn request(inner: McpRequest) -> Request {
    Request {
        id: RequestId::Number(1),
        inner,
    }
}

fn call_tool(name: &str) -> McpRequest {
    McpRequest::CallTool(CallToolParams {
        name: name.to_string(),
        arguments: serde_json::Value::Object(serde_json::Map::new()),
    })
}

fn call(svc: &mut CapabilityFilterService<Mock>, inner: McpRequest) -> Response<String> {
    let request = request(inner);
    if let Some(refusal) = svc.on_request(&request) {
        return Response {
            id: refusal.id,
            inner: Err(refusal.error),
        };
    }
    let response = svc.service().answer(&request);
    svc.on_response(response)
}

fn call_search(svc: &mut SearchModeFilterService<Mock>, inner: McpRequest) -> Response<String> {
    let response = svc.service().answer(&request(inner));
    svc.on_response(response)
}

fn listed(response: Response<String>) -> Vec<String> {
    match response.inner.unwrap() {
        McpResponse::ListTools(tools) => tools.into_iter().map(|t| t.name).collect(),
        other => panic!("expected ListTools, got: {:?}", other),
    }
}

fn strings(names: &[&str]) -> Vec<String> {
    names.iter().map(|s| s.to_string()).collect()
}

fn allow_filter(namespace: &str, tools: &[&str]) -> BackendFilter {
    BackendFilter {
        namespace: namespace.to_string(),
        tool_filter: NameFilter::allow_list(&strings(tools)),
        resource_filter: NameFilter::PassAll,
        prompt_filter: NameFilter::PassAll,
        hide_destructive: false,
        read_only_only: false,
    }
}

fn deny_filter(namespace: &str, tools: &[&str]) -> BackendFilter {
    BackendFilter {
        namespace: namespace.to_string(),
        tool_filter: NameFilter::deny_list(&strings(tools)),
        resource_filter: NameFilter::PassAll,
        prompt_filter: NameFilter::PassAll,
        hide_destructive: false,
        read_only_only: false,
    }
}

fn pass_all(namespace: &str) -> BackendFilter {
    BackendFilter {
        namespace: namespace.to_string(),
        tool_filter: NameFilter::PassAll,
        resource_filter: NameFilter::PassAll,
        prompt_filter: NameFilter::PassAll,
        hide_destructive: false,
        read_only_only: false,
    }
}

#[test]
fn test_filter_allow_list_tools() {
    let mock = Mock::with_tools(&["fs/read", "fs/write", "fs/delete"]);
    let filters = vec![allow_filter("fs/", &["read", "write"])];
    let mut svc = CapabilityFilterService::new(mock, filters);

    let names = listed(call(&mut svc, McpRequest::ListTools));
    assert!(names.contains(&"fs/read".to_string()));
    assert!(names.contains(&"fs/write".to_string()));
    assert!(
        !names.contains(&"fs/delete".to_string()),
        "delete should be filtered"
    );
}

#[test]
fn test_filter_deny_list_tools() {
    let mock = Mock::with_tools(&["fs/read", "fs/write", "fs/delete"]);
    let filters = vec![deny_filter("fs/", &["delete"])];
    let mut svc = CapabilityFilterService::new(mock, filters);

    let names = listed(call(&mut svc, McpRequest::ListTools));
    assert!(names.contains(&"fs/read".to_string()));
    assert!(names.contains(&"fs/write".to_string()));
    assert!(!names.contains(&"fs/delete".to_string()));
}

#[test]
fn test_filter_denies_call_to_hidden_tool() {
    let mock = Mock::with_tools(&["fs/read", "fs/delete"]);
    let filters = vec![allow_filter("fs/", &["read"])];
    let mut svc = CapabilityFilterService::new(mock, filters);

    let resp = call(&mut svc, call_tool("fs/delete"));
    assert_eq!(resp.id, RequestId::Number(1));
    let err = resp.inner.unwrap_err();
    assert!(
        err.message.contains("not available"),
        "should deny: {}",
        err.message
    );
    assert_eq!(err.message, "Tool not available: fs/delete");
    assert_eq!(err.code, -32602);
}

#[test]
fn test_filter_allows_call_to_permitted_tool() {
    let mock = Mock::with_tools(&["fs/read"]);
    let filters = vec![allow_filter("fs/", &["read"])];
    let mut svc = CapabilityFilterService::new(mock, filters);

    let resp = call(&mut svc, call_tool("fs/read"));
    assert!(resp.inner.is_ok(), "allowed tool should succeed");
}

#[test]
fn test_filter_pass_all_allows_everything() {
    let mock = Mock::with_tools(&["fs/read", "fs/write", "fs/delete"]);
    let mut svc = CapabilityFilterService::new(mock, vec![pass_all("fs/")]);

    assert_eq!(listed(call(&mut svc, McpRequest::ListTools)).len(), 3);
}

#[test]
fn test_filter_unmatched_namespace_passes_through() {
    let mock = Mock::with_tools(&["db/query"]);
    let filters = vec![allow_filter("fs/", &["read"])];
    let mut svc = CapabilityFilterService::new(mock, filters);

    let names = listed(call(&mut svc, McpRequest::ListTools));
    assert_eq!(names.len(), 1, "unmatched namespace should pass");
    assert_eq!(names[0], "db/query");
}

// --- Annotation-based filtering ---

fn mock_with_annotated_tools() -> Mock {
    Mock {
        tools: vec![
            (
                "fs/read_file",
                Some(ToolAnnotations {
                    read_only_hint: true,
                    destructive_hint: false,
                    idempotent_hint: true,
                    open_world_hint: false,
                }),
            ),
            (
                "fs/delete_file",
                Some(ToolAnnotations {
                    read_only_hint: false,
                    destructive_hint: true,
                    idempotent_hint: false,
                    open_world_hint: false,
                }),
            ),
            (
                "fs/write_file",
                Some(ToolAnnotations {
                    read_only_hint: false,
                    destructive_hint: false,
                    idempotent_hint: true,
                    open_world_hint: false,
                }),
            ),
        ],
    }
}

#[test]
fn test_filter_hide_destructive() {
    let filter = BackendFilter {
        hide_destructive: true,
        ..pass_all("fs/")
    };
    let mut svc = CapabilityFilterService::new(mock_with_annotated_tools(), vec![filter]);

    let names = listed(call(&mut svc, McpRequest::ListTools));
    assert!(names.contains(&"fs/read_file".to_string()));
    assert!(names.contains(&"fs/write_file".to_string()));
    assert!(
        !names.contains(&"fs/delete_file".to_string()),
        "destructive tool should be hidden"
    );
    // Only the listing is affected.
    assert!(call(&mut svc, call_tool("fs/delete_file")).inner.is_ok());
}

#[test]
fn test_filter_read_only_only() {
    let filter = BackendFilter {
        read_only_only: true,
        ..pass_all("fs/")
    };
    let mut svc = CapabilityFilterService::new(mock_with_annotated_tools(), vec![filter]);

    let names = listed(call(&mut svc, McpRequest::ListTools));
    assert!(
        names.contains(&"fs/read_file".to_string()),
        "read-only tool visible"
    );
    assert!(
        !names.contains(&"fs/delete_file".to_string()),
        "non-read-only hidden"
    );
    assert!(
        !names.contains(&"fs/write_file".to_string()),
        "non-read-only hidden"
    );
}

#[test]
fn tools_without_annotations_are_not_read_only() {
    let filter = BackendFilter {
        read_only_only: true,
        ..pass_all("fs/")
    };
    let mock = Mock::with_tools(&["fs/read", "db/query"]);
    let mut svc = CapabilityFilterService::new(mock, vec![filter]);
    assert_eq!(listed(call(&mut svc, McpRequest::ListTools)), ["db/query"]);

    let filter = BackendFilter {
        hide_destructive: true,
        ..pass_all("fs/")
    };
    let mock = Mock::with_tools(&["fs/read", "db/query"]);
    let mut svc = CapabilityFilterService::new(mock, vec![filter]);
    assert_eq!(
        listed(call(&mut svc, McpRequest::ListTools)),
        ["fs/read", "db/query"]
    );
}

// --- Search mode filtering ---

#[test]
fn test_search_mode_only_shows_prefix_tools() {
    let mock = Mock::with_tools(&[
        "proxy/search_tools",
        "proxy/call_tool",
        "proxy/tool_categories",
        "fs/read",
        "fs/write",
        "db/query",
    ]);
    let mut svc = SearchModeFilterService::new(mock, "proxy/");

    let names = listed(call_search(&mut svc, McpRequest::ListTools));
    assert_eq!(names.len(), 3, "only proxy/ tools should be listed");
    assert!(names.contains(&"proxy/search_tools".to_string()));
    assert!(names.contains(&"proxy/call_tool".to_string()));
    assert!(names.contains(&"proxy/tool_categories".to_string()));
    assert!(!names.contains(&"fs/read".to_string()));
    assert!(!names.contains(&"db/query".to_string()));
}

#[test]
fn test_search_mode_allows_call_tool_for_backend() {
    let mock = Mock::with_tools(&["proxy/call_tool", "fs/read"]);
    let mut svc = SearchModeFilterService::new(mock, "proxy/");

    // CallTool requests should pass through regardless of namespace
    let resp = call_search(&mut svc, call_tool("fs/read"));
    assert!(
        resp.inner.is_ok(),
        "search mode should not block CallTool requests"
    );
}

#[test]
fn test_search_mode_no_proxy_tools_returns_empty() {
    let mock = Mock::with_tools(&["fs/read", "db/query"]);
    let mut svc = SearchModeFilterService::new(mock, "proxy/");

    assert!(
        listed(call_search(&mut svc, McpRequest::ListTools)).is_empty(),
        "no proxy/ tools means empty list"
    );
}

#[test]
fn search_mode_layer_wraps_with_its_prefix() {
    let layer = SearchModeFilterLayer::new("proxy/");
    let mut svc = layer.layer(Mock::with_tools(&["proxy/a", "b"]));
    assert_eq!(
        listed(call_search(&mut svc, McpRequest::ListTools)),
        ["proxy/a"]
    );
}

// --- Resources, templates, prompts ---

fn entry(name: &str) -> Entry<u32> {
    Entry {
        name: name.to_string(),
        annotations: None,
        payload: name.len() as u32,
    }
}

fn rich_filter() -> BackendFilter {
    BackendFilter {
        namespace: "fs/".to_string(),
        tool_filter: NameFilter::PassAll,
        resource_filter: NameFilter::deny_list(&strings(&["secret"])),
        prompt_filter: NameFilter::allow_list(&strings(&["help"])),
        hide_destructive: false,
        read_only_only: false,
    }
}

#[test]
fn resources_templates_and_prompts_are_filtered() {
    let svc = CapabilityFilterService::new((), vec![rich_filter()]);
    let names = |inner: McpResponse<u32>| -> Vec<String> {
        let result = svc.on_response(Response {
            id: RequestId::Text("x".to_string()),
            inner: Ok(inner),
        });
        assert_eq!(result.id, RequestId::Text("x".to_string()));
        match result.inner.unwrap() {
            McpResponse::ListResources(e)
            | McpResponse::ListResourceTemplates(e)
            | McpResponse::ListPrompts(e)
            | McpResponse::ListTools(e) => e.into_iter().map(|e| e.name).collect(),
            McpResponse::Other(_) => panic!("not a listing"),
        }
    };
    assert_eq!(
        names(McpResponse::ListResources(vec![
            entry("fs/open"),
            entry("fs/secret"),
            entry("db/secret"),
        ])),
        ["fs/open", "db/secret"]
    );
    assert_eq!(
        names(McpResponse::ListResourceTemplates(vec![
            entry("fs/secret"),
            entry("fs/{id}"),
        ])),
        ["fs/{id}"]
    );
    assert_eq!(
        names(McpResponse::ListPrompts(vec![
            entry("fs/help"),
            entry("fs/admin"),
            entry("other"),
        ])),
        ["fs/help", "other"]
    );
}

#[test]
fn reads_and_prompts_are_refused() {
    let svc = CapabilityFilterService::new((), vec![rich_filter()]);
    let read = request(McpRequest::ReadResource(ReadResourceParams {
        uri: "fs/secret".to_string(),
    }));
    let refusal = svc.on_request(&read).unwrap();
    assert_eq!(refusal.error.message, "Resource not available: fs/secret");
    assert_eq!(refusal.error.code, -32602);
    let get = request(McpRequest::GetPrompt(GetPromptParams {
        name: "fs/admin".to_string(),
    }));
    let refusal = svc.on_request(&get).unwrap();
    assert_eq!(refusal.error.message, "Prompt not available: fs/admin");
    let ping = request(McpRequest::Other("ping".to_string()));
    assert!(svc.on_request(&ping).is_none());
}

#[test]
fn errors_and_other_responses_stay() {
    let svc = CapabilityFilterService::new((), vec![allow_filter("fs/", &[])]);
    let result = svc.on_response::<u32>(Response {
        id: RequestId::Number(7),
        inner: Err(JsonRpcError {
            code: -32603,
            message: "boom".to_string(),
        }),
    });
    let error = result.inner.unwrap_err();
    assert_eq!((error.code, error.message.as_str()), (-32603, "boom"));
    let result = svc.on_response(Response {
        id: RequestId::Number(7),
        inner: Ok(McpResponse::Other(42)),
    });
    assert!(matches!(result.inner, Ok(McpResponse::Other(42))));
}

#[test]
fn the_first_namespace_that_matches_decides() {
    let filters = vec![deny_filter("a/", &["x"]), allow_filter("a/b/", &[])];
    assert!(check_tool_denied(&filters, "a/x").is_some());
    assert!(check_tool_denied(&filters, "a/b/y").is_none());
    let filters = vec![allow_filter("a/b/", &[]), deny_filter("a/", &["x"])];
    assert_eq!(
        check_tool_denied(&filters, "a/b/y").unwrap(),
        "Tool not available: a/b/y"
    );
    assert!(check_resource_denied(&filters, "a/b/y").is_none());
    assert!(check_prompt_denied(&filters, "a/b/y").is_none());
}

#[test]
fn listed_tools_can_be_called_through_the_filter() {
    let layer = CapabilityFilterLayer::new(vec![
        deny_filter("fs/", &["delete"]),
        allow_filter("db/", &["query"]),
    ]);
    let mut svc = layer.layer(Mock::with_tools(&[
        "fs/read",
        "fs/delete",
        "db/query",
        "db/drop",
        "x/y",
    ]));
    let names = listed(call(&mut svc, McpRequest::ListTools));
    assert_eq!(names, ["fs/read", "db/query", "x/y"]);
    for name in names {
        assert!(call(&mut svc, call_tool(&name)).inner.is_ok());
    }
    assert!(call(&mut svc, call_tool("fs/delete")).inner.is_err());
    assert!(call(&mut svc, call_tool("db/drop")).inner.is_err());
}
