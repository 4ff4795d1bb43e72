use mcp_proxy::access_log::{request_target, response_status, AccessLogService};
use mcp_proxy::alias::{AliasMap, AliasService};
use mcp_proxy::config::{BackendFilter, NameFilter};
use mcp_proxy::filter::CapabilityFilterService;
use mcp_proxy::keys::{request_key, tool_key};
use mcp_proxy::metrics::MetricsService;
use mcp_proxy::protocol::{
    CallToolParams, Entry, GetPromptParams, JsonRpcError, McpRequest, McpResponse,
    ReadResourceParams, Refusal, Request, RequestId, Response,
};
use mcp_proxy::validation::{ValidationConfig, ValidationService};

/// Backends that add numbers and echo text.
struct Backends;

impl Backends {
    fn answer(&self, request: &Request) -> Response<String> {
        let inner = match &request.inner {
            McpRequest::ListTools => Ok(McpResponse::ListTools(
                ["math/add", "text/echo", "text/upper"]
                    .iter()
                    .map(|name| Entry {
                        name: name.to_string(),
                        annotations: None,
                        payload: name.to_string(),
                    })
                    .collect(),
            )),
            McpRequest::CallTool(params) => {
                let argument = |name: &str| params.arguments.get(name).cloned();
                match params.name.as_str() {
                    "math/add" => {
                        let a = argument("a").unwrap().as_i64().unwrap();
                        let b = argument("b").unwrap().as_i64().unwrap();
                        Ok(McpResponse::Other(format!("{}", a + b)))
                    }
                    "text/echo" => Ok(McpResponse::Other(
                        argument("message").unwrap().as_str().unwrap().to_string(),
                    )),
                    "text/upper" => Ok(McpResponse::Other(
                        argument("message")
                            .unwrap()
                            .as_str()
                            .unwrap()
                            .to_uppercase(),
                    )),
                    other => Ok(McpResponse::Other(format!("called: {other}"))),
                }
            }
            _ => Ok(McpResponse::Other("pong".to_string())),
        };
        Response {
            id: request.id.clone(),
            inner,
        }
    }
}

fn request(inner: McpRequest) -> Request {
    Request {
        id: RequestId::Number(1),
        inner,
    }
}

fn object(members: &[(&str, serde_json::Value)]) -> serde_json::Value {
    let mut map = serde_json::Map::new();
    for (name, value) in members {
        map.insert(name.to_string(), value.clone());
    }
    serde_json::Value::Object(map)
}

fn tool_call(name: &str, arguments: serde_json::Value) -> McpRequest {
    McpRequest::CallTool(CallToolParams {
        name: name.to_string(),
        arguments,
    })
}

fn refused(refusal: Refusal) -> Response<String> {
    Response {
        id: refusal.id,
        inner: Err(refusal.error),
    }
}

fn validated(svc: &mut ValidationService<Backends>, inner: McpRequest) -> Response<String> {
    let request = request(inner);
    match svc.on_request(&request) {
        Some(refusal) => refused(refusal),
        None => svc.service().answer(&request),
    }
}

fn text(response: Response<String>) -> String {
    match response.inner.unwrap() {
        McpResponse::Other(text) => text,
        other => panic!("expected a result, got: {:?}", other),
    }
}

fn names(response: Response<String>) -> Vec<String> {
    match response.inner.unwrap() {
        McpResponse::ListTools(tools) => tools.into_iter().map(|t| t.name).collect(),
        other => panic!("expected ListTools, got: {:?}", other),
    }
}

// --- Validation ---

#[test]
fn test_validation_passes_small_arguments() {
    let config = ValidationConfig {
        max_argument_size: Some(1024),
    };
    let mut svc = ValidationService::new(Backends, config);
    let resp = validated(
        &mut svc,
        tool_call("tool", object(&[("key", "small".into())])),
    );
    assert!(resp.inner.is_ok(), "small args should pass validation");
}

#[test]
fn test_validation_rejects_large_arguments() {
    let config = ValidationConfig {
        max_argument_size: Some(10), // 10 bytes
    };
    let mut svc = ValidationService::new(Backends, config);
    let resp = validated(
        &mut svc,
        tool_call(
            "tool",
            object(&[(
                "key",
                "this string is definitely longer than 10 bytes".into(),
            )]),
        ),
    );
    let err = resp.inner.unwrap_err();
    assert!(
        err.message.contains("exceed maximum size"),
        "should mention size exceeded: {}",
        err.message
    );
    assert_eq!(
        err.message,
        "Tool arguments exceed maximum size: 56 bytes (limit: 10 bytes)"
    );
    assert_eq!(err.code, -32602);
}

#[test]
fn test_validation_passes_non_tool_requests() {
    let config = ValidationConfig {
        max_argument_size: Some(1),
    };
    let mut svc = ValidationService::new(Backends, config);
    let resp = validated(&mut svc, McpRequest::ListTools);
    assert!(resp.inner.is_ok(), "non-tool requests should pass");
}

#[test]
fn test_validation_disabled_passes_everything() {
    let config = ValidationConfig {
        max_argument_size: None,
    };
    let mut svc = ValidationService::new(Backends, config);
    let resp = validated(
        &mut svc,
        tool_call("tool", object(&[("key", "any size is fine".into())])),
    );
    assert!(resp.inner.is_ok());
}

#[test]
fn the_size_is_counted_in_bytes() {
    // {"k":"é"} has nine characters and ten bytes.
    let arguments = || object(&[("k", "\u{e9}".into())]);
    let svc = |limit: usize| {
        ValidationService::new(
            (),
            ValidationConfig {
                max_argument_size: Some(limit),
            },
        )
    };
    let call = request(tool_call("t", arguments()));
    assert!(svc(10).on_request(&call).is_none());
    assert_eq!(
        svc(9).on_request(&call).unwrap().error.message,
        "Tool arguments exceed maximum size: 10 bytes (limit: 9 bytes)"
    );
    let config = ValidationConfig {
        max_argument_size: Some(0),
    };
    assert_eq!(config.check(None), None);
    assert_eq!(config.check(Some("")), None);
    assert_eq!(
        config.check(Some("x")).unwrap(),
        "Tool arguments exceed maximum size: 1 bytes (limit: 0 bytes)"
    );
}

#[test]
fn test_proxy_with_validation_rejects_oversized() {
    let config = ValidationConfig {
        max_argument_size: Some(10),
    };
    let mut svc = ValidationService::new(Backends, config);
    let resp = validated(
        &mut svc,
        tool_call(
            "text/echo",
            object(&[(
                "message",
                "this is a very long message that exceeds the size limit".into(),
            )]),
        ),
    );
    let err = resp.inner.unwrap_err();
    assert!(err.message.contains("exceed maximum size"));
}

// --- Filters and aliases around several backends ---

fn text_filter(tool_filter: NameFilter) -> Vec<BackendFilter> {
    vec![BackendFilter {
        namespace: "text/".to_string(),
        tool_filter,
        resource_filter: NameFilter::PassAll,
        prompt_filter: NameFilter::PassAll,
        hide_destructive: false,
        read_only_only: false,
    }]
}

fn filtered(svc: &mut CapabilityFilterService<Backends>, inner: McpRequest) -> Response<String> {
    let request = request(inner);
    if let Some(refusal) = svc.on_request(&request) {
        return refused(refusal);
    }
    let response = svc.service().answer(&request);
    svc.on_response(response)
}

#[test]
fn test_proxy_with_filter_hides_tools() {
    let filters = text_filter(NameFilter::deny_list(&vec!["upper".to_string()]));
    let mut svc = CapabilityFilterService::new(Backends, filters);
    let names = names(filtered(&mut svc, McpRequest::ListTools));
    assert!(names.contains(&"math/add".to_string()));
    assert!(names.contains(&"text/echo".to_string()));
    assert!(
        !names.contains(&"text/upper".to_string()),
        "upper should be hidden"
    );
}

#[test]
fn test_proxy_with_filter_denies_call() {
    let filters = text_filter(NameFilter::allow_list(&vec!["echo".to_string()]));
    let mut svc = CapabilityFilterService::new(Backends, filters);
    let resp = filtered(
        &mut svc,
        tool_call("text/upper", object(&[("message", "hi".into())])),
    );
    assert!(resp.inner.is_err(), "calling hidden tool should fail");
}

#[test]
fn test_proxy_with_alias_renames_tools() {
    let aliases = AliasMap::new(vec![(
        "math/".to_string(),
        "add".to_string(),
        "sum".to_string(),
    )])
    .unwrap();
    let mut svc = AliasService::new(Backends, aliases);
    let call = |svc: &mut AliasService<Backends>, inner: McpRequest| {
        let request = svc.on_request(request(inner));
        let response = svc.service().answer(&request);
        svc.on_response(response)
    };

    // List should show aliased name
    let names = names(call(&mut svc, McpRequest::ListTools));
    assert!(
        names.contains(&"math/sum".to_string()),
        "should be aliased: {:?}",
        names
    );
    assert!(
        !names.contains(&"math/add".to_string()),
        "original should be gone: {:?}",
        names
    );

    // Call aliased name should work
    let resp = call(
        &mut svc,
        tool_call("math/sum", object(&[("a", 10.into()), ("b", 20.into())])),
    );
    assert_eq!(text(resp), "30");
}

#[test]
fn test_proxy_with_stacked_middleware() {
    // Validation -> Filter -> backends
    let validation = ValidationConfig {
        max_argument_size: Some(1024),
    };
    let filters = text_filter(NameFilter::deny_list(&vec!["upper".to_string()]));
    let mut svc =
        ValidationService::new(CapabilityFilterService::new(Backends, filters), validation);
    let call = |svc: &mut ValidationService<CapabilityFilterService<Backends>>,
                inner: McpRequest| {
        let request = request(inner);
        if let Some(refusal) = svc.on_request(&request) {
            return refused(refusal);
        }
        filtered(svc.service(), request.inner)
    };

    // Normal call works
    let resp = call(
        &mut svc,
        tool_call("text/echo", object(&[("message", "hello".into())])),
    );
    assert_eq!(text(resp), "hello");

    // Filtered tool is denied
    let resp = call(
        &mut svc,
        tool_call("text/upper", object(&[("message", "hello".into())])),
    );
    assert!(resp.inner.is_err(), "filtered tool should be denied");

    // List shows filtered view
    let names = names(call(&mut svc, McpRequest::ListTools));
    assert_eq!(
        names.len(),
        2,
        "should have math/add + text/echo: {:?}",
        names
    );
}

// --- Access log and metrics ---

fn logged(svc: &mut AccessLogService<Backends>, inner: McpRequest) -> Response<String> {
    let request = request(inner);
    let record = svc.on_request(&request.inner);
    assert_eq!(record.method, request.inner.method_name());
    svc.service().answer(&request)
}

#[test]
fn test_access_log_passes_through_list() {
    let mut svc = AccessLogService::new(Backends);
    let resp = logged(&mut svc, McpRequest::ListTools);
    assert!(resp.inner.is_ok());
    assert_eq!(response_status(&resp.inner), "ok");
}

#[test]
fn test_access_log_passes_through_tool_call() {
    let mut svc = AccessLogService::new(Backends);
    let resp = logged(&mut svc, tool_call("tool", object(&[])));
    assert!(resp.inner.is_ok());
}

#[test]
fn test_access_log_handles_errors() {
    let svc = AccessLogService::new(());
    let request = request(McpRequest::ListTools);
    assert_eq!(svc.on_request(&request.inner).method, "tools/list");
    let resp: Response<String> = Response {
        id: request.id,
        inner: Err(JsonRpcError {
            code: -32603,
            message: "internal".to_string(),
        }),
    };
    assert!(resp.inner.is_err());
    assert_eq!(response_status(&resp.inner), "error");
}

#[test]
fn test_access_log_handles_ping() {
    let mut svc = AccessLogService::new(Backends);
    let resp = logged(&mut svc, McpRequest::Other("ping".to_string()));
    assert!(resp.inner.is_ok());
}

#[test]
fn records_name_the_target() {
    let svc = AccessLogService::new(());
    let record = svc.on_request(&tool_call("math/add", object(&[])));
    assert_eq!(record.method, "tools/call");
    assert_eq!(record.target.as_deref(), Some("math/add"));
    let record = svc.on_request(&McpRequest::ReadResource(ReadResourceParams {
        uri: "file:///x".to_string(),
    }));
    assert_eq!(record.method, "resources/read");
    assert_eq!(record.target.as_deref(), Some("file:///x"));
    let prompt = McpRequest::GetPrompt(GetPromptParams {
        name: "help".to_string(),
    });
    let record = svc.on_request(&prompt);
    assert_eq!(record.method, "prompts/get");
    assert_eq!(request_target(&prompt), Some("help"));
    let record2 = svc.on_request(&McpRequest::ListTools);
    assert_eq!(record2.method, "tools/list");
    assert_eq!(record2.target, None);
    assert_eq!(record.target.as_deref(), Some("help"));
}

#[test]
fn test_metrics_passes_through_request() {
    let mut svc = MetricsService::new(Backends);
    assert_eq!(svc.method_label(&McpRequest::ListTools), "tools/list");
    let resp = svc.service().answer(&request(McpRequest::ListTools));
    assert!(resp.inner.is_ok());
}

#[test]
fn test_metrics_passes_through_tool_call() {
    let mut svc = MetricsService::new(Backends);
    let call = request(tool_call("tool", object(&[])));
    assert_eq!(svc.method_label(&call.inner), "tools/call");
    let resp = svc.service().answer(&call);
    assert!(resp.inner.is_ok());
    assert_eq!(
        svc.method_label(&McpRequest::Other("ping".to_string())),
        "ping"
    );
}

// --- Keys ---

#[test]
fn keys_of_requests() {
    let call = tool_call("math/add", object(&[("a", 1.into()), ("b", "x".into())]));
    assert_eq!(
        request_key(&call).unwrap(),
        "tool:math/add:{\"a\":1,\"b\":\"x\"}"
    );
    let read = McpRequest::ReadResource(ReadResourceParams {
        uri: "fs/file".to_string(),
    });
    assert_eq!(request_key(&read).unwrap(), "res:fs/file");
    assert_eq!(request_key(&McpRequest::ListTools), None);
    assert_eq!(
        request_key(&McpRequest::GetPrompt(GetPromptParams {
            name: "p".to_string()
        })),
        None
    );
    assert_eq!(tool_key("t", None), "tool:t:");
    assert_eq!(tool_key("t", Some("{}")), "tool:t:{}");
    assert_ne!(tool_key("t", Some("1")), tool_key("t", Some("2")));
    assert_ne!(tool_key("t", Some("{}")), tool_key("u", Some("{}")));
    assert_ne!(tool_key("t", Some("{}")), tool_key("t{", Some("}")));
}

/// Strings, brackets and braces are closed, and a colon stands in a string or
/// within braces.
fn is_json_shaped(text: &str) -> bool {
    let (mut quoted, mut escaped, mut depth) = (false, false, 0i32);
    for c in text.chars() {
        if c == ':' && !quoted && depth <= 0 {
            return false;
        }
        if escaped {
            escaped = false;
        } else if c == '\\' {
            escaped = true;
        } else if c == '"' {
            quoted = !quoted;
        } else if !quoted && (c == '{' || c == '[') {
            depth += 1;
        } else if !quoted && (c == '}' || c == ']') {
            depth -= 1;
        }
    }
    !quoted && !escaped && depth == 0
}

#[test]
fn keys_tell_requests_apart() {
    let values: Vec<serde_json::Value> = vec![
        serde_json::Value::Null,
        true.into(),
        (-12.5).into(),
        "".into(),
        "a:b".into(),
        "\"}:{\\".into(),
        "\\\"".into(),
        "\u{1}\n\u{e9}".into(),
        vec![1, 2].into(),
        object(&[]),
        object(&[("a:\"", object(&[("b", ":".into())])), ("c", vec!["]"].into())]),
    ];
    let names = ["t", "t:", "t:{\"a\"", "t:\"a", ":", ""];
    let mut keys = Vec::new();
    for name in names {
        for value in &values {
            let key = request_key(&tool_call(name, value.clone())).unwrap();
            let prefix = format!("tool:{name}:");
            assert!(is_json_shaped(key.strip_prefix(&prefix).unwrap()), "{key}");
            assert!(!keys.contains(&key), "{key}");
            keys.push(key);
        }
    }
}

#[test]
fn metrics_name_the_backend() {
    let svc = MetricsService::new(Backends);
    let label = |request: &McpRequest| svc.namespace_label(request, "/");
    let call = tool_call("math/add/more", object(&[]));
    assert_eq!(label(&call).as_deref(), Some("math"));
    assert_eq!(svc.namespace_label(&call, "::"), None);
    let read = McpRequest::ReadResource(ReadResourceParams {
        uri: "fs/file:///a".to_string(),
    });
    assert_eq!(label(&read).as_deref(), Some("fs"));
    let prompt = McpRequest::GetPrompt(GetPromptParams {
        name: "help".to_string(),
    });
    assert_eq!(label(&prompt), None);
    assert_eq!(label(&McpRequest::ListTools), None);
}
