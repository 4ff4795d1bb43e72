use mcp_proxy::alias::{AliasLayer, AliasMap, AliasService};
use mcp_proxy::protocol::{
    CallToolParams, Entry, GetPromptParams, McpRequest, McpResponse, ReadResourceParams, Request,
    RequestId, Response,
};

/// A backend that lists some tools and answers calls with the name it was
/// called under.
struct Mock {
    tools: Vec<&'static str>,
}

impl Mock {
    fn with_tools(names: &[&'static str]) -> Self {
        Mock {
            tools: names.to_vec(),
        }
    }

    fn answer(&self, request: &Request) -> Response<String> {
        let inner = match &request.inner {
            McpRequest::ListTools => McpResponse::ListTools(
                self.tools
                    .iter()
                    .map(|name| Entry {
                        name: name.to_string(),
                        annotations: None,
                        payload: name.to_string(),
                    })
                    .collect(),
            ),
            McpRequest::CallTool(params) => McpResponse::Other(format!("called: {}", params.name)),
            other => McpResponse::Other(other.method_name().to_string()),
        };
        Response {
            id: request.id.clone(),
            inner: Ok(inner),
        }
    }
}

fn call(svc: &mut AliasService<Mock>, inner: McpRequest) -> Response<String> {
    let request = svc.on_request(Request {
        id: RequestId::Number(1),
        inner,
    });
    let response = svc.service().answer(&request);
    svc.on_response(response)
}

fn call_tool(name: &str) -> McpRequest {
    McpRequest::CallTool(CallToolParams {
        name: name.to_string(),
        arguments: serde_json::Value::Object(serde_json::Map::new()),
    })
}

fn text(response: Response<String>) -> String {
    match response.inner.unwrap() {
        McpResponse::Other(text) => text,
        other => panic!("expected a result, got: {:?}", other),
    }
}

fn test_aliases() -> AliasMap {
    AliasMap::new(vec![
        ("files/".into(), "read_file".into(), "read".into()),
        ("files/".into(), "write_file".into(), "write".into()),
    ])
    .unwrap()
}

#[test]
fn test_alias_map_empty_returns_none() {
    assert!(AliasMap::new(vec![]).is_none());
}

#[test]
fn test_alias_map_forward_and_reverse() {
    let aliases = test_aliases();
    assert_eq!(
        aliases.forward.get("files/read_file").unwrap(),
        "files/read"
    );
    assert_eq!(aliases.forward.len(), 2);
}

#[test]
fn test_alias_rewrites_list_tools() {
    let mock = Mock::with_tools(&["files/read_file", "files/write_file", "db/query"]);
    let mut svc = AliasService::new(mock, test_aliases());

    match call(&mut svc, McpRequest::ListTools).inner.unwrap() {
        McpResponse::ListTools(tools) => {
            let names: Vec<&str> = tools.iter().map(|t| t.name.as_str()).collect();
            assert!(names.contains(&"files/read"));
            assert!(names.contains(&"files/write"));
            assert!(names.contains(&"db/query")); // unchanged
            assert_eq!(tools[0].payload, "files/read_file");
        }
        other => panic!("expected ListTools, got: {:?}", other),
    }
}

#[test]
fn test_alias_reverse_maps_call_tool() {
    let mock = Mock::with_tools(&["files/read_file"]);
    let mut svc = AliasService::new(mock, test_aliases());

    assert_eq!(
        text(call(&mut svc, call_tool("files/read"))),
        "called: files/read_file"
    );
}

#[test]
fn test_alias_passthrough_non_aliased() {
    let mock = Mock::with_tools(&["db/query"]);
    let mut svc = AliasService::new(mock, test_aliases());

    assert_eq!(
        text(call(&mut svc, call_tool("db/query"))),
        "called: db/query"
    );
}

#[test]
fn reads_and_prompts_are_mapped_back() {
    let svc = AliasLayer::new(test_aliases()).layer(());
    let read = svc.on_request(Request {
        id: RequestId::Number(3),
        inner: McpRequest::ReadResource(ReadResourceParams {
            uri: "files/write".into(),
        }),
    });
    assert_eq!(read.id, RequestId::Number(3));
    match read.inner {
        McpRequest::ReadResource(params) => assert_eq!(params.uri, "files/write_file"),
        other => panic!("{other:?}"),
    }
    let get = svc.on_request(Request {
        id: RequestId::Number(4),
        inner: McpRequest::GetPrompt(GetPromptParams {
            name: "files/read".into(),
        }),
    });
    match get.inner {
        McpRequest::GetPrompt(params) => assert_eq!(params.name, "files/read_file"),
        other => panic!("{other:?}"),
    }
}

#[test]
fn resources_and_prompts_are_renamed_but_templates_are_not() {
    let svc = AliasService::new((), test_aliases());
    let entries = || {
        vec![Entry {
            name: "files/read_file".to_string(),
            annotations: None,
            payload: (),
        }]
    };
    let name = |inner: McpResponse<()>| -> String {
        let response = svc.on_response(Response {
            id: RequestId::Number(1),
            inner: Ok(inner),
        });
        match response.inner.unwrap() {
            McpResponse::ListTools(e)
            | McpResponse::ListResources(e)
            | McpResponse::ListResourceTemplates(e)
            | McpResponse::ListPrompts(e) => e[0].name.clone(),
            McpResponse::Other(_) => panic!("not a listing"),
        }
    };
    assert_eq!(name(McpResponse::ListResources(entries())), "files/read");
    assert_eq!(name(McpResponse::ListPrompts(entries())), "files/read");
    assert_eq!(
        name(McpResponse::ListResourceTemplates(entries())),
        "files/read_file"
    );
}

#[test]
fn of_two_aliases_for_one_name_the_later_counts() {
    let aliases = AliasMap::new(vec![
        ("m/".into(), "add".into(), "sum".into()),
        ("m/".into(), "add".into(), "plus".into()),
    ])
    .unwrap();
    assert_eq!(aliases.forward.get("m/add").unwrap(), "m/plus");
    assert_eq!(aliases.reverse.get("m/sum").unwrap(), "m/add");
    assert_eq!(aliases.reverse.get("m/plus").unwrap(), "m/add");
    assert_eq!(aliases.forward.len(), 1);
    assert_eq!(aliases.reverse.len(), 2);
}

#[test]
fn listed_aliases_lead_back() {
    let tools = ["files/read_file", "files/write_file", "db/query"];
    let mut svc = AliasService::new(Mock::with_tools(&tools), test_aliases());
    let names: Vec<String> = match call(&mut svc, McpRequest::ListTools).inner.unwrap() {
        McpResponse::ListTools(tools) => tools.into_iter().map(|t| t.name).collect(),
        other => panic!("{other:?}"),
    };
    for (name, tool) in names.iter().zip(tools) {
        assert_eq!(
            text(call(&mut svc, call_tool(name))),
            format!("called: {tool}")
        );
    }
}
