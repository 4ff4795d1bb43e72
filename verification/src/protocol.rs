//! Requests and responses, as far as the middlewares read them.

use vstd::prelude::*;

verus! {

/// The identifier by which a response is matched to its request.
#[derive(Debug, PartialEq, Eq)]
pub enum RequestId {
    /// A string identifier.
    Text(String),
    /// An integer identifier.
    Number(i64),
}

impl Clone for RequestId {
    fn clone(&self) -> (copy: RequestId)
        ensures
            copy == *self,
    {
        match self {
            RequestId::Text(text) => RequestId::Text(text.clone()),
            RequestId::Number(number) => RequestId::Number(*number),
        }
    }
}

/// The parameters of a tool call.
#[derive(Debug)]
pub struct CallToolParams {
    /// The namespaced name of the tool.
    pub name: String,
    /// The arguments.
    pub arguments: serde_json::Value,
}

/// The parameters of a resource read.
#[derive(Debug)]
pub struct ReadResourceParams {
    /// The namespaced URI of the resource.
    pub uri: String,
}

/// The parameters of a prompt request.
#[derive(Debug)]
pub struct GetPromptParams {
    /// The namespaced name of the prompt.
    pub name: String,
}

/// A request.
#[derive(Debug)]
pub enum McpRequest {
    /// List available tools.
    ListTools,
    /// Call a tool.
    CallTool(CallToolParams),
    /// Read a resource.
    ReadResource(ReadResourceParams),
    /// Get a prompt.
    GetPrompt(GetPromptParams),
    /// Any other request, by its method name.
    Other(String),
}

impl McpRequest {
    /// The method name of a request.
    pub open spec fn method(self) -> Seq<char> {
        match self {
            McpRequest::ListTools => "tools/list"@,
            McpRequest::CallTool(_) => "tools/call"@,
            McpRequest::ReadResource(_) => "resources/read"@,
            McpRequest::GetPrompt(_) => "prompts/get"@,
            McpRequest::Other(method) => method@,
        }
    }

    /// Get the method name for this request.
    pub fn method_name(&self) -> (name: &str)
        ensures
            name@ == self.method(),
    {
        match self {
            McpRequest::ListTools => "tools/list",
            McpRequest::CallTool(_) => "tools/call",
            McpRequest::ReadResource(_) => "resources/read",
            McpRequest::GetPrompt(_) => "prompts/get",
            McpRequest::Other(method) => method.as_str(),
        }
    }
}

/// A request with its identifier.
#[derive(Debug)]
pub struct Request {
    /// The identifier.
    pub id: RequestId,
    /// The request.
    pub inner: McpRequest,
}

/// What a tool says of its behavior.
#[derive(Debug, Clone, Copy)]
pub struct ToolAnnotations {
    /// The tool does not modify state.
    pub read_only_hint: bool,
    /// The tool may have destructive effects.
    pub destructive_hint: bool,
    /// Calling repeatedly with the same arguments has the same effect.
    pub idempotent_hint: bool,
    /// The tool interacts with external entities.
    pub open_world_hint: bool,
}

/// An entry of a listing.
#[derive(Debug)]
pub struct Entry<T> {
    /// The namespaced name of a tool or a prompt, or the namespaced URI of a
    /// resource or a resource template.
    pub name: String,
    /// What a tool says of its behavior.
    pub annotations: Option<ToolAnnotations>,
    /// All else that the entry holds.
    pub payload: T,
}

/// A successful response.
#[derive(Debug)]
pub enum McpResponse<T> {
    /// The tools.
    ListTools(Vec<Entry<T>>),
    /// The resources.
    ListResources(Vec<Entry<T>>),
    /// The resource templates.
    ListResourceTemplates(Vec<Entry<T>>),
    /// The prompts.
    ListPrompts(Vec<Entry<T>>),
    /// Any other response.
    Other(T),
}

/// An error response.
#[derive(Debug)]
pub struct JsonRpcError {
    /// Numeric error code.
    pub code: i32,
    /// Summary of the error.
    pub message: String,
}

/// A response with the identifier of its request.
#[derive(Debug)]
pub struct Response<T> {
    /// The identifier.
    pub id: RequestId,
    /// The response.
    pub inner: Result<McpResponse<T>, JsonRpcError>,
}

/// The answer to a request that is not forwarded.
#[derive(Debug)]
pub struct Refusal {
    /// The identifier of the request.
    pub id: RequestId,
    /// Why it is refused.
    pub error: JsonRpcError,
}

/// An answer that was made for another request, or earlier, under the
/// identifier of the request that it now answers.
#[derive(Debug)]
pub struct Answer<B> {
    /// The identifier of the request.
    pub id: RequestId,
    /// What the answer holds besides the identifier.
    pub body: B,
}

/// `tower_mcp_types::JsonRpcError::invalid_params`: an error with the code for
/// invalid parameters and the given message.
#[verifier::external_body]
pub(crate) fn invalid_params(message: String) -> (error: JsonRpcError)
    ensures
        error.code == -32602,
        error.message@ == message@,
{
    let error = tower_mcp_types::JsonRpcError::invalid_params(message);
    JsonRpcError { code: error.code, message: error.message }
}

/// A refusal answers a request, under its identifier, with the code for
/// invalid parameters and a message.
pub open spec fn refuses(refusal: Refusal, request: Request, message: Seq<char>) -> bool {
    &&& refusal.id == request.id
    &&& refusal.error.code == -32602
    &&& refusal.error.message@ == message
}

/// Refuses a request.
pub(crate) fn refuse(request: &Request, message: String) -> (refusal: Refusal)
    ensures
        refuses(refusal, *request, message@),
{
    Refusal { id: request.id.clone(), error: invalid_params(message) }
}

/// Requests have the method names of the protocol.
pub proof fn methods_have_their_names(request: McpRequest)
    ensures
        request is ListTools ==> request.method() == "tools/list"@,
        request is CallTool ==> request.method() == "tools/call"@,
        request is ReadResource ==> request.method() == "resources/read"@,
        request is GetPrompt ==> request.method() == "prompts/get"@,
        request matches McpRequest::Other(method) ==> request.method() == method@,
{
}

/// A refusal answers its own request, as one with invalid parameters, with the
/// given message.
pub proof fn refusals_answer_their_request(
    refusal: Refusal,
    request: Request,
    message: Seq<char>,
)
    ensures
        refuses(refusal, request, message) <==> refusal.id == request.id && refusal.error.code
            == -32602 && refusal.error.message@ == message,
{
}

} // verus!
