//! Structured access logging middleware.
//!
//! Logs each MCP request with structured fields including method, tool/resource
//! name, duration, and status.

use vstd::prelude::*;

use crate::protocol::McpRequest;
use crate::text::{optional, optional_str};

verus! {

/// Service that emits structured access log entries.
#[derive(Clone)]
pub struct AccessLogService<S> {
    inner: S,
}

/// What an access log entry says of a request.
#[derive(Debug)]
pub struct AccessRecord {
    /// The method name.
    pub method: String,
    /// The name of the tool or prompt, or the URI of the resource.
    pub target: Option<String>,
}

/// The tool, resource, or prompt that a request names.
pub open spec fn target_of(request: McpRequest) -> Option<Seq<char>> {
    match request {
        McpRequest::CallTool(params) => Some(params.name@),
        McpRequest::ReadResource(params) => Some(params.uri@),
        McpRequest::GetPrompt(params) => Some(params.name@),
        _ => None,
    }
}

/// Extract the tool, resource, or prompt name from an MCP request.
pub fn request_target(request: &McpRequest) -> (target: Option<&str>)
    ensures
        optional_str(target) == target_of(*request),
{
    match request {
        McpRequest::CallTool(params) => Some(params.name.as_str()),
        McpRequest::ReadResource(params) => Some(params.uri.as_str()),
        McpRequest::GetPrompt(params) => Some(params.name.as_str()),
        _ => None,
    }
}

/// The status of a response in logs and metrics.
pub fn response_status<T, E>(response: &Result<T, E>) -> (status: &'static str)
    ensures
        status@ == (if response is Ok {
            "ok"@
        } else {
            "error"@
        }),
{
    if response.is_ok() {
        "ok"
    } else {
        "error"
    }
}

impl<S> AccessLogService<S> {
    /// The wrapped service.
    pub closed spec fn inner(&self) -> S {
        self.inner
    }

    /// Create a new access log service wrapping `inner`.
    pub fn new(inner: S) -> (service: AccessLogService<S>)
        ensures
            service.inner() == inner,
    {
        AccessLogService { inner }
    }

    /// The wrapped service.
    pub fn service(&mut self) -> (inner: &mut S)
        ensures
            *inner == old(self).inner(),
            final(self).inner() == *final(inner),
    {
        &mut self.inner
    }

    /// What the log entry for a request says.
    pub fn on_request(&self, request: &McpRequest) -> (record: AccessRecord)
        ensures
            record.method@ == request.method(),
            optional(record.target) == target_of(*request),
    {
        let target = match request_target(request) {
            Some(t) => Some(t.to_owned()),
            None => None,
        };
        AccessRecord { method: request.method_name().to_owned(), target }
    }
}

/// The log names the tool of a call, the resource of a read and the prompt of
/// a get, and nothing for any other request.
pub proof fn targets_are_what_requests_name(request: McpRequest)
    ensures
        request matches McpRequest::CallTool(params) ==> target_of(request) == Some(params.name@),
        request matches McpRequest::ReadResource(params) ==> target_of(request) == Some(
            params.uri@,
        ),
        request matches McpRequest::GetPrompt(params) ==> target_of(request) == Some(params.name@),
        request is ListTools ==> target_of(request) is None,
        request is Other ==> target_of(request) is None,
{
}

} // verus!
