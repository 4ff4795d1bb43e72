//! Request validation middleware for the proxy.
//!
//! Validates tool call arguments against size limits before forwarding.

use std::sync::Arc;

use vstd::prelude::*;
use vstd::utf8::*;

use crate::json::{json_text, to_json_text};
use crate::protocol::{refuse, refuses, McpRequest, Refusal, Request};
use crate::text::{concat3, decimal, decimal_digits, optional_str};

verus! {

/// Configuration for request validation.
#[derive(Debug, Clone, Copy)]
pub struct ValidationConfig {
    /// Maximum serialized size of tool call arguments in bytes.
    pub max_argument_size: Option<usize>,
}

/// Middleware that validates requests before forwarding.
#[derive(Clone)]
pub struct ValidationService<S> {
    inner: S,
    config: Arc<ValidationConfig>,
}

/// The size of the text of arguments in bytes. Arguments that have no text
/// count as empty.
pub open spec fn text_size(text: Option<Seq<char>>) -> nat {
    match text {
        Some(t) => encode_utf8(t).len(),
        None => 0,
    }
}

/// The message with which arguments over the limit are refused.
pub open spec fn too_large(size: nat, limit: nat) -> Seq<char> {
    "Tool arguments exceed maximum size: "@ + decimal_digits(size) + " bytes (limit: "@
        + decimal_digits(limit) + " bytes)"@
}

impl ValidationConfig {
    /// Checks the text of the arguments of a tool call: the message with which
    /// they are refused, where they are over the limit.
    pub fn check(&self, text: Option<&str>) -> (message: Option<String>)
        ensures
            match (self.max_argument_size, message) {
                (Some(limit), Some(m)) => text_size(optional_str(text)) > limit && m@ == too_large(
                    text_size(optional_str(text)),
                    limit as nat,
                ),
                (Some(limit), None) => text_size(optional_str(text)) <= limit,
                (None, m) => m is None,
            },
    {
        let limit: usize = match self.max_argument_size {
            Some(limit) => limit,
            None => return None,
        };
        let size: usize = match text {
            Some(t) => t.as_bytes().len(),
            None => 0,
        };
        if size > limit {
            let start = concat3(
                "Tool arguments exceed maximum size: ",
                decimal(size as u64).as_str(),
                " bytes (limit: ",
            );
            Some(concat3(start.as_str(), decimal(limit as u64).as_str(), " bytes)"))
        } else {
            None
        }
    }
}

impl<S> ValidationService<S> {
    /// The wrapped service.
    pub closed spec fn inner(&self) -> S {
        self.inner
    }

    /// The limits.
    pub closed spec fn config(&self) -> ValidationConfig {
        *self.config
    }

    /// Create a new validation service wrapping `inner`.
    pub fn new(inner: S, config: ValidationConfig) -> (service: ValidationService<S>)
        ensures
            service.inner() == inner,
            service.config() == config,
    {
        ValidationService { inner, config: Arc::new(config) }
    }

    /// The wrapped service.
    pub fn service(&mut self) -> (inner: &mut S)
        ensures
            *inner == old(self).inner(),
            final(self).inner() == *final(inner),
            final(self).config() == old(self).config(),
    {
        &mut self.inner
    }

    /// Decides on a request: a tool call whose arguments are over the limit is
    /// refused, anything else is forwarded.
    pub fn on_request(&self, request: &Request) -> (refusal: Option<Refusal>)
        ensures
            match (request.inner, self.config().max_argument_size) {
                (McpRequest::CallTool(params), Some(limit)) => {
                    let size = text_size(json_text(params.arguments));
                    match refusal {
                        Some(r) => size > limit && refuses(
                            r,
                            *request,
                            too_large(size, limit as nat),
                        ),
                        None => size <= limit,
                    }
                },
                _ => refusal is None,
            },
    {
        if self.config.max_argument_size.is_none() {
            return None;
        }
        if let McpRequest::CallTool(params) = &request.inner {
            let message = match to_json_text(&params.arguments) {
                Some(text) => self.config.check(Some(text.as_str())),
                None => self.config.check(None),
            };
            if let Some(message) = message {
                return Some(refuse(request, message));
            }
        }
        None
    }
}

/// The size of arguments is the number of bytes of their text, and nothing has
/// no size. The message gives the size and the limit in decimal.
pub proof fn sizes_are_counted_in_bytes(text: Option<Seq<char>>, size: nat, limit: nat)
    ensures
        text matches Some(t) ==> text_size(text) == encode_utf8(t).len(),
        text is None ==> text_size(text) == 0,
        too_large(size, limit) == "Tool arguments exceed maximum size: "@ + decimal_digits(size)
            + " bytes (limit: "@ + decimal_digits(limit) + " bytes)"@,
{
}

} // verus!
