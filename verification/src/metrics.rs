//! Prometheus metrics middleware for the proxy.
//!
//! Records per-request counters and duration histograms, labeled by
//! MCP method and backend namespace.

use vstd::prelude::*;

use crate::access_log::{request_target, target_of};
use crate::protocol::McpRequest;
use crate::text::{
    optional, split_first, split_once, texts_are_split_at_the_first_delimiter,
};

verus! {

/// The namespace of the backend to which a request goes: what stands before
/// the first separator in the name of the tool or prompt, or the URI of the
/// resource.
pub open spec fn request_namespace(request: McpRequest, separator: Seq<char>) -> Option<Seq<char>> {
    match target_of(request) {
        Some(target) => match split_first(target, separator) {
            Some((namespace, _)) => Some(namespace),
            None => None,
        },
        None => None,
    }
}

/// Service that records request metrics.
#[derive(Clone)]
pub struct MetricsService<S> {
    inner: S,
}

impl<S> MetricsService<S> {
    /// The wrapped service.
    pub closed spec fn inner(&self) -> S {
        self.inner
    }

    /// Create a new metrics service wrapping `inner`.
    pub fn new(inner: S) -> (service: MetricsService<S>)
        ensures
            service.inner() == inner,
    {
        MetricsService { inner }
    }

    /// The wrapped service.
    pub fn service(&mut self) -> (inner: &mut S)
        ensures
            *inner == old(self).inner(),
            final(self).inner() == *final(inner),
    {
        &mut self.inner
    }

    /// The method label of a request.
    pub fn method_label(&self, request: &McpRequest) -> (label: String)
        ensures
            label@ == request.method(),
    {
        request.method_name().to_owned()
    }

    /// The namespace label of a request, `None` where it goes to no backend.
    pub fn namespace_label(&self, request: &McpRequest, separator: &str) -> (label: Option<String>)
        ensures
            optional(label) == request_namespace(*request, separator@),
    {
        match request_target(request) {
            Some(target) => match split_once(target, separator) {
                Some((namespace, _)) => Some(namespace.to_owned()),
                None => None,
            },
            None => None,
        }
    }
}

/// A request whose target is a namespace, the separator and a local name is
/// counted under that namespace, where the separator does not occur earlier.
/// A request without a target is counted under none.
pub proof fn requests_count_for_their_backend(
    request: McpRequest,
    namespace: Seq<char>,
    separator: Seq<char>,
    local: Seq<char>,
)
    ensures
        target_of(request) is None ==> request_namespace(request, separator) is None,
        target_of(request) == Some(namespace + separator + local) && (forall|a: Seq<char>, b: Seq<
            char,
        >|
            a.len() < namespace.len() ==> #[trigger] (a + separator + b) != namespace + separator
                + local) ==> request_namespace(request, separator) == Some(namespace),
        request_namespace(request, separator) matches Some(n) ==> (target_of(request) matches Some(
            target,
        ) && exists|rest: Seq<char>| target == #[trigger] (n + separator + rest)),
{
    if target_of(request) is Some {
        let target = target_of(request)->0;
        texts_are_split_at_the_first_delimiter(target, separator, namespace, local);
        if split_first(target, separator) is Some {
            let (x, y) = split_first(target, separator)->0;
            texts_are_split_at_the_first_delimiter(target, separator, x, y);
            let found = request_namespace(request, separator)->0;
            assert(found == x);
            assert(target == found + separator + y);
            assert(exists|rest: Seq<char>| target == #[trigger] (found + separator + rest));
        }
    }
}

} // verus!
