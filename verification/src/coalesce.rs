//! Request coalescing middleware for the proxy.
//!
//! Deduplicates identical in-flight `CallTool` and `ReadResource` requests.
//! When multiple identical requests arrive concurrently, only one is forwarded
//! to the backend; all callers receive the same response.

use vstd::prelude::*;

use crate::keys::{has_json_arguments, key_of, request_key};
use crate::names::NameMap;
use crate::protocol::{Answer, McpRequest, Request};

verus! {

/// The requests that are under way, each with what tells its waiters of the
/// response.
pub struct InFlight<W> {
    waiting: NameMap<W>,
}

/// What becomes of a request that arrives.
pub enum Arrival<'a, W> {
    /// It is not coalesced: it is forwarded.
    Forward,
    /// The same request is under way: its response is waited for.
    Wait(&'a W),
    /// It is the first of its kind: it is registered under a key and forwarded.
    Lead(String),
}

/// The key under which a request is coalesced, `None` for a request that is not.
pub fn coalesce_key(request: &McpRequest) -> (key: Option<String>)
    ensures
        match key {
            Some(k) => key_of(*request) == Some(k@),
            None => key_of(*request) is None,
        },
        has_json_arguments(*request),
{
    request_key(request)
}

impl<W> View for InFlight<W> {
    type V = Map<Seq<char>, W>;

    closed spec fn view(&self) -> Map<Seq<char>, W> {
        self.waiting@
    }
}

impl<W> InFlight<W> {
    /// No request is under way.
    pub fn new() -> (in_flight: InFlight<W>)
        ensures
            in_flight@ == Map::<Seq<char>, W>::empty(),
    {
        InFlight { waiting: NameMap::new() }
    }

    /// What becomes of a request that arrives.
    pub fn arrive(&self, request: &McpRequest) -> (arrival: Arrival<W>)
        ensures
            match key_of(*request) {
                None => arrival is Forward,
                Some(key) => if self@.contains_key(key) {
                    arrival matches Arrival::Wait(w) && *w == self@[key]
                } else {
                    arrival matches Arrival::Lead(k) && k@ == key
                },
            },
            has_json_arguments(*request),
    {
        match coalesce_key(request) {
            None => Arrival::Forward,
            Some(key) => match self.waiting.get(key.as_str()) {
                Some(w) => Arrival::Wait(w),
                None => Arrival::Lead(key),
            },
        }
    }

    /// Registers a request that is being forwarded.
    pub fn register(&mut self, key: String, waiters: W)
        ensures
            final(self)@ == old(self)@.insert(key@, waiters),
    {
        self.waiting.insert(key, waiters);
    }

    /// Takes a request out whose response has come.
    pub fn finish(&mut self, key: &str)
        ensures
            final(self)@ == old(self)@.remove(key@),
    {
        self.waiting.remove(key);
    }
}

/// What a wait leads to: a response that came is the answer, under the
/// identifier of the request that waited; where none came, the request is
/// forwarded after all.
pub fn on_wait<B>(request: &Request, received: Option<B>) -> (answer: Option<Answer<B>>)
    ensures
        match (received, answer) {
            (Some(body), Some(a)) => a.id == request.id && a.body == body,
            (None, None) => true,
            _ => false,
        },
{
    match received {
        Some(body) => Some(Answer { id: request.id.clone(), body }),
        None => None,
    }
}

/// A request is forwarded: no identical one is under way.
pub open spec fn is_forwarded<W>(in_flight: Map<Seq<char>, W>, request: McpRequest) -> bool {
    key_of(request) matches Some(key) ==> !in_flight.contains_key(key)
}

/// From when a request is registered until it is finished, no identical
/// request is forwarded, and what becomes of any other request does not depend
/// on it.
pub proof fn identical_requests_are_forwarded_once<W>(
    before: Map<Seq<char>, W>,
    first: McpRequest,
    waiters: W,
    other: McpRequest,
)
    requires
        key_of(first) is Some,
    ensures
        ({
            let key = key_of(first)->0;
            let during = before.insert(key, waiters);
            let after = during.remove(key);
            &&& key_of(other) == key_of(first) ==> !is_forwarded(during, other) && is_forwarded(
                after,
                other,
            )
            &&& key_of(other) != key_of(first) ==> (is_forwarded(during, other) <==> is_forwarded(
                before,
                other,
            )) && (is_forwarded(after, other) <==> is_forwarded(before, other))
        }),
{
}

} // verus!
