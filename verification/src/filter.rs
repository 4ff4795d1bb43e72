//! Capability filtering middleware for the proxy.
//!
//! Filters tools, resources, and prompts based on per-backend allow/deny
//! lists.

use std::sync::Arc;

use vstd::prelude::*;

use crate::config::{BackendConfig, BackendFilter, NameFilter};
use crate::protocol::{
    refuse, refuses, Entry, McpRequest, McpResponse, Refusal, Request, Response,
    ToolAnnotations,
};
use crate::sequences::lemma_filter_take_succ;
use crate::text::{concat2, starts_with, strip_prefix};

verus! {

/// Layer that produces a [`CapabilityFilterService`].
pub struct CapabilityFilterLayer {
    filters: Vec<BackendFilter>,
}

/// Middleware that filters capabilities from proxy responses.
#[derive(Clone)]
pub struct CapabilityFilterService<S> {
    inner: S,
    filters: Arc<Vec<BackendFilter>>,
}

/// The filter at position `i` is the one that decides on a name: the first
/// one whose namespace the name begins with.
pub open spec fn governs(filters: Seq<BackendFilter>, i: int, name: Seq<char>) -> bool {
    &&& 0 <= i < filters.len()
    &&& filters[i].namespace@.is_prefix_of(name)
    &&& forall|j: int| 0 <= j < i ==> !(#[trigger] filters[j]).namespace@.is_prefix_of(name)
}

/// What stands in a name behind the namespace of the filter at a position.
pub open spec fn local_name(filters: Seq<BackendFilter>, i: int, name: Seq<char>) -> Seq<char> {
    name.skip(filters[i].namespace@.len() as int)
}

/// The filter that decides on a tool name does not let it pass.
pub open spec fn tool_denied(filters: Seq<BackendFilter>, name: Seq<char>) -> bool {
    exists|i: int| #[trigger]
        governs(filters, i, name) && !filters[i].tool_filter@.passes(local_name(filters, i, name))
}

/// The filter that decides on a resource URI does not let it pass.
pub open spec fn resource_denied(filters: Seq<BackendFilter>, uri: Seq<char>) -> bool {
    exists|i: int| #[trigger]
        governs(filters, i, uri) && !filters[i].resource_filter@.passes(
            local_name(filters, i, uri),
        )
}

/// The filter that decides on a prompt name does not let it pass.
pub open spec fn prompt_denied(filters: Seq<BackendFilter>, name: Seq<char>) -> bool {
    exists|i: int| #[trigger]
        governs(filters, i, name) && !filters[i].prompt_filter@.passes(
            local_name(filters, i, name),
        )
}

/// A filter leaves a tool with these annotations out of listings.
pub open spec fn hidden_by_annotations(
    filter: BackendFilter,
    annotations: Option<ToolAnnotations>,
) -> bool {
    match annotations {
        Some(a) => (filter.hide_destructive && a.destructive_hint) || (filter.read_only_only
            && !a.read_only_hint),
        None => filter.read_only_only,
    }
}

/// A tool stays in listings: no filter decides on it, or the one that does
/// lets its name pass and does not hide it for its annotations.
pub open spec fn tool_listed<T>(filters: Seq<BackendFilter>, tool: Entry<T>) -> bool {
    forall|i: int| #[trigger]
        governs(filters, i, tool.name@) ==> filters[i].tool_filter@.passes(
            local_name(filters, i, tool.name@),
        ) && !hidden_by_annotations(filters[i], tool.annotations)
}

/// The response after filtering.
pub open spec fn filtered<T>(
    filters: Seq<BackendFilter>,
    before: McpResponse<T>,
    after: McpResponse<T>,
) -> bool {
    match before {
        McpResponse::ListTools(tools) => after matches McpResponse::ListTools(t) && t@
            == tools@.filter(|tool: Entry<T>| tool_listed(filters, tool)),
        McpResponse::ListResources(resources) => after matches McpResponse::ListResources(r) && r@
            == resources@.filter(|r: Entry<T>| !resource_denied(filters, r.name@)),
        McpResponse::ListResourceTemplates(templates) => after matches
            McpResponse::ListResourceTemplates(t) && t@ == templates@.filter(
            |t: Entry<T>| !resource_denied(filters, t.name@),
        ),
        McpResponse::ListPrompts(prompts) => after matches McpResponse::ListPrompts(p) && p@
            == prompts@.filter(|p: Entry<T>| !prompt_denied(filters, p.name@)),
        McpResponse::Other(_) => after == before,
    }
}

proof fn lemma_one_governs(filters: Seq<BackendFilter>, i: int, j: int, name: Seq<char>)
    requires
        governs(filters, i, name),
        governs(filters, j, name),
    ensures
        i == j,
{
    if i < j {
        assert(!filters[i].namespace@.is_prefix_of(name));
    } else if j < i {
        assert(!filters[j].namespace@.is_prefix_of(name));
    }
}

/// The position of the filter that decides on a name.
fn governing(filters: &[BackendFilter], name: &str) -> (at: Option<usize>)
    ensures
        match at {
            Some(i) => governs(filters@, i as int, name@),
            None => forall|i: int| !governs(filters@, i, name@),
        },
{
    let mut i: usize = 0;
    while i < filters.len()
        invariant
            i <= filters@.len(),
            forall|j: int|
                0 <= j < i ==> !(#[trigger] filters@[j]).namespace@.is_prefix_of(name@),
        decreases filters@.len() - i,
    {
        if starts_with(name, filters[i].namespace.as_str()) {
            return Some(i);
        }
        i = i + 1;
    }
    None
}

/// Check if a namespaced tool name is denied by any filter.
/// Returns Some(reason) if denied.
pub fn check_tool_denied(filters: &[BackendFilter], namespaced_name: &str) -> (reason: Option<
    String,
>)
    ensures
        match reason {
            Some(r) => {
                &&& tool_denied(filters@, namespaced_name@)
                &&& r@ == "Tool not available: "@ + namespaced_name@
            },
            None => !tool_denied(filters@, namespaced_name@),
        },
{
    if let Some(i) = governing(filters, namespaced_name) {
        if let Some(local) = strip_prefix(namespaced_name, filters[i].namespace.as_str()) {
            if !filters[i].tool_filter.allows(local) {
                assert(governs(filters@, i as int, namespaced_name@));
                return Some(concat2("Tool not available: ", namespaced_name));
            }
        }
        proof {
            assert forall|j: int| #[trigger]
                governs(filters@, j, namespaced_name@) implies j == i by {
                lemma_one_governs(filters@, i as int, j, namespaced_name@);
            }
        }
    }
    None
}

/// Check if a namespaced resource URI is denied by any filter.
pub fn check_resource_denied(filters: &[BackendFilter], namespaced_uri: &str) -> (reason: Option<
    String,
>)
    ensures
        match reason {
            Some(r) => {
                &&& resource_denied(filters@, namespaced_uri@)
                &&& r@ == "Resource not available: "@ + namespaced_uri@
            },
            None => !resource_denied(filters@, namespaced_uri@),
        },
{
    if let Some(i) = governing(filters, namespaced_uri) {
        if let Some(local) = strip_prefix(namespaced_uri, filters[i].namespace.as_str()) {
            if !filters[i].resource_filter.allows(local) {
                assert(governs(filters@, i as int, namespaced_uri@));
                return Some(concat2("Resource not available: ", namespaced_uri));
            }
        }
        proof {
            assert forall|j: int| #[trigger]
                governs(filters@, j, namespaced_uri@) implies j == i by {
                lemma_one_governs(filters@, i as int, j, namespaced_uri@);
            }
        }
    }
    None
}

/// Check if a namespaced prompt name is denied by any filter.
pub fn check_prompt_denied(filters: &[BackendFilter], namespaced_name: &str) -> (reason: Option<
    String,
>)
    ensures
        match reason {
            Some(r) => {
                &&& prompt_denied(filters@, namespaced_name@)
                &&& r@ == "Prompt not available: "@ + namespaced_name@
            },
            None => !prompt_denied(filters@, namespaced_name@),
        },
{
    if let Some(i) = governing(filters, namespaced_name) {
        if let Some(local) = strip_prefix(namespaced_name, filters[i].namespace.as_str()) {
            if !filters[i].prompt_filter.allows(local) {
                assert(governs(filters@, i as int, namespaced_name@));
                return Some(concat2("Prompt not available: ", namespaced_name));
            }
        }
        proof {
            assert forall|j: int| #[trigger]
                governs(filters@, j, namespaced_name@) implies j == i by {
                lemma_one_governs(filters@, i as int, j, namespaced_name@);
            }
        }
    }
    None
}

/// Whether a tool stays in listings.
fn is_tool_listed<T>(filters: &[BackendFilter], tool: &Entry<T>) -> (listed: bool)
    ensures
        listed == tool_listed(filters@, *tool),
{
    let name = tool.name.as_str();
    match governing(filters, name) {
        None => true,
        Some(i) => {
            let f = &filters[i];
            proof {
                assert forall|j: int| #[trigger] governs(filters@, j, name@) implies j == i by {
                    lemma_one_governs(filters@, i as int, j, name@);
                }
                assert(governs(filters@, i as int, tool.name@));
            }
            if let Some(local) = strip_prefix(name, f.namespace.as_str()) {
                if !f.tool_filter.allows(local) {
                    return false;
                }
            }
            match &tool.annotations {
                Some(annotations) => !(f.hide_destructive && annotations.destructive_hint) && !(
                f.read_only_only && !annotations.read_only_hint),
                None => !f.read_only_only,
            }
        },
    }
}

impl CapabilityFilterLayer {
    /// The filter rules.
    pub closed spec fn filters(&self) -> Seq<BackendFilter> {
        self.filters@
    }

    /// Create a new capability filter layer with the given filter rules.
    pub fn new(filters: Vec<BackendFilter>) -> (layer: CapabilityFilterLayer)
        ensures
            layer.filters() == filters@,
    {
        CapabilityFilterLayer { filters }
    }

    /// Wrap a service with these filter rules.
    pub fn layer<S>(&self, inner: S) -> (service: CapabilityFilterService<S>)
        ensures
            service.inner() == inner,
            service.filters().map_values(|f: BackendFilter| f@) == self.filters().map_values(
                |f: BackendFilter| f@,
            ),
    {
        let mut filters: Vec<BackendFilter> = Vec::new();
        let mut i: usize = 0;
        while i < self.filters.len()
            invariant
                i <= self.filters@.len(),
                filters@.len() == i,
                forall|j: int| 0 <= j < i ==> (#[trigger] filters@[j])@ == self.filters@[j]@,
            decreases self.filters@.len() - i,
        {
            filters.push(self.filters[i].clone());
            i = i + 1;
        }
        let service = CapabilityFilterService::new(inner, filters);
        assert(service.filters().map_values(|f: BackendFilter| f@) =~= self.filters().map_values(
            |f: BackendFilter| f@,
        ));
        service
    }
}

impl<S> CapabilityFilterService<S> {
    /// The wrapped service.
    pub closed spec fn inner(&self) -> S {
        self.inner
    }

    /// The filter rules.
    pub closed spec fn filters(&self) -> Seq<BackendFilter> {
        self.filters@
    }

    /// Create a new capability filter service with the given filter rules.
    pub fn new(inner: S, filters: Vec<BackendFilter>) -> (service: CapabilityFilterService<S>)
        ensures
            service.inner() == inner,
            service.filters() == filters@,
    {
        CapabilityFilterService { inner, filters: Arc::new(filters) }
    }

    /// The wrapped service.
    pub fn service(&mut self) -> (inner: &mut S)
        ensures
            *inner == old(self).inner(),
            final(self).inner() == *final(inner),
            final(self).filters() == old(self).filters(),
    {
        &mut self.inner
    }

    /// Decides on a request: a call, read or get of a filtered capability is
    /// refused, anything else is forwarded.
    pub fn on_request(&self, request: &Request) -> (refusal: Option<Refusal>)
        ensures
            match (request.inner, refusal) {
                (McpRequest::CallTool(params), Some(r)) => tool_denied(self.filters(), params.name@)
                    && refuses(r, *request, "Tool not available: "@ + params.name@),
                (McpRequest::CallTool(params), None) => !tool_denied(self.filters(), params.name@),
                (McpRequest::ReadResource(params), Some(r)) => resource_denied(
                    self.filters(),
                    params.uri@,
                ) && refuses(r, *request, "Resource not available: "@ + params.uri@),
                (McpRequest::ReadResource(params), None) => !resource_denied(
                    self.filters(),
                    params.uri@,
                ),
                (McpRequest::GetPrompt(params), Some(r)) => prompt_denied(
                    self.filters(),
                    params.name@,
                ) && refuses(r, *request, "Prompt not available: "@ + params.name@),
                (McpRequest::GetPrompt(params), None) => !prompt_denied(
                    self.filters(),
                    params.name@,
                ),
                (McpRequest::ListTools, r) => r is None,
                (McpRequest::Other(_), r) => r is None,
            },
    {
        let filters = self.filters.as_slice();
        let reason: Option<String> = match &request.inner {
            McpRequest::CallTool(params) => check_tool_denied(filters, params.name.as_str()),
            McpRequest::ReadResource(params) => check_resource_denied(
                filters,
                params.uri.as_str(),
            ),
            McpRequest::GetPrompt(params) => check_prompt_denied(filters, params.name.as_str()),
            _ => None,
        };
        match reason {
            Some(reason) => Some(refuse(request, reason)),
            None => None,
        }
    }

    /// Filters a list response. Errors and other responses stay as they are.
    pub fn on_response<T>(&self, response: Response<T>) -> (result: Response<T>)
        ensures
            result.id == response.id,
            match response.inner {
                Ok(before) => result.inner matches Ok(after) && filtered(
                    self.filters(),
                    before,
                    after,
                ),
                Err(error) => result.inner == Err::<McpResponse<T>, _>(error),
            },
    {
        let Response { id, inner } = response;
        let inner = match inner {
            Ok(McpResponse::ListTools(tools)) => Ok(McpResponse::ListTools(self.keep_tools(tools))),
            Ok(McpResponse::ListResources(resources)) => Ok(
                McpResponse::ListResources(self.keep_resources(resources)),
            ),
            Ok(McpResponse::ListResourceTemplates(templates)) => Ok(
                McpResponse::ListResourceTemplates(self.keep_resources(templates)),
            ),
            Ok(McpResponse::ListPrompts(prompts)) => Ok(
                McpResponse::ListPrompts(self.keep_prompts(prompts)),
            ),
            other => other,
        };
        Response { id, inner }
    }

    fn keep_tools<T>(&self, tools: Vec<Entry<T>>) -> (kept: Vec<Entry<T>>)
        ensures
            kept@ == tools@.filter(|tool: Entry<T>| tool_listed(self.filters(), tool)),
    {
        let ghost all = tools@;
        let ghost passes = |tool: Entry<T>| tool_listed(self.filters(), tool);
        let mut kept: Vec<Entry<T>> = Vec::new();
        for tool in it: tools
            invariant
                it.seq() == all,
                passes == (|tool: Entry<T>| tool_listed(self.filters(), tool)),
                kept@ == all.take(it.index() as int).filter(passes),
        {
            proof {
                lemma_filter_take_succ(all, passes, it.index() as int);
            }
            if is_tool_listed(self.filters.as_slice(), &tool) {
                kept.push(tool);
            }
        }
        assert(all.take(all.len() as int) =~= all);
        kept
    }

    fn keep_resources<T>(&self, resources: Vec<Entry<T>>) -> (kept: Vec<Entry<T>>)
        ensures
            kept@ == resources@.filter(|r: Entry<T>| !resource_denied(self.filters(), r.name@)),
    {
        let ghost all = resources@;
        let ghost passes = |r: Entry<T>| !resource_denied(self.filters(), r.name@);
        let mut kept: Vec<Entry<T>> = Vec::new();
        for resource in it: resources
            invariant
                it.seq() == all,
                passes == (|r: Entry<T>| !resource_denied(self.filters(), r.name@)),
                kept@ == all.take(it.index() as int).filter(passes),
        {
            proof {
                lemma_filter_take_succ(all, passes, it.index() as int);
            }
            if check_resource_denied(self.filters.as_slice(), resource.name.as_str()).is_none() {
                kept.push(resource);
            }
        }
        assert(all.take(all.len() as int) =~= all);
        kept
    }

    fn keep_prompts<T>(&self, prompts: Vec<Entry<T>>) -> (kept: Vec<Entry<T>>)
        ensures
            kept@ == prompts@.filter(|p: Entry<T>| !prompt_denied(self.filters(), p.name@)),
    {
        let ghost all = prompts@;
        let ghost passes = |p: Entry<T>| !prompt_denied(self.filters(), p.name@);
        let mut kept: Vec<Entry<T>> = Vec::new();
        for prompt in it: prompts
            invariant
                it.seq() == all,
                passes == (|p: Entry<T>| !prompt_denied(self.filters(), p.name@)),
                kept@ == all.take(it.index() as int).filter(passes),
        {
            proof {
                lemma_filter_take_succ(all, passes, it.index() as int);
            }
            if check_prompt_denied(self.filters.as_slice(), prompt.name.as_str()).is_none() {
                kept.push(prompt);
            }
        }
        assert(all.take(all.len() as int) =~= all);
        kept
    }
}

/// Layer that produces a [`SearchModeFilterService`].
///
/// When search mode is enabled, `ListTools` responses are filtered to only
/// hold tools under the given namespace prefix (typically `"proxy/"`).
/// All other requests pass through unchanged -- `CallTool` requests for
/// backend tools still work, allowing `proxy/call_tool` to forward them.
pub struct SearchModeFilterLayer {
    prefix: String,
}

/// Middleware that filters `ListTools` responses to only show tools under
/// a specific namespace prefix.
///
/// Used by search mode to hide individual backend tools from tool listings
/// while keeping them callable through `proxy/call_tool`.
#[derive(Clone)]
pub struct SearchModeFilterService<S> {
    inner: S,
    prefix: String,
}

impl SearchModeFilterLayer {
    /// The prefix of the tools that are listed.
    pub closed spec fn prefix(&self) -> Seq<char> {
        self.prefix@
    }

    /// Create a new search mode filter that only lists tools matching `prefix`.
    pub fn new(prefix: &str) -> (layer: SearchModeFilterLayer)
        ensures
            layer.prefix() == prefix@,
    {
        SearchModeFilterLayer { prefix: prefix.to_owned() }
    }

    /// Wrap a service with this filter.
    pub fn layer<S>(&self, inner: S) -> (service: SearchModeFilterService<S>)
        ensures
            service.inner() == inner,
            service.prefix() == self.prefix(),
    {
        SearchModeFilterService { inner, prefix: self.prefix.clone() }
    }
}

impl<S> SearchModeFilterService<S> {
    /// The wrapped service.
    pub closed spec fn inner(&self) -> S {
        self.inner
    }

    /// The prefix of the tools that are listed.
    pub closed spec fn prefix(&self) -> Seq<char> {
        self.prefix@
    }

    /// Create a new search mode filter service.
    pub fn new(inner: S, prefix: &str) -> (service: SearchModeFilterService<S>)
        ensures
            service.inner() == inner,
            service.prefix() == prefix@,
    {
        SearchModeFilterService { inner, prefix: prefix.to_owned() }
    }

    /// The wrapped service.
    pub fn service(&mut self) -> (inner: &mut S)
        ensures
            *inner == old(self).inner(),
            final(self).inner() == *final(inner),
            final(self).prefix() == old(self).prefix(),
    {
        &mut self.inner
    }

    /// Leaves the tools without the prefix out of a tool listing. Any other
    /// response stays as it is.
    pub fn on_response<T>(&self, response: Response<T>) -> (result: Response<T>)
        ensures
            result.id == response.id,
            match response.inner {
                Ok(McpResponse::ListTools(tools)) => result.inner matches Ok(
                    McpResponse::ListTools(t),
                ) && t@ == tools@.filter(
                    |tool: Entry<T>| self.prefix().is_prefix_of(tool.name@),
                ),
                _ => result == response,
            },
    {
        let Response { id, inner } = response;
        let inner = match inner {
            Ok(McpResponse::ListTools(tools)) => Ok(McpResponse::ListTools(self.keep(tools))),
            other => other,
        };
        Response { id, inner }
    }

    fn keep<T>(&self, tools: Vec<Entry<T>>) -> (kept: Vec<Entry<T>>)
        ensures
            kept@ == tools@.filter(|tool: Entry<T>| self.prefix().is_prefix_of(tool.name@)),
    {
        let ghost all = tools@;
        let ghost passes = |tool: Entry<T>| self.prefix().is_prefix_of(tool.name@);
        let mut kept: Vec<Entry<T>> = Vec::new();
        for tool in it: tools
            invariant
                it.seq() == all,
                passes == (|tool: Entry<T>| self.prefix().is_prefix_of(tool.name@)),
                kept@ == all.take(it.index() as int).filter(passes),
        {
            proof {
                lemma_filter_take_succ(all, passes, it.index() as int);
            }
            if starts_with(tool.name.as_str(), self.prefix.as_str()) {
                kept.push(tool);
            }
        }
        assert(all.take(all.len() as int) =~= all);
        kept
    }
}

/// A tool that stays in listings can be called: the capability filter does not
/// refuse the call.
pub proof fn listed_tools_are_callable<T>(filters: Seq<BackendFilter>, tool: Entry<T>)
    requires
        tool_listed(filters, tool),
    ensures
        !tool_denied(filters, tool.name@),
{
}

/// Where no filter looks at annotations, the tools that can be called are
/// those that stay in listings.
pub proof fn callable_tools_are_listed<T>(filters: Seq<BackendFilter>, tool: Entry<T>)
    requires
        forall|i: int|
            0 <= i < filters.len() ==> !(#[trigger] filters[i]).hide_destructive
                && !filters[i].read_only_only,
        !tool_denied(filters, tool.name@),
    ensures
        tool_listed(filters, tool),
{
    assert forall|i: int| #[trigger]
        governs(filters, i, tool.name@) implies filters[i].tool_filter@.passes(
        local_name(filters, i, tool.name@),
    ) && !hidden_by_annotations(filters[i], tool.annotations) by {
        assert(!filters[i].hide_destructive && !filters[i].read_only_only);
    }
}

/// Whatever stands in a filtered tool listing stood in the listing before, and
/// none of it is denied.
pub proof fn filtered_tools_are_allowed<T>(
    filters: Seq<BackendFilter>,
    before: Seq<Entry<T>>,
    tool: Entry<T>,
)
    requires
        before.filter(|t: Entry<T>| tool_listed(filters, t)).contains(tool),
    ensures
        before.contains(tool),
        !tool_denied(filters, tool.name@),
{
    let passes = |t: Entry<T>| tool_listed(filters, t);
    before.lemma_filter_contains_rev(passes, tool);
    let after = before.filter(passes);
    let i = choose|i: int| 0 <= i < after.len() && after[i] == tool;
    before.lemma_filter_pred(passes, i);
}

/// A name in no filter's namespace is never denied.
pub proof fn other_namespaces_pass(filters: Seq<BackendFilter>, name: Seq<char>)
    requires
        forall|i: int|
            0 <= i < filters.len() ==> !(#[trigger] filters[i]).namespace@.is_prefix_of(name),
    ensures
        !tool_denied(filters, name),
        !resource_denied(filters, name),
        !prompt_denied(filters, name),
{
}

/// Nothing of a canary shows: every name on which the filter that a canary
/// backend gets decides is denied.
pub proof fn canaries_show_nothing(
    backend: BackendConfig,
    separator: Seq<char>,
    filters: Seq<BackendFilter>,
    i: int,
    name: Seq<char>,
)
    requires
        backend.canary_of is Some,
        0 <= i < filters.len(),
        backend.filter_rules(separator) == Some(filters[i]@),
        governs(filters, i, name),
    ensures
        tool_denied(filters, name),
        resource_denied(filters, name),
        prompt_denied(filters, name),
{
    let local = local_name(filters, i, name);
    assert(filters[i]@.tools == filters[i].tool_filter@);
    assert(!filters[i].tool_filter@.passes(local));
    assert(filters[i]@.resources == filters[i].resource_filter@);
    assert(!filters[i].resource_filter@.passes(local));
    assert(filters[i]@.prompts == filters[i].prompt_filter@);
    assert(!filters[i].prompt_filter@.passes(local));
}

proof fn lemma_governs_local(filters: Seq<BackendFilter>, i: int, local: Seq<char>)
    requires
        0 <= i < filters.len(),
        forall|j: int|
            0 <= j < i ==> !(#[trigger] filters[j]).namespace@.is_prefix_of(
                filters[i].namespace@ + local,
            ),
    ensures
        governs(filters, i, filters[i].namespace@ + local),
        local_name(filters, i, filters[i].namespace@ + local) == local,
        forall|j: int| #[trigger]
            governs(filters, j, filters[i].namespace@ + local) ==> j == i,
{
    let name = filters[i].namespace@ + local;
    assert(name.take(filters[i].namespace@.len() as int) =~= filters[i].namespace@);
    assert(filters[i].namespace@.is_prefix_of(name));
    assert(name.skip(filters[i].namespace@.len() as int) =~= local);
    assert forall|j: int| #[trigger] governs(filters, j, name) implies j == i by {
        lemma_one_governs(filters, i, j, name);
    }
}

/// On a name in a backend's namespace that filter decides which comes first
/// for the namespace, by what stands behind the namespace: an allow list
/// denies what it does not hold, a deny list what it holds. Tools, resources
/// and prompts each go by their own list.
pub proof fn names_are_denied_by_their_own_list(
    filters: Seq<BackendFilter>,
    i: int,
    local: Seq<char>,
)
    requires
        0 <= i < filters.len(),
        forall|j: int|
            0 <= j < i ==> !(#[trigger] filters[j]).namespace@.is_prefix_of(
                filters[i].namespace@ + local,
            ),
    ensures
        tool_denied(filters, filters[i].namespace@ + local) <==> match filters[i].tool_filter {
            NameFilter::PassAll => false,
            NameFilter::AllowList(set) => !set@.contains(local),
            NameFilter::DenyList(set) => set@.contains(local),
        },
        resource_denied(filters, filters[i].namespace@ + local) <==> match filters[i].resource_filter {
            NameFilter::PassAll => false,
            NameFilter::AllowList(set) => !set@.contains(local),
            NameFilter::DenyList(set) => set@.contains(local),
        },
        prompt_denied(filters, filters[i].namespace@ + local) <==> match filters[i].prompt_filter {
            NameFilter::PassAll => false,
            NameFilter::AllowList(set) => !set@.contains(local),
            NameFilter::DenyList(set) => set@.contains(local),
        },
{
    lemma_governs_local(filters, i, local);
    assert(governs(filters, i, filters[i].namespace@ + local));
}

/// A tool in a backend's namespace stays in listings exactly where its name is
/// not denied, it is not said to be destructive while such tools are hidden,
/// and it is said to be read-only where only such tools are shown.
pub proof fn tools_are_listed_by_name_and_hints<T>(
    filters: Seq<BackendFilter>,
    i: int,
    local: Seq<char>,
    tool: Entry<T>,
)
    requires
        0 <= i < filters.len(),
        tool.name@ == filters[i].namespace@ + local,
        forall|j: int|
            0 <= j < i ==> !(#[trigger] filters[j]).namespace@.is_prefix_of(
                filters[i].namespace@ + local,
            ),
    ensures
        tool_listed(filters, tool) <==> {
            &&& match filters[i].tool_filter {
                NameFilter::PassAll => true,
                NameFilter::AllowList(set) => set@.contains(local),
                NameFilter::DenyList(set) => !set@.contains(local),
            }
            &&& !(filters[i].hide_destructive && tool.annotations is Some
                && tool.annotations->0.destructive_hint)
            &&& filters[i].read_only_only ==> tool.annotations is Some
                && tool.annotations->0.read_only_hint
        },
{
    lemma_governs_local(filters, i, local);
    assert(governs(filters, i, tool.name@));
}

/// A tool in no filter's namespace stays in listings.
pub proof fn tools_of_other_namespaces_are_listed<T>(filters: Seq<BackendFilter>, tool: Entry<T>)
    requires
        forall|i: int|
            0 <= i < filters.len() ==> !(#[trigger] filters[i]).namespace@.is_prefix_of(
                tool.name@,
            ),
    ensures
        tool_listed(filters, tool),
{
}

/// A filtered listing is of the kind that it was, and holds in their order the
/// entries that are not filtered: tools that stay in listings, resources and
/// resource templates whose URI is not denied, prompts whose name is not
/// denied. Other responses stay as they are.
pub proof fn listings_keep_what_is_not_denied<T>(
    filters: Seq<BackendFilter>,
    before: McpResponse<T>,
    after: McpResponse<T>,
)
    requires
        filtered(filters, before, after),
    ensures
        before matches McpResponse::ListTools(b) ==> after matches McpResponse::ListTools(a) && a@
            == b@.filter(|tool: Entry<T>| tool_listed(filters, tool)),
        before matches McpResponse::ListResources(b) ==> after matches McpResponse::ListResources(a)
            && a@ == b@.filter(|r: Entry<T>| !resource_denied(filters, r.name@)),
        before matches McpResponse::ListResourceTemplates(b) ==> after matches
            McpResponse::ListResourceTemplates(a) && a@ == b@.filter(
            |t: Entry<T>| !resource_denied(filters, t.name@),
        ),
        before matches McpResponse::ListPrompts(b) ==> after matches McpResponse::ListPrompts(a)
            && a@ == b@.filter(|p: Entry<T>| !prompt_denied(filters, p.name@)),
        before is Other ==> after == before,
{
}

} // verus!
