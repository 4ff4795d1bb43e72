//! Tool aliasing middleware for the proxy.
//!
//! Rewrites tool names in list responses and call requests based on
//! per-backend alias configuration.

use std::sync::Arc;

use vstd::prelude::*;

use crate::names::{text_map, NameMap};
use crate::protocol::{Entry, McpRequest, McpResponse, Request, Response};
use crate::text::concat2;

verus! {

/// Layer that produces an [`AliasService`].
pub struct AliasLayer {
    aliases: AliasMap,
}

/// Resolved alias mappings for all backends.
pub struct AliasMap {
    /// Maps "namespace/original" -> "namespace/alias" (for list responses).
    pub forward: NameMap<String>,
    /// Maps "namespace/alias" -> "namespace/original" (for call requests).
    pub reverse: NameMap<String>,
}

/// Service that rewrites tool names based on alias configuration.
#[derive(Clone)]
pub struct AliasService<S> {
    inner: S,
    aliases: Arc<AliasMap>,
}

/// The texts in `(namespace, from, to)` triples.
pub open spec fn triples(mappings: Seq<(String, String, String)>) -> Seq<
    (Seq<char>, Seq<char>, Seq<char>),
> {
    mappings.map_values(|m: (String, String, String)| (m.0@, m.1@, m.2@))
}

/// The full name of the tool that a `(namespace, from, to)` triple renames.
pub open spec fn original(mapping: (Seq<char>, Seq<char>, Seq<char>)) -> Seq<char> {
    mapping.0 + mapping.1
}

/// The full name that a `(namespace, from, to)` triple gives to a tool.
pub open spec fn aliased(mapping: (Seq<char>, Seq<char>, Seq<char>)) -> Seq<char> {
    mapping.0 + mapping.2
}

/// The aliases by the names that they replace; of two for one name the later
/// one counts.
pub open spec fn forward_names(mappings: Seq<(Seq<char>, Seq<char>, Seq<char>)>) -> Map<
    Seq<char>,
    Seq<char>,
>
    decreases mappings.len(),
{
    if mappings.len() == 0 {
        Map::empty()
    } else {
        forward_names(mappings.drop_last()).insert(
            original(mappings.last()),
            aliased(mappings.last()),
        )
    }
}

/// The replaced names by their aliases; of two with one alias the later one
/// counts.
pub open spec fn reverse_names(mappings: Seq<(Seq<char>, Seq<char>, Seq<char>)>) -> Map<
    Seq<char>,
    Seq<char>,
>
    decreases mappings.len(),
{
    if mappings.len() == 0 {
        Map::empty()
    } else {
        reverse_names(mappings.drop_last()).insert(
            aliased(mappings.last()),
            original(mappings.last()),
        )
    }
}

/// A name as a map renames it; a name that is not in the map stays.
pub open spec fn renamed(map: Map<Seq<char>, Seq<char>>, name: Seq<char>) -> Seq<char> {
    if map.contains_key(name) {
        map[name]
    } else {
        name
    }
}

proof fn lemma_text_map_insert(map: Map<Seq<char>, String>, key: Seq<char>, value: String)
    ensures
        text_map(map.insert(key, value)) == text_map(map).insert(key, value@),
{
    assert(text_map(map.insert(key, value)) =~= text_map(map).insert(key, value@));
}

fn rename(map: &NameMap<String>, name: String) -> (result: String)
    ensures
        result@ == renamed(text_map(map@), name@),
{
    match map.get(name.as_str()) {
        Some(found) => found.clone(),
        None => name,
    }
}

impl AliasMap {
    /// Build an alias map from `(namespace, from, to)` triples. Returns `None` if empty.
    pub fn new(mappings: Vec<(String, String, String)>) -> (aliases: Option<AliasMap>)
        ensures
            match aliases {
                Some(a) => {
                    &&& mappings@.len() > 0
                    &&& text_map(a.forward@) == forward_names(triples(mappings@))
                    &&& text_map(a.reverse@) == reverse_names(triples(mappings@))
                },
                None => mappings@.len() == 0,
            },
    {
        if mappings.len() == 0 {
            return None;
        }
        let mut forward: NameMap<String> = NameMap::new();
        let mut reverse: NameMap<String> = NameMap::new();
        let mut i: usize = 0;
        assert(text_map(forward@) =~= forward_names(triples(mappings@.take(0))));
        assert(text_map(reverse@) =~= reverse_names(triples(mappings@.take(0))));
        while i < mappings.len()
            invariant
                i <= mappings@.len(),
                text_map(forward@) == forward_names(triples(mappings@.take(i as int))),
                text_map(reverse@) == reverse_names(triples(mappings@.take(i as int))),
            decreases mappings@.len() - i,
        {
            let mapping = &mappings[i];
            let name = concat2(mapping.0.as_str(), mapping.1.as_str());
            let alias = concat2(mapping.0.as_str(), mapping.2.as_str());
            proof {
                let next = triples(mappings@.take(i + 1));
                assert(next.drop_last() =~= triples(mappings@.take(i as int)));
                assert(next.last() == (mapping.0@, mapping.1@, mapping.2@));
                lemma_text_map_insert(forward@, name@, alias);
                lemma_text_map_insert(reverse@, alias@, name);
            }
            forward.insert(name.clone(), alias.clone());
            reverse.insert(alias, name);
            i = i + 1;
        }
        assert(mappings@.take(mappings@.len() as int) =~= mappings@);
        Some(AliasMap { forward, reverse })
    }
}

impl Clone for AliasMap {
    fn clone(&self) -> (copy: AliasMap)
        ensures
            copy.forward@ == self.forward@,
            copy.reverse@ == self.reverse@,
    {
        AliasMap { forward: self.forward.clone(), reverse: self.reverse.clone() }
    }
}

impl AliasLayer {
    /// The alias map.
    pub closed spec fn aliases(&self) -> AliasMap {
        self.aliases
    }

    /// Create a new alias layer with the given alias map.
    pub fn new(aliases: AliasMap) -> (layer: AliasLayer)
        ensures
            layer.aliases() == aliases,
    {
        AliasLayer { aliases }
    }

    /// Wrap a service with these aliases.
    pub fn layer<S>(&self, inner: S) -> (service: AliasService<S>)
        ensures
            service.inner() == inner,
            service.aliases().forward@ == self.aliases().forward@,
            service.aliases().reverse@ == self.aliases().reverse@,
    {
        AliasService::new(inner, self.aliases.clone())
    }
}

/// The request with the aliases in it replaced by the original names.
pub open spec fn request_renamed(
    reverse: Map<Seq<char>, Seq<char>>,
    before: McpRequest,
    after: McpRequest,
) -> bool {
    match before {
        McpRequest::CallTool(params) => after matches McpRequest::CallTool(p) && p.name@ == renamed(
            reverse,
            params.name@,
        ) && p.arguments == params.arguments,
        McpRequest::ReadResource(params) => after matches McpRequest::ReadResource(p) && p.uri@
            == renamed(reverse, params.uri@),
        McpRequest::GetPrompt(params) => after matches McpRequest::GetPrompt(p) && p.name@
            == renamed(reverse, params.name@),
        _ => after == before,
    }
}

/// The entries with the original names in them replaced by the aliases.
pub open spec fn entries_renamed<T>(
    forward: Map<Seq<char>, Seq<char>>,
    before: Seq<Entry<T>>,
    after: Seq<Entry<T>>,
) -> bool {
    &&& after.len() == before.len()
    &&& forall|i: int|
        0 <= i < before.len() ==> {
            &&& (#[trigger] after[i]).name@ == renamed(forward, before[i].name@)
            &&& after[i].annotations == before[i].annotations
            &&& after[i].payload == before[i].payload
        }
}

/// The response with the original names in it replaced by the aliases.
pub open spec fn response_renamed<T>(
    forward: Map<Seq<char>, Seq<char>>,
    before: McpResponse<T>,
    after: McpResponse<T>,
) -> bool {
    match before {
        McpResponse::ListTools(tools) => after matches McpResponse::ListTools(t)
            && entries_renamed(forward, tools@, t@),
        McpResponse::ListResources(resources) => after matches McpResponse::ListResources(r)
            && entries_renamed(forward, resources@, r@),
        McpResponse::ListPrompts(prompts) => after matches McpResponse::ListPrompts(p)
            && entries_renamed(forward, prompts@, p@),
        _ => after == before,
    }
}

impl<S> AliasService<S> {
    /// The wrapped service.
    pub closed spec fn inner(&self) -> S {
        self.inner
    }

    /// The alias map.
    pub closed spec fn aliases(&self) -> AliasMap {
        *self.aliases
    }

    /// Create a new alias service wrapping `inner` with the given alias map.
    pub fn new(inner: S, aliases: AliasMap) -> (service: AliasService<S>)
        ensures
            service.inner() == inner,
            service.aliases() == aliases,
    {
        AliasService { inner, aliases: Arc::new(aliases) }
    }

    /// The wrapped service.
    pub fn service(&mut self) -> (inner: &mut S)
        ensures
            *inner == old(self).inner(),
            final(self).inner() == *final(inner),
            final(self).aliases() == old(self).aliases(),
    {
        &mut self.inner
    }

    /// Maps aliased names back to originals in a request.
    pub fn on_request(&self, request: Request) -> (result: Request)
        ensures
            result.id == request.id,
            request_renamed(text_map(self.aliases().reverse@), request.inner, result.inner),
    {
        let Request { id, inner } = request;
        let inner = match inner {
            McpRequest::CallTool(mut params) => {
                let name = rename(&self.aliases.reverse, params.name);
                params.name = name;
                McpRequest::CallTool(params)
            },
            McpRequest::ReadResource(mut params) => {
                let uri = rename(&self.aliases.reverse, params.uri);
                params.uri = uri;
                McpRequest::ReadResource(params)
            },
            McpRequest::GetPrompt(mut params) => {
                let name = rename(&self.aliases.reverse, params.name);
                params.name = name;
                McpRequest::GetPrompt(params)
            },
            other => other,
        };
        Request { id, inner }
    }

    /// Maps original names to aliases in a list response. Errors and other
    /// responses stay as they are.
    pub fn on_response<T>(&self, response: Response<T>) -> (result: Response<T>)
        ensures
            result.id == response.id,
            match response.inner {
                Ok(before) => result.inner matches Ok(after) && response_renamed(
                    text_map(self.aliases().forward@),
                    before,
                    after,
                ),
                Err(error) => result.inner == Err::<McpResponse<T>, _>(error),
            },
    {
        let Response { id, inner } = response;
        let inner = match inner {
            Ok(McpResponse::ListTools(tools)) => Ok(
                McpResponse::ListTools(self.rename_entries(tools)),
            ),
            Ok(McpResponse::ListResources(resources)) => Ok(
                McpResponse::ListResources(self.rename_entries(resources)),
            ),
            Ok(McpResponse::ListPrompts(prompts)) => Ok(
                McpResponse::ListPrompts(self.rename_entries(prompts)),
            ),
            other => other,
        };
        Response { id, inner }
    }

    fn rename_entries<T>(&self, entries: Vec<Entry<T>>) -> (result: Vec<Entry<T>>)
        ensures
            entries_renamed(text_map(self.aliases().forward@), entries@, result@),
    {
        let ghost all = entries@;
        let mut result: Vec<Entry<T>> = Vec::new();
        for entry in it: entries
            invariant
                it.seq() == all,
                entries_renamed(
                    text_map(self.aliases().forward@),
                    all.take(it.index() as int),
                    result@,
                ),
        {
            let Entry { name, annotations, payload } = entry;
            result.push(
                Entry { name: rename(&self.aliases.forward, name), annotations, payload },
            );
        }
        assert(all.take(all.len() as int) =~= all);
        result
    }
}

/// No two mappings replace one name.
pub open spec fn distinct_originals(mappings: Seq<(Seq<char>, Seq<char>, Seq<char>)>) -> bool {
    forall|i: int, j: int|
        0 <= i < j < mappings.len() ==> original(#[trigger] mappings[i]) != original(
            #[trigger] mappings[j],
        )
}

/// No two mappings give one alias.
pub open spec fn distinct_aliases(mappings: Seq<(Seq<char>, Seq<char>, Seq<char>)>) -> bool {
    forall|i: int, j: int|
        0 <= i < j < mappings.len() ==> aliased(#[trigger] mappings[i]) != aliased(
            #[trigger] mappings[j],
        )
}

proof fn lemma_forward_names(mappings: Seq<(Seq<char>, Seq<char>, Seq<char>)>, i: int)
    requires
        distinct_originals(mappings),
        0 <= i < mappings.len(),
    ensures
        forward_names(mappings).contains_key(original(mappings[i])),
        forward_names(mappings)[original(mappings[i])] == aliased(mappings[i]),
    decreases mappings.len(),
{
    if i < mappings.len() - 1 {
        let rest = mappings.drop_last();
        assert(distinct_originals(rest)) by {
            assert forall|a: int, b: int| 0 <= a < b < rest.len() implies original(
                #[trigger] rest[a],
            ) != original(#[trigger] rest[b]) by {
                assert(rest[a] == mappings[a] && rest[b] == mappings[b]);
            }
        }
        lemma_forward_names(rest, i);
        assert(rest[i] == mappings[i]);
        assert(original(mappings[i]) != original(mappings[mappings.len() - 1]));
    }
}

proof fn lemma_reverse_names(mappings: Seq<(Seq<char>, Seq<char>, Seq<char>)>, i: int)
    requires
        distinct_aliases(mappings),
        0 <= i < mappings.len(),
    ensures
        reverse_names(mappings).contains_key(aliased(mappings[i])),
        reverse_names(mappings)[aliased(mappings[i])] == original(mappings[i]),
    decreases mappings.len(),
{
    if i < mappings.len() - 1 {
        let rest = mappings.drop_last();
        assert(distinct_aliases(rest)) by {
            assert forall|a: int, b: int| 0 <= a < b < rest.len() implies aliased(
                #[trigger] rest[a],
            ) != aliased(#[trigger] rest[b]) by {
                assert(rest[a] == mappings[a] && rest[b] == mappings[b]);
            }
        }
        lemma_reverse_names(rest, i);
        assert(rest[i] == mappings[i]);
        assert(aliased(mappings[i]) != aliased(mappings[mappings.len() - 1]));
    }
}

/// A tool that is listed under its alias is called under its own name: where
/// no two mappings replace one name and no two give one alias, the alias that
/// a listing shows for a replaced name leads back to that name.
pub proof fn aliases_lead_back(mappings: Seq<(Seq<char>, Seq<char>, Seq<char>)>, i: int)
    requires
        distinct_originals(mappings),
        distinct_aliases(mappings),
        0 <= i < mappings.len(),
    ensures
        renamed(forward_names(mappings), original(mappings[i])) == aliased(mappings[i]),
        renamed(reverse_names(mappings), aliased(mappings[i])) == original(mappings[i]),
        renamed(
            reverse_names(mappings),
            renamed(forward_names(mappings), original(mappings[i])),
        ) == original(mappings[i]),
{
    lemma_forward_names(mappings, i);
    lemma_reverse_names(mappings, i);
}

proof fn lemma_only_mapped(mappings: Seq<(Seq<char>, Seq<char>, Seq<char>)>, name: Seq<char>)
    ensures
        forward_names(mappings).contains_key(name) ==> exists|i: int|
            0 <= i < mappings.len() && original(#[trigger] mappings[i]) == name,
        reverse_names(mappings).contains_key(name) ==> exists|i: int|
            0 <= i < mappings.len() && aliased(#[trigger] mappings[i]) == name,
    decreases mappings.len(),
{
    if mappings.len() > 0 {
        let rest = mappings.drop_last();
        lemma_only_mapped(rest, name);
        if forward_names(mappings).contains_key(name) {
            if original(mappings.last()) == name {
                assert(original(mappings[mappings.len() - 1]) == name);
            } else {
                let i = choose|i: int|
                    0 <= i < rest.len() && original(#[trigger] rest[i]) == name;
                assert(original(mappings[i]) == name);
            }
        }
        if reverse_names(mappings).contains_key(name) {
            if aliased(mappings.last()) == name {
                assert(aliased(mappings[mappings.len() - 1]) == name);
            } else {
                let i = choose|i: int| 0 <= i < rest.len() && aliased(#[trigger] rest[i]) == name;
                assert(aliased(mappings[i]) == name);
            }
        }
    }
}

/// A name that no mapping speaks of is the same in listings and in calls.
pub proof fn other_names_stay(mappings: Seq<(Seq<char>, Seq<char>, Seq<char>)>, name: Seq<char>)
    requires
        forall|i: int|
            0 <= i < mappings.len() ==> original(#[trigger] mappings[i]) != name && aliased(
                mappings[i],
            ) != name,
    ensures
        renamed(forward_names(mappings), name) == name,
        renamed(reverse_names(mappings), name) == name,
{
    lemma_only_mapped(mappings, name);
}

proof fn lemma_last_forward(mappings: Seq<(Seq<char>, Seq<char>, Seq<char>)>, i: int)
    requires
        0 <= i < mappings.len(),
        forall|j: int|
            i < j < mappings.len() ==> original(#[trigger] mappings[j]) != original(mappings[i]),
    ensures
        forward_names(mappings).contains_key(original(mappings[i])),
        forward_names(mappings)[original(mappings[i])] == aliased(mappings[i]),
    decreases mappings.len(),
{
    if i < mappings.len() - 1 {
        let rest = mappings.drop_last();
        assert forall|j: int| i < j < rest.len() implies original(#[trigger] rest[j]) != original(
            rest[i],
        ) by {
            assert(rest[j] == mappings[j]);
        }
        lemma_last_forward(rest, i);
        assert(original(mappings[mappings.len() - 1]) != original(mappings[i]));
    }
}

proof fn lemma_last_reverse(mappings: Seq<(Seq<char>, Seq<char>, Seq<char>)>, i: int)
    requires
        0 <= i < mappings.len(),
        forall|j: int|
            i < j < mappings.len() ==> aliased(#[trigger] mappings[j]) != aliased(mappings[i]),
    ensures
        reverse_names(mappings).contains_key(aliased(mappings[i])),
        reverse_names(mappings)[aliased(mappings[i])] == original(mappings[i]),
    decreases mappings.len(),
{
    if i < mappings.len() - 1 {
        let rest = mappings.drop_last();
        assert forall|j: int| i < j < rest.len() implies aliased(#[trigger] rest[j]) != aliased(
            rest[i],
        ) by {
            assert(rest[j] == mappings[j]);
        }
        lemma_last_reverse(rest, i);
        assert(aliased(mappings[mappings.len() - 1]) != aliased(mappings[i]));
    }
}

/// In listings a tool `from` of a namespace is shown as `to` in that
/// namespace, by the last mapping for it.
pub proof fn listings_show_the_last_alias(
    mappings: Seq<(Seq<char>, Seq<char>, Seq<char>)>,
    i: int,
)
    requires
        0 <= i < mappings.len(),
        forall|j: int|
            i < j < mappings.len() ==> (#[trigger] mappings[j]).0 + mappings[j].1 != mappings[i].0
                + mappings[i].1,
    ensures
        renamed(forward_names(mappings), mappings[i].0 + mappings[i].1) == mappings[i].0
            + mappings[i].2,
{
    assert forall|j: int| i < j < mappings.len() implies original(#[trigger] mappings[j])
        != original(mappings[i]) by {
        assert(mappings[j].0 + mappings[j].1 != mappings[i].0 + mappings[i].1);
    }
    lemma_last_forward(mappings, i);
}

/// In requests `to` of a namespace stands for `from` in that namespace, by the
/// last mapping that gives the alias.
pub proof fn requests_follow_the_last_alias(
    mappings: Seq<(Seq<char>, Seq<char>, Seq<char>)>,
    i: int,
)
    requires
        0 <= i < mappings.len(),
        forall|j: int|
            i < j < mappings.len() ==> (#[trigger] mappings[j]).0 + mappings[j].2 != mappings[i].0
                + mappings[i].2,
    ensures
        renamed(reverse_names(mappings), mappings[i].0 + mappings[i].2) == mappings[i].0
            + mappings[i].1,
{
    assert forall|j: int| i < j < mappings.len() implies aliased(#[trigger] mappings[j])
        != aliased(mappings[i]) by {
        assert(mappings[j].0 + mappings[j].2 != mappings[i].0 + mappings[i].2);
    }
    lemma_last_reverse(mappings, i);
}

/// In listings a name changes only where a mapping is from it.
pub proof fn unmapped_names_are_listed_as_they_are(
    mappings: Seq<(Seq<char>, Seq<char>, Seq<char>)>,
    name: Seq<char>,
)
    requires
        forall|i: int|
            0 <= i < mappings.len() ==> (#[trigger] mappings[i]).0 + mappings[i].1 != name,
    ensures
        renamed(forward_names(mappings), name) == name,
{
    lemma_only_mapped(mappings, name);
    assert forall|i: int| 0 <= i < mappings.len() implies original(#[trigger] mappings[i])
        != name by {
        assert(mappings[i].0 + mappings[i].1 != name);
    }
}

/// In requests a name changes only where a mapping is to it.
pub proof fn unmapped_names_are_requested_as_they_are(
    mappings: Seq<(Seq<char>, Seq<char>, Seq<char>)>,
    name: Seq<char>,
)
    requires
        forall|i: int|
            0 <= i < mappings.len() ==> (#[trigger] mappings[i]).0 + mappings[i].2 != name,
    ensures
        renamed(reverse_names(mappings), name) == name,
{
    lemma_only_mapped(mappings, name);
    assert forall|i: int| 0 <= i < mappings.len() implies aliased(#[trigger] mappings[i])
        != name by {
        assert(mappings[i].0 + mappings[i].2 != name);
    }
}

/// Triples of strings are read as the texts that they hold, in their order.
pub proof fn triples_hold_their_texts(mappings: Seq<(String, String, String)>)
    ensures
        triples(mappings).len() == mappings.len(),
        forall|i: int|
            0 <= i < mappings.len() ==> #[trigger] triples(mappings)[i] == (
                mappings[i].0@,
                mappings[i].1@,
                mappings[i].2@,
            ),
{
}

/// A name is what a map holds for it, and stays where the map holds nothing.
pub proof fn names_are_looked_up(map: Map<Seq<char>, Seq<char>>, name: Seq<char>)
    ensures
        map.contains_key(name) ==> renamed(map, name) == map[name],
        !map.contains_key(name) ==> renamed(map, name) == name,
{
}

/// In a request the name of a tool or a prompt or the URI of a resource is
/// looked up; the arguments and the kind of the request stay.
pub proof fn requests_are_renamed_by_lookup(
    reverse: Map<Seq<char>, Seq<char>>,
    before: McpRequest,
    after: McpRequest,
)
    requires
        request_renamed(reverse, before, after),
    ensures
        before matches McpRequest::CallTool(b) ==> after matches McpRequest::CallTool(a)
            && a.arguments == b.arguments && a.name@ == (if reverse.contains_key(b.name@) {
            reverse[b.name@]
        } else {
            b.name@
        }),
        before matches McpRequest::ReadResource(b) ==> after matches McpRequest::ReadResource(a)
            && a.uri@ == (if reverse.contains_key(b.uri@) {
            reverse[b.uri@]
        } else {
            b.uri@
        }),
        before matches McpRequest::GetPrompt(b) ==> after matches McpRequest::GetPrompt(a)
            && a.name@ == (if reverse.contains_key(b.name@) {
            reverse[b.name@]
        } else {
            b.name@
        }),
        before is ListTools || before is Other ==> after == before,
{
}

/// In a listing of tools, resources or prompts every entry keeps its place,
/// its annotations and its payload, and its name is looked up.
pub proof fn entries_are_renamed_by_lookup<T>(
    forward: Map<Seq<char>, Seq<char>>,
    before: Seq<Entry<T>>,
    after: Seq<Entry<T>>,
    i: int,
)
    requires
        entries_renamed(forward, before, after),
    ensures
        after.len() == before.len(),
        0 <= i < before.len() ==> {
            &&& after[i].name@ == (if forward.contains_key(before[i].name@) {
                forward[before[i].name@]
            } else {
                before[i].name@
            })
            &&& after[i].annotations == before[i].annotations
            &&& after[i].payload == before[i].payload
        },
{
}

/// Listings of tools, of resources and of prompts are renamed, and stay of
/// their kind; other responses stay as they are.
pub proof fn listings_are_renamed<T>(
    forward: Map<Seq<char>, Seq<char>>,
    before: McpResponse<T>,
    after: McpResponse<T>,
)
    requires
        response_renamed(forward, before, after),
    ensures
        before matches McpResponse::ListTools(b) ==> after matches McpResponse::ListTools(a)
            && entries_renamed(forward, b@, a@),
        before matches McpResponse::ListResources(b) ==> after matches McpResponse::ListResources(a)
            && entries_renamed(forward, b@, a@),
        before matches McpResponse::ListPrompts(b) ==> after matches McpResponse::ListPrompts(a)
            && entries_renamed(forward, b@, a@),
        before is ListResourceTemplates || before is Other ==> after == before,
{
}

} // verus!
