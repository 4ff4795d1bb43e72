//! Role-based access control middleware for the proxy.
//!
//! Reads JWT claims, maps them to roles via config, and applies per-role tool
//! allow/deny lists.
//! Runs on top of static capability filtering (can only further restrict).

use std::sync::Arc;

use vstd::prelude::*;

use crate::config::{RoleConfig, RoleMappingConfig};
use crate::json::{as_str, display, json_display, json_string};
use crate::names::{NameMap, NameSet};
use crate::protocol::{
    refuse, refuses, Entry, McpRequest, McpResponse, Refusal, Request, Response,
};
use crate::sequences::lemma_filter_take_succ;
use crate::text::{concat2, optional, same_text, split_whitespace, texts, words};

verus! {

/// The claims of a validated access token, as far as roles depend on them.
#[derive(Debug)]
pub struct TokenClaims {
    /// Space-delimited scope string.
    pub scope: Option<String>,
    /// Additional claims.
    pub extra: NameMap<serde_json::Value>,
}

/// Resolved RBAC rules.
#[derive(Debug)]
pub struct RbacConfig {
    /// Claim name to read from the token claims (e.g. "scope", "role").
    pub claim: String,
    /// Map of claim value -> role name.
    pub claim_to_role: NameMap<String>,
    /// Map of role name -> allowed tools (no entry = all allowed).
    pub role_allow: NameMap<NameSet>,
    /// Map of role name -> denied tools.
    pub role_deny: NameMap<NameSet>,
}

/// Middleware that enforces RBAC on tool calls and list responses.
#[derive(Clone)]
pub struct RbacService<S> {
    inner: S,
    config: Arc<RbacConfig>,
}

/// The sets of names that a map holds.
pub open spec fn set_map(map: Map<Seq<char>, NameSet>) -> Map<Seq<char>, Set<Seq<char>>> {
    map.map_values(|set: NameSet| set@)
}

/// The allowed tools by role: the lists that are not empty, the later one of
/// two for one role.
pub open spec fn allow_lists(roles: Seq<RoleConfig>) -> Map<Seq<char>, Set<Seq<char>>>
    decreases roles.len(),
{
    if roles.len() == 0 {
        Map::empty()
    } else {
        let before = allow_lists(roles.drop_last());
        let role = roles.last();
        if role.allow_tools@.len() > 0 {
            before.insert(role.name@, texts(role.allow_tools@).to_set())
        } else {
            before
        }
    }
}

/// The denied tools by role: the lists that are not empty, the later one of
/// two for one role.
pub open spec fn deny_lists(roles: Seq<RoleConfig>) -> Map<Seq<char>, Set<Seq<char>>>
    decreases roles.len(),
{
    if roles.len() == 0 {
        Map::empty()
    } else {
        let before = deny_lists(roles.drop_last());
        let role = roles.last();
        if role.deny_tools@.len() > 0 {
            before.insert(role.name@, texts(role.deny_tools@).to_set())
        } else {
            before
        }
    }
}

proof fn lemma_set_map_insert(map: Map<Seq<char>, NameSet>, key: Seq<char>, value: NameSet)
    ensures
        set_map(map.insert(key, value)) == set_map(map).insert(key, value@),
{
    assert(set_map(map.insert(key, value)) =~= set_map(map).insert(key, value@));
}

/// The scopes in a scope string: its words.
pub open spec fn scope_set(scope: Option<String>) -> Set<Seq<char>> {
    match scope {
        Some(text) => words(text@).to_set(),
        None => Set::empty(),
    }
}

/// `tower_mcp::oauth::token::TokenClaims::scopes`: the words of the scope
/// string, each once, in an order that is not fixed.
#[verifier::external_body]
fn scopes(scope: &Option<String>) -> (scopes: Vec<String>)
    ensures
        texts(scopes@).no_duplicates(),
        texts(scopes@).to_set() == scope_set(*scope),
{
    let claims = tower_mcp::oauth::token::TokenClaims {
        sub: None,
        iss: None,
        aud: None,
        exp: None,
        scope: scope.clone(),
        client_id: None,
        extra: std::collections::HashMap::new(),
    };
    claims.scopes().into_iter().collect()
}

/// A value is mapped to a role.
pub open spec fn maps(roles: Map<Seq<char>, String>, value: Seq<char>, role: Seq<char>) -> bool {
    roles.contains_key(value) && roles[value]@ == role
}

/// The role of the first of the values that is mapped to one.
pub open spec fn first_role(roles: Map<Seq<char>, String>, values: Seq<Seq<char>>) -> Option<
    Seq<char>,
>
    decreases values.len(),
{
    if values.len() == 0 {
        None
    } else if roles.contains_key(values[0]) {
        Some(roles[values[0]]@)
    } else {
        first_role(roles, values.skip(1))
    }
}

/// The role for the text of a claim: the whole text counts first, the words of
/// it after that.
pub open spec fn text_role(roles: Map<Seq<char>, String>, text: Seq<char>) -> Option<Seq<char>> {
    if roles.contains_key(text) {
        Some(roles[text]@)
    } else {
        first_role(roles, words(text))
    }
}

/// The text of a claim: the characters of a string, the JSON text of any other
/// value.
pub open spec fn claim_text(value: serde_json::Value) -> Seq<char> {
    match json_string(value) {
        Some(text) => text,
        None => json_display(value),
    }
}

impl RbacConfig {
    /// A role may use a tool: it is in the role's allowed tools, where it has
    /// any, and not in its denied ones.
    pub open spec fn permits(&self, role: Seq<char>, tool: Seq<char>) -> bool {
        &&& self.role_allow@.contains_key(role) ==> self.role_allow@[role]@.contains(tool)
        &&& self.role_deny@.contains_key(role) ==> !self.role_deny@[role]@.contains(tool)
    }

    /// The rules for roles and a mapping of claim values to them.
    pub fn new(roles: &[RoleConfig], mapping: &RoleMappingConfig) -> (config: RbacConfig)
        ensures
            config.claim@ == mapping.claim@,
            config.claim_to_role@ == mapping.mapping@,
            set_map(config.role_allow@) == allow_lists(roles@),
            set_map(config.role_deny@) == deny_lists(roles@),
    {
        let mut role_allow: NameMap<NameSet> = NameMap::new();
        let mut role_deny: NameMap<NameSet> = NameMap::new();
        let mut i: usize = 0;
        assert(set_map(role_allow@) =~= allow_lists(roles@.take(0)));
        assert(set_map(role_deny@) =~= deny_lists(roles@.take(0)));
        while i < roles.len()
            invariant
                i <= roles@.len(),
                set_map(role_allow@) == allow_lists(roles@.take(i as int)),
                set_map(role_deny@) == deny_lists(roles@.take(i as int)),
            decreases roles@.len() - i,
        {
            let role = &roles[i];
            proof {
                assert(roles@.take(i + 1).drop_last() =~= roles@.take(i as int));
                assert(roles@.take(i + 1).last() == *role);
            }
            if role.allow_tools.len() > 0 {
                let tools = NameSet::from_names(&role.allow_tools);
                proof {
                    lemma_set_map_insert(role_allow@, role.name@, tools);
                }
                role_allow.insert(role.name.clone(), tools);
            }
            if role.deny_tools.len() > 0 {
                let tools = NameSet::from_names(&role.deny_tools);
                proof {
                    lemma_set_map_insert(role_deny@, role.name@, tools);
                }
                role_deny.insert(role.name.clone(), tools);
            }
            i = i + 1;
        }
        assert(roles@.take(roles@.len() as int) =~= roles@);
        RbacConfig {
            claim: mapping.claim.clone(),
            claim_to_role: mapping.mapping.clone(),
            role_allow,
            role_deny,
        }
    }

    /// The role of the first of the values that is mapped to one.
    pub fn role_of(&self, values: &Vec<String>) -> (role: Option<String>)
        ensures
            optional(role) == first_role(self.claim_to_role@, texts(values@)),
    {
        let ghost roles = self.claim_to_role@;
        let ghost all = texts(values@);
        let mut i: usize = 0;
        assert(all.skip(0) =~= all);
        while i < values.len()
            invariant
                i <= values@.len(),
                roles == self.claim_to_role@,
                all == texts(values@),
                first_role(roles, all) == first_role(roles, all.skip(i as int)),
            decreases values@.len() - i,
        {
            assert(all.skip(i as int)[0] == values@[i as int]@);
            if let Some(role) = self.claim_to_role.get(values[i].as_str()) {
                return Some(role.clone());
            }
            assert(all.skip(i as int).skip(1) =~= all.skip(i + 1));
            i = i + 1;
        }
        None
    }

    /// The role for the text of a claim.
    pub fn role_of_text(&self, text: &str) -> (role: Option<String>)
        ensures
            optional(role) == text_role(self.claim_to_role@, text@),
    {
        // Try direct mapping
        if let Some(role) = self.claim_to_role.get(text) {
            return Some(role.clone());
        }
        // Try space-delimited (like scope)
        self.role_of(&split_whitespace(text))
    }

    /// Resolve the role for a request from its token claims, where it has any.
    ///
    /// Where the scope claim counts and more than one of its scopes is mapped,
    /// it is not fixed which of their roles comes out.
    pub fn resolve_role(&self, claims: Option<&TokenClaims>) -> (role: Option<String>)
        ensures
            match claims {
                None => role is None,
                Some(claims) => if self.claim@ == "scope"@ {
                    match role {
                        Some(r) => exists|scope: Seq<char>| #[trigger]
                            scope_set(claims.scope).contains(scope) && maps(
                                self.claim_to_role@,
                                scope,
                                r@,
                            ),
                        None => forall|scope: Seq<char>| #[trigger]
                            scope_set(claims.scope).contains(scope)
                                ==> !self.claim_to_role@.contains_key(scope),
                    }
                } else if claims.extra@.contains_key(self.claim@) {
                    optional(role) == text_role(
                        self.claim_to_role@,
                        claim_text(claims.extra@[self.claim@]),
                    )
                } else {
                    role is None
                },
            },
    {
        let claims = match claims {
            Some(claims) => claims,
            None => return None,
        };
        // Check standard scope field first
        if same_text(self.claim.as_str(), "scope") {
            let found = scopes(&claims.scope);
            let role = self.role_of(&found);
            proof {
                lemma_first_role(self.claim_to_role@, texts(found@));
                assert forall|s: Seq<char>| #[trigger]
                    scope_set(claims.scope).contains(s) <==> texts(found@).contains(s) by {
                    assert(texts(found@).to_set().contains(s) <==> texts(found@).contains(s));
                }
                if role is Some {
                    let scope = choose|value: Seq<char>| #[trigger]
                        texts(found@).contains(value) && maps(self.claim_to_role@, value, role->0@);
                    assert(scope_set(claims.scope).contains(scope));
                }
            }
            return role;
        }
        // Check extra claims

        match claims.extra.get(self.claim.as_str()) {
            Some(value) => match as_str(value) {
                Some(text) => self.role_of_text(text),
                None => self.role_of_text(display(value).as_str()),
            },
            None => None,
        }
    }

    /// Check if a tool is allowed for the given role.
    pub fn is_tool_allowed(&self, role: &str, tool_name: &str) -> (allowed: bool)
        ensures
            allowed == self.permits(role@, tool_name@),
    {
        // If role has an allowlist, tool must be in it
        if let Some(allowed) = self.role_allow.get(role) {
            if !allowed.contains(tool_name) {
                return false;
            }
        }
        // If role has a denylist, tool must not be in it

        if let Some(denied) = self.role_deny.get(role) {
            if denied.contains(tool_name) {
                return false;
            }
        }
        true
    }
}

proof fn lemma_first_role(roles: Map<Seq<char>, String>, values: Seq<Seq<char>>)
    ensures
        match first_role(roles, values) {
            Some(role) => exists|value: Seq<char>| #[trigger]
                values.contains(value) && maps(roles, value, role),
            None => forall|value: Seq<char>| #[trigger]
                values.contains(value) ==> !roles.contains_key(value),
        },
    decreases values.len(),
{
    if values.len() > 0 {
        let rest = values.skip(1);
        lemma_first_role(roles, rest);
        assert(values.contains(values[0]));
        if roles.contains_key(values[0]) {
            assert(maps(roles, values[0], roles[values[0]]@));
        } else {
            match first_role(roles, values) {
                Some(role) => {
                    let value = choose|value: Seq<char>| #[trigger]
                        rest.contains(value) && maps(roles, value, role);
                    let k = choose|k: int| 0 <= k < rest.len() && rest[k] == value;
                    assert(values[k + 1] == value);
                    assert(values.contains(value));
                },
                None => {
                    assert forall|value: Seq<char>| #[trigger]
                        values.contains(value) implies !roles.contains_key(value) by {
                        let k = choose|k: int| 0 <= k < values.len() && values[k] == value;
                        if k > 0 {
                            assert(rest[k - 1] == value);
                            assert(rest.contains(value));
                        }
                    }
                },
            }
        }
    }
}

/// The message with which a tool call is refused to a role.
pub open spec fn not_authorized(role: Seq<char>, tool: Seq<char>) -> Seq<char> {
    "Role '"@ + role + "' is not authorized to call tool: "@ + tool
}

impl<S> RbacService<S> {
    /// The wrapped service.
    pub closed spec fn inner(&self) -> S {
        self.inner
    }

    /// The RBAC rules.
    pub closed spec fn config(&self) -> RbacConfig {
        *self.config
    }

    /// Create a new RBAC service wrapping `inner`.
    pub fn new(inner: S, config: RbacConfig) -> (service: RbacService<S>)
        ensures
            service.inner() == inner,
            service.config() == config,
    {
        RbacService { inner, config: Arc::new(config) }
    }

    /// The wrapped service.
    pub fn service(&mut self) -> (inner: &mut S)
        ensures
            *inner == old(self).inner(),
            final(self).inner() == *final(inner),
            final(self).config() == old(self).config(),
    {
        &mut self.inner
    }

    /// The RBAC rules.
    pub fn rules(&self) -> (config: &RbacConfig)
        ensures
            *config == self.config(),
    {
        &self.config
    }

    /// Decides on a request from a client with a role: a call of a tool that
    /// the role may not use is refused, anything else is forwarded. Without a
    /// role no restriction applies (the client was already let in by the
    /// authentication layer).
    pub fn on_request(&self, role: Option<&str>, request: &Request) -> (refusal: Option<
        Refusal,
    >)
        ensures
            match (role, request.inner) {
                (Some(r), McpRequest::CallTool(params)) => match refusal {
                    Some(refusal) => {
                        &&& !self.config().permits(r@, params.name@)
                        &&& refuses(refusal, *request, not_authorized(r@, params.name@))
                    },
                    None => self.config().permits(r@, params.name@),
                },
                _ => refusal is None,
            },
    {
        if let Some(role) = role {
            if let McpRequest::CallTool(params) = &request.inner {
                if !self.config.is_tool_allowed(role, params.name.as_str()) {
                    let who = concat2("Role '", role);
                    let what = concat2(
                        who.as_str(),
                        "' is not authorized to call tool: ",
                    );
                    return Some(refuse(request, concat2(what.as_str(), params.name.as_str())));
                }
            }
        }
        None
    }

    /// Leaves the tools that a role may not use out of a tool listing. Without
    /// a role, and for any other response, nothing changes.
    pub fn on_response<T>(&self, role: Option<&str>, response: Response<T>) -> (result:
        Response<T>)
        ensures
            match (role, response.inner) {
                (Some(r), Ok(McpResponse::ListTools(tools))) => {
                    &&& result.id == response.id
                    &&& result.inner matches Ok(McpResponse::ListTools(t)) && t@ == tools@.filter(
                        |tool: Entry<T>| self.config().permits(r@, tool.name@),
                    )
                },
                _ => result == response,
            },
    {
        let role = match role {
            Some(role) => role,
            None => return response,
        };
        let Response { id, inner } = response;
        let inner = match inner {
            Ok(McpResponse::ListTools(tools)) => Ok(McpResponse::ListTools(self.keep(role, tools))),
            other => other,
        };
        Response { id, inner }
    }

    fn keep<T>(&self, role: &str, tools: Vec<Entry<T>>) -> (kept: Vec<Entry<T>>)
        ensures
            kept@ == tools@.filter(|tool: Entry<T>| self.config().permits(role@, tool.name@)),
    {
        let ghost all = tools@;
        let ghost passes = |tool: Entry<T>| self.config().permits(role@, tool.name@);
        let mut kept: Vec<Entry<T>> = Vec::new();
        for tool in it: tools
            invariant
                it.seq() == all,
                passes == (|tool: Entry<T>| self.config().permits(role@, tool.name@)),
                kept@ == all.take(it.index() as int).filter(passes),
        {
            proof {
                lemma_filter_take_succ(all, passes, it.index() as int);
            }
            if self.config.is_tool_allowed(role, tool.name.as_str()) {
                kept.push(tool);
            }
        }
        assert(all.take(all.len() as int) =~= all);
        kept
    }
}

/// RBAC only restricts further: what stands in the listing for a role stood in
/// the listing before, and the role may call it.
pub proof fn listing_only_shrinks<T>(
    config: RbacConfig,
    role: Seq<char>,
    before: Seq<Entry<T>>,
    tool: Entry<T>,
)
    requires
        before.filter(|t: Entry<T>| config.permits(role, t.name@)).contains(tool),
    ensures
        before.contains(tool),
        config.permits(role, tool.name@),
{
    let passes = |t: Entry<T>| config.permits(role, t.name@);
    before.lemma_filter_contains_rev(passes, tool);
    let after = before.filter(passes);
    let i = choose|i: int| 0 <= i < after.len() && after[i] == tool;
    before.lemma_filter_pred(passes, i);
}

proof fn lemma_unlisted(roles: Seq<RoleConfig>, name: Seq<char>)
    requires
        forall|i: int|
            0 <= i < roles.len() && (#[trigger] roles[i]).name@ == name
                ==> roles[i].allow_tools@.len() == 0 && roles[i].deny_tools@.len() == 0,
    ensures
        !allow_lists(roles).contains_key(name),
        !deny_lists(roles).contains_key(name),
    decreases roles.len(),
{
    if roles.len() > 0 {
        let rest = roles.drop_last();
        assert forall|i: int| 0 <= i < rest.len() && (#[trigger] rest[i]).name@
            == name implies rest[i].allow_tools@.len() == 0 && rest[i].deny_tools@.len() == 0 by {
            assert(rest[i] == roles[i]);
        }
        lemma_unlisted(rest, name);
        assert(roles.last() == roles[roles.len() - 1]);
    }
}

/// A role without lists may call any tool.
pub proof fn roles_without_lists_may_call_anything(
    config: RbacConfig,
    roles: Seq<RoleConfig>,
    role: Seq<char>,
    tool: Seq<char>,
)
    requires
        set_map(config.role_allow@) == allow_lists(roles),
        set_map(config.role_deny@) == deny_lists(roles),
        forall|i: int|
            0 <= i < roles.len() && (#[trigger] roles[i]).name@ == role
                ==> roles[i].allow_tools@.len() == 0 && roles[i].deny_tools@.len() == 0,
    ensures
        config.permits(role, tool),
{
    lemma_unlisted(roles, role);
    assert(set_map(config.role_allow@).contains_key(role) == config.role_allow@.contains_key(role));
    assert(set_map(config.role_deny@).contains_key(role) == config.role_deny@.contains_key(role));
}

proof fn lemma_lists_of(roles: Seq<RoleConfig>, i: int)
    requires
        0 <= i < roles.len(),
        forall|a: int, b: int|
            0 <= a < b < roles.len() ==> (#[trigger] roles[a]).name@ != (#[trigger] roles[b]).name@,
    ensures
        allow_lists(roles).contains_key(roles[i].name@) <==> roles[i].allow_tools@.len() > 0,
        roles[i].allow_tools@.len() > 0 ==> allow_lists(roles)[roles[i].name@] == texts(
            roles[i].allow_tools@,
        ).to_set(),
        deny_lists(roles).contains_key(roles[i].name@) <==> roles[i].deny_tools@.len() > 0,
        roles[i].deny_tools@.len() > 0 ==> deny_lists(roles)[roles[i].name@] == texts(
            roles[i].deny_tools@,
        ).to_set(),
    decreases roles.len(),
{
    let rest = roles.drop_last();
    let last = roles.len() - 1;
    assert(roles.last() == roles[last]);
    if i < last {
        assert forall|a: int, b: int| 0 <= a < b < rest.len() implies (#[trigger] rest[a]).name@
            != (#[trigger] rest[b]).name@ by {
            assert(rest[a] == roles[a] && rest[b] == roles[b]);
        }
        lemma_lists_of(rest, i);
        assert(rest[i] == roles[i]);
        assert(roles[i].name@ != roles[last].name@);
    } else {
        let name = roles[last].name@;
        assert forall|k: int| 0 <= k < rest.len() && (#[trigger] rest[k]).name@
            == name implies rest[k].allow_tools@.len() == 0 && rest[k].deny_tools@.len() == 0 by {
            assert(rest[k] == roles[k]);
            assert(roles[k].name@ != roles[last].name@);
        }
        lemma_unlisted(rest, name);
    }
}

/// A role may use a tool exactly where the tool is in its list of allowed
/// tools, or that list is empty, and the tool is not in its list of denied
/// tools. This holds of every role, where no two have one name.
pub proof fn roles_follow_their_own_lists(
    config: RbacConfig,
    roles: Seq<RoleConfig>,
    i: int,
    tool: Seq<char>,
)
    requires
        set_map(config.role_allow@) == allow_lists(roles),
        set_map(config.role_deny@) == deny_lists(roles),
        forall|a: int, b: int|
            0 <= a < b < roles.len() ==> (#[trigger] roles[a]).name@ != (#[trigger] roles[b]).name@,
        0 <= i < roles.len(),
    ensures
        config.permits(roles[i].name@, tool) <==> {
            &&& roles[i].allow_tools@.len() == 0 || exists|k: int|
                0 <= k < roles[i].allow_tools@.len() && (#[trigger] roles[i].allow_tools@[k])@
                    == tool
            &&& forall|k: int|
                0 <= k < roles[i].deny_tools@.len() ==> (#[trigger] roles[i].deny_tools@[k])@
                    != tool
        },
{
    lemma_lists_of(roles, i);
    let name = roles[i].name@;
    assert(set_map(config.role_allow@).contains_key(name) == config.role_allow@.contains_key(name));
    assert(set_map(config.role_deny@).contains_key(name) == config.role_deny@.contains_key(name));
    let allowed = roles[i].allow_tools@;
    let denied = roles[i].deny_tools@;
    if config.role_allow@.contains_key(name) {
        assert(config.role_allow@[name]@ == texts(allowed).to_set());
    }
    if config.role_deny@.contains_key(name) {
        assert(config.role_deny@[name]@ == texts(denied).to_set());
    }
    lemma_text_listed(allowed, tool);
    lemma_text_listed(denied, tool);
}

proof fn lemma_text_listed(list: Seq<String>, text: Seq<char>)
    ensures
        texts(list).to_set().contains(text) <==> exists|k: int|
            0 <= k < list.len() && (#[trigger] list[k])@ == text,
{
    if texts(list).contains(text) {
        let k = choose|k: int| 0 <= k < texts(list).len() && texts(list)[k] == text;
        assert(list[k]@ == text);
    }
    if exists|k: int| 0 <= k < list.len() && (#[trigger] list[k])@ == text {
        let k = choose|k: int| 0 <= k < list.len() && (#[trigger] list[k])@ == text;
        assert(texts(list)[k] == text);
    }
}

/// A role that none of the roles has as its name may use any tool.
pub proof fn unknown_roles_are_not_restricted(
    config: RbacConfig,
    roles: Seq<RoleConfig>,
    role: Seq<char>,
    tool: Seq<char>,
)
    requires
        set_map(config.role_allow@) == allow_lists(roles),
        set_map(config.role_deny@) == deny_lists(roles),
        forall|i: int| 0 <= i < roles.len() ==> (#[trigger] roles[i]).name@ != role,
    ensures
        config.permits(role, tool),
{
    roles_without_lists_may_call_anything(config, roles, role, tool);
}

/// A role may use a tool exactly where its entry of allowed tools, if it has
/// one, holds the tool, and its entry of denied tools, if it has one, does not.
pub proof fn entries_decide(config: RbacConfig, role: Seq<char>, tool: Seq<char>)
    ensures
        config.role_allow@.contains_key(role) && !config.role_allow@[role]@.contains(tool)
            ==> !config.permits(role, tool),
        config.role_deny@.contains_key(role) && config.role_deny@[role]@.contains(tool)
            ==> !config.permits(role, tool),
        (config.role_allow@.contains_key(role) ==> config.role_allow@[role]@.contains(tool)) && (
        config.role_deny@.contains_key(role) ==> !config.role_deny@[role]@.contains(tool))
            ==> config.permits(role, tool),
{
}

/// The first value that is mapped to a role gives the role; without one there
/// is none.
pub proof fn the_first_mapped_value_counts(
    roles: Map<Seq<char>, String>,
    values: Seq<Seq<char>>,
    i: int,
)
    requires
        0 <= i <= values.len(),
        forall|j: int| 0 <= j < i ==> !roles.contains_key(#[trigger] values[j]),
    ensures
        i < values.len() && roles.contains_key(values[i]) ==> first_role(roles, values) == Some(
            roles[values[i]]@,
        ),
        i == values.len() ==> first_role(roles, values) is None,
    decreases i,
{
    if i > 0 {
        let rest = values.skip(1);
        assert(!roles.contains_key(values[0]));
        assert forall|j: int| 0 <= j < i - 1 implies !roles.contains_key(#[trigger] rest[j]) by {
            assert(rest[j] == values[j + 1]);
        }
        the_first_mapped_value_counts(roles, rest, i - 1);
        if i < values.len() {
            assert(rest[i - 1] == values[i]);
        }
    }
}

/// A claim that is mapped as a whole gives that role. Any other claim gives
/// the role of the first of its words that is mapped.
pub proof fn whole_claims_count_first(roles: Map<Seq<char>, String>, text: Seq<char>)
    ensures
        roles.contains_key(text) ==> text_role(roles, text) == Some(roles[text]@),
        !roles.contains_key(text) ==> text_role(roles, text) == first_role(roles, words(text)),
{
}

/// The text of a claim is its characters where it is a string, else its JSON
/// text. The scopes of a token are the words of its scope string.
pub proof fn claims_are_read_as_texts(value: serde_json::Value, scope: Option<String>, s: Seq<char>)
    ensures
        json_string(value) matches Some(text) ==> claim_text(value) == text,
        json_string(value) is None ==> claim_text(value) == json_display(value),
        scope_set(scope).contains(s) <==> (scope matches Some(text) && words(text@).contains(s)),
{
}

/// The sets in a map are those of its values.
pub proof fn set_maps_keep_their_sets(map: Map<Seq<char>, NameSet>, key: Seq<char>)
    ensures
        set_map(map).contains_key(key) <==> map.contains_key(key),
        map.contains_key(key) ==> set_map(map)[key] == map[key]@,
{
}

/// A refusal names the role and the tool.
pub proof fn refusals_name_role_and_tool(role: Seq<char>, tool: Seq<char>)
    ensures
        not_authorized(role, tool) == "Role '"@ + role + "' is not authorized to call tool: "@
            + tool,
{
}

/// A value is mapped to a role exactly where the map holds that role for it.
pub proof fn values_are_mapped_to_their_role(
    roles: Map<Seq<char>, String>,
    value: Seq<char>,
    role: Seq<char>,
)
    ensures
        roles.contains_key(value) ==> (maps(roles, value, role) <==> roles[value]@ == role),
        !roles.contains_key(value) ==> !maps(roles, value, role),
{
}

/// Where several roles have one name, the last of their lists of allowed tools
/// that is not empty counts; where all are empty, there is none.
pub proof fn the_last_allow_list_counts(roles: Seq<RoleConfig>, name: Seq<char>, i: int)
    requires
        -1 <= i < roles.len(),
        forall|j: int|
            i < j < roles.len() && (#[trigger] roles[j]).name@ == name
                ==> roles[j].allow_tools@.len() == 0,
    ensures
        i >= 0 && roles[i].name@ == name && roles[i].allow_tools@.len() > 0 ==> {
            &&& allow_lists(roles).contains_key(name)
            &&& forall|tool: Seq<char>| #[trigger]
                allow_lists(roles)[name].contains(tool) <==> exists|k: int|
                    0 <= k < roles[i].allow_tools@.len() && (#[trigger] roles[i].allow_tools@[k])@
                        == tool
        },
        i == -1 ==> !allow_lists(roles).contains_key(name),
    decreases roles.len(),
{
    if i >= 0 {
        assert forall|tool: Seq<char>|
            #![trigger texts(roles[i].allow_tools@).to_set().contains(tool)]
            texts(roles[i].allow_tools@).to_set().contains(tool) <==> exists|k: int|
                0 <= k < roles[i].allow_tools@.len() && (#[trigger] roles[i].allow_tools@[k])@
                    == tool by {
            lemma_text_listed(roles[i].allow_tools@, tool);
        }
    }
    if i < roles.len() - 1 {
        let rest = roles.drop_last();
        let last = roles.len() - 1;
        assert(roles[last].name@ == name ==> roles[last].allow_tools@.len() == 0);
        assert forall|j: int| i < j < rest.len() && (#[trigger] rest[j]).name@ == name implies
            rest[j].allow_tools@.len() == 0 by {
            assert(rest[j] == roles[j]);
        }
        the_last_allow_list_counts(rest, name, i);
        if i >= 0 {
            assert(rest[i] == roles[i]);
        }
    }
}

/// Where several roles have one name, the last of their lists of denied tools
/// that is not empty counts; where all are empty, there is none.
pub proof fn the_last_deny_list_counts(roles: Seq<RoleConfig>, name: Seq<char>, i: int)
    requires
        -1 <= i < roles.len(),
        forall|j: int|
            i < j < roles.len() && (#[trigger] roles[j]).name@ == name
                ==> roles[j].deny_tools@.len() == 0,
    ensures
        i >= 0 && roles[i].name@ == name && roles[i].deny_tools@.len() > 0 ==> {
            &&& deny_lists(roles).contains_key(name)
            &&& forall|tool: Seq<char>| #[trigger]
                deny_lists(roles)[name].contains(tool) <==> exists|k: int|
                    0 <= k < roles[i].deny_tools@.len() && (#[trigger] roles[i].deny_tools@[k])@
                        == tool
        },
        i == -1 ==> !deny_lists(roles).contains_key(name),
    decreases roles.len(),
{
    if i >= 0 {
        assert forall|tool: Seq<char>|
            #![trigger texts(roles[i].deny_tools@).to_set().contains(tool)]
            texts(roles[i].deny_tools@).to_set().contains(tool) <==> exists|k: int|
                0 <= k < roles[i].deny_tools@.len() && (#[trigger] roles[i].deny_tools@[k])@
                    == tool by {
            lemma_text_listed(roles[i].deny_tools@, tool);
        }
    }
    if i < roles.len() - 1 {
        let rest = roles.drop_last();
        let last = roles.len() - 1;
        assert(roles[last].name@ == name ==> roles[last].deny_tools@.len() == 0);
        assert forall|j: int| i < j < rest.len() && (#[trigger] rest[j]).name@ == name implies
            rest[j].deny_tools@.len() == 0 by {
            assert(rest[j] == roles[j]);
        }
        the_last_deny_list_counts(rest, name, i);
        if i >= 0 {
            assert(rest[i] == roles[i]);
        }
    }
}

} // verus!
