//! Core proxy construction: which middlewares a configuration asks for.

use vstd::prelude::*;

use crate::admin::BackendMeta;
use crate::alias::{
    aliased, aliases_lead_back, distinct_aliases, distinct_originals, forward_names, original,
    other_names_stay, renamed, reverse_names, triples, AliasMap,
};
use crate::config::{
    AliasConfig, AuthConfig, BackendCacheConfig, BackendConfig, BackendFilter, FilterRules,
    ProxyConfig, ToolExposure, TransportType,
};
use crate::filter::{listed_tools_are_callable, tool_denied, tool_listed};
use crate::json::{json_keys, map_is_empty};
use crate::names::{text_map, NameMap, NameSet};
use crate::protocol::Entry;
use crate::rbac::{allow_lists, deny_lists, set_map, RbacConfig};
use crate::reload::{
    build_backend_layer, connection, connects, is_connectable, layer_views, layers_of,
    lemma_contains_in_either, lemma_maybe_contains, maybe, BackendLayer, Connection,
};
use crate::sequences::lemma_filter_take_succ;
use crate::text::{concat2, concat3, decimal, decimal_digits, same_text};

verus! {

/// Where the arguments of tool calls are extended.
#[derive(Debug)]
pub struct InjectionRule {
    /// The namespace of the tools.
    pub namespace: String,
    /// The position of the backend whose arguments are injected.
    pub backend: usize,
}

/// To which canary some of the requests for a backend go.
#[derive(Debug)]
pub struct CanaryRoute {
    /// The name of the canary.
    pub canary: String,
    /// The weight of the backend itself.
    pub primary_weight: u32,
    /// The weight of the canary.
    pub canary_weight: u32,
}

/// To which backend requests are mirrored.
#[derive(Debug)]
pub struct MirrorRoute {
    /// The name of the mirror.
    pub mirror: String,
    /// The percentage of requests that it gets.
    pub percent: u32,
}

/// A middleware around the whole proxy.
pub enum Middleware {
    /// Merges default/per-tool arguments into tool calls.
    InjectArgs(Vec<InjectionRule>),
    /// Sends some requests for a backend to its canary.
    Canary(NameMap<CanaryRoute>),
    /// Sends requests to another backend where the first one fails.
    Failover(NameMap<String>),
    /// Sends copies of requests to another backend.
    Mirror(NameMap<MirrorRoute>),
    /// Caches responses, per namespace.
    Cache(Vec<(String, BackendCacheConfig)>),
    /// Deduplicates identical concurrent requests.
    Coalesce,
    /// Refuses tool calls with arguments over a size.
    Validation(usize),
    /// Hides capabilities.
    Filter(Vec<BackendFilter>),
    /// Lists only the tools with a prefix.
    SearchMode(String),
    /// Renames tools.
    Alias(AliasMap),
    /// Restricts tools to roles.
    Rbac(RbacConfig),
    /// Passes the token of the client on to backends.
    TokenPassthrough(NameSet),
    /// Records metrics.
    Metrics,
    /// Logs requests.
    AccessLog,
    /// Logs requests for audits.
    Audit,
}

/// What a middleware around the whole proxy does.
pub ghost enum MiddlewareView {
    /// Merges arguments into tool calls: namespaces and positions of backends.
    InjectArgs(Seq<(Seq<char>, int)>),
    /// Sends some requests for a backend to its canary: its name and the two weights.
    Canary(Map<Seq<char>, (Seq<char>, u32, u32)>),
    /// Sends requests to another backend where the first one fails.
    Failover(Map<Seq<char>, Seq<char>>),
    /// Sends copies of requests to another backend: its name and a percentage.
    Mirror(Map<Seq<char>, (Seq<char>, u32)>),
    /// Caches responses, per namespace.
    Cache(Seq<(Seq<char>, BackendCacheConfig)>),
    /// Deduplicates identical concurrent requests.
    Coalesce,
    /// Refuses tool calls with arguments over a size.
    Validation(usize),
    /// Hides capabilities.
    Filter(Seq<FilterRules>),
    /// Lists only the tools with a prefix.
    SearchMode(Seq<char>),
    /// Renames tools: the aliases, and the names that they replace.
    Alias(Map<Seq<char>, Seq<char>>, Map<Seq<char>, Seq<char>>),
    /// Restricts tools to roles: the claim, the roles by its values, the
    /// allowed and the denied tools by role.
    Rbac(
        Seq<char>,
        Map<Seq<char>, String>,
        Map<Seq<char>, Set<Seq<char>>>,
        Map<Seq<char>, Set<Seq<char>>>,
    ),
    /// Passes the token of the client on to backends.
    TokenPassthrough(Set<Seq<char>>),
    /// Records metrics.
    Metrics,
    /// Logs requests.
    AccessLog,
    /// Logs requests for audits.
    Audit,
}

/// The canaries by the backends of which they are canaries.
pub open spec fn canary_map(routes: Map<Seq<char>, CanaryRoute>) -> Map<
    Seq<char>,
    (Seq<char>, u32, u32),
> {
    routes.map_values(|r: CanaryRoute| (r.canary@, r.primary_weight, r.canary_weight))
}

/// The mirrors by the backends that they mirror.
pub open spec fn mirror_map(routes: Map<Seq<char>, MirrorRoute>) -> Map<
    Seq<char>,
    (Seq<char>, u32),
> {
    routes.map_values(|r: MirrorRoute| (r.mirror@, r.percent))
}

/// The namespaces and positions of injection rules.
pub open spec fn rule_views(rules: Seq<InjectionRule>) -> Seq<(Seq<char>, int)> {
    rules.map_values(|r: InjectionRule| (r.namespace@, r.backend as int))
}

/// The namespaces and configurations of caches.
pub open spec fn cache_views(caches: Seq<(String, BackendCacheConfig)>) -> Seq<
    (Seq<char>, BackendCacheConfig),
> {
    caches.map_values(|c: (String, BackendCacheConfig)| (c.0@, c.1))
}

/// What filters say.
pub open spec fn filter_views(filters: Seq<BackendFilter>) -> Seq<FilterRules> {
    filters.map_values(|f: BackendFilter| f@)
}

impl View for Middleware {
    type V = MiddlewareView;

    open spec fn view(&self) -> MiddlewareView {
        match self {
            Middleware::InjectArgs(rules) => MiddlewareView::InjectArgs(rule_views(rules@)),
            Middleware::Canary(routes) => MiddlewareView::Canary(canary_map(routes@)),
            Middleware::Failover(routes) => MiddlewareView::Failover(text_map(routes@)),
            Middleware::Mirror(routes) => MiddlewareView::Mirror(mirror_map(routes@)),
            Middleware::Cache(caches) => MiddlewareView::Cache(cache_views(caches@)),
            Middleware::Coalesce => MiddlewareView::Coalesce,
            Middleware::Validation(limit) => MiddlewareView::Validation(*limit),
            Middleware::Filter(filters) => MiddlewareView::Filter(filter_views(filters@)),
            Middleware::SearchMode(prefix) => MiddlewareView::SearchMode(prefix@),
            Middleware::Alias(aliases) => MiddlewareView::Alias(
                text_map(aliases.forward@),
                text_map(aliases.reverse@),
            ),
            Middleware::Rbac(config) => MiddlewareView::Rbac(
                config.claim@,
                config.claim_to_role@,
                set_map(config.role_allow@),
                set_map(config.role_deny@),
            ),
            Middleware::TokenPassthrough(namespaces) => MiddlewareView::TokenPassthrough(
                namespaces@,
            ),
            Middleware::Metrics => MiddlewareView::Metrics,
            Middleware::AccessLog => MiddlewareView::AccessLog,
            Middleware::Audit => MiddlewareView::Audit,
        }
    }
}

/// What the middlewares in a vector do.
pub open spec fn middleware_views(stack: Seq<Middleware>) -> Seq<MiddlewareView> {
    stack.map_values(|m: Middleware| m@)
}

impl ProxyConfig {
    /// The namespace of a backend: its name and the separator.
    pub open spec fn namespace(&self, backend: BackendConfig) -> Seq<char> {
        backend.name@ + self.proxy.separator@
    }

    fn build_namespace(&self, i: usize) -> (namespace: String)
        requires
            i < self.backends@.len(),
        ensures
            namespace@ == self.namespace(self.backends@[i as int]),
    {
        concat2(self.backends[i].name.as_str(), self.proxy.separator.as_str())
    }

    /// The namespaces and positions of the first `n` backends that inject
    /// arguments.
    pub open spec fn injections(&self, n: nat) -> Seq<(Seq<char>, int)>
        decreases n,
    {
        if n == 0 {
            Seq::empty()
        } else {
            let before = self.injections((n - 1) as nat);
            let backend = self.backends@[n - 1];
            if json_keys(backend.default_args) != Set::<Seq<char>>::empty()
                || backend.inject_args@.len() > 0 {
                before.push((self.namespace(backend), n - 1))
            } else {
                before
            }
        }
    }

    fn collect_injections(&self) -> (rules: Vec<InjectionRule>)
        ensures
            rule_views(rules@) == self.injections(self.backends@.len()),
    {
        let mut rules: Vec<InjectionRule> = Vec::new();
        let mut i: usize = 0;
        assert(rule_views(rules@) =~= self.injections(0));
        while i < self.backends.len()
            invariant
                i <= self.backends@.len(),
                rule_views(rules@) == self.injections(i as nat),
            decreases self.backends@.len() - i,
        {
            let ghost before = rule_views(rules@);
            let backend = &self.backends[i];
            if !map_is_empty(&backend.default_args) || backend.inject_args.len() > 0 {
                rules.push(InjectionRule { namespace: self.build_namespace(i), backend: i });
                assert(rule_views(rules@) =~= before.push(
                    (self.namespace(self.backends@[i as int]), i as int),
                ));
            }
            i = i + 1;
        }
        rules
    }

    /// The first backend with a name stands at a position.
    pub open spec fn first_named(&self, name: Seq<char>, i: int) -> bool {
        &&& 0 <= i < self.backends@.len()
        &&& self.backends@[i].name@ == name
        &&& forall|j: int| 0 <= j < i ==> (#[trigger] self.backends@[j]).name@ != name
    }

    /// The weight of the backend with a name, the default where there is none.
    pub open spec fn weight_of(&self, name: Seq<char>) -> u32 {
        if exists|i: int| self.first_named(name, i) {
            let i = choose|i: int| self.first_named(name, i);
            self.backends@[i].weight
        } else {
            100
        }
    }

    fn find_weight(&self, name: &str) -> (weight: u32)
        ensures
            weight == self.weight_of(name@),
    {
        let mut i: usize = 0;
        while i < self.backends.len()
            invariant
                i <= self.backends@.len(),
                forall|j: int| 0 <= j < i ==> (#[trigger] self.backends@[j]).name@ != name@,
            decreases self.backends@.len() - i,
        {
            if same_text(self.backends[i].name.as_str(), name) {
                proof {
                    assert(self.first_named(name@, i as int));
                    let k = choose|k: int| self.first_named(name@, k);
                    if k < i {
                        assert(self.backends@[k].name@ != name@);
                    } else if i < k {
                        assert(self.backends@[i as int].name@ != name@);
                    }
                }
                return self.backends[i].weight;
            }
            i = i + 1;
        }
        100
    }

    /// The canaries among the first `n` backends, by the backends of which
    /// they are canaries; of two for one backend the later one counts.
    pub open spec fn canaries(&self, n: nat) -> Map<Seq<char>, (Seq<char>, u32, u32)>
        decreases n,
    {
        if n == 0 {
            Map::empty()
        } else {
            let before = self.canaries((n - 1) as nat);
            let backend = self.backends@[n - 1];
            match backend.canary_of {
                Some(primary) => before.insert(
                    primary@,
                    (backend.name@, self.weight_of(primary@), backend.weight),
                ),
                None => before,
            }
        }
    }

    fn collect_canaries(&self) -> (routes: NameMap<CanaryRoute>)
        ensures
            canary_map(routes@) == self.canaries(self.backends@.len()),
    {
        let mut routes: NameMap<CanaryRoute> = NameMap::new();
        let mut i: usize = 0;
        assert(canary_map(routes@) =~= self.canaries(0));
        while i < self.backends.len()
            invariant
                i <= self.backends@.len(),
                canary_map(routes@) == self.canaries(i as nat),
            decreases self.backends@.len() - i,
        {
            let backend = &self.backends[i];
            if let Some(primary) = &backend.canary_of {
                let route = CanaryRoute {
                    canary: backend.name.clone(),
                    primary_weight: self.find_weight(primary.as_str()),
                    canary_weight: backend.weight,
                };
                let ghost held = routes@;
                let ghost added = route;
                routes.insert(primary.clone(), route);
                assert(canary_map(held.insert(primary@, added)) =~= canary_map(held).insert(
                    primary@,
                    (added.canary@, added.primary_weight, added.canary_weight),
                ));
            }
            i = i + 1;
        }
        routes
    }

    /// The backends among the first `n` that stand in for others, by those; of
    /// two for one backend the later one counts.
    pub open spec fn failovers(&self, n: nat) -> Map<Seq<char>, Seq<char>>
        decreases n,
    {
        if n == 0 {
            Map::empty()
        } else {
            let before = self.failovers((n - 1) as nat);
            let backend = self.backends@[n - 1];
            match backend.failover_for {
                Some(primary) => before.insert(primary@, backend.name@),
                None => before,
            }
        }
    }

    fn collect_failovers(&self) -> (routes: NameMap<String>)
        ensures
            text_map(routes@) == self.failovers(self.backends@.len()),
    {
        let mut routes: NameMap<String> = NameMap::new();
        let mut i: usize = 0;
        assert(text_map(routes@) =~= self.failovers(0));
        while i < self.backends.len()
            invariant
                i <= self.backends@.len(),
                text_map(routes@) == self.failovers(i as nat),
            decreases self.backends@.len() - i,
        {
            let backend = &self.backends[i];
            if let Some(primary) = &backend.failover_for {
                let ghost held = routes@;
                routes.insert(primary.clone(), backend.name.clone());
                assert(text_map(held.insert(primary@, backend.name)) =~= text_map(held).insert(
                    primary@,
                    backend.name@,
                ));
            }
            i = i + 1;
        }
        routes
    }

    /// The mirrors among the first `n` backends, by the backends that they
    /// mirror; of two for one backend the later one counts.
    pub open spec fn mirrors(&self, n: nat) -> Map<Seq<char>, (Seq<char>, u32)>
        decreases n,
    {
        if n == 0 {
            Map::empty()
        } else {
            let before = self.mirrors((n - 1) as nat);
            let backend = self.backends@[n - 1];
            match backend.mirror_of {
                Some(source) => before.insert(source@, (backend.name@, backend.mirror_percent)),
                None => before,
            }
        }
    }

    fn collect_mirrors(&self) -> (routes: NameMap<MirrorRoute>)
        ensures
            mirror_map(routes@) == self.mirrors(self.backends@.len()),
    {
        let mut routes: NameMap<MirrorRoute> = NameMap::new();
        let mut i: usize = 0;
        assert(mirror_map(routes@) =~= self.mirrors(0));
        while i < self.backends.len()
            invariant
                i <= self.backends@.len(),
                mirror_map(routes@) == self.mirrors(i as nat),
            decreases self.backends@.len() - i,
        {
            let backend = &self.backends[i];
            if let Some(source) = &backend.mirror_of {
                let route = MirrorRoute {
                    mirror: backend.name.clone(),
                    percent: backend.mirror_percent,
                };
                let ghost held = routes@;
                let ghost added = route;
                routes.insert(source.clone(), route);
                assert(mirror_map(held.insert(source@, added)) =~= mirror_map(held).insert(
                    source@,
                    (added.mirror@, added.percent),
                ));
            }
            i = i + 1;
        }
        routes
    }

    /// The caches of the first `n` backends.
    pub open spec fn caches(&self, n: nat) -> Seq<(Seq<char>, BackendCacheConfig)>
        decreases n,
    {
        if n == 0 {
            Seq::empty()
        } else {
            let before = self.caches((n - 1) as nat);
            let backend = self.backends@[n - 1];
            match backend.cache {
                Some(config) => before.push((self.namespace(backend), config)),
                None => before,
            }
        }
    }

    fn collect_caches(&self) -> (caches: Vec<(String, BackendCacheConfig)>)
        ensures
            cache_views(caches@) == self.caches(self.backends@.len()),
    {
        let mut caches: Vec<(String, BackendCacheConfig)> = Vec::new();
        let mut i: usize = 0;
        assert(cache_views(caches@) =~= self.caches(0));
        while i < self.backends.len()
            invariant
                i <= self.backends@.len(),
                cache_views(caches@) == self.caches(i as nat),
            decreases self.backends@.len() - i,
        {
            let ghost before = cache_views(caches@);
            if let Some(config) = &self.backends[i].cache {
                caches.push((self.build_namespace(i), *config));
                assert(cache_views(caches@) =~= before.push(
                    (self.namespace(self.backends@[i as int]), *config),
                ));
            }
            i = i + 1;
        }
        caches
    }

    /// The filters of the first `n` backends.
    pub open spec fn filters(&self, n: nat) -> Seq<FilterRules>
        decreases n,
    {
        if n == 0 {
            Seq::empty()
        } else {
            let before = self.filters((n - 1) as nat);
            match self.backends@[n - 1].filter_rules(self.proxy.separator@) {
                Some(rules) => before.push(rules),
                None => before,
            }
        }
    }

    fn collect_filters(&self) -> (filters: Vec<BackendFilter>)
        ensures
            filter_views(filters@) == self.filters(self.backends@.len()),
    {
        let mut filters: Vec<BackendFilter> = Vec::new();
        let mut i: usize = 0;
        assert(filter_views(filters@) =~= self.filters(0));
        while i < self.backends.len()
            invariant
                i <= self.backends@.len(),
                filter_views(filters@) == self.filters(i as nat),
            decreases self.backends@.len() - i,
        {
            let ghost before = filter_views(filters@);
            if let Some(filter) = self.backends[i].build_filter(self.proxy.separator.as_str()) {
                let ghost rules = filter@;
                filters.push(filter);
                assert(filter_views(filters@) =~= before.push(rules));
            }
            i = i + 1;
        }
        filters
    }

    /// The aliases of the first `n` backends and of the first `k` aliases of
    /// the next one, as triples of a namespace, a name and an alias.
    pub open spec fn alias_triples(&self, n: nat, k: nat) -> Seq<
        (Seq<char>, Seq<char>, Seq<char>),
    >
        decreases n, k,
    {
        if k > 0 {
            let alias = self.backends@[n as int].aliases@[k - 1];
            self.alias_triples(n, (k - 1) as nat).push(
                (self.namespace(self.backends@[n as int]), alias.from@, alias.to@),
            )
        } else if n > 0 {
            self.alias_triples((n - 1) as nat, self.backends@[n - 1].aliases@.len())
        } else {
            Seq::empty()
        }
    }

    fn collect_aliases(&self) -> (mappings: Vec<(String, String, String)>)
        ensures
            triples(mappings@) == self.alias_triples(self.backends@.len(), 0),
    {
        let mut mappings: Vec<(String, String, String)> = Vec::new();
        let mut i: usize = 0;
        assert(triples(mappings@) =~= self.alias_triples(0, 0));
        while i < self.backends.len()
            invariant
                i <= self.backends@.len(),
                triples(mappings@) == self.alias_triples(i as nat, 0),
            decreases self.backends@.len() - i,
        {
            let aliases = &self.backends[i].aliases;
            let mut k: usize = 0;
            while k < aliases.len()
                invariant
                    i < self.backends@.len(),
                    aliases == self.backends@[i as int].aliases,
                    k <= aliases@.len(),
                    triples(mappings@) == self.alias_triples(i as nat, k as nat),
                decreases aliases@.len() - k,
            {
                let ghost before = triples(mappings@);
                mappings.push(
                    (self.build_namespace(i), aliases[k].from.clone(), aliases[k].to.clone()),
                );
                proof {
                    let alias = aliases@[k as int];
                    assert(triples(mappings@) =~= before.push(
                        (self.namespace(self.backends@[i as int]), alias.from@, alias.to@),
                    ));
                }
                k = k + 1;
            }
            assert(self.alias_triples((i + 1) as nat, 0) == self.alias_triples(
                i as nat,
                aliases@.len(),
            ));
            i = i + 1;
        }
        mappings
    }

    /// The namespaces of the first `n` backends to which the token of the
    /// client is passed on.
    pub open spec fn forwards(&self, n: nat) -> Set<Seq<char>>
        decreases n,
    {
        if n == 0 {
            Set::empty()
        } else {
            let before = self.forwards((n - 1) as nat);
            let backend = self.backends@[n - 1];
            if backend.forward_auth {
                before.insert(self.namespace(backend))
            } else {
                before
            }
        }
    }

    fn collect_forwards(&self) -> (namespaces: NameSet)
        ensures
            namespaces@ == self.forwards(self.backends@.len()),
    {
        let mut namespaces = NameSet::new();
        let mut i: usize = 0;
        while i < self.backends.len()
            invariant
                i <= self.backends@.len(),
                namespaces@ == self.forwards(i as nat),
            decreases self.backends@.len() - i,
        {
            if self.backends[i].forward_auth {
                namespaces.insert(self.build_namespace(i));
            }
            i = i + 1;
        }
        namespaces
    }

    /// The RBAC middleware: with JWT authentication, roles and a mapping of
    /// claims to them.
    pub open spec fn rbac_middleware(&self) -> Option<MiddlewareView> {
        match self.auth {
            Some(AuthConfig::Jwt { roles, role_mapping: Some(mapping), .. }) => if roles@.len()
                > 0 {
                Some(
                    MiddlewareView::Rbac(
                        mapping.claim@,
                        mapping.mapping@,
                        allow_lists(roles@),
                        deny_lists(roles@),
                    ),
                )
            } else {
                None
            },
            _ => None,
        }
    }

    pub(crate) fn build_rbac(&self) -> (middleware: Option<Middleware>)
        ensures
            view_of(middleware) == self.rbac_middleware(),
    {
        match &self.auth {
            Some(AuthConfig::Jwt { roles, role_mapping: Some(mapping), .. }) => {
                if roles.len() > 0 {
                    Some(Middleware::Rbac(RbacConfig::new(roles.as_slice(), mapping)))
                } else {
                    None
                }
            },
            _ => None,
        }
    }

    /// The argument injection middleware, where a backend injects arguments.
    pub open spec fn inject_middleware(&self) -> Option<MiddlewareView> {
        let n = self.backends@.len();
        if self.injections(n).len() > 0 {
            Some(MiddlewareView::InjectArgs(self.injections(n)))
        } else {
            None
        }
    }

    pub(crate) fn build_inject(&self) -> (middleware: Option<Middleware>)
        ensures
            view_of(middleware) == self.inject_middleware(),
    {
        let rules = self.collect_injections();
        if rules.len() > 0 {
            Some(Middleware::InjectArgs(rules))
        } else {
            None
        }
    }

    /// The canary routing middleware, where there are canaries.
    pub open spec fn canary_middleware(&self) -> Option<MiddlewareView> {
        let n = self.backends@.len();
        if self.canaries(n) != Map::<Seq<char>, (Seq<char>, u32, u32)>::empty() {
            Some(MiddlewareView::Canary(self.canaries(n)))
        } else {
            None
        }
    }

    pub(crate) fn build_canary(&self) -> (middleware: Option<Middleware>)
        ensures
            view_of(middleware) == self.canary_middleware(),
    {
        let canaries = self.collect_canaries();
        proof {
            lemma_map_empty(
                canaries@,
                |r: CanaryRoute| (r.canary@, r.primary_weight, r.canary_weight),
            );
        }
        if canaries.is_empty() {
            None
        } else {
            Some(Middleware::Canary(canaries))
        }
    }

    /// The failover middleware, where a backend stands in for another.
    pub open spec fn failover_middleware(&self) -> Option<MiddlewareView> {
        let n = self.backends@.len();
        if self.failovers(n) != Map::<Seq<char>, Seq<char>>::empty() {
            Some(MiddlewareView::Failover(self.failovers(n)))
        } else {
            None
        }
    }

    pub(crate) fn build_failover(&self) -> (middleware: Option<Middleware>)
        ensures
            view_of(middleware) == self.failover_middleware(),
    {
        let failovers = self.collect_failovers();
        proof {
            lemma_map_empty(failovers@, |s: String| s@);
        }
        if failovers.is_empty() {
            None
        } else {
            Some(Middleware::Failover(failovers))
        }
    }

    /// The mirroring middleware, where a backend mirrors another.
    pub open spec fn mirror_middleware(&self) -> Option<MiddlewareView> {
        let n = self.backends@.len();
        if self.mirrors(n) != Map::<Seq<char>, (Seq<char>, u32)>::empty() {
            Some(MiddlewareView::Mirror(self.mirrors(n)))
        } else {
            None
        }
    }

    pub(crate) fn build_mirror(&self) -> (middleware: Option<Middleware>)
        ensures
            view_of(middleware) == self.mirror_middleware(),
    {
        let mirrors = self.collect_mirrors();
        proof {
            lemma_map_empty(mirrors@, |r: MirrorRoute| (r.mirror@, r.percent));
        }
        if mirrors.is_empty() {
            None
        } else {
            Some(Middleware::Mirror(mirrors))
        }
    }

    /// The caching middleware, where a backend has a cache.
    pub open spec fn cache_middleware(&self) -> Option<MiddlewareView> {
        let n = self.backends@.len();
        if self.caches(n).len() > 0 {
            Some(MiddlewareView::Cache(self.caches(n)))
        } else {
            None
        }
    }

    pub(crate) fn build_cache(&self) -> (middleware: Option<Middleware>)
        ensures
            view_of(middleware) == self.cache_middleware(),
    {
        let caches = self.collect_caches();
        if caches.len() > 0 {
            Some(Middleware::Cache(caches))
        } else {
            None
        }
    }

    /// The coalescing middleware, where it is switched on.
    pub open spec fn coalesce_middleware(&self) -> Option<MiddlewareView> {
        if self.performance.coalesce_requests {
            Some(MiddlewareView::Coalesce)
        } else {
            None
        }
    }

    pub(crate) fn build_coalesce(&self) -> (middleware: Option<Middleware>)
        ensures
            view_of(middleware) == self.coalesce_middleware(),
    {
        if self.performance.coalesce_requests {
            Some(Middleware::Coalesce)
        } else {
            None
        }
    }

    /// The validation middleware, where there is a limit.
    pub open spec fn validation_middleware(&self) -> Option<MiddlewareView> {
        match self.security.max_argument_size {
            Some(limit) => Some(MiddlewareView::Validation(limit)),
            None => None,
        }
    }

    pub(crate) fn build_validation(&self) -> (middleware: Option<Middleware>)
        ensures
            view_of(middleware) == self.validation_middleware(),
    {
        match self.security.max_argument_size {
            Some(limit) => Some(Middleware::Validation(limit)),
            None => None,
        }
    }

    /// The capability filter middleware, where a backend has a filter.
    pub open spec fn filter_middleware(&self) -> Option<MiddlewareView> {
        let n = self.backends@.len();
        if self.filters(n).len() > 0 {
            Some(MiddlewareView::Filter(self.filters(n)))
        } else {
            None
        }
    }

    pub(crate) fn build_filter(&self) -> (middleware: Option<Middleware>)
        ensures
            view_of(middleware) == self.filter_middleware(),
    {
        let filters = self.collect_filters();
        if filters.len() > 0 {
            Some(Middleware::Filter(filters))
        } else {
            None
        }
    }

    /// The search mode middleware, in search mode, in which only the proxy's own tools are listed.
    pub open spec fn search_middleware(&self) -> Option<MiddlewareView> {
        if self.proxy.tool_exposure is Search {
            Some(MiddlewareView::SearchMode("proxy"@ + self.proxy.separator@))
        } else {
            None
        }
    }

    pub(crate) fn build_search(&self) -> (middleware: Option<Middleware>)
        ensures
            view_of(middleware) == self.search_middleware(),
    {
        if self.proxy.tool_exposure == ToolExposure::Search {
            Some(Middleware::SearchMode(concat2("proxy", self.proxy.separator.as_str())))
        } else {
            None
        }
    }

    /// The alias middleware, where there are aliases.
    pub open spec fn alias_middleware(&self) -> Option<MiddlewareView> {
        let mappings = self.alias_triples(self.backends@.len(), 0);
        if mappings.len() > 0 {
            Some(MiddlewareView::Alias(forward_names(mappings), reverse_names(mappings)))
        } else {
            None
        }
    }

    pub(crate) fn build_alias(&self) -> (middleware: Option<Middleware>)
        ensures
            view_of(middleware) == self.alias_middleware(),
    {
        let mappings = self.collect_aliases();
        match AliasMap::new(mappings) {
            Some(aliases) => Some(Middleware::Alias(aliases)),
            None => None,
        }
    }

    /// The token passthrough middleware, where a backend wants the token of the client.
    pub open spec fn token_middleware(&self) -> Option<MiddlewareView> {
        let n = self.backends@.len();
        if self.forwards(n) != Set::<Seq<char>>::empty() {
            Some(MiddlewareView::TokenPassthrough(self.forwards(n)))
        } else {
            None
        }
    }

    pub(crate) fn build_token(&self) -> (middleware: Option<Middleware>)
        ensures
            view_of(middleware) == self.token_middleware(),
    {
        let forwards = self.collect_forwards();
        if forwards.is_empty() {
            None
        } else {
            Some(Middleware::TokenPassthrough(forwards))
        }
    }

    /// The metrics middleware, where they are switched on.
    pub open spec fn metrics_middleware(&self) -> Option<MiddlewareView> {
        if self.observability.metrics.enabled {
            Some(MiddlewareView::Metrics)
        } else {
            None
        }
    }

    pub(crate) fn build_metrics(&self) -> (middleware: Option<Middleware>)
        ensures
            view_of(middleware) == self.metrics_middleware(),
    {
        if self.observability.metrics.enabled {
            Some(Middleware::Metrics)
        } else {
            None
        }
    }

    /// The access log middleware, where it is switched on.
    pub open spec fn access_log_middleware(&self) -> Option<MiddlewareView> {
        if self.observability.access_log.enabled {
            Some(MiddlewareView::AccessLog)
        } else {
            None
        }
    }

    pub(crate) fn build_access_log(&self) -> (middleware: Option<Middleware>)
        ensures
            view_of(middleware) == self.access_log_middleware(),
    {
        if self.observability.access_log.enabled {
            Some(Middleware::AccessLog)
        } else {
            None
        }
    }

    /// The audit log middleware, where it is switched on.
    pub open spec fn audit_middleware(&self) -> Option<MiddlewareView> {
        if self.observability.audit {
            Some(MiddlewareView::Audit)
        } else {
            None
        }
    }

    pub(crate) fn build_audit(&self) -> (middleware: Option<Middleware>)
        ensures
            view_of(middleware) == self.audit_middleware(),
    {
        if self.observability.audit {
            Some(Middleware::Audit)
        } else {
            None
        }
    }

    /// The middlewares around the whole proxy, inner to outer.
    pub open spec fn stack(&self) -> Seq<MiddlewareView> {
        maybe(self.inject_middleware()) + maybe(self.canary_middleware())
            + maybe(self.failover_middleware()) + maybe(self.mirror_middleware())
            + maybe(self.cache_middleware()) + maybe(self.coalesce_middleware())
            + maybe(self.validation_middleware()) + maybe(self.filter_middleware())
            + maybe(self.search_middleware()) + maybe(self.alias_middleware())
            + maybe(self.rbac_middleware()) + maybe(self.token_middleware())
            + maybe(self.metrics_middleware()) + maybe(self.access_log_middleware())
            + maybe(self.audit_middleware())
    }
}

/// The view of an optional middleware.
pub open spec fn view_of(middleware: Option<Middleware>) -> Option<MiddlewareView> {
    match middleware {
        Some(m) => Some(m@),
        None => None,
    }
}

proof fn lemma_map_empty<A, B>(map: Map<Seq<char>, A>, f: spec_fn(A) -> B)
    ensures
        map == Map::<Seq<char>, A>::empty() <==> map.map_values(f) == Map::<Seq<char>, B>::empty(),
{
    if map == Map::<Seq<char>, A>::empty() {
        assert(map.map_values(f) =~= Map::<Seq<char>, B>::empty());
    }
    if map.map_values(f) == Map::<Seq<char>, B>::empty() {
        assert(map.map_values(f).dom() =~= map.dom());
        assert(map =~= Map::<Seq<char>, A>::empty());
    }
}

pub(crate) fn push_middleware(stack: &mut Vec<Middleware>, middleware: Option<Middleware>)
    ensures
        middleware_views(final(stack)@) == middleware_views(old(stack)@) + maybe(
            view_of(middleware),
        ),
{
    match middleware {
        Some(m) => {
            let ghost view = m@;
            stack.push(m);
            assert(middleware_views(stack@) =~= middleware_views(old(stack)@) + seq![view]);
        },
        None => {
            assert(middleware_views(stack@) =~= middleware_views(old(stack)@) + Seq::empty());
        },
    }
}

/// The middlewares around the whole proxy, inner to outer.
pub fn build_middleware_stack(config: &ProxyConfig) -> (stack: Vec<Middleware>)
    ensures
        middleware_views(stack@) == config.stack(),
{
    let mut stack: Vec<Middleware> = Vec::new();
    let ghost start = middleware_views(stack@);
    push_middleware(&mut stack, config.build_inject());
    assert(start + maybe(config.inject_middleware()) =~= maybe(config.inject_middleware()));
    push_middleware(&mut stack, config.build_canary());
    push_middleware(&mut stack, config.build_failover());
    push_middleware(&mut stack, config.build_mirror());
    push_middleware(&mut stack, config.build_cache());
    push_middleware(&mut stack, config.build_coalesce());
    push_middleware(&mut stack, config.build_validation());
    push_middleware(&mut stack, config.build_filter());
    push_middleware(&mut stack, config.build_search());
    push_middleware(&mut stack, config.build_alias());
    push_middleware(&mut stack, config.build_rbac());
    push_middleware(&mut stack, config.build_token());
    push_middleware(&mut stack, config.build_metrics());
    push_middleware(&mut stack, config.build_access_log());
    push_middleware(&mut stack, config.build_audit());
    stack
}

/// The place of a middleware, counted from the proxy outwards.
pub open spec fn place(middleware: MiddlewareView) -> int {
    match middleware {
        MiddlewareView::InjectArgs(_) => 0,
        MiddlewareView::Canary(_) => 1,
        MiddlewareView::Failover(_) => 2,
        MiddlewareView::Mirror(_) => 3,
        MiddlewareView::Cache(_) => 4,
        MiddlewareView::Coalesce => 5,
        MiddlewareView::Validation(_) => 6,
        MiddlewareView::Filter(_) => 7,
        MiddlewareView::SearchMode(_) => 8,
        MiddlewareView::Alias(_, _) => 9,
        MiddlewareView::Rbac(_, _, _, _) => 10,
        MiddlewareView::TokenPassthrough(_) => 11,
        MiddlewareView::Metrics => 12,
        MiddlewareView::AccessLog => 13,
        MiddlewareView::Audit => 14,
    }
}

/// Middlewares stand in the order of their places, all of them before a place.
spec fn in_place(stack: Seq<MiddlewareView>, end: int) -> bool {
    &&& forall|i: int, j: int|
        0 <= i < j < stack.len() ==> place(#[trigger] stack[i]) < place(#[trigger] stack[j])
    &&& forall|i: int| 0 <= i < stack.len() ==> place(#[trigger] stack[i]) < end
}

proof fn lemma_in_place(stack: Seq<MiddlewareView>, item: Option<MiddlewareView>, at: int)
    requires
        in_place(stack, at),
        item matches Some(m) ==> place(m) == at,
    ensures
        in_place(stack + maybe(item), at + 1),
{
    let after = stack + maybe(item);
    assert forall|i: int, j: int| 0 <= i < j < after.len() implies place(#[trigger] after[i])
        < place(#[trigger] after[j]) by {
        if j < stack.len() {
            assert(after[i] == stack[i] && after[j] == stack[j]);
        } else {
            assert(after[i] == stack[i]);
        }
    }
    assert forall|i: int| 0 <= i < after.len() implies place(#[trigger] after[i]) < at + 1 by {
        if i < stack.len() {
            assert(after[i] == stack[i]);
        }
    }
}

/// The middlewares of any configuration stand in one order, from the proxy
/// outwards: argument injection, canaries, failover, mirrors, cache,
/// coalescing, validation, capability filter, search mode, aliases, RBAC,
/// token passthrough, metrics, access log, audit. None is there twice.
pub proof fn middlewares_stand_in_order(config: ProxyConfig, i: int, j: int)
    requires
        0 <= i < j < config.stack().len(),
    ensures
        place(config.stack()[i]) < place(config.stack()[j]),
{
    let s0 = Seq::<MiddlewareView>::empty();
    lemma_in_place(s0, config.inject_middleware(), 0);
    let s1 = maybe(config.inject_middleware());
    assert(s0 + s1 =~= s1);
    lemma_in_place(s1, config.canary_middleware(), 1);
    let s2 = s1 + maybe(config.canary_middleware());
    lemma_in_place(s2, config.failover_middleware(), 2);
    let s3 = s2 + maybe(config.failover_middleware());
    lemma_in_place(s3, config.mirror_middleware(), 3);
    let s4 = s3 + maybe(config.mirror_middleware());
    lemma_in_place(s4, config.cache_middleware(), 4);
    let s5 = s4 + maybe(config.cache_middleware());
    lemma_in_place(s5, config.coalesce_middleware(), 5);
    let s6 = s5 + maybe(config.coalesce_middleware());
    lemma_in_place(s6, config.validation_middleware(), 6);
    let s7 = s6 + maybe(config.validation_middleware());
    lemma_in_place(s7, config.filter_middleware(), 7);
    let s8 = s7 + maybe(config.filter_middleware());
    lemma_in_place(s8, config.search_middleware(), 8);
    let s9 = s8 + maybe(config.search_middleware());
    lemma_in_place(s9, config.alias_middleware(), 9);
    let s10 = s9 + maybe(config.alias_middleware());
    lemma_in_place(s10, config.rbac_middleware(), 10);
    let s11 = s10 + maybe(config.rbac_middleware());
    lemma_in_place(s11, config.token_middleware(), 11);
    let s12 = s11 + maybe(config.token_middleware());
    lemma_in_place(s12, config.metrics_middleware(), 12);
    let s13 = s12 + maybe(config.metrics_middleware());
    lemma_in_place(s13, config.access_log_middleware(), 13);
    let s14 = s13 + maybe(config.access_log_middleware());
    lemma_in_place(s14, config.audit_middleware(), 14);
    let s15 = s14 + maybe(config.audit_middleware());
}

/// A tool that is listed to a client can be called by it, under the name under
/// which it is listed: the role may call that name, it leads back to the tool,
/// and the capability filter lets the tool pass. The aliases are to be
/// unambiguous, and the tool is not to have the alias of another one as its
/// own name.
pub proof fn listed_tools_can_be_called<T>(
    filters: Seq<BackendFilter>,
    mappings: Seq<(Seq<char>, Seq<char>, Seq<char>)>,
    rbac: RbacConfig,
    role: Seq<char>,
    tool: Entry<T>,
)
    requires
        tool_listed(filters, tool),
        rbac.permits(role, renamed(forward_names(mappings), tool.name@)),
        distinct_originals(mappings),
        distinct_aliases(mappings),
        (exists|i: int| 0 <= i < mappings.len() && original(#[trigger] mappings[i]) == tool.name@)
            || (forall|i: int|
            0 <= i < mappings.len() ==> aliased(#[trigger] mappings[i]) != tool.name@),
    ensures
        ({
            let listed = renamed(forward_names(mappings), tool.name@);
            let called = renamed(reverse_names(mappings), listed);
            &&& rbac.permits(role, listed)
            &&& called == tool.name@
            &&& !tool_denied(filters, called)
        }),
{
    listed_tools_are_callable(filters, tool);
    if exists|i: int| 0 <= i < mappings.len() && original(#[trigger] mappings[i]) == tool.name@ {
        let i = choose|i: int|
            0 <= i < mappings.len() && original(#[trigger] mappings[i]) == tool.name@;
        aliases_lead_back(mappings, i);
    } else {
        other_names_stay(mappings, tool.name@);
    }
}

/// How a backend is connected to, and what is put around it.
#[derive(Debug)]
pub struct BackendPlan {
    /// The name of the backend.
    pub name: String,
    /// How it is connected to.
    pub connection: Connection,
    /// The layers around it, inner to outer.
    pub layers: Vec<BackendLayer>,
}

/// The largest percentage of backends that any of the first `n` backends lets
/// be ejected, where one has outlier detection.
pub open spec fn max_ejection(backends: Seq<BackendConfig>, n: nat) -> Option<u32>
    decreases n,
{
    if n == 0 {
        None
    } else {
        match (max_ejection(backends, (n - 1) as nat), backends[n - 1].outlier_detection) {
            (Some(max), Some(config)) => Some(
                if config.max_ejection_percent > max {
                    config.max_ejection_percent
                } else {
                    max
                },
            ),
            (Some(max), None) => Some(max),
            (None, Some(config)) => Some(config.max_ejection_percent),
            (None, None) => None,
        }
    }
}

/// The limit of the outlier detector that all backends share: the maximum of
/// what they allow, where one has outlier detection.
pub fn shared_ejection_percent(config: &ProxyConfig) -> (percent: Option<u32>)
    ensures
        percent == max_ejection(config.backends@, config.backends@.len()),
{
    let mut percent: Option<u32> = None;
    let mut i: usize = 0;
    while i < config.backends.len()
        invariant
            i <= config.backends@.len(),
            percent == max_ejection(config.backends@, i as nat),
        decreases config.backends@.len() - i,
    {
        if let Some(outlier) = &config.backends[i].outlier_detection {
            percent = match percent {
                Some(max) => if outlier.max_ejection_percent > max {
                    Some(outlier.max_ejection_percent)
                } else {
                    Some(max)
                },
                None => Some(outlier.max_ejection_percent),
            };
        }
        i = i + 1;
    }
    percent
}

/// No backend allows more than the shared limit, and one allows just that.
pub proof fn shared_limit_is_the_maximum(backends: Seq<BackendConfig>, n: nat)
    requires
        n <= backends.len(),
    ensures
        match max_ejection(backends, n) {
            Some(max) => {
                &&& exists|i: int|
                    0 <= i < n && ((#[trigger] backends[i]).outlier_detection matches Some(c)
                        && c.max_ejection_percent == max)
                &&& forall|i: int|
                    0 <= i < n ==> ((#[trigger] backends[i]).outlier_detection matches Some(c)
                        ==> c.max_ejection_percent <= max)
            },
            None => forall|i: int|
                0 <= i < n ==> (#[trigger] backends[i]).outlier_detection is None,
        },
    decreases n,
{
    if n > 0 {
        let before = max_ejection(backends, (n - 1) as nat);
        shared_limit_is_the_maximum(backends, (n - 1) as nat);
        let last = backends[n - 1];
        if max_ejection(backends, n) is Some {
            let max = max_ejection(backends, n)->0;
            if last.outlier_detection matches Some(c) && c.max_ejection_percent == max {
                assert(backends[n - 1].outlier_detection matches Some(c)
                    && c.max_ejection_percent == max);
            } else {
                let i = choose|i: int|
                    0 <= i < n - 1 && ((#[trigger] backends[i]).outlier_detection matches Some(c)
                        && c.max_ejection_percent == before->0);
                assert(0 <= i < n && (backends[i].outlier_detection matches Some(c)
                    && c.max_ejection_percent == max));
            }
        }
    }
}

/// A backend can be planned: its transport has what it needs, and the number
/// of its hedges can be counted.
pub open spec fn plannable(backend: BackendConfig) -> bool {
    &&& is_connectable(backend)
    &&& backend.hedging matches Some(config) ==> config.max_hedges < usize::MAX
}

/// How all backends are connected to, and what is put around them.
pub fn build_mcp_proxy(config: &ProxyConfig) -> (plans: Vec<BackendPlan>)
    requires
        forall|i: int| 0 <= i < config.backends@.len() ==> plannable(#[trigger] config.backends@[i]),
    ensures
        plans@.len() == config.backends@.len(),
        forall|i: int|
            0 <= i < plans@.len() ==> {
                &&& (#[trigger] plans@[i]).name@ == config.backends@[i].name@
                &&& connects(plans@[i].connection, config.backends@[i])
                &&& layer_views(plans@[i].layers@) == layers_of(config.backends@[i])
            },
{
    let mut plans: Vec<BackendPlan> = Vec::new();
    let mut i: usize = 0;
    while i < config.backends.len()
        invariant
            i <= config.backends@.len(),
            forall|i: int|
                0 <= i < config.backends@.len() ==> plannable(#[trigger] config.backends@[i]),
            plans@.len() == i,
            forall|j: int|
                0 <= j < i ==> {
                    &&& (#[trigger] plans@[j]).name@ == config.backends@[j].name@
                    &&& connects(plans@[j].connection, config.backends@[j])
                    &&& layer_views(plans@[j].layers@) == layers_of(config.backends@[j])
                },
        decreases config.backends@.len() - i,
    {
        let backend = &config.backends[i];
        assert(plannable(config.backends@[i as int]));
        if let Ok(connection) = connection(backend) {
            plans.push(
                BackendPlan {
                    name: backend.name.clone(),
                    connection,
                    layers: build_backend_layer(backend),
                },
            );
        }
        i = i + 1;
    }
    plans
}

/// The name of a transport.
pub open spec fn transport_name(transport: TransportType) -> Seq<char> {
    match transport {
        TransportType::Stdio => "stdio"@,
        TransportType::Http => "http"@,
        TransportType::Websocket => "websocket"@,
    }
}

/// The transports by backend, for the first `n` backends; of two with one name
/// the later one counts.
pub open spec fn transports(backends: Seq<BackendConfig>, n: nat) -> Map<Seq<char>, Seq<char>>
    decreases n,
{
    if n == 0 {
        Map::empty()
    } else {
        transports(backends, (n - 1) as nat).insert(
            backends[n - 1].name@,
            transport_name(backends[n - 1].transport),
        )
    }
}

/// The transports that metadata hold.
pub open spec fn meta_map(meta: Map<Seq<char>, BackendMeta>) -> Map<Seq<char>, Seq<char>> {
    meta.map_values(|m: BackendMeta| m.transport@)
}

/// Collect backend metadata for the health checker.
pub fn backend_meta(config: &ProxyConfig) -> (meta: NameMap<BackendMeta>)
    ensures
        meta_map(meta@) == transports(config.backends@, config.backends@.len()),
{
    let mut meta: NameMap<BackendMeta> = NameMap::new();
    let mut i: usize = 0;
    assert(meta_map(meta@) =~= transports(config.backends@, 0));
    while i < config.backends.len()
        invariant
            i <= config.backends@.len(),
            meta_map(meta@) == transports(config.backends@, i as nat),
        decreases config.backends@.len() - i,
    {
        let backend = &config.backends[i];
        let transport = match backend.transport {
            TransportType::Stdio => "stdio".to_owned(),
            TransportType::Http => "http".to_owned(),
            TransportType::Websocket => "websocket".to_owned(),
        };
        let entry = BackendMeta { transport };
        let ghost held = meta@;
        let ghost added = entry;
        meta.insert(backend.name.clone(), entry);
        assert(meta_map(held.insert(backend.name@, added)) =~= meta_map(held).insert(
            backend.name@,
            added.transport@,
        ));
        i = i + 1;
    }
    meta
}

impl ProxyConfig {
    /// The address to listen on.
    pub fn listen_address(&self) -> (address: String)
        ensures
            address@ == self.proxy.listen.host@ + ":"@ + decimal_digits(
                self.proxy.listen.port as nat,
            ),
    {
        concat3(
            self.proxy.listen.host.as_str(),
            ":",
            decimal(self.proxy.listen.port as u64).as_str(),
        )
    }

    /// The URL under which the proxy is known as a protected resource.
    pub fn resource_url(&self) -> (url: String)
        ensures
            url@ == "http://"@ + (self.proxy.listen.host@ + ":"@ + decimal_digits(
                self.proxy.listen.port as nat,
            )),
    {
        concat2("http://", self.listen_address().as_str())
    }

    /// The filter for the log.
    pub fn log_filter(&self) -> (filter: String)
        ensures
            filter@ == "tower_mcp="@ + self.observability.log_level@ + ",mcp_proxy="@
                + self.observability.log_level@,
    {
        let start = concat3(
            "tower_mcp=",
            self.observability.log_level.as_str(),
            ",mcp_proxy=",
        );
        concat2(start.as_str(), self.observability.log_level.as_str())
    }
}

proof fn lemma_mirrors(config: ProxyConfig, n: nat, key: Seq<char>)
    requires
        n <= config.backends@.len(),
    ensures
        config.mirrors(n).contains_key(key) <==> exists|j: int|
            0 <= j < n && ((#[trigger] config.backends@[j]).mirror_of matches Some(s) && s@ == key),
    decreases n,
{
    if n > 0 {
        let m = (n - 1) as nat;
        lemma_mirrors(config, m, key);
        let last = config.backends@[m as int];
        if config.mirrors(n).contains_key(key) {
            if last.mirror_of matches Some(s) && s@ == key {
                assert(config.backends@[m as int].mirror_of matches Some(s) && s@ == key);
            } else {
                assert(config.mirrors(m).contains_key(key));
                let j = choose|j: int|
                    0 <= j < m && ((#[trigger] config.backends@[j]).mirror_of matches Some(s) && s@
                        == key);
                assert(0 <= j < n && (config.backends@[j].mirror_of matches Some(s) && s@ == key));
            }
        }
        if exists|j: int|
            0 <= j < n && ((#[trigger] config.backends@[j]).mirror_of matches Some(s) && s@ == key) {
            let j = choose|j: int|
                0 <= j < n && ((#[trigger] config.backends@[j]).mirror_of matches Some(s) && s@
                    == key);
            if j < m {
                assert(0 <= j < m && (config.backends@[j].mirror_of matches Some(s) && s@ == key));
            }
        }
    }
}

proof fn lemma_last_of_mirrors(config: ProxyConfig, n: nat, i: int, key: Seq<char>)
    requires
        0 <= i < n <= config.backends@.len(),
        config.backends@[i].mirror_of matches Some(s) && s@ == key,
        forall|j: int|
            i < j < n ==> ((#[trigger] config.backends@[j]).mirror_of matches Some(s) ==> s@ != key),
    ensures
        config.mirrors(n).contains_key(key),
        config.mirrors(n)[key] == (
            config.backends@[i].name@,
            config.backends@[i].mirror_percent,
        ),
    decreases n,
{
    if i < n - 1 {
        lemma_last_of_mirrors(config, (n - 1) as nat, i, key);
        assert(config.backends@[n - 1].mirror_of matches Some(s) ==> s@ != key);
    }
}

/// The mirror middleware maps the source of a mirror to the name and the
/// percentage of that mirror, as they are configured; of two mirrors of one
/// source the later one counts.
pub proof fn mirrors_get_their_percentage(config: ProxyConfig, i: int)
    requires
        0 <= i < config.backends@.len(),
        config.backends@[i].mirror_of is Some,
        forall|j: int|
            i < j < config.backends@.len() ==> ((#[trigger] config.backends@[j]).mirror_of matches
                Some(s) ==> s@ != config.backends@[i].mirror_of->0@),
    ensures
        config.mirror_middleware() matches Some(MiddlewareView::Mirror(routes)) && {
            let source = config.backends@[i].mirror_of->0@;
            &&& routes.contains_key(source)
            &&& routes[source].0 == config.backends@[i].name@
            &&& routes[source].1 == config.backends@[i].mirror_percent
        },
{
    let source = config.backends@[i].mirror_of->0@;
    lemma_last_of_mirrors(config, config.backends@.len(), i, source);
    assert(config.mirrors(config.backends@.len()) != Map::<
        Seq<char>,
        (Seq<char>, u32),
    >::empty());
}

/// There is a mirror middleware exactly where a backend mirrors another, and
/// it holds the sources of the mirrors and no other name.
pub proof fn only_mirrored_backends_are_mirrored(config: ProxyConfig, name: Seq<char>)
    ensures
        config.mirror_middleware() is None <==> forall|j: int|
            0 <= j < config.backends@.len() ==> (#[trigger] config.backends@[j]).mirror_of is None,
        config.mirror_middleware() matches Some(m) ==> (m matches MiddlewareView::Mirror(routes)
            && (routes.contains_key(name) <==> exists|j: int|
            0 <= j < config.backends@.len() && ((#[trigger] config.backends@[j]).mirror_of matches
                Some(s) && s@ == name))),
{
    let n = config.backends@.len();
    let routes = config.mirrors(n);
    lemma_mirrors(config, n, name);
    if exists|j: int|
        0 <= j < config.backends@.len() && (#[trigger] config.backends@[j]).mirror_of is Some {
        let j = choose|j: int|
            0 <= j < config.backends@.len() && (#[trigger] config.backends@[j]).mirror_of is Some;
        let s = config.backends@[j].mirror_of->0@;
        lemma_mirrors(config, n, s);
        assert(routes.contains_key(s));
    } else {
        assert forall|key: Seq<char>| !routes.contains_key(key) by {
            lemma_mirrors(config, n, key);
        }
        assert(routes =~= Map::empty());
    }
}

proof fn lemma_canaries(config: ProxyConfig, n: nat, key: Seq<char>)
    requires
        n <= config.backends@.len(),
    ensures
        config.canaries(n).contains_key(key) <==> exists|j: int|
            0 <= j < n && ((#[trigger] config.backends@[j]).canary_of matches Some(s) && s@ == key),
    decreases n,
{
    if n > 0 {
        let m = (n - 1) as nat;
        lemma_canaries(config, m, key);
        let last = config.backends@[m as int];
        if config.canaries(n).contains_key(key) {
            if last.canary_of matches Some(s) && s@ == key {
                assert(config.backends@[m as int].canary_of matches Some(s) && s@ == key);
            } else {
                assert(config.canaries(m).contains_key(key));
                let j = choose|j: int|
                    0 <= j < m && ((#[trigger] config.backends@[j]).canary_of matches Some(s) && s@
                        == key);
                assert(0 <= j < n && (config.backends@[j].canary_of matches Some(s) && s@ == key));
            }
        }
        if exists|j: int|
            0 <= j < n && ((#[trigger] config.backends@[j]).canary_of matches Some(s) && s@ == key) {
            let j = choose|j: int|
                0 <= j < n && ((#[trigger] config.backends@[j]).canary_of matches Some(s) && s@
                    == key);
            if j < m {
                assert(0 <= j < m && (config.backends@[j].canary_of matches Some(s) && s@ == key));
            }
        }
    }
}

proof fn lemma_last_of_canaries(config: ProxyConfig, n: nat, i: int, key: Seq<char>)
    requires
        0 <= i < n <= config.backends@.len(),
        config.backends@[i].canary_of matches Some(s) && s@ == key,
        forall|j: int|
            i < j < n ==> ((#[trigger] config.backends@[j]).canary_of matches Some(s) ==> s@ != key),
    ensures
        config.canaries(n).contains_key(key),
        config.canaries(n)[key] == (
            config.backends@[i].name@,
            config.weight_of(key),
            config.backends@[i].weight,
        ),
    decreases n,
{
    if i < n - 1 {
        lemma_last_of_canaries(config, (n - 1) as nat, i, key);
        assert(config.backends@[n - 1].canary_of matches Some(s) ==> s@ != key);
    }
}

/// The weight of a name is that of the first backend that has it, and 100
/// where no backend has it.
pub proof fn weights_are_those_configured(config: ProxyConfig, name: Seq<char>, i: int)
    requires
        0 <= i <= config.backends@.len(),
        forall|j: int| 0 <= j < i ==> (#[trigger] config.backends@[j]).name@ != name,
    ensures
        i < config.backends@.len() && config.backends@[i].name@ == name ==> config.weight_of(name)
            == config.backends@[i].weight,
        i == config.backends@.len() ==> config.weight_of(name) == 100,
{
    if i < config.backends@.len() && config.backends@[i].name@ == name {
        assert(config.first_named(name, i));
        let k = choose|k: int| config.first_named(name, k);
        if k < i {
            assert(config.backends@[k].name@ != name);
        } else if i < k {
            assert(config.backends@[i].name@ != name);
        }
    }
}

/// The canary middleware maps the primary of a canary to the name of the
/// canary, the weight of the primary and the weight of the canary, as they are
/// configured; of two canaries of one primary the later one counts.
pub proof fn canaries_get_their_weight(config: ProxyConfig, i: int, p: int)
    requires
        0 <= i < config.backends@.len(),
        config.backends@[i].canary_of is Some,
        forall|j: int|
            i < j < config.backends@.len() ==> ((#[trigger] config.backends@[j]).canary_of matches
                Some(s) ==> s@ != config.backends@[i].canary_of->0@),
        0 <= p < config.backends@.len(),
        config.backends@[p].name@ == config.backends@[i].canary_of->0@,
        forall|j: int|
            0 <= j < p ==> (#[trigger] config.backends@[j]).name@ != config.backends@[p].name@,
    ensures
        config.canary_middleware() matches Some(MiddlewareView::Canary(routes)) && {
            let primary = config.backends@[i].canary_of->0@;
            &&& routes.contains_key(primary)
            &&& routes[primary].0 == config.backends@[i].name@
            &&& routes[primary].1 == config.backends@[p].weight
            &&& routes[primary].2 == config.backends@[i].weight
        },
{
    let primary = config.backends@[i].canary_of->0@;
    weights_are_those_configured(config, primary, p);
    lemma_last_of_canaries(config, config.backends@.len(), i, primary);
    assert(config.canaries(config.backends@.len()) != Map::<
        Seq<char>,
        (Seq<char>, u32, u32),
    >::empty());
}

/// There is a canary middleware exactly where a backend is a canary, and it
/// holds the primaries of the canaries and no other name.
pub proof fn only_primaries_have_canaries(config: ProxyConfig, name: Seq<char>)
    ensures
        config.canary_middleware() is None <==> forall|j: int|
            0 <= j < config.backends@.len() ==> (#[trigger] config.backends@[j]).canary_of is None,
        config.canary_middleware() matches Some(m) ==> (m matches MiddlewareView::Canary(routes)
            && (routes.contains_key(name) <==> exists|j: int|
            0 <= j < config.backends@.len() && ((#[trigger] config.backends@[j]).canary_of matches
                Some(s) && s@ == name))),
{
    let n = config.backends@.len();
    let routes = config.canaries(n);
    lemma_canaries(config, n, name);
    if exists|j: int|
        0 <= j < config.backends@.len() && (#[trigger] config.backends@[j]).canary_of is Some {
        let j = choose|j: int|
            0 <= j < config.backends@.len() && (#[trigger] config.backends@[j]).canary_of is Some;
        let s = config.backends@[j].canary_of->0@;
        lemma_canaries(config, n, s);
        assert(routes.contains_key(s));
    } else {
        assert forall|key: Seq<char>| !routes.contains_key(key) by {
            lemma_canaries(config, n, key);
        }
        assert(routes =~= Map::empty());
    }
}

proof fn lemma_failovers(config: ProxyConfig, n: nat, key: Seq<char>)
    requires
        n <= config.backends@.len(),
    ensures
        config.failovers(n).contains_key(key) <==> exists|j: int|
            0 <= j < n && ((#[trigger] config.backends@[j]).failover_for matches Some(s) && s@ == key),
    decreases n,
{
    if n > 0 {
        let m = (n - 1) as nat;
        lemma_failovers(config, m, key);
        let last = config.backends@[m as int];
        if config.failovers(n).contains_key(key) {
            if last.failover_for matches Some(s) && s@ == key {
                assert(config.backends@[m as int].failover_for matches Some(s) && s@ == key);
            } else {
                assert(config.failovers(m).contains_key(key));
                let j = choose|j: int|
                    0 <= j < m && ((#[trigger] config.backends@[j]).failover_for matches Some(s) && s@
                        == key);
                assert(0 <= j < n && (config.backends@[j].failover_for matches Some(s) && s@ == key));
            }
        }
        if exists|j: int|
            0 <= j < n && ((#[trigger] config.backends@[j]).failover_for matches Some(s) && s@ == key) {
            let j = choose|j: int|
                0 <= j < n && ((#[trigger] config.backends@[j]).failover_for matches Some(s) && s@
                    == key);
            if j < m {
                assert(0 <= j < m && (config.backends@[j].failover_for matches Some(s) && s@ == key));
            }
        }
    }
}

proof fn lemma_last_of_failovers(config: ProxyConfig, n: nat, i: int, key: Seq<char>)
    requires
        0 <= i < n <= config.backends@.len(),
        config.backends@[i].failover_for matches Some(s) && s@ == key,
        forall|j: int|
            i < j < n ==> ((#[trigger] config.backends@[j]).failover_for matches Some(s) ==> s@ != key),
    ensures
        config.failovers(n).contains_key(key),
        config.failovers(n)[key] == config.backends@[i].name@,
    decreases n,
{
    if i < n - 1 {
        lemma_last_of_failovers(config, (n - 1) as nat, i, key);
        assert(config.backends@[n - 1].failover_for matches Some(s) ==> s@ != key);
    }
}

/// The failover middleware maps a backend to the one that is configured to
/// stand in for it; of two for one backend the later one counts.
pub proof fn failovers_stand_in(config: ProxyConfig, i: int)
    requires
        0 <= i < config.backends@.len(),
        config.backends@[i].failover_for is Some,
        forall|j: int|
            i < j < config.backends@.len() ==> ((#[trigger] config.backends@[j]).failover_for matches
                Some(s) ==> s@ != config.backends@[i].failover_for->0@),
    ensures
        config.failover_middleware() matches Some(MiddlewareView::Failover(routes)) && {
            let primary = config.backends@[i].failover_for->0@;
            routes.contains_key(primary) && routes[primary] == config.backends@[i].name@
        },
{
    let primary = config.backends@[i].failover_for->0@;
    lemma_last_of_failovers(config, config.backends@.len(), i, primary);
    assert(config.failovers(config.backends@.len()) != Map::<Seq<char>, Seq<char>>::empty());
}

/// There is a failover middleware exactly where a backend stands in for
/// another, and it holds those others and no other name.
pub proof fn only_configured_failovers_stand_in(config: ProxyConfig, name: Seq<char>)
    ensures
        config.failover_middleware() is None <==> forall|j: int|
            0 <= j < config.backends@.len() ==> (
            #[trigger] config.backends@[j]).failover_for is None,
        config.failover_middleware() matches Some(m) ==> (m matches MiddlewareView::Failover(routes)
            && (routes.contains_key(name) <==> exists|j: int|
            0 <= j < config.backends@.len() && ((
            #[trigger] config.backends@[j]).failover_for matches Some(s) && s@ == name))),
{
    let n = config.backends@.len();
    let routes = config.failovers(n);
    lemma_failovers(config, n, name);
    if exists|j: int|
        0 <= j < config.backends@.len() && (#[trigger] config.backends@[j]).failover_for is Some {
        let j = choose|j: int|
            0 <= j < config.backends@.len() && (
            #[trigger] config.backends@[j]).failover_for is Some;
        let s = config.backends@[j].failover_for->0@;
        lemma_failovers(config, n, s);
        assert(routes.contains_key(s));
    } else {
        assert forall|key: Seq<char>| !routes.contains_key(key) by {
            lemma_failovers(config, n, key);
        }
        assert(routes =~= Map::empty());
    }
}

proof fn lemma_injections(config: ProxyConfig, n: nat)
    requires
        n <= config.backends@.len(),
    ensures
        forall|k: int|
            0 <= k < config.injections(n).len() ==> {
                let (namespace, i) = #[trigger] config.injections(n)[k];
                &&& 0 <= i < n
                &&& namespace == config.backends@[i].name@ + config.proxy.separator@
                &&& json_keys(config.backends@[i].default_args) != Set::<Seq<char>>::empty()
                    || config.backends@[i].inject_args@.len() > 0
            },
        forall|a: int, b: int|
            0 <= a < b < config.injections(n).len() ==> (#[trigger] config.injections(n)[a]).1 < (
            #[trigger] config.injections(n)[b]).1,
        forall|i: int|
            0 <= i < n && (json_keys((#[trigger] config.backends@[i]).default_args) != Set::<
                Seq<char>,
            >::empty() || config.backends@[i].inject_args@.len() > 0) ==> exists|k: int|
                0 <= k < config.injections(n).len() && (#[trigger] config.injections(n)[k]).1 == i,
    decreases n,
{
    if n > 0 {
        let m = (n - 1) as nat;
        lemma_injections(config, m);
        let before = config.injections(m);
        let after = config.injections(n);
        assert forall|k: int| 0 <= k < before.len() implies after[k] == #[trigger] before[k] by {}
        assert forall|i: int|
            0 <= i < n && (json_keys((#[trigger] config.backends@[i]).default_args) != Set::<
                Seq<char>,
            >::empty() || config.backends@[i].inject_args@.len() > 0) implies exists|k: int|
            0 <= k < after.len() && (#[trigger] after[k]).1 == i by {
            if i < m {
                let k = choose|k: int|
                    0 <= k < before.len() && (#[trigger] before[k]).1 == i;
                assert(after[k].1 == i);
            } else {
                assert(after[after.len() - 1].1 == i);
            }
        }
    }
}

/// There is an injection middleware exactly where a backend has default
/// arguments or rules for single tools. It holds the namespaces and positions
/// of exactly those backends, in their order.
pub proof fn arguments_are_injected_where_configured(config: ProxyConfig, i: int)
    requires
        0 <= i < config.backends@.len(),
    ensures
        json_keys(config.backends@[i].default_args) != Set::<Seq<char>>::empty()
            || config.backends@[i].inject_args@.len() > 0 ==> (config.inject_middleware() matches
            Some(MiddlewareView::InjectArgs(rules)) && rules.contains(
            (config.backends@[i].name@ + config.proxy.separator@, i),
        )),
        config.inject_middleware() matches Some(m) ==> (m matches MiddlewareView::InjectArgs(rules)
            && rules.len() > 0 && (forall|k: int|
            0 <= k < rules.len() ==> {
                let (namespace, at) = #[trigger] rules[k];
                &&& 0 <= at < config.backends@.len()
                &&& namespace == config.backends@[at].name@ + config.proxy.separator@
                &&& json_keys(config.backends@[at].default_args) != Set::<Seq<char>>::empty()
                    || config.backends@[at].inject_args@.len() > 0
            }) && (forall|a: int, b: int|
            0 <= a < b < rules.len() ==> (#[trigger] rules[a]).1 < (#[trigger] rules[b]).1)),
{
    let n = config.backends@.len();
    lemma_injections(config, n);
    let rules = config.injections(n);
    if json_keys(config.backends@[i].default_args) != Set::<Seq<char>>::empty()
        || config.backends@[i].inject_args@.len() > 0 {
        let k = choose|k: int| 0 <= k < rules.len() && (#[trigger] rules[k]).1 == i;
        assert(rules[k] == (config.backends@[i].name@ + config.proxy.separator@, i));
    }
}

proof fn lemma_caches(config: ProxyConfig, n: nat)
    requires
        n <= config.backends@.len(),
    ensures
        config.caches(n) == config.backends@.take(n as int).filter(
            |b: BackendConfig| b.cache is Some,
        ).map_values(|b: BackendConfig| (b.name@ + config.proxy.separator@, b.cache->0)),
    decreases n,
{
    let has = |b: BackendConfig| b.cache is Some;
    let show = |b: BackendConfig| (b.name@ + config.proxy.separator@, b.cache->0);
    if n == 0 {
        reveal(Seq::filter);
        assert(config.backends@.take(0).filter(has) =~= Seq::empty());
        assert(config.caches(0) =~= config.backends@.take(0).filter(has).map_values(show));
    } else {
        let m = (n - 1) as nat;
        lemma_caches(config, m);
        lemma_filter_take_succ(config.backends@, has, m as int);
        assert(config.caches(n) =~= config.backends@.take(n as int).filter(has).map_values(show));
    }
}

/// The cache middleware holds, for exactly the backends with a cache and in
/// their order, the namespace and the configuration of the cache. There is
/// none where no backend has one.
pub proof fn caches_are_those_configured(config: ProxyConfig)
    ensures
        ({
            let cached = config.backends@.filter(|b: BackendConfig| b.cache is Some).map_values(
                |b: BackendConfig| (b.name@ + config.proxy.separator@, b.cache->0),
            );
            &&& cached.len() == 0 ==> config.cache_middleware() is None
            &&& cached.len() > 0 ==> config.cache_middleware() == Some(
                MiddlewareView::Cache(cached),
            )
        }),
{
    lemma_caches(config, config.backends@.len());
    assert(config.backends@.take(config.backends@.len() as int) =~= config.backends@);
}

proof fn lemma_filters(config: ProxyConfig, n: nat)
    requires
        n <= config.backends@.len(),
    ensures
        config.filters(n) == config.backends@.take(n as int).filter(
            |b: BackendConfig| b.filter_rules(config.proxy.separator@) is Some,
        ).map_values(|b: BackendConfig| b.filter_rules(config.proxy.separator@)->0),
    decreases n,
{
    let has = |b: BackendConfig| b.filter_rules(config.proxy.separator@) is Some;
    let show = |b: BackendConfig| b.filter_rules(config.proxy.separator@)->0;
    if n == 0 {
        reveal(Seq::filter);
        assert(config.backends@.take(0).filter(has) =~= Seq::empty());
        assert(config.filters(0) =~= config.backends@.take(0).filter(has).map_values(show));
    } else {
        let m = (n - 1) as nat;
        lemma_filters(config, m);
        lemma_filter_take_succ(config.backends@, has, m as int);
        assert(config.filters(n) =~= config.backends@.take(n as int).filter(has).map_values(show));
    }
}

/// The filter middleware holds the filters of exactly the backends that have
/// one, in their order. There is none where no backend has one.
pub proof fn filters_are_those_of_the_backends(config: ProxyConfig)
    ensures
        ({
            let rules = config.backends@.filter(
                |b: BackendConfig| b.filter_rules(config.proxy.separator@) is Some,
            ).map_values(|b: BackendConfig| b.filter_rules(config.proxy.separator@)->0);
            &&& rules.len() == 0 ==> config.filter_middleware() is None
            &&& rules.len() > 0 ==> config.filter_middleware() == Some(
                MiddlewareView::Filter(rules),
            )
        }),
{
    lemma_filters(config, config.backends@.len());
    assert(config.backends@.take(config.backends@.len() as int) =~= config.backends@);
}

proof fn lemma_alias_triples(config: ProxyConfig, n: nat, k: nat)
    requires
        n < config.backends@.len(),
        k <= config.backends@[n as int].aliases@.len(),
    ensures
        config.alias_triples(n, k) == config.alias_triples(n, 0)
            + config.backends@[n as int].aliases@.take(k as int).map_values(
            |a: AliasConfig|
                (config.backends@[n as int].name@ + config.proxy.separator@, a.from@, a.to@),
        ),
    decreases k,
{
    let show = |a: AliasConfig|
        (config.backends@[n as int].name@ + config.proxy.separator@, a.from@, a.to@);
    let aliases = config.backends@[n as int].aliases@;
    if k == 0 {
        assert(config.alias_triples(n, 0) + aliases.take(0).map_values(show)
            =~= config.alias_triples(n, 0));
    } else {
        lemma_alias_triples(config, n, (k - 1) as nat);
        assert(aliases.take(k as int).map_values(show) =~= aliases.take(k - 1).map_values(
            show,
        ).push(show(aliases[k - 1])));
        assert(config.alias_triples(n, k) =~= config.alias_triples(n, 0) + aliases.take(
            k as int,
        ).map_values(show));
    }
}

/// The aliases come backend by backend, and in the order of each backend's
/// own aliases, each with the namespace of its backend.
pub proof fn aliases_come_backend_by_backend(config: ProxyConfig, n: nat)
    requires
        n < config.backends@.len(),
    ensures
        config.alias_triples(0, 0).len() == 0,
        config.alias_triples(n + 1, 0) == config.alias_triples(n, 0)
            + config.backends@[n as int].aliases@.map_values(
            |a: AliasConfig|
                (config.backends@[n as int].name@ + config.proxy.separator@, a.from@, a.to@),
        ),
{
    let aliases = config.backends@[n as int].aliases@;
    lemma_alias_triples(config, n, aliases.len());
    assert(aliases.take(aliases.len() as int) =~= aliases);
}

/// There is an alias middleware exactly where a backend has an alias, with the
/// names of all of them both ways.
pub proof fn aliases_are_those_of_the_backends(config: ProxyConfig)
    ensures
        ({
            let all = config.alias_triples(config.backends@.len(), 0);
            &&& all.len() == 0 ==> config.alias_middleware() is None
            &&& all.len() > 0 ==> config.alias_middleware() == Some(
                MiddlewareView::Alias(forward_names(all), reverse_names(all)),
            )
        }),
{
}

proof fn lemma_forwards(config: ProxyConfig, n: nat, namespace: Seq<char>)
    requires
        n <= config.backends@.len(),
    ensures
        config.forwards(n).contains(namespace) <==> exists|j: int|
            0 <= j < n && (#[trigger] config.backends@[j]).forward_auth && namespace
                == config.backends@[j].name@ + config.proxy.separator@,
    decreases n,
{
    if n > 0 {
        let m = (n - 1) as nat;
        lemma_forwards(config, m, namespace);
        let last = config.backends@[m as int];
        if config.forwards(m).contains(namespace) {
            let j = choose|j: int|
                0 <= j < m && (#[trigger] config.backends@[j]).forward_auth && namespace
                    == config.backends@[j].name@ + config.proxy.separator@;
            assert(0 <= j < n && config.backends@[j].forward_auth);
        }
        if last.forward_auth && namespace == last.name@ + config.proxy.separator@ {
            assert(config.backends@[m as int].forward_auth);
        }
    }
}

/// The token of a client is passed on to exactly the backends that are
/// configured for it, and there is no such middleware where none is.
pub proof fn tokens_are_passed_on_where_configured(config: ProxyConfig, namespace: Seq<char>)
    ensures
        config.token_middleware() is None <==> forall|j: int|
            0 <= j < config.backends@.len() ==> !(#[trigger] config.backends@[j]).forward_auth,
        config.token_middleware() matches Some(m) ==> (m matches MiddlewareView::TokenPassthrough(
            namespaces,
        ) && (namespaces.contains(namespace) <==> exists|j: int|
            0 <= j < config.backends@.len() && (#[trigger] config.backends@[j]).forward_auth
                && namespace == config.backends@[j].name@ + config.proxy.separator@)),
{
    let n = config.backends@.len();
    lemma_forwards(config, n, namespace);
    if exists|j: int|
        0 <= j < config.backends@.len() && (#[trigger] config.backends@[j]).forward_auth {
        let j = choose|j: int|
            0 <= j < config.backends@.len() && (#[trigger] config.backends@[j]).forward_auth;
        let own = config.backends@[j].name@ + config.proxy.separator@;
        lemma_forwards(config, n, own);
        assert(config.forwards(n).contains(own));
    } else {
        assert forall|x: Seq<char>| !config.forwards(n).contains(x) by {
            lemma_forwards(config, n, x);
        }
        assert(config.forwards(n) =~= Set::empty());
    }
}

/// RBAC is put in exactly where there are JWT authentication, roles and a
/// mapping of claims to them, and follows these.
pub proof fn roles_are_enforced_where_configured(config: ProxyConfig)
    ensures
        match config.auth {
            Some(AuthConfig::Jwt { roles, role_mapping: Some(mapping), .. }) => {
                &&& roles@.len() == 0 ==> config.rbac_middleware() is None
                &&& roles@.len() > 0 ==> config.rbac_middleware() == Some(
                    MiddlewareView::Rbac(
                        mapping.claim@,
                        mapping.mapping@,
                        allow_lists(roles@),
                        deny_lists(roles@),
                    ),
                )
            },
            _ => config.rbac_middleware() is None,
        },
{
}

/// Every switch of a configuration puts its own middleware in.
pub proof fn switches_put_their_middleware_in(config: ProxyConfig)
    ensures
        config.coalesce_middleware() is Some <==> config.performance.coalesce_requests,
        config.coalesce_middleware() matches Some(m) ==> m is Coalesce,
        config.security.max_argument_size is None <==> config.validation_middleware() is None,
        config.security.max_argument_size matches Some(limit) ==> config.validation_middleware()
            == Some(MiddlewareView::Validation(limit)),
        config.search_middleware() is Some <==> config.proxy.tool_exposure is Search,
        config.search_middleware() matches Some(m) ==> m == MiddlewareView::SearchMode(
            "proxy"@ + config.proxy.separator@,
        ),
        config.metrics_middleware() is Some <==> config.observability.metrics.enabled,
        config.metrics_middleware() matches Some(m) ==> m is Metrics,
        config.access_log_middleware() is Some <==> config.observability.access_log.enabled,
        config.access_log_middleware() matches Some(m) ==> m is AccessLog,
        config.audit_middleware() is Some <==> config.observability.audit,
        config.audit_middleware() matches Some(m) ==> m is Audit,
{
}

/// The stack holds every middleware that the configuration asks for, and no
/// other.
pub proof fn the_stack_holds_what_is_asked_for(config: ProxyConfig, m: MiddlewareView)
    ensures
        config.stack().contains(m) <==> match m {
            MiddlewareView::InjectArgs(_) => config.inject_middleware() == Some(m),
            MiddlewareView::Canary(_) => config.canary_middleware() == Some(m),
            MiddlewareView::Failover(_) => config.failover_middleware() == Some(m),
            MiddlewareView::Mirror(_) => config.mirror_middleware() == Some(m),
            MiddlewareView::Cache(_) => config.cache_middleware() == Some(m),
            MiddlewareView::Coalesce => config.performance.coalesce_requests,
            MiddlewareView::Validation(limit) => config.security.max_argument_size == Some(limit),
            MiddlewareView::Filter(_) => config.filter_middleware() == Some(m),
            MiddlewareView::SearchMode(prefix) => config.proxy.tool_exposure is Search && prefix
                == "proxy"@ + config.proxy.separator@,
            MiddlewareView::Alias(_, _) => config.alias_middleware() == Some(m),
            MiddlewareView::Rbac(_, _, _, _) => config.rbac_middleware() == Some(m),
            MiddlewareView::TokenPassthrough(_) => config.token_middleware() == Some(m),
            MiddlewareView::Metrics => config.observability.metrics.enabled,
            MiddlewareView::AccessLog => config.observability.access_log.enabled,
            MiddlewareView::Audit => config.observability.audit,
        },
{
    let s1 = maybe(config.inject_middleware());
    let s2 = s1 + maybe(config.canary_middleware());
    let s3 = s2 + maybe(config.failover_middleware());
    let s4 = s3 + maybe(config.mirror_middleware());
    let s5 = s4 + maybe(config.cache_middleware());
    let s6 = s5 + maybe(config.coalesce_middleware());
    let s7 = s6 + maybe(config.validation_middleware());
    let s8 = s7 + maybe(config.filter_middleware());
    let s9 = s8 + maybe(config.search_middleware());
    let s10 = s9 + maybe(config.alias_middleware());
    let s11 = s10 + maybe(config.rbac_middleware());
    let s12 = s11 + maybe(config.token_middleware());
    let s13 = s12 + maybe(config.metrics_middleware());
    let s14 = s13 + maybe(config.access_log_middleware());
    lemma_maybe_contains(config.inject_middleware(), m);
    lemma_with_maybe(s1, config.canary_middleware(), m);
    lemma_with_maybe(s2, config.failover_middleware(), m);
    lemma_with_maybe(s3, config.mirror_middleware(), m);
    lemma_with_maybe(s4, config.cache_middleware(), m);
    lemma_with_maybe(s5, config.coalesce_middleware(), m);
    lemma_with_maybe(s6, config.validation_middleware(), m);
    lemma_with_maybe(s7, config.filter_middleware(), m);
    lemma_with_maybe(s8, config.search_middleware(), m);
    lemma_with_maybe(s9, config.alias_middleware(), m);
    lemma_with_maybe(s10, config.rbac_middleware(), m);
    lemma_with_maybe(s11, config.token_middleware(), m);
    lemma_with_maybe(s12, config.metrics_middleware(), m);
    lemma_with_maybe(s13, config.access_log_middleware(), m);
    lemma_with_maybe(s14, config.audit_middleware(), m);
}

proof fn lemma_with_maybe(
    stack: Seq<MiddlewareView>,
    item: Option<MiddlewareView>,
    m: MiddlewareView,
)
    ensures
        (stack + maybe(item)).contains(m) <==> stack.contains(m) || item == Some(m),
{
    lemma_maybe_contains(item, m);
    lemma_contains_in_either(stack, maybe(item), m);
}

/// The middlewares of any configuration stand in one order. A request passes
/// the logs and metrics first, then tokens, roles, aliases, search mode, the
/// filter and validation, then coalescing and the cache, then mirrors,
/// failover, canaries and argument injection.
pub proof fn outer_middlewares_see_requests_first(config: ProxyConfig, i: int, j: int)
    requires
        0 <= i < j < config.stack().len(),
    ensures
        ({
            let rank = |m: MiddlewareView|
                match m {
                    MiddlewareView::InjectArgs(_) => 1int,
                    MiddlewareView::Canary(_) => 2,
                    MiddlewareView::Failover(_) => 3,
                    MiddlewareView::Mirror(_) => 4,
                    MiddlewareView::Cache(_) => 5,
                    MiddlewareView::Coalesce => 6,
                    MiddlewareView::Validation(_) => 7,
                    MiddlewareView::Filter(_) => 8,
                    MiddlewareView::SearchMode(_) => 9,
                    MiddlewareView::Alias(_, _) => 10,
                    MiddlewareView::Rbac(_, _, _, _) => 11,
                    MiddlewareView::TokenPassthrough(_) => 12,
                    MiddlewareView::Metrics => 13,
                    MiddlewareView::AccessLog => 14,
                    MiddlewareView::Audit => 15,
                };
            rank(config.stack()[i]) < rank(config.stack()[j])
        }),
{
    middlewares_stand_in_order(config, i, j);
}

/// What a middleware does is what it holds.
pub proof fn middlewares_show_what_they_hold(middleware: Middleware)
    ensures
        match middleware {
            Middleware::InjectArgs(rules) => middleware@ matches MiddlewareView::InjectArgs(shown)
                && shown.len() == rules@.len() && forall|i: int|
                0 <= i < rules@.len() ==> #[trigger] shown[i] == (
                    rules@[i].namespace@,
                    rules@[i].backend as int,
                ),
            Middleware::Canary(routes) => middleware@ matches MiddlewareView::Canary(shown)
                && shown.dom() == routes@.dom() && forall|k: Seq<char>| #[trigger]
                routes@.contains_key(k) ==> shown[k] == (
                    routes@[k].canary@,
                    routes@[k].primary_weight,
                    routes@[k].canary_weight,
                ),
            Middleware::Failover(routes) => middleware@ matches MiddlewareView::Failover(shown)
                && shown.dom() == routes@.dom() && forall|k: Seq<char>| #[trigger]
                routes@.contains_key(k) ==> shown[k] == routes@[k]@,
            Middleware::Mirror(routes) => middleware@ matches MiddlewareView::Mirror(shown)
                && shown.dom() == routes@.dom() && forall|k: Seq<char>| #[trigger]
                routes@.contains_key(k) ==> shown[k] == (routes@[k].mirror@, routes@[k].percent),
            Middleware::Cache(caches) => middleware@ matches MiddlewareView::Cache(shown)
                && shown.len() == caches@.len() && forall|i: int|
                0 <= i < caches@.len() ==> #[trigger] shown[i] == (caches@[i].0@, caches@[i].1),
            Middleware::Coalesce => middleware@ is Coalesce,
            Middleware::Validation(limit) => middleware@ == MiddlewareView::Validation(limit),
            Middleware::Filter(filters) => middleware@ matches MiddlewareView::Filter(shown)
                && shown.len() == filters@.len() && forall|i: int|
                0 <= i < filters@.len() ==> #[trigger] shown[i] == filters@[i]@,
            Middleware::SearchMode(prefix) => middleware@ == MiddlewareView::SearchMode(prefix@),
            Middleware::Alias(aliases) => middleware@ == MiddlewareView::Alias(
                aliases.forward@.map_values(|s: String| s@),
                aliases.reverse@.map_values(|s: String| s@),
            ),
            Middleware::Rbac(config) => middleware@ == MiddlewareView::Rbac(
                config.claim@,
                config.claim_to_role@,
                config.role_allow@.map_values(|s: NameSet| s@),
                config.role_deny@.map_values(|s: NameSet| s@),
            ),
            Middleware::TokenPassthrough(namespaces) => middleware@
                == MiddlewareView::TokenPassthrough(namespaces@),
            Middleware::Metrics => middleware@ is Metrics,
            Middleware::AccessLog => middleware@ is AccessLog,
            Middleware::Audit => middleware@ is Audit,
        },
{
    match middleware {
        Middleware::Canary(routes) => {
            assert(canary_map(routes@).dom() =~= routes@.dom());
        },
        Middleware::Failover(routes) => {
            assert(text_map(routes@).dom() =~= routes@.dom());
        },
        Middleware::Mirror(routes) => {
            assert(mirror_map(routes@).dom() =~= routes@.dom());
        },
        _ => {},
    }
}

/// The views of middlewares are those of each of them, in order.
pub proof fn middleware_views_keep_order(stack: Seq<Middleware>, i: int)
    requires
        0 <= i < stack.len(),
    ensures
        middleware_views(stack).len() == stack.len(),
        middleware_views(stack)[i] == stack[i]@,
{
}

/// The metadata of a name are the transport of the last backend that has it,
/// by its name in the configuration.
pub proof fn metadata_name_the_transport(backends: Seq<BackendConfig>, n: nat, i: int)
    requires
        0 <= i < n <= backends.len(),
        forall|j: int| i < j < n ==> (#[trigger] backends[j]).name@ != backends[i].name@,
    ensures
        transports(backends, n).contains_key(backends[i].name@),
        backends[i].transport is Stdio ==> transports(backends, n)[backends[i].name@] == "stdio"@,
        backends[i].transport is Http ==> transports(backends, n)[backends[i].name@] == "http"@,
        backends[i].transport is Websocket ==> transports(backends, n)[backends[i].name@]
            == "websocket"@,
    decreases n,
{
    if i < n - 1 {
        metadata_name_the_transport(backends, (n - 1) as nat, i);
        assert(backends[n - 1].name@ != backends[i].name@);
    }
}

/// Only the names of backends have metadata.
pub proof fn only_backends_have_metadata(backends: Seq<BackendConfig>, n: nat, name: Seq<char>)
    requires
        n <= backends.len(),
        transports(backends, n).contains_key(name),
    ensures
        exists|j: int| 0 <= j < n && (#[trigger] backends[j]).name@ == name,
    decreases n,
{
    if n > 0 {
        if backends[n - 1].name@ == name {
            assert(backends[n - 1].name@ == name);
        } else {
            only_backends_have_metadata(backends, (n - 1) as nat, name);
            let j = choose|j: int| 0 <= j < n - 1 && (#[trigger] backends[j]).name@ == name;
            assert(0 <= j < n && backends[j].name@ == name);
        }
    }
}

/// Metadata show the transport that they hold.
pub proof fn metadata_show_what_they_hold(meta: Map<Seq<char>, BackendMeta>, name: Seq<char>)
    ensures
        meta_map(meta).contains_key(name) <==> meta.contains_key(name),
        meta.contains_key(name) ==> meta_map(meta)[name] == meta[name].transport@,
{
}

/// A backend can be planned exactly where its transport has what it needs and
/// one more than its hedges can be counted.
pub proof fn backends_that_can_be_planned(backend: BackendConfig)
    ensures
        plannable(backend) <==> {
            &&& if backend.transport is Stdio {
                backend.command is Some
            } else {
                backend.url is Some
            }
            &&& backend.hedging is Some ==> backend.hedging->0.max_hedges < usize::MAX
        },
{
}

/// A canary whose primary is no backend gets the weight of the primary as 100.
pub proof fn unknown_primaries_weigh_a_hundred(config: ProxyConfig, i: int)
    requires
        0 <= i < config.backends@.len(),
        config.backends@[i].canary_of is Some,
        forall|j: int|
            i < j < config.backends@.len() ==> ((#[trigger] config.backends@[j]).canary_of matches
                Some(s) ==> s@ != config.backends@[i].canary_of->0@),
        forall|j: int|
            0 <= j < config.backends@.len() ==> (#[trigger] config.backends@[j]).name@
                != config.backends@[i].canary_of->0@,
    ensures
        config.canary_middleware() matches Some(MiddlewareView::Canary(routes)) && {
            let primary = config.backends@[i].canary_of->0@;
            &&& routes.contains_key(primary)
            &&& routes[primary].0 == config.backends@[i].name@
            &&& routes[primary].1 == 100
            &&& routes[primary].2 == config.backends@[i].weight
        },
{
    let primary = config.backends@[i].canary_of->0@;
    weights_are_those_configured(config, primary, config.backends@.len() as int);
    lemma_last_of_canaries(config, config.backends@.len(), i, primary);
    assert(config.canaries(config.backends@.len()) != Map::<
        Seq<char>,
        (Seq<char>, u32, u32),
    >::empty());
}

} // verus!
