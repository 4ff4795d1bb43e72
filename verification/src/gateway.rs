//! A smaller construction: the middlewares of a gateway, which has neither
//! traffic management nor hedging and outlier detection.

use vstd::prelude::*;

use crate::config::{BackendConfig, ProxyConfig};
use crate::proxy::{middleware_views, push_middleware, BackendPlan, Middleware, MiddlewareView};
use crate::reload::{
    build_circuit_breaker, build_concurrency, build_rate_limit, build_retry, build_timeout,
    circuit_breaker_layer, concurrency_layer, connection, connects, hedge_layer, is_connectable,
    layer_views, layers_of, maybe, outlier_layer, push_layer, rate_limit_layer, retry_layer, timeout_layer, BackendLayer,
    Connection, LayerView,
};

verus! {

/// The layers of a backend of a gateway, inner to outer: retry, concurrency
/// limit, rate limit, timeout, circuit breaker.
pub open spec fn gateway_layers(backend: BackendConfig) -> Seq<LayerView> {
    maybe(retry_layer(backend)) + maybe(concurrency_layer(backend)) + maybe(
        rate_limit_layer(backend),
    ) + maybe(timeout_layer(backend)) + maybe(circuit_breaker_layer(backend))
}

/// The middlewares around a gateway, inner to outer: cache, coalescing,
/// validation, capability filter, aliases, RBAC, metrics, audit.
pub open spec fn gateway_stack(config: ProxyConfig) -> Seq<MiddlewareView> {
    maybe(config.cache_middleware()) + maybe(config.coalesce_middleware()) + maybe(
        config.validation_middleware(),
    ) + maybe(config.filter_middleware()) + maybe(config.alias_middleware()) + maybe(
        config.rbac_middleware(),
    ) + maybe(config.metrics_middleware()) + maybe(config.audit_middleware())
}

/// The middlewares around a gateway, inner to outer.
pub fn build_middleware_stack(config: &ProxyConfig) -> (stack: Vec<Middleware>)
    ensures
        middleware_views(stack@) == gateway_stack(*config),
{
    let mut stack: Vec<Middleware> = Vec::new();
    let ghost start = middleware_views(stack@);
    push_middleware(&mut stack, config.build_cache());
    assert(start + maybe(config.cache_middleware()) =~= maybe(config.cache_middleware()));
    push_middleware(&mut stack, config.build_coalesce());
    push_middleware(&mut stack, config.build_validation());
    push_middleware(&mut stack, config.build_filter());
    push_middleware(&mut stack, config.build_alias());
    push_middleware(&mut stack, config.build_rbac());
    push_middleware(&mut stack, config.build_metrics());
    push_middleware(&mut stack, config.build_audit());
    stack
}

/// The layers of a backend of a gateway, inner to outer.
pub fn build_gateway_layers(backend: &BackendConfig) -> (layers: Vec<BackendLayer>)
    ensures
        layer_views(layers@) == gateway_layers(*backend),
{
    let mut layers: Vec<BackendLayer> = Vec::new();
    let ghost start = layer_views(layers@);
    push_layer(&mut layers, build_retry(backend));
    assert(start + maybe(retry_layer(*backend)) =~= maybe(retry_layer(*backend)));
    push_layer(&mut layers, build_concurrency(backend));
    push_layer(&mut layers, build_rate_limit(backend));
    push_layer(&mut layers, build_timeout(backend));
    push_layer(&mut layers, build_circuit_breaker(backend));
    layers
}

/// A connection is the one of a backend of a gateway: as that of the proxy,
/// but without a token.
pub open spec fn gateway_connects(connection: Connection, backend: BackendConfig) -> bool {
    match connection {
        Connection::Stdio { .. } => connects(connection, backend),
        Connection::Http { url, bearer_token } => {
            &&& backend.transport is Http
            &&& backend.url == Some(url)
            &&& bearer_token is None
        },
        Connection::Websocket { url, bearer_token } => {
            &&& backend.transport is Websocket
            &&& backend.url == Some(url)
            &&& bearer_token is None
        },
    }
}

fn without_token(connection: Connection) -> (result: Connection)
    ensures
        forall|backend: BackendConfig| #[trigger]
            connects(connection, backend) ==> gateway_connects(result, backend),
{
    match connection {
        Connection::Http { url, .. } => Connection::Http { url, bearer_token: None },
        Connection::Websocket { url, .. } => Connection::Websocket { url, bearer_token: None },
        other => other,
    }
}

/// How all backends of a gateway are connected to, and what is put around them.
pub fn build_proxy(config: &ProxyConfig) -> (plans: Vec<BackendPlan>)
    requires
        forall|i: int|
            0 <= i < config.backends@.len() ==> is_connectable(#[trigger] config.backends@[i]),
    ensures
        plans@.len() == config.backends@.len(),
        forall|i: int|
            0 <= i < plans@.len() ==> {
                &&& (#[trigger] plans@[i]).name@ == config.backends@[i].name@
                &&& gateway_connects(plans@[i].connection, config.backends@[i])
                &&& layer_views(plans@[i].layers@) == gateway_layers(config.backends@[i])
            },
{
    let mut plans: Vec<BackendPlan> = Vec::new();
    let mut i: usize = 0;
    while i < config.backends.len()
        invariant
            i <= config.backends@.len(),
            forall|i: int|
                0 <= i < config.backends@.len() ==> is_connectable(#[trigger] config.backends@[i]),
            plans@.len() == i,
            forall|j: int|
                0 <= j < i ==> {
                    &&& (#[trigger] plans@[j]).name@ == config.backends@[j].name@
                    &&& gateway_connects(plans@[j].connection, config.backends@[j])
                    &&& layer_views(plans@[j].layers@) == gateway_layers(config.backends@[j])
                },
        decreases config.backends@.len() - i,
    {
        let backend = &config.backends[i];
        assert(is_connectable(config.backends@[i as int]));
        if let Ok(connection) = connection(backend) {
            plans.push(
                BackendPlan {
                    name: backend.name.clone(),
                    connection: without_token(connection),
                    layers: build_gateway_layers(backend),
                },
            );
        }
        i = i + 1;
    }
    plans
}

/// The layers that a gateway puts around a backend are those that the proxy
/// puts around it, where the backend asks for neither hedging nor outlier
/// detection.
pub proof fn gateway_layers_are_proxy_layers(backend: BackendConfig)
    requires
        backend.hedging is None,
        backend.outlier_detection is None,
    ensures
        gateway_layers(backend) == layers_of(backend),
{
    assert(gateway_layers(backend) =~= layers_of(backend));
}

proof fn lemma_filter_maybe<T>(value: Option<T>, passes: spec_fn(T) -> bool)
    ensures
        maybe(value).filter(passes) == (if value is Some && passes(value->0) {
            maybe(value)
        } else {
            Seq::empty()
        }),
{
    reveal(Seq::filter);
    if value is Some {
        assert(maybe(value).drop_last() =~= Seq::empty());
        assert(Seq::<T>::empty().push(value->0) =~= maybe(value));
        assert(maybe(value).last() == value->0);
        assert(Seq::<T>::empty().filter(passes) =~= Seq::empty());
    }
    assert(maybe(None::<T>).filter(passes) =~= Seq::empty());
}

/// A gateway puts the layers around a backend that the proxy puts around it,
/// in the same order, but for hedging and outlier detection.
pub proof fn gateways_neither_hedge_nor_detect_outliers(backend: BackendConfig)
    ensures
        gateway_layers(backend) == layers_of(backend).filter(
            |layer: LayerView| !(layer is Hedge) && !(layer is OutlierDetection),
        ),
{
    let kept = |layer: LayerView| !(layer is Hedge) && !(layer is OutlierDetection);
    let a = maybe(retry_layer(backend));
    let b = maybe(hedge_layer(backend));
    let c = maybe(concurrency_layer(backend));
    let d = maybe(rate_limit_layer(backend));
    let e = maybe(timeout_layer(backend));
    let f = maybe(circuit_breaker_layer(backend));
    let g = maybe(outlier_layer(backend));
    Seq::filter_distributes_over_add(a, b, kept);
    Seq::filter_distributes_over_add(a + b, c, kept);
    Seq::filter_distributes_over_add(a + b + c, d, kept);
    Seq::filter_distributes_over_add(a + b + c + d, e, kept);
    Seq::filter_distributes_over_add(a + b + c + d + e, f, kept);
    Seq::filter_distributes_over_add(a + b + c + d + e + f, g, kept);
    lemma_filter_maybe(retry_layer(backend), kept);
    lemma_filter_maybe(hedge_layer(backend), kept);
    lemma_filter_maybe(concurrency_layer(backend), kept);
    lemma_filter_maybe(rate_limit_layer(backend), kept);
    lemma_filter_maybe(timeout_layer(backend), kept);
    lemma_filter_maybe(circuit_breaker_layer(backend), kept);
    lemma_filter_maybe(outlier_layer(backend), kept);
    assert(a.filter(kept) =~= a);
    assert(b.filter(kept) =~= Seq::empty());
    assert(c.filter(kept) =~= c);
    assert(d.filter(kept) =~= d);
    assert(e.filter(kept) =~= e);
    assert(f.filter(kept) =~= f);
    assert(g.filter(kept) =~= Seq::empty());
    assert(gateway_layers(backend) =~= layers_of(backend).filter(kept));
}

/// Around a gateway stand the middlewares that stand around the proxy, in the
/// same order, but for the injection of arguments, canaries, failovers,
/// mirrors, search mode, token passing and the access log.
pub proof fn gateways_do_not_manage_traffic(config: ProxyConfig)
    ensures
        gateway_stack(config) == config.stack().filter(
            |m: MiddlewareView|
                m is Cache || m is Coalesce || m is Validation || m is Filter || m is Alias || m
                    is Rbac || m is Metrics || m is Audit,
        ),
{
    let kept = |m: MiddlewareView|
        m is Cache || m is Coalesce || m is Validation || m is Filter || m is Alias || m is Rbac
            || m is Metrics || m is Audit;
    let inject = maybe(config.inject_middleware());
    let canary = maybe(config.canary_middleware());
    let failover = maybe(config.failover_middleware());
    let mirror = maybe(config.mirror_middleware());
    let cache = maybe(config.cache_middleware());
    let coalesce = maybe(config.coalesce_middleware());
    let validation = maybe(config.validation_middleware());
    let filter = maybe(config.filter_middleware());
    let search = maybe(config.search_middleware());
    let alias = maybe(config.alias_middleware());
    let rbac = maybe(config.rbac_middleware());
    let token = maybe(config.token_middleware());
    let metrics = maybe(config.metrics_middleware());
    let access_log = maybe(config.access_log_middleware());
    let audit = maybe(config.audit_middleware());
    let to_mirror = inject + canary + failover + mirror;
    let to_filter = to_mirror + cache + coalesce + validation + filter;
    let to_rbac = to_filter + search + alias + rbac;
    Seq::filter_distributes_over_add(inject, canary, kept);
    Seq::filter_distributes_over_add(inject + canary, failover, kept);
    Seq::filter_distributes_over_add(inject + canary + failover, mirror, kept);
    Seq::filter_distributes_over_add(to_mirror, cache, kept);
    Seq::filter_distributes_over_add(to_mirror + cache, coalesce, kept);
    Seq::filter_distributes_over_add(to_mirror + cache + coalesce, validation, kept);
    Seq::filter_distributes_over_add(to_mirror + cache + coalesce + validation, filter, kept);
    Seq::filter_distributes_over_add(to_filter, search, kept);
    Seq::filter_distributes_over_add(to_filter + search, alias, kept);
    Seq::filter_distributes_over_add(to_filter + search + alias, rbac, kept);
    Seq::filter_distributes_over_add(to_rbac, token, kept);
    Seq::filter_distributes_over_add(to_rbac + token, metrics, kept);
    Seq::filter_distributes_over_add(to_rbac + token + metrics, access_log, kept);
    Seq::filter_distributes_over_add(to_rbac + token + metrics + access_log, audit, kept);
    lemma_filter_maybe(config.inject_middleware(), kept);
    lemma_filter_maybe(config.canary_middleware(), kept);
    lemma_filter_maybe(config.failover_middleware(), kept);
    lemma_filter_maybe(config.mirror_middleware(), kept);
    lemma_filter_maybe(config.cache_middleware(), kept);
    lemma_filter_maybe(config.coalesce_middleware(), kept);
    lemma_filter_maybe(config.validation_middleware(), kept);
    lemma_filter_maybe(config.filter_middleware(), kept);
    lemma_filter_maybe(config.search_middleware(), kept);
    lemma_filter_maybe(config.alias_middleware(), kept);
    lemma_filter_maybe(config.rbac_middleware(), kept);
    lemma_filter_maybe(config.token_middleware(), kept);
    lemma_filter_maybe(config.metrics_middleware(), kept);
    lemma_filter_maybe(config.access_log_middleware(), kept);
    lemma_filter_maybe(config.audit_middleware(), kept);
    assert(to_mirror.filter(kept) =~= Seq::empty());
    assert(cache.filter(kept) =~= cache);
    assert(coalesce.filter(kept) =~= coalesce);
    assert(validation.filter(kept) =~= validation);
    assert(filter.filter(kept) =~= filter);
    assert(search.filter(kept) =~= Seq::empty());
    assert(alias.filter(kept) =~= alias);
    assert(rbac.filter(kept) =~= rbac);
    assert(token.filter(kept) =~= Seq::empty());
    assert(metrics.filter(kept) =~= metrics);
    assert(access_log.filter(kept) =~= Seq::empty());
    assert(audit.filter(kept) =~= audit);
    assert(to_filter.filter(kept) =~= cache + coalesce + validation + filter);
    assert(to_rbac.filter(kept) =~= cache + coalesce + validation + filter + alias + rbac);
    assert(gateway_stack(config) =~= config.stack().filter(kept));
}

/// A backend of a gateway is connected to as it is configured, but for its
/// token: none is sent.
pub proof fn gateways_send_no_tokens(connection: Connection, backend: BackendConfig)
    requires
        gateway_connects(connection, backend),
    ensures
        backend.transport is Stdio ==> (connection matches Connection::Stdio { command, args, env }
            && backend.command == Some(command) && args@ == backend.args@ && env@
            == backend.env@),
        backend.transport is Http ==> (connection matches Connection::Http { url, bearer_token }
            && backend.url == Some(url) && bearer_token is None),
        backend.transport is Websocket ==> (connection matches Connection::Websocket {
            url,
            bearer_token,
        } && backend.url == Some(url) && bearer_token is None),
{
}

} // verus!
