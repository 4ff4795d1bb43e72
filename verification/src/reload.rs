//! Hot reload: what a changed config means for the backends.
//!
//! Backends are added, removed, and replaced at runtime when the config
//! changes. Fingerprints of their configuration tell which have changed.

use vstd::prelude::*;

use crate::config::{
    BackendConfig, CircuitBreakerConfig, OutlierDetectionConfig, RetryConfig, TransportType,
};
use crate::names::{text_map, NameMap};
use crate::text::{clone_optional, clone_texts, concat2, same_text, texts};

verus! {

/// A kind of change to the config file.
#[derive(Debug, Clone, Copy, PartialEq, Eq, Structural)]
pub enum EventKind {
    /// The file was written.
    Any,
    /// The file is still being written.
    AnyContinuous,
}

/// What the file watcher reports.
#[derive(Debug)]
pub enum WatchEvent {
    /// The file changed.
    Changed(Vec<EventKind>),
    /// The watcher has failed.
    Failed,
    /// The watcher is gone.
    Closed,
}

/// What is done upon a report of the file watcher.
#[derive(Debug, Clone, Copy, PartialEq, Eq, Structural)]
pub enum WatchStep {
    /// The configuration is read again.
    Reload,
    /// The next report is waited for.
    Wait,
    /// Nothing is waited for any more.
    Stop,
}

/// Decides upon a report of the file watcher: only a finished write leads to a
/// reload.
pub fn on_watch_event(event: &WatchEvent) -> (step: WatchStep)
    ensures
        match event {
            WatchEvent::Changed(kinds) => if kinds@.contains(EventKind::Any) {
                step is Reload
            } else {
                step is Wait
            },
            WatchEvent::Failed => step is Wait,
            WatchEvent::Closed => step is Stop,
        },
{
    match event {
        WatchEvent::Changed(kinds) => if has_write(kinds) {
            WatchStep::Reload
        } else {
            WatchStep::Wait
        },
        WatchEvent::Failed => WatchStep::Wait,
        WatchEvent::Closed => WatchStep::Stop,
    }
}

fn has_write(kinds: &Vec<EventKind>) -> (has: bool)
    ensures
        has == kinds@.contains(EventKind::Any),
{
    let mut i: usize = 0;
    while i < kinds.len()
        invariant
            i <= kinds@.len(),
            forall|j: int| 0 <= j < i ==> kinds@[j] != EventKind::Any,
        decreases kinds@.len() - i,
    {
        if kinds[i] == EventKind::Any {
            return true;
        }
        i = i + 1;
    }
    false
}

/// The name of a backend and the fingerprint of its configuration.
#[derive(Debug)]
pub struct BackendFingerprint {
    /// The name.
    pub name: String,
    /// The fingerprint.
    pub fingerprint: String,
}

/// What is done with a backend of the new configuration.
#[derive(Debug, Clone, Copy, PartialEq, Eq, Structural)]
pub enum BackendChange {
    /// It is not touched.
    Keep,
    /// It is removed and added again.
    Replace,
    /// It is added.
    Add,
}

/// What a reload does.
#[derive(Debug)]
pub struct ReloadPlan {
    /// The backends that are removed.
    pub removed: Vec<String>,
    /// What is done with each backend of the new configuration.
    pub changes: Vec<BackendChange>,
}

/// The fingerprints of the backends that are running.
#[derive(Debug)]
pub struct ReloadState {
    fingerprints: NameMap<String>,
}

/// The fingerprints by name; of two for one name the later one counts.
pub open spec fn fingerprint_map(backends: Seq<BackendFingerprint>) -> Map<Seq<char>, Seq<char>>
    decreases backends.len(),
{
    if backends.len() == 0 {
        Map::empty()
    } else {
        fingerprint_map(backends.drop_last()).insert(
            backends.last().name@,
            backends.last().fingerprint@,
        )
    }
}

/// What is done with a backend of the new configuration, by the fingerprints
/// before and after.
pub open spec fn change_of(
    before: Map<Seq<char>, Seq<char>>,
    after: Map<Seq<char>, Seq<char>>,
    name: Seq<char>,
) -> BackendChange {
    if !before.contains_key(name) {
        BackendChange::Add
    } else if before[name] != after[name] {
        BackendChange::Replace
    } else {
        BackendChange::Keep
    }
}

fn collect(backends: &Vec<BackendFingerprint>) -> (map: NameMap<String>)
    ensures
        text_map(map@) == fingerprint_map(backends@),
{
    let mut map: NameMap<String> = NameMap::new();
    let mut i: usize = 0;
    assert(text_map(map@) =~= fingerprint_map(backends@.take(0)));
    while i < backends.len()
        invariant
            i <= backends@.len(),
            text_map(map@) == fingerprint_map(backends@.take(i as int)),
        decreases backends@.len() - i,
    {
        let ghost held = map@;
        let backend = &backends[i];
        let fingerprint = backend.fingerprint.clone();
        proof {
            assert(backends@.take(i + 1).drop_last() =~= backends@.take(i as int));
            assert(backends@.take(i + 1).last() == *backend);
            assert(text_map(held.insert(backend.name@, fingerprint)) =~= text_map(held).insert(
                backend.name@,
                fingerprint@,
            ));
        }
        map.insert(backend.name.clone(), fingerprint);
        i = i + 1;
    }
    assert(backends@.take(backends@.len() as int) =~= backends@);
    map
}

impl ReloadState {
    /// The fingerprints by name.
    pub closed spec fn running(&self) -> Map<Seq<char>, Seq<char>> {
        text_map(self.fingerprints@)
    }

    /// The state with the backends of a configuration running.
    pub fn new(backends: &Vec<BackendFingerprint>) -> (state: ReloadState)
        ensures
            state.running() == fingerprint_map(backends@),
    {
        ReloadState { fingerprints: collect(backends) }
    }

    /// What a reload to a new configuration does: backends that are no longer
    /// in it are removed, new ones are added, and changed ones are replaced.
    pub fn plan(&mut self, backends: &Vec<BackendFingerprint>) -> (plan: ReloadPlan)
        ensures
            texts(plan.removed@).no_duplicates(),
            texts(plan.removed@).to_set() == old(self).running().dom().difference(
                fingerprint_map(backends@).dom(),
            ),
            plan.changes@ == Seq::new(
                backends@.len(),
                |i: int|
                    change_of(
                        old(self).running(),
                        fingerprint_map(backends@),
                        backends@[i].name@,
                    ),
            ),
            final(self).running() == fingerprint_map(backends@),
    {
        let fingerprints = collect(backends);
        let removed = self.removed(&fingerprints);
        let ghost before = self.running();
        let ghost after = text_map(fingerprints@);
        let mut changes: Vec<BackendChange> = Vec::new();
        let mut i: usize = 0;
        while i < backends.len()
            invariant
                i <= backends@.len(),
                self.running() == before,
                text_map(fingerprints@) == after,
                after == fingerprint_map(backends@),
                changes@.len() == i,
                forall|j: int|
                    0 <= j < i ==> #[trigger] changes@[j] == change_of(
                        before,
                        after,
                        backends@[j].name@,
                    ),
            decreases backends@.len() - i,
        {
            let name = backends[i].name.as_str();
            proof {
                lemma_fingerprinted(backends@, i as int);
            }
            let change = match (self.fingerprints.get(name), fingerprints.get(name)) {
                (Some(old_fingerprint), Some(new_fingerprint)) => {
                    assert(before[name@] == old_fingerprint@);
                    assert(after[name@] == new_fingerprint@);
                    if same_text(old_fingerprint.as_str(), new_fingerprint.as_str()) {
                        BackendChange::Keep
                    } else {
                        BackendChange::Replace
                    }
                },
                (Some(_), None) => {
                    assert(after.contains_key(name@));
                    BackendChange::Replace
                },
                (None, _) => BackendChange::Add,
            };
            changes.push(change);
            i = i + 1;
        }
        assert(changes@ =~= Seq::new(
            backends@.len(),
            |i: int| change_of(before, fingerprint_map(backends@), backends@[i].name@),
        ));
        self.fingerprints = fingerprints;
        ReloadPlan { removed, changes }
    }

    /// What a reload does once the changed configuration was read: nothing,
    /// and the state stays as it is, where it could not be read.
    pub fn on_load(&mut self, loaded: Option<&Vec<BackendFingerprint>>) -> (plan: Option<
        ReloadPlan,
    >)
        ensures
            match (loaded, plan) {
                (None, None) => final(self).running() == old(self).running(),
                (Some(backends), Some(p)) => {
                    &&& texts(p.removed@).no_duplicates()
                    &&& texts(p.removed@).to_set() == old(self).running().dom().difference(
                        fingerprint_map(backends@).dom(),
                    )
                    &&& p.changes@ == Seq::new(
                        backends@.len(),
                        |i: int|
                            change_of(
                                old(self).running(),
                                fingerprint_map(backends@),
                                backends@[i].name@,
                            ),
                    )
                    &&& final(self).running() == fingerprint_map(backends@)
                },
                _ => false,
            },
    {
        match loaded {
            Some(backends) => Some(self.plan(backends)),
            None => None,
        }
    }

    fn removed(&self, fingerprints: &NameMap<String>) -> (removed: Vec<String>)
        ensures
            texts(removed@).no_duplicates(),
            texts(removed@).to_set() == self.running().dom().difference(
                text_map(fingerprints@).dom(),
            ),
    {
        let names = self.fingerprints.names();
        let ghost order = texts(names@);
        let mut removed: Vec<String> = Vec::new();
        let mut i: usize = 0;
        while i < names.len()
            invariant
                i <= names@.len(),
                order == texts(names@),
                order.no_duplicates(),
                texts(removed@).no_duplicates(),
                forall|name: Seq<char>| #[trigger]
                    texts(removed@).contains(name) <==> order.take(i as int).contains(name)
                        && !fingerprints@.contains_key(name),
            decreases names@.len() - i,
        {
            let ghost before = texts(removed@);
            let ghost name = order[i as int];
            let ghost done = order.take(i as int);
            let ghost next = order.take(i + 1);
            proof {
                assert(next =~= done.push(name));
                assert(!done.contains(name)) by {
                    if done.contains(name) {
                        let j = choose|j: int| 0 <= j < done.len() && done[j] == name;
                        assert(order[j] == order[i as int]);
                    }
                }
                assert forall|n: Seq<char>| next.contains(n) <==> done.contains(n) || n == name by {
                    if done.contains(n) {
                        let j = choose|j: int| 0 <= j < done.len() && done[j] == n;
                        assert(next[j] == n);
                    }
                    assert(next[i as int] == name);
                    if next.contains(n) && n != name {
                        let j = choose|j: int| 0 <= j < next.len() && next[j] == n;
                        assert(done[j] == n);
                    }
                }
            }
            if !fingerprints.contains_key(names[i].as_str()) {
                removed.push(names[i].clone());
                proof {
                    let now = texts(removed@);
                    assert(now =~= before.push(name));
                    assert forall|n: Seq<char>| now.contains(n) <==> before.contains(n) || n
                        == name by {
                        if before.contains(n) {
                            let j = choose|j: int| 0 <= j < before.len() && before[j] == n;
                            assert(now[j] == n);
                        }
                        assert(now[before.len() as int] == name);
                    }
                    assert(!before.contains(name));
                    assert forall|a: int, b: int|
                        0 <= a < now.len() && 0 <= b < now.len() && a != b implies now[a]
                        != now[b] by {
                        if a == before.len() {
                            assert(before[b] == now[b]);
                            assert(before.contains(now[b]));
                        } else if b == before.len() {
                            assert(before[a] == now[a]);
                            assert(before.contains(now[a]));
                        }
                    }
                }
            }
            i = i + 1;
        }
        proof {
            assert(order.take(names@.len() as int) =~= order);
            let gone = self.running().dom().difference(text_map(fingerprints@).dom());
            assert forall|name: Seq<char>| texts(removed@).to_set().contains(name)
                <==> gone.contains(name) by {
                assert(texts(removed@).contains(name) <==> order.contains(name)
                    && !fingerprints@.contains_key(name));
                assert(order.to_set().contains(name) <==> order.contains(name));
            }
            assert(texts(removed@).to_set() =~= gone);
        }
        removed
    }
}

proof fn lemma_fingerprinted(backends: Seq<BackendFingerprint>, i: int)
    requires
        0 <= i < backends.len(),
    ensures
        fingerprint_map(backends).contains_key(backends[i].name@),
    decreases backends.len(),
{
    if i < backends.len() - 1 {
        lemma_fingerprinted(backends.drop_last(), i);
    }
}

proof fn lemma_only_fingerprinted(backends: Seq<BackendFingerprint>, name: Seq<char>)
    requires
        fingerprint_map(backends).contains_key(name),
    ensures
        exists|i: int| 0 <= i < backends.len() && (#[trigger] backends[i]).name@ == name,
    decreases backends.len(),
{
    if backends.len() > 0 {
        if backends.last().name@ == name {
            assert(backends[backends.len() - 1].name@ == name);
        } else {
            let rest = backends.drop_last();
            lemma_only_fingerprinted(rest, name);
            let i = choose|i: int| 0 <= i < rest.len() && (#[trigger] rest[i]).name@ == name;
            assert(backends[i].name@ == name);
        }
    }
}

/// A reload to the configuration that is already running touches nothing: no
/// backend is removed, and every backend is kept.
pub proof fn reload_without_change_touches_nothing(
    running: Map<Seq<char>, Seq<char>>,
    backends: Seq<BackendFingerprint>,
    i: int,
)
    requires
        running == fingerprint_map(backends),
        0 <= i < backends.len(),
    ensures
        running.dom().difference(fingerprint_map(backends).dom()) == Set::<Seq<char>>::empty(),
        change_of(running, fingerprint_map(backends), backends[i].name@) is Keep,
{
    lemma_fingerprinted(backends, i);
    assert(running.dom().difference(fingerprint_map(backends).dom()) =~= Set::empty());
}

/// A reload leads to the new configuration: taking the removed backends out of
/// those that run, and putting the added ones in, gives those of the new
/// configuration.
pub proof fn reload_leads_to_the_new_backends(
    running: Map<Seq<char>, Seq<char>>,
    backends: Seq<BackendFingerprint>,
)
    ensures
        ({
            let after = fingerprint_map(backends);
            let removed = running.dom().difference(after.dom());
            let added = Set::new(
                |name: Seq<char>|
                    exists|i: int|
                        0 <= i < backends.len() && (#[trigger] backends[i]).name@ == name
                            && change_of(running, after, name) is Add,
            );
            running.dom().difference(removed).union(added) == after.dom()
        }),
{
    let after = fingerprint_map(backends);
    let removed = running.dom().difference(after.dom());
    let added = Set::new(
        |name: Seq<char>|
            exists|i: int|
                0 <= i < backends.len() && (#[trigger] backends[i]).name@ == name && change_of(
                    running,
                    after,
                    name,
                ) is Add,
    );
    let reached = running.dom().difference(removed).union(added);
    assert forall|name: Seq<char>| reached.contains(name) <==> after.dom().contains(name) by {
        if added.contains(name) {
            let i = choose|i: int|
                0 <= i < backends.len() && (#[trigger] backends[i]).name@ == name && change_of(
                    running,
                    after,
                    name,
                ) is Add;
            lemma_fingerprinted(backends, i);
        }
        if after.dom().contains(name) && !running.dom().contains(name) {
            lemma_only_fingerprinted(backends, name);
            let i = choose|i: int|
                0 <= i < backends.len() && (#[trigger] backends[i]).name@ == name;
            assert(backends[i].name@ == name && change_of(running, after, name) is Add);
            assert(added.contains(name));
        }
    }
    assert(reached =~= after.dom());
}

/// How a backend is connected to.
#[derive(Debug)]
pub enum Connection {
    /// A subprocess.
    Stdio {
        /// The command.
        command: String,
        /// Its arguments.
        args: Vec<String>,
        /// Its environment variables.
        env: NameMap<String>,
    },
    /// An HTTP server.
    Http {
        /// The URL.
        url: String,
        /// The token to authenticate with.
        bearer_token: Option<String>,
    },
    /// A WebSocket server.
    Websocket {
        /// The URL.
        url: String,
        /// The token to authenticate with.
        bearer_token: Option<String>,
    },
}

/// Why a backend cannot be connected to.
#[derive(Debug, Clone, Copy, PartialEq, Eq, Structural)]
pub enum ConnectionError {
    /// A stdio backend has no command.
    NoCommand,
    /// An HTTP backend has no URL.
    NoHttpUrl,
    /// A WebSocket backend has no URL.
    NoWebsocketUrl,
}

impl ConnectionError {
    /// The error in words.
    pub fn message(&self) -> (message: &'static str)
        ensures
            message@ == (match self {
                ConnectionError::NoCommand => "stdio backend requires 'command'"@,
                ConnectionError::NoHttpUrl => "http backend requires 'url'"@,
                ConnectionError::NoWebsocketUrl => "websocket backend requires 'url'"@,
            }),
    {
        match self {
            ConnectionError::NoCommand => "stdio backend requires 'command'",
            ConnectionError::NoHttpUrl => "http backend requires 'url'",
            ConnectionError::NoWebsocketUrl => "websocket backend requires 'url'",
        }
    }
}

/// A connection is the one of a backend: what its transport needs is there,
/// and is taken over as it stands.
pub open spec fn connects(connection: Connection, backend: BackendConfig) -> bool {
    match connection {
        Connection::Stdio { command, args, env } => {
            &&& backend.transport is Stdio
            &&& backend.command == Some(command)
            &&& args@ == backend.args@
            &&& env@ == backend.env@
        },
        Connection::Http { url, bearer_token } => {
            &&& backend.transport is Http
            &&& backend.url == Some(url)
            &&& bearer_token == backend.bearer_token
        },
        Connection::Websocket { url, bearer_token } => {
            &&& backend.transport is Websocket
            &&& backend.url == Some(url)
            &&& bearer_token == backend.bearer_token
        },
    }
}

/// How a backend is connected to.
pub fn connection(backend: &BackendConfig) -> (result: Result<Connection, ConnectionError>)
    ensures
        match result {
            Ok(connection) => connects(connection, *backend),
            Err(ConnectionError::NoCommand) => backend.transport is Stdio
                && backend.command is None,
            Err(ConnectionError::NoHttpUrl) => backend.transport is Http && backend.url is None,
            Err(ConnectionError::NoWebsocketUrl) => backend.transport is Websocket
                && backend.url is None,
        },
{
    match backend.transport {
        TransportType::Stdio => match &backend.command {
            Some(command) => Ok(
                Connection::Stdio {
                    command: command.clone(),
                    args: clone_texts(&backend.args),
                    env: backend.env.clone(),
                },
            ),
            None => Err(ConnectionError::NoCommand),
        },
        TransportType::Http => match &backend.url {
            Some(url) => Ok(
                Connection::Http {
                    url: url.clone(),
                    bearer_token: clone_optional(&backend.bearer_token),
                },
            ),
            None => Err(ConnectionError::NoHttpUrl),
        },
        TransportType::Websocket => match &backend.url {
            Some(url) => Ok(
                Connection::Websocket {
                    url: url.clone(),
                    bearer_token: clone_optional(&backend.bearer_token),
                },
            ),
            None => Err(ConnectionError::NoWebsocketUrl),
        },
    }
}

/// A backend has what its transport needs.
pub open spec fn is_connectable(backend: BackendConfig) -> bool {
    match backend.transport {
        TransportType::Stdio => backend.command is Some,
        TransportType::Http => backend.url is Some,
        TransportType::Websocket => backend.url is Some,
    }
}

/// A backend that breaks no rule can be connected to.
pub proof fn valid_backends_have_a_connection(backend: BackendConfig)
    requires
        backend.own_fault() is None,
    ensures
        is_connectable(backend),
{
}

/// Whether a backend has middleware of its own.
pub fn has_middleware(backend: &BackendConfig) -> (has: bool)
    ensures
        has == (layers_of(*backend).len() > 0),
        has == (backend.timeout is Some || backend.circuit_breaker is Some
            || backend.rate_limit is Some || backend.concurrency is Some || backend.retry is Some
            || backend.hedging is Some || backend.outlier_detection is Some),
{
    backend.timeout.is_some() || backend.circuit_breaker.is_some() || backend.rate_limit.is_some()
        || backend.concurrency.is_some() || backend.retry.is_some() || backend.hedging.is_some()
        || backend.outlier_detection.is_some()
}

/// A middleware around a single backend.
#[derive(Debug)]
pub enum BackendLayer {
    /// Failed requests are retried.
    Retry(RetryConfig),
    /// Slow requests are sent more than once.
    Hedge {
        /// Milliseconds before the next attempt, `None` to send all at once.
        delay_ms: Option<u64>,
        /// How often a request is sent at most, the first time included.
        max_attempts: usize,
        /// Name of the layer.
        name: String,
    },
    /// The number of concurrent requests is limited.
    Concurrency(usize),
    /// The number of requests per period is limited.
    RateLimit {
        /// Requests per period.
        requests: usize,
        /// Seconds of a period.
        period_seconds: u64,
        /// Name of the layer.
        name: String,
    },
    /// Requests are given up after some seconds.
    Timeout(u64),
    /// Requests fail at once while the backend fails too often.
    CircuitBreaker {
        /// When it trips, and for how long.
        config: CircuitBreakerConfig,
        /// Name of the layer.
        name: String,
    },
    /// The backend is ejected for a while after consecutive errors.
    OutlierDetection(OutlierDetectionConfig),
}

/// What a middleware around a single backend does.
pub ghost enum LayerView {
    /// Failed requests are retried.
    Retry(RetryConfig),
    /// Slow requests are sent more than once.
    Hedge(Option<u64>, int, Seq<char>),
    /// The number of concurrent requests is limited.
    Concurrency(usize),
    /// The number of requests per period is limited.
    RateLimit(usize, u64, Seq<char>),
    /// Requests are given up after some seconds.
    Timeout(u64),
    /// Requests fail at once while the backend fails too often.
    CircuitBreaker(CircuitBreakerConfig, Seq<char>),
    /// The backend is ejected for a while after consecutive errors.
    OutlierDetection(OutlierDetectionConfig),
}

impl View for BackendLayer {
    type V = LayerView;

    open spec fn view(&self) -> LayerView {
        match self {
            BackendLayer::Retry(config) => LayerView::Retry(*config),
            BackendLayer::Hedge { delay_ms, max_attempts, name } => LayerView::Hedge(
                *delay_ms,
                *max_attempts as int,
                name@,
            ),
            BackendLayer::Concurrency(max) => LayerView::Concurrency(*max),
            BackendLayer::RateLimit { requests, period_seconds, name } => LayerView::RateLimit(
                *requests,
                *period_seconds,
                name@,
            ),
            BackendLayer::Timeout(seconds) => LayerView::Timeout(*seconds),
            BackendLayer::CircuitBreaker { config, name } => LayerView::CircuitBreaker(
                *config,
                name@,
            ),
            BackendLayer::OutlierDetection(config) => LayerView::OutlierDetection(*config),
        }
    }
}

/// What the layers in a vector do.
pub open spec fn layer_views(layers: Seq<BackendLayer>) -> Seq<LayerView> {
    layers.map_values(|l: BackendLayer| l@)
}

/// One layer where there is one, else none.
pub open spec fn maybe<T>(item: Option<T>) -> Seq<T> {
    match item {
        Some(i) => seq![i],
        None => Seq::empty(),
    }
}

/// The retry layer of a backend.
pub open spec fn retry_layer(backend: BackendConfig) -> Option<LayerView> {
    match backend.retry {
        Some(config) => Some(LayerView::Retry(config)),
        None => None,
    }
}

/// The hedging layer of a backend. A delay of zero sends all attempts at once.
pub open spec fn hedge_layer(backend: BackendConfig) -> Option<LayerView> {
    match backend.hedging {
        Some(config) => Some(
            LayerView::Hedge(
                if config.delay_ms == 0 {
                    None
                } else {
                    Some(config.delay_ms)
                },
                config.max_hedges + 1,
                backend.name@ + "-hedge"@,
            ),
        ),
        None => None,
    }
}

/// The concurrency layer of a backend.
pub open spec fn concurrency_layer(backend: BackendConfig) -> Option<LayerView> {
    match backend.concurrency {
        Some(config) => Some(LayerView::Concurrency(config.max_concurrent)),
        None => None,
    }
}

/// The rate limiting layer of a backend.
pub open spec fn rate_limit_layer(backend: BackendConfig) -> Option<LayerView> {
    match backend.rate_limit {
        Some(config) => Some(
            LayerView::RateLimit(
                config.requests,
                config.period_seconds,
                backend.name@ + "-ratelimit"@,
            ),
        ),
        None => None,
    }
}

/// The timeout layer of a backend.
pub open spec fn timeout_layer(backend: BackendConfig) -> Option<LayerView> {
    match backend.timeout {
        Some(config) => Some(LayerView::Timeout(config.seconds)),
        None => None,
    }
}

/// The circuit breaker layer of a backend.
pub open spec fn circuit_breaker_layer(backend: BackendConfig) -> Option<LayerView> {
    match backend.circuit_breaker {
        Some(config) => Some(LayerView::CircuitBreaker(config, backend.name@ + "-cb"@)),
        None => None,
    }
}

/// The outlier detection layer of a backend.
pub open spec fn outlier_layer(backend: BackendConfig) -> Option<LayerView> {
    match backend.outlier_detection {
        Some(config) => Some(LayerView::OutlierDetection(config)),
        None => None,
    }
}

/// The layers of a backend, inner to outer: retry, hedging, concurrency limit,
/// rate limit, timeout, circuit breaker, outlier detection.
pub open spec fn layers_of(backend: BackendConfig) -> Seq<LayerView> {
    maybe(retry_layer(backend)) + maybe(hedge_layer(backend)) + maybe(concurrency_layer(backend))
        + maybe(rate_limit_layer(backend)) + maybe(timeout_layer(backend)) + maybe(
        circuit_breaker_layer(backend),
    ) + maybe(outlier_layer(backend))
}

/// The view of an optional layer.
pub open spec fn layer_view(layer: Option<BackendLayer>) -> Option<LayerView> {
    match layer {
        Some(l) => Some(l@),
        None => None,
    }
}

pub(crate) fn push_layer(layers: &mut Vec<BackendLayer>, layer: Option<BackendLayer>)
    ensures
        layer_views(final(layers)@) == layer_views(old(layers)@) + maybe(layer_view(layer)),
{
    match layer {
        Some(l) => {
            let ghost view = l@;
            layers.push(l);
            assert(layer_views(layers@) =~= layer_views(old(layers)@) + seq![view]);
        },
        None => {
            assert(layer_views(layers@) =~= layer_views(old(layers)@) + Seq::empty());
        },
    }
}

pub(crate) fn build_retry(backend: &BackendConfig) -> (layer: Option<BackendLayer>)
    ensures
        layer_view(layer) == retry_layer(*backend),
{
    match &backend.retry {
        Some(config) => Some(BackendLayer::Retry(*config)),
        None => None,
    }
}

pub(crate) fn build_hedge(backend: &BackendConfig) -> (layer: Option<BackendLayer>)
    requires
        backend.hedging matches Some(config) ==> config.max_hedges < usize::MAX,
    ensures
        layer_view(layer) == hedge_layer(*backend),
{
    match &backend.hedging {
        Some(config) => {
            let delay_ms: Option<u64> = if config.delay_ms == 0 {
                None
            } else {
                Some(config.delay_ms)
            };
            Some(
                BackendLayer::Hedge {
                    delay_ms,
                    max_attempts: config.max_hedges + 1,
                    name: concat2(backend.name.as_str(), "-hedge"),
                },
            )
        },
        None => None,
    }
}

pub(crate) fn build_concurrency(backend: &BackendConfig) -> (layer: Option<BackendLayer>)
    ensures
        layer_view(layer) == concurrency_layer(*backend),
{
    match &backend.concurrency {
        Some(config) => Some(BackendLayer::Concurrency(config.max_concurrent)),
        None => None,
    }
}

pub(crate) fn build_rate_limit(backend: &BackendConfig) -> (layer: Option<BackendLayer>)
    ensures
        layer_view(layer) == rate_limit_layer(*backend),
{
    match &backend.rate_limit {
        Some(config) => Some(
            BackendLayer::RateLimit {
                requests: config.requests,
                period_seconds: config.period_seconds,
                name: concat2(backend.name.as_str(), "-ratelimit"),
            },
        ),
        None => None,
    }
}

pub(crate) fn build_timeout(backend: &BackendConfig) -> (layer: Option<BackendLayer>)
    ensures
        layer_view(layer) == timeout_layer(*backend),
{
    match &backend.timeout {
        Some(config) => Some(BackendLayer::Timeout(config.seconds)),
        None => None,
    }
}

pub(crate) fn build_circuit_breaker(backend: &BackendConfig) -> (layer: Option<BackendLayer>)
    ensures
        layer_view(layer) == circuit_breaker_layer(*backend),
{
    match &backend.circuit_breaker {
        Some(config) => Some(
            BackendLayer::CircuitBreaker {
                config: *config,
                name: concat2(backend.name.as_str(), "-cb"),
            },
        ),
        None => None,
    }
}

pub(crate) fn build_outlier(backend: &BackendConfig) -> (layer: Option<BackendLayer>)
    ensures
        layer_view(layer) == outlier_layer(*backend),
{
    match &backend.outlier_detection {
        Some(config) => Some(BackendLayer::OutlierDetection(*config)),
        None => None,
    }
}

/// The layers of a backend, inner to outer.
pub fn build_backend_layer(backend: &BackendConfig) -> (layers: Vec<BackendLayer>)
    requires
        backend.hedging matches Some(config) ==> config.max_hedges < usize::MAX,
    ensures
        layer_views(layers@) == layers_of(*backend),
{
    let mut layers: Vec<BackendLayer> = Vec::new();
    let ghost start = layer_views(layers@);
    push_layer(&mut layers, build_retry(backend));
    assert(start + maybe(retry_layer(*backend)) =~= maybe(retry_layer(*backend)));
    push_layer(&mut layers, build_hedge(backend));
    push_layer(&mut layers, build_concurrency(backend));
    push_layer(&mut layers, build_rate_limit(backend));
    push_layer(&mut layers, build_timeout(backend));
    push_layer(&mut layers, build_circuit_breaker(backend));
    push_layer(&mut layers, build_outlier(backend));
    layers
}

/// The later of two backends with one name counts: a name is looked up with
/// the fingerprint of the last backend that has it, and a name that no backend
/// has is not found.
pub proof fn every_name_has_its_own_fingerprint(backends: Seq<BackendFingerprint>, i: int)
    requires
        0 <= i < backends.len(),
        forall|j: int| i < j < backends.len() ==> (#[trigger] backends[j]).name@
            != backends[i].name@,
    ensures
        fingerprint_map(backends).contains_key(backends[i].name@),
        fingerprint_map(backends)[backends[i].name@] == backends[i].fingerprint@,
        forall|name: Seq<char>|
            #![trigger fingerprint_map(backends).contains_key(name)]
            fingerprint_map(backends).contains_key(name) <==> exists|j: int|
                0 <= j < backends.len() && (#[trigger] backends[j]).name@ == name,
    decreases backends.len(),
{
    let last = backends.len() - 1;
    if i < last {
        let rest = backends.drop_last();
        assert forall|j: int| i < j < rest.len() implies (#[trigger] rest[j]).name@
            != rest[i].name@ by {
            assert(rest[j] == backends[j]);
        }
        every_name_has_its_own_fingerprint(rest, i);
        assert(backends[last].name@ != backends[i].name@);
    }
    assert forall|name: Seq<char>|
        #![trigger fingerprint_map(backends).contains_key(name)]
        fingerprint_map(backends).contains_key(name) <==> exists|j: int|
            0 <= j < backends.len() && (#[trigger] backends[j]).name@ == name by {
        if fingerprint_map(backends).contains_key(name) {
            lemma_only_fingerprinted(backends, name);
        }
        if exists|j: int| 0 <= j < backends.len() && (#[trigger] backends[j]).name@ == name {
            let j = choose|j: int|
                0 <= j < backends.len() && (#[trigger] backends[j]).name@ == name;
            lemma_fingerprinted(backends, j);
        }
    }
}

/// Where no two backends of a configuration have one name, a reload from one
/// configuration to another adds exactly the backends whose name was not
/// there, replaces exactly those that were there with another fingerprint, and
/// keeps exactly those that were there with the same one. It removes exactly
/// the names that are no longer there.
pub proof fn changed_backends_are_replaced(
    before: Seq<BackendFingerprint>,
    after: Seq<BackendFingerprint>,
    i: int,
)
    requires
        forall|a: int, b: int|
            0 <= a < b < before.len() ==> (#[trigger] before[a]).name@ != (
            #[trigger] before[b]).name@,
        forall|a: int, b: int|
            0 <= a < b < after.len() ==> (#[trigger] after[a]).name@ != (#[trigger] after[b]).name@,
        0 <= i < after.len(),
    ensures
        ({
            let change = change_of(
                fingerprint_map(before),
                fingerprint_map(after),
                after[i].name@,
            );
            &&& change is Add <==> forall|j: int|
                0 <= j < before.len() ==> (#[trigger] before[j]).name@ != after[i].name@
            &&& change is Replace <==> exists|j: int|
                0 <= j < before.len() && (#[trigger] before[j]).name@ == after[i].name@
                    && before[j].fingerprint@ != after[i].fingerprint@
            &&& change is Keep <==> exists|j: int|
                0 <= j < before.len() && (#[trigger] before[j]).name@ == after[i].name@
                    && before[j].fingerprint@ == after[i].fingerprint@
        }),
        forall|name: Seq<char>|
            #![trigger fingerprint_map(before).dom().difference(
                fingerprint_map(after).dom(),
            ).contains(name)]
            fingerprint_map(before).dom().difference(fingerprint_map(after).dom()).contains(name)
                <==> (exists|j: int|
                0 <= j < before.len() && (#[trigger] before[j]).name@ == name) && (forall|j: int|
                0 <= j < after.len() ==> (#[trigger] after[j]).name@ != name),
{
    let name = after[i].name@;
    every_name_has_its_own_fingerprint(after, i);
    assert forall|j: int| 0 <= j < before.len() implies {
        &&& fingerprint_map(before).contains_key((#[trigger] before[j]).name@)
        &&& fingerprint_map(before)[before[j].name@] == before[j].fingerprint@
    } by {
        every_name_has_its_own_fingerprint(before, j);
    }
    assert forall|n: Seq<char>|
        #![trigger fingerprint_map(before).contains_key(n)]
        fingerprint_map(before).contains_key(n) implies exists|j: int|
        0 <= j < before.len() && (#[trigger] before[j]).name@ == n by {
        lemma_only_fingerprinted(before, n);
    }
    assert(fingerprint_map(before).contains_key(name) ==> exists|j: int|
        0 <= j < before.len() && (#[trigger] before[j]).name@ == name);
    assert forall|n: Seq<char>|
        #![trigger fingerprint_map(before).dom().difference(
            fingerprint_map(after).dom(),
        ).contains(n)]
        fingerprint_map(before).dom().difference(fingerprint_map(after).dom()).contains(n)
            <==> (exists|j: int| 0 <= j < before.len() && (#[trigger] before[j]).name@ == n) && (
        forall|j: int| 0 <= j < after.len() ==> (#[trigger] after[j]).name@ != n) by {
        assert(fingerprint_map(after).contains_key(n) <==> exists|j: int|
            0 <= j < after.len() && (#[trigger] after[j]).name@ == n);
        assert(fingerprint_map(before).contains_key(n) == fingerprint_map(before).dom().contains(n));
    }
}

/// A connection takes over from the backend what its transport needs.
pub proof fn connections_take_over_what_is_configured(
    connection: Connection,
    backend: BackendConfig,
)
    requires
        connects(connection, backend),
    ensures
        backend.transport is Stdio ==> (connection matches Connection::Stdio { command, args, env }
            && backend.command == Some(command) && args@ == backend.args@ && env@
            == backend.env@),
        backend.transport is Http ==> (connection matches Connection::Http { url, bearer_token }
            && backend.url == Some(url) && bearer_token == backend.bearer_token),
        backend.transport is Websocket ==> (connection matches Connection::Websocket {
            url,
            bearer_token,
        } && backend.url == Some(url) && bearer_token == backend.bearer_token),
{
}

/// A backend can be connected to exactly where a stdio backend has a command,
/// and any other one a URL.
pub proof fn commands_and_urls_are_needed(backend: BackendConfig)
    ensures
        is_connectable(backend) <==> if backend.transport is Stdio {
            backend.command is Some
        } else {
            backend.url is Some
        },
{
}

/// A layer stands among the layers of a backend exactly where the backend is
/// configured with it, as it is configured.
pub proof fn layers_are_those_configured(backend: BackendConfig, layer: LayerView)
    ensures
        layers_of(backend).contains(layer) <==> match layer {
            LayerView::Retry(config) => backend.retry == Some(config),
            LayerView::Hedge(delay_ms, max_attempts, name) => {
                backend.hedging matches Some(config) && {
                    &&& (delay_ms is None <==> config.delay_ms == 0)
                    &&& (delay_ms matches Some(ms) ==> ms == config.delay_ms)
                    &&& max_attempts == 1 + config.max_hedges
                    &&& name == backend.name@ + "-hedge"@
                }
            },
            LayerView::Concurrency(max) => backend.concurrency matches Some(config)
                && config.max_concurrent == max,
            LayerView::RateLimit(requests, period_seconds, name) => {
                backend.rate_limit matches Some(config) && config.requests == requests
                    && config.period_seconds == period_seconds && name == backend.name@
                    + "-ratelimit"@
            },
            LayerView::Timeout(seconds) => backend.timeout matches Some(config) && config.seconds
                == seconds,
            LayerView::CircuitBreaker(config, name) => backend.circuit_breaker == Some(config)
                && name == backend.name@ + "-cb"@,
            LayerView::OutlierDetection(config) => backend.outlier_detection == Some(config),
        },
{
    let parts = seq![
        maybe(retry_layer(backend)),
        maybe(hedge_layer(backend)),
        maybe(concurrency_layer(backend)),
        maybe(rate_limit_layer(backend)),
        maybe(timeout_layer(backend)),
        maybe(circuit_breaker_layer(backend)),
        maybe(outlier_layer(backend)),
    ];
    lemma_maybe_contains(retry_layer(backend), layer);
    lemma_maybe_contains(hedge_layer(backend), layer);
    lemma_maybe_contains(concurrency_layer(backend), layer);
    lemma_maybe_contains(rate_limit_layer(backend), layer);
    lemma_maybe_contains(timeout_layer(backend), layer);
    lemma_maybe_contains(circuit_breaker_layer(backend), layer);
    lemma_maybe_contains(outlier_layer(backend), layer);
    let s2 = parts[0] + parts[1];
    let s3 = s2 + parts[2];
    let s4 = s3 + parts[3];
    let s5 = s4 + parts[4];
    let s6 = s5 + parts[5];
    lemma_contains_in_either(parts[0], parts[1], layer);
    lemma_contains_in_either(s2, parts[2], layer);
    lemma_contains_in_either(s3, parts[3], layer);
    lemma_contains_in_either(s4, parts[4], layer);
    lemma_contains_in_either(s5, parts[5], layer);
    lemma_contains_in_either(s6, parts[6], layer);
}

pub(crate) proof fn lemma_maybe_contains<T>(item: Option<T>, x: T)
    ensures
        maybe(item).contains(x) <==> item == Some(x),
{
    if item == Some(x) {
        assert(maybe(item)[0] == x);
    }
}

pub(crate) proof fn lemma_contains_in_either<T>(a: Seq<T>, b: Seq<T>, x: T)
    ensures
        (a + b).contains(x) <==> a.contains(x) || b.contains(x),
{
    if a.contains(x) {
        let i = choose|i: int| 0 <= i < a.len() && a[i] == x;
        assert((a + b)[i] == x);
    }
    if b.contains(x) {
        let i = choose|i: int| 0 <= i < b.len() && b[i] == x;
        assert((a + b)[a.len() + i] == x);
    }
    if (a + b).contains(x) {
        let i = choose|i: int| 0 <= i < (a + b).len() && (a + b)[i] == x;
        if i < a.len() {
            assert(a[i] == x);
        } else {
            assert(b[i - a.len()] == x);
        }
    }
}

/// The layers of any backend stand in one order, inner to outer: retry,
/// hedging, concurrency limit, rate limit, timeout, circuit breaker, outlier
/// detection. None is there twice.
pub proof fn layers_stand_in_order(backend: BackendConfig, i: int, j: int)
    requires
        0 <= i < j < layers_of(backend).len(),
    ensures
        ({
            let place = |layer: LayerView|
                match layer {
                    LayerView::Retry(_) => 0int,
                    LayerView::Hedge(_, _, _) => 1,
                    LayerView::Concurrency(_) => 2,
                    LayerView::RateLimit(_, _, _) => 3,
                    LayerView::Timeout(_) => 4,
                    LayerView::CircuitBreaker(_, _) => 5,
                    LayerView::OutlierDetection(_) => 6,
                };
            place(layers_of(backend)[i]) < place(layers_of(backend)[j])
        }),
{
}

/// What a layer does is what it holds.
pub proof fn layers_show_what_they_hold(layer: BackendLayer)
    ensures
        match layer {
            BackendLayer::Retry(config) => layer@ == LayerView::Retry(config),
            BackendLayer::Hedge { delay_ms, max_attempts, name } => layer@ == LayerView::Hedge(
                delay_ms,
                max_attempts as int,
                name@,
            ),
            BackendLayer::Concurrency(max) => layer@ == LayerView::Concurrency(max),
            BackendLayer::RateLimit { requests, period_seconds, name } => layer@
                == LayerView::RateLimit(requests, period_seconds, name@),
            BackendLayer::Timeout(seconds) => layer@ == LayerView::Timeout(seconds),
            BackendLayer::CircuitBreaker { config, name } => layer@ == LayerView::CircuitBreaker(
                config,
                name@,
            ),
            BackendLayer::OutlierDetection(config) => layer@ == LayerView::OutlierDetection(config),
        },
{
}

/// The views of layers are those of each of them, in order.
pub proof fn layer_views_keep_order(layers: Seq<BackendLayer>, i: int)
    requires
        0 <= i < layers.len(),
    ensures
        layer_views(layers).len() == layers.len(),
        layer_views(layers)[i] == layers[i]@,
{
}

} // verus!
