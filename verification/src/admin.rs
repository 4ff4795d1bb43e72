//! Admin API for proxy introspection.
//!
//! Keeps backend health and proxy status.

use vstd::prelude::*;

use crate::cache::{BackendCache, CacheHandle, CacheStats, CacheStatsSnapshot};
use crate::names::NameMap;
use crate::sequences::lemma_filter_take_succ;
use crate::text::{clone_optional, texts};

verus! {

/// A point in time: seconds since the Unix epoch, and nanoseconds behind them.
#[derive(Debug, Clone, Copy, PartialEq, Eq, Structural)]
pub struct Timestamp {
    /// Seconds since the Unix epoch.
    pub seconds: i64,
    /// Nanoseconds behind the second.
    pub nanoseconds: u32,
}

/// Health status of a single backend, updated by the background health checker.
#[derive(Debug)]
pub struct BackendStatus {
    /// Backend namespace (e.g. "db").
    pub namespace: String,
    /// Whether the backend responded to the last health check.
    pub healthy: bool,
    /// Timestamp of the last health check.
    pub last_checked_at: Option<Timestamp>,
    /// Number of consecutive failed health checks.
    pub consecutive_failures: u32,
    /// Last error message from a failed health check.
    pub error: Option<String>,
    /// Transport type (e.g. "stdio", "http").
    pub transport: Option<String>,
}

impl Clone for BackendStatus {
    fn clone(&self) -> (copy: BackendStatus)
        ensures
            copy == *self,
    {
        BackendStatus {
            namespace: self.namespace.clone(),
            healthy: self.healthy,
            last_checked_at: self.last_checked_at,
            consecutive_failures: self.consecutive_failures,
            error: clone_optional(&self.error),
            transport: clone_optional(&self.transport),
        }
    }
}

/// Cached health status, updated periodically by the health checker.
#[derive(Debug)]
pub struct AdminState {
    health: Vec<BackendStatus>,
    proxy_name: String,
    proxy_version: String,
    backend_count: usize,
}

/// What is known of the proxy.
#[derive(Debug)]
pub struct ProxyInfo {
    /// Proxy name.
    pub name: String,
    /// Proxy version.
    pub version: String,
    /// Number of configured backends.
    pub backend_count: usize,
    /// Number of active sessions.
    pub active_sessions: usize,
}

/// The proxy and its backends.
#[derive(Debug)]
pub struct AdminBackendsResponse {
    /// The proxy.
    pub proxy: ProxyInfo,
    /// Its backends.
    pub backends: Vec<BackendStatus>,
}

impl AdminState {
    /// The backend health.
    pub closed spec fn statuses(&self) -> Seq<BackendStatus> {
        self.health@
    }

    /// The proxy name.
    pub closed spec fn name(&self) -> Seq<char> {
        self.proxy_name@
    }

    /// The proxy version.
    pub closed spec fn version(&self) -> Seq<char> {
        self.proxy_version@
    }

    /// The number of configured backends.
    pub closed spec fn count(&self) -> usize {
        self.backend_count
    }

    /// The state before the first health check.
    pub fn new(proxy_name: String, proxy_version: String, backend_count: usize) -> (state:
        AdminState)
        ensures
            state.statuses() == Seq::<BackendStatus>::empty(),
            state.name() == proxy_name@,
            state.version() == proxy_version@,
            state.count() == backend_count,
    {
        AdminState { health: Vec::new(), proxy_name, proxy_version, backend_count }
    }

    /// Takes over the result of a health check.
    pub fn set_health(&mut self, health: Vec<BackendStatus>)
        ensures
            final(self).statuses() == health@,
            final(self).name() == old(self).name(),
            final(self).version() == old(self).version(),
            final(self).count() == old(self).count(),
    {
        self.health = health;
    }

    /// Get a snapshot of backend health status.
    pub fn health(&self) -> (health: Vec<BackendStatus>)
        ensures
            health@ == self.statuses(),
    {
        let mut health: Vec<BackendStatus> = Vec::new();
        let mut i: usize = 0;
        while i < self.health.len()
            invariant
                i <= self.health@.len(),
                health@ =~= self.health@.take(i as int),
            decreases self.health@.len() - i,
        {
            health.push(self.health[i].clone());
            i = i + 1;
        }
        assert(health@ =~= self.health@);
        health
    }

    /// Proxy name from config.
    pub fn proxy_name(&self) -> (name: &str)
        ensures
            name@ == self.name(),
    {
        self.proxy_name.as_str()
    }

    /// Proxy version from config.
    pub fn proxy_version(&self) -> (version: &str)
        ensures
            version@ == self.version(),
    {
        self.proxy_version.as_str()
    }

    /// Number of configured backends.
    pub fn backend_count(&self) -> (count: usize)
        ensures
            count == self.count(),
    {
        self.backend_count
    }

    /// The proxy and its backends.
    pub fn backends_response(&self, active_sessions: usize) -> (response: AdminBackendsResponse)
        ensures
            response.proxy.name@ == self.name(),
            response.proxy.version@ == self.version(),
            response.proxy.backend_count == self.count(),
            response.proxy.active_sessions == active_sessions,
            response.backends@ == self.statuses(),
    {
        AdminBackendsResponse {
            proxy: ProxyInfo {
                name: self.proxy_name.clone(),
                version: self.proxy_version.clone(),
                backend_count: self.backend_count,
                active_sessions,
            },
            backends: self.health(),
        }
    }
}

/// Per-backend metadata passed in from config at startup.
#[derive(Debug)]
pub struct BackendMeta {
    /// Transport type string (e.g. "stdio", "http").
    pub transport: String,
}

/// The outcome of one health check of one backend.
#[derive(Debug)]
pub struct BackendHealth {
    /// Backend namespace.
    pub namespace: String,
    /// Whether the backend responded.
    pub healthy: bool,
}

/// Counts consecutive failures across check cycles.
#[derive(Debug)]
pub struct HealthTracker {
    failure_counts: NameMap<u32>,
}

/// The number of consecutive failures under a namespace.
pub open spec fn failures(counts: Map<Seq<char>, nat>, namespace: Seq<char>) -> nat {
    if counts.contains_key(namespace) {
        counts[namespace]
    } else {
        0
    }
}

/// The number of consecutive failures of a backend after one more check.
pub open spec fn failures_after(counts: Map<Seq<char>, nat>, result: BackendHealth) -> nat {
    if result.healthy {
        0
    } else {
        failures(counts, result.namespace@) + 1
    }
}

/// The failure counts after the results of a check were looked at one after
/// the other.
pub open spec fn counts_after(
    counts: Map<Seq<char>, nat>,
    results: Seq<BackendHealth>,
) -> Map<Seq<char>, nat>
    decreases results.len(),
{
    if results.len() == 0 {
        counts
    } else {
        let before = counts_after(counts, results.drop_last());
        before.insert(results.last().namespace@, failures_after(before, results.last()))
    }
}

/// The status of a backend after a check, where it had failed as often before
/// as the counts say.
pub open spec fn is_status(
    status: BackendStatus,
    result: BackendHealth,
    counts: Map<Seq<char>, nat>,
    now: Timestamp,
    meta: Map<Seq<char>, BackendMeta>,
) -> bool {
    &&& status.namespace@ == result.namespace@
    &&& status.healthy == result.healthy
    &&& status.last_checked_at == Some(now)
    &&& status.consecutive_failures == failures_after(counts, result)
    &&& match status.error {
        Some(error) => !result.healthy && error@ == "ping failed"@,
        None => result.healthy,
    }
    &&& match status.transport {
        Some(transport) => meta.contains_key(result.namespace@) && transport@
            == meta[result.namespace@].transport@,
        None => !meta.contains_key(result.namespace@),
    }
}

/// The counts as unbounded numbers.
pub open spec fn count_map(map: Map<Seq<char>, u32>) -> Map<Seq<char>, nat> {
    map.map_values(|n: u32| n as nat)
}

impl HealthTracker {
    /// The consecutive failures by namespace.
    pub closed spec fn counts(&self) -> Map<Seq<char>, nat> {
        count_map(self.failure_counts@)
    }

    /// No failures so far.
    pub fn new() -> (tracker: HealthTracker)
        ensures
            tracker.counts() == Map::<Seq<char>, nat>::empty(),
    {
        let tracker = HealthTracker { failure_counts: NameMap::new() };
        assert(tracker.counts() =~= Map::<Seq<char>, nat>::empty());
        tracker
    }

    /// Turns the results of a check into the status of the backends.
    pub fn check(
        &mut self,
        results: &Vec<BackendHealth>,
        now: Timestamp,
        meta: &NameMap<BackendMeta>,
    ) -> (statuses: Vec<BackendStatus>)
        requires
            forall|i: int|
                0 <= i < results@.len() ==> failures_after(
                    counts_after(old(self).counts(), results@.take(i)),
                    #[trigger] results@[i],
                ) <= u32::MAX,
        ensures
            statuses@.len() == results@.len(),
            forall|i: int|
                0 <= i < results@.len() ==> is_status(
                    #[trigger] statuses@[i],
                    results@[i],
                    counts_after(old(self).counts(), results@.take(i)),
                    now,
                    meta@,
                ),
            final(self).counts() == counts_after(old(self).counts(), results@),
    {
        let ghost before = self.counts();
        let mut statuses: Vec<BackendStatus> = Vec::new();
        let mut i: usize = 0;
        assert(results@.take(0) =~= Seq::empty());
        while i < results.len()
            invariant
                i <= results@.len(),
                before == old(self).counts(),
                forall|i: int|
                    0 <= i < results@.len() ==> failures_after(
                        counts_after(before, results@.take(i)),
                        #[trigger] results@[i],
                    ) <= u32::MAX,
                statuses@.len() == i,
                forall|j: int|
                    0 <= j < i ==> is_status(
                        #[trigger] statuses@[j],
                        results@[j],
                        counts_after(before, results@.take(j)),
                        now,
                        meta@,
                    ),
                self.counts() == counts_after(before, results@.take(i as int)),
            decreases results@.len() - i,
        {
            let result = &results[i];
            let ghost counts = counts_after(before, results@.take(i as int));
            proof {
                assert(results@.take(i + 1).drop_last() =~= results@.take(i as int));
                assert(results@.take(i + 1).last() == *result);
                assert(failures_after(counts, results@[i as int]) <= u32::MAX);
            }
            let count: u32 = if result.healthy {
                0
            } else {
                match self.failure_counts.get(result.namespace.as_str()) {
                    Some(n) => {
                        assert(counts[result.namespace@] == *n);
                        *n + 1
                    },
                    None => 1,
                }
            };
            let ghost held = self.failure_counts@;
            self.failure_counts.insert(result.namespace.clone(), count);
            proof {
                assert(count_map(held.insert(result.namespace@, count)) =~= count_map(held).insert(
                    result.namespace@,
                    count as nat,
                ));
            }
            let error = if result.healthy {
                None
            } else {
                Some("ping failed".to_owned())
            };
            let transport = match meta.get(result.namespace.as_str()) {
                Some(m) => Some(m.transport.clone()),
                None => None,
            };
            statuses.push(
                BackendStatus {
                    namespace: result.namespace.clone(),
                    healthy: result.healthy,
                    last_checked_at: Some(now),
                    consecutive_failures: count,
                    error,
                    transport,
                },
            );
            i = i + 1;
        }
        assert(results@.take(results@.len() as int) =~= results@);
        statuses
    }
}

/// A summary of the health of all backends.
#[derive(Debug)]
pub struct HealthResponse {
    /// "healthy" or "degraded".
    pub status: String,
    /// The namespaces of the backends that are not healthy.
    pub unhealthy_backends: Vec<String>,
}

/// Every backend is healthy.
pub open spec fn all_healthy(statuses: Seq<BackendStatus>) -> bool {
    forall|i: int| 0 <= i < statuses.len() ==> (#[trigger] statuses[i]).healthy
}

/// The word for the health of all backends.
pub open spec fn health_word(healthy: bool) -> Seq<char> {
    if healthy {
        "healthy"@
    } else {
        "degraded"@
    }
}

/// The namespaces of the backends that are not healthy.
pub open spec fn unhealthy(statuses: Seq<BackendStatus>) -> Seq<Seq<char>> {
    statuses.filter(|s: BackendStatus| !s.healthy).map_values(|s: BackendStatus| s.namespace@)
}

/// Summarizes the health of all backends.
pub fn health_response(statuses: &Vec<BackendStatus>) -> (response: HealthResponse)
    ensures
        response.status@ == health_word(all_healthy(statuses@)),
        texts(response.unhealthy_backends@) == unhealthy(statuses@),
{
    let mut unhealthy_backends: Vec<String> = Vec::new();
    let ghost sick = |s: BackendStatus| !s.healthy;
    let mut i: usize = 0;
    assert(statuses@.take(0) =~= Seq::empty());
    proof {
        reveal(Seq::filter);
        assert(statuses@.take(0).filter(sick) =~= Seq::empty());
        assert(texts(unhealthy_backends@) =~= unhealthy(statuses@.take(0)));
    }
    while i < statuses.len()
        invariant
            i <= statuses@.len(),
            sick == (|s: BackendStatus| !s.healthy),
            texts(unhealthy_backends@) == unhealthy(statuses@.take(i as int)),
            unhealthy_backends@.len() == 0 <==> all_healthy(statuses@.take(i as int)),
        decreases statuses@.len() - i,
    {
        let ghost found = texts(unhealthy_backends@);
        proof {
            lemma_filter_take_succ(statuses@, sick, i as int);
            let now = statuses@.take(i as int);
            let next = statuses@.take(i + 1);
            assert(next =~= now.push(statuses@[i as int]));
            if all_healthy(now) && statuses@[i as int].healthy {
                assert(all_healthy(next));
            }
            if all_healthy(next) {
                assert(next[i as int].healthy);
                assert forall|k: int| 0 <= k < now.len() implies (#[trigger] now[k]).healthy by {
                    assert(next[k].healthy);
                }
            }
        }
        if !statuses[i].healthy {
            unhealthy_backends.push(statuses[i].namespace.clone());
            proof {
                assert(texts(unhealthy_backends@) =~= found.push(statuses@[i as int].namespace@));
                assert(unhealthy(statuses@.take(i + 1)) =~= unhealthy(
                    statuses@.take(i as int),
                ).push(statuses@[i as int].namespace@));
            }
        }
        i = i + 1;
    }
    assert(statuses@.take(statuses@.len() as int) =~= statuses@);
    let status = if unhealthy_backends.len() == 0 {
        "healthy".to_owned()
    } else {
        "degraded".to_owned()
    };
    HealthResponse { status, unhealthy_backends }
}

/// The statistics of all caches, where there are any.
pub fn cache_stats(caches: &Option<CacheHandle>) -> (stats: Vec<CacheStatsSnapshot>)
    ensures
        match caches {
            None => stats@.len() == 0,
            Some(handle) => {
                &&& stats@.len() == handle.caches@.len()
                &&& forall|i: int|
                    0 <= i < stats@.len() ==> {
                        &&& (#[trigger] stats@[i]).namespace@ == handle.caches@[i].namespace@
                        &&& stats@[i].hits == handle.caches@[i].stats.hits
                        &&& stats@[i].misses == handle.caches@[i].stats.misses
                    }
            },
        },
{
    match caches {
        Some(handle) => handle.stats(),
        None => Vec::new(),
    }
}

/// Clears all caches, where there are any, and says so.
pub fn cache_clear(caches: &mut Option<CacheHandle>) -> (text: &'static str)
    ensures
        match (*old(caches), *final(caches)) {
            (None, None) => text@ == "no caches configured"@,
            (Some(before), Some(after)) => {
                &&& text@ == "caches cleared"@
                &&& after.caches@.len() == before.caches@.len()
                &&& forall|i: int|
                    0 <= i < before.caches@.len() ==> #[trigger] after.caches@[i]
                        == (BackendCache {
                        stats: CacheStats { hits: 0, misses: 0 },
                        ..before.caches@[i]
                    })
            },
            _ => false,
        },
{
    if let Some(handle) = caches {
        handle.clear();
        "caches cleared"
    } else {
        "no caches configured"
    }
}

/// A successful check resets the count of a backend, and a failed one raises
/// it by one.
pub proof fn failures_count_up_and_reset(
    counts: Map<Seq<char>, nat>,
    results: Seq<BackendHealth>,
)
    requires
        results.len() > 0,
    ensures
        ({
            let before = counts_after(counts, results.drop_last());
            let after = counts_after(counts, results);
            let last = results.last();
            &&& failures(after, last.namespace@) == (if last.healthy {
                0
            } else {
                failures(before, last.namespace@) + 1
            })
            &&& forall|other: Seq<char>|
                other != last.namespace@ ==> #[trigger] failures(after, other) == failures(
                    before,
                    other,
                )
        }),
{
}

/// The backends are reported as degraded exactly where one of them is reported
/// as unhealthy.
pub proof fn degraded_exactly_where_one_is_unhealthy(statuses: Seq<BackendStatus>)
    ensures
        all_healthy(statuses) <==> unhealthy(statuses).len() == 0,
{
    let sick = |s: BackendStatus| !s.healthy;
    if !all_healthy(statuses) {
        let i = choose|i: int| 0 <= i < statuses.len() && !(#[trigger] statuses[i]).healthy;
        statuses.lemma_filter_contains(sick, i);
        let k = choose|k: int|
            0 <= k < statuses.filter(sick).len() && statuses.filter(sick)[k] == statuses[i];
        assert(statuses.filter(sick).len() > 0);
    } else if statuses.filter(sick).len() > 0 {
        statuses.lemma_filter_pred(sick, 0);
        let first = statuses.filter(sick)[0];
        assert(statuses.filter(sick).contains(first));
        statuses.lemma_filter_contains_rev(sick, first);
        let i = choose|i: int| 0 <= i < statuses.len() && statuses[i] == first;
        assert(statuses[i].healthy);
    }
}

/// Where a check looks at a backend once, a success leaves the backend with no
/// failure, and a failure with one more than before, or one where it had none.
pub proof fn backends_count_their_own_failures(
    counts: Map<Seq<char>, nat>,
    results: Seq<BackendHealth>,
    i: int,
)
    requires
        0 <= i < results.len(),
        forall|j: int|
            0 <= j < results.len() && j != i ==> (#[trigger] results[j]).namespace@
                != results[i].namespace@,
    ensures
        ({
            let name = results[i].namespace@;
            let failed = if counts.contains_key(name) {
                counts[name] + 1
            } else {
                1
            };
            &&& counts_after(counts, results).contains_key(name)
            &&& results[i].healthy ==> counts_after(counts, results)[name] == 0
            &&& !results[i].healthy ==> counts_after(counts, results)[name] == failed
        }),
    decreases results.len(),
{
    let rest = results.drop_last();
    if i == results.len() - 1 {
        assert forall|j: int| 0 <= j < rest.len() implies (#[trigger] rest[j]).namespace@
            != results[i].namespace@ by {
            assert(rest[j] == results[j]);
        }
        unchecked_backends_keep_their_failures(counts, rest, results[i].namespace@);
    } else {
        assert forall|j: int| 0 <= j < rest.len() && j != i implies (
        #[trigger] rest[j]).namespace@ != rest[i].namespace@ by {
            assert(rest[j] == results[j]);
        }
        backends_count_their_own_failures(counts, rest, i);
        assert(results[results.len() - 1].namespace@ != results[i].namespace@);
    }
}

/// A check changes nothing of a backend that it did not look at.
pub proof fn unchecked_backends_keep_their_failures(
    counts: Map<Seq<char>, nat>,
    results: Seq<BackendHealth>,
    name: Seq<char>,
)
    requires
        forall|j: int| 0 <= j < results.len() ==> (#[trigger] results[j]).namespace@ != name,
    ensures
        counts_after(counts, results).contains_key(name) <==> counts.contains_key(name),
        counts.contains_key(name) ==> counts_after(counts, results)[name] == counts[name],
    decreases results.len(),
{
    if results.len() > 0 {
        let rest = results.drop_last();
        assert forall|j: int| 0 <= j < rest.len() implies (#[trigger] rest[j]).namespace@
            != name by {
            assert(rest[j] == results[j]);
        }
        unchecked_backends_keep_their_failures(counts, rest, name);
        assert(results[results.len() - 1].namespace@ != name);
    }
}

/// Where two checks follow each other, the second one begins with the failures
/// that the first one left.
pub proof fn failures_add_up_over_checks(
    counts: Map<Seq<char>, nat>,
    first: Seq<BackendHealth>,
    second: Seq<BackendHealth>,
)
    ensures
        counts_after(counts, first + second) == counts_after(counts_after(counts, first), second),
    decreases second.len(),
{
    if second.len() == 0 {
        assert(first + second =~= first);
    } else {
        failures_add_up_over_checks(counts, first, second.drop_last());
        assert((first + second).drop_last() =~= first + second.drop_last());
    }
}

/// The status of a backend tells what the check found: its namespace, its
/// health, the time, the failures in a row, `ping failed` exactly where it did
/// not respond, and the transport where one is known.
pub proof fn statuses_tell_what_was_found(
    status: BackendStatus,
    result: BackendHealth,
    counts: Map<Seq<char>, nat>,
    now: Timestamp,
    meta: Map<Seq<char>, BackendMeta>,
)
    requires
        is_status(status, result, counts, now, meta),
    ensures
        status.namespace@ == result.namespace@,
        status.healthy == result.healthy,
        status.last_checked_at == Some(now),
        result.healthy ==> status.consecutive_failures == 0 && status.error is None,
        !result.healthy ==> status.error is Some && status.error->0@ == "ping failed"@,
        !result.healthy && counts.contains_key(result.namespace@) ==> status.consecutive_failures
            == counts[result.namespace@] + 1,
        !result.healthy && !counts.contains_key(result.namespace@) ==> status.consecutive_failures
            == 1,
        meta.contains_key(result.namespace@) ==> status.transport is Some && status.transport->0@
            == meta[result.namespace@].transport@,
        !meta.contains_key(result.namespace@) ==> status.transport is None,
{
}

/// Counts keep their numbers.
pub proof fn counts_keep_their_numbers(map: Map<Seq<char>, u32>, name: Seq<char>)
    ensures
        count_map(map).contains_key(name) <==> map.contains_key(name),
        map.contains_key(name) ==> count_map(map)[name] == map[name],
{
}

/// All backends together are `healthy` exactly where each one is, and else
/// `degraded`.
pub proof fn health_is_told_in_a_word(statuses: Seq<BackendStatus>)
    ensures
        (forall|i: int| 0 <= i < statuses.len() ==> (#[trigger] statuses[i]).healthy)
            ==> health_word(all_healthy(statuses)) == "healthy"@,
        !(forall|i: int| 0 <= i < statuses.len() ==> (#[trigger] statuses[i]).healthy)
            ==> health_word(all_healthy(statuses)) == "degraded"@,
{
}

/// One backend more at the end is reported, by its namespace, behind the
/// others where it is not healthy, and not reported where it is.
pub proof fn unhealthy_backends_are_reported_in_order(
    statuses: Seq<BackendStatus>,
    status: BackendStatus,
)
    ensures
        unhealthy(Seq::empty()) == Seq::<Seq<char>>::empty(),
        status.healthy ==> unhealthy(statuses.push(status)) == unhealthy(statuses),
        !status.healthy ==> unhealthy(statuses.push(status)) == unhealthy(statuses).push(
            status.namespace@,
        ),
{
    let sick = |s: BackendStatus| !s.healthy;
    reveal(Seq::filter);
    assert(statuses.push(status).drop_last() =~= statuses);
    assert(unhealthy(Seq::empty()) =~= Seq::<Seq<char>>::empty());
    if status.healthy {
        assert(unhealthy(statuses.push(status)) =~= unhealthy(statuses));
    } else {
        assert(unhealthy(statuses.push(status)) =~= unhealthy(statuses).push(status.namespace@));
    }
}

} // verus!
