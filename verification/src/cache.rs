//! Response caching middleware for the proxy.
//!
//! Caches `ReadResource` and `CallTool` responses with per-backend TTL.
//! Cache keys are derived from the request type, name/URI, and arguments.

use vstd::prelude::*;

use crate::config::BackendCacheConfig;
use crate::keys::{are_identical, key_of, request_key};
use crate::protocol::{Answer, McpRequest, Request, RequestId};
use crate::text::starts_with;

verus! {

#[verifier::external_type_specification]
#[verifier::external_body]
#[verifier::reject_recursive_types(K)]
#[verifier::reject_recursive_types(V)]
#[verifier::reject_recursive_types(S)]
pub struct ExCache<K, V, S>(moka::future::Cache<K, V, S>);

#[verifier::external_type_specification]
#[verifier::external_body]
pub struct ExRouterResponse(tower_mcp::RouterResponse);

/// The number of entries to which a cache is limited.
pub uninterp spec fn cache_capacity(
    cache: moka::future::Cache<String, tower_mcp::RouterResponse>,
) -> Option<u64>;

/// The seconds for which a cache keeps an entry.
pub uninterp spec fn cache_ttl_seconds(
    cache: moka::future::Cache<String, tower_mcp::RouterResponse>,
) -> Option<u64>;

/// The longest time for which a cache can be told to keep entries, in seconds:
/// a thousand years of 365 days.
pub const MAX_TTL_SECONDS: u64 = 31_536_000_000;

/// `moka::future::Cache::builder` with `max_capacity`, `time_to_live` and
/// `build`: a cache with these two limits. `build` panics on a time to live of
/// more than a thousand years.
#[verifier::external_body]
fn new_cache(max_entries: u64, ttl_seconds: u64) -> (cache: moka::future::Cache<
    String,
    tower_mcp::RouterResponse,
>)
    requires
        ttl_seconds <= MAX_TTL_SECONDS,
    ensures
        cache_capacity(cache) == Some(max_entries),
        cache_ttl_seconds(cache) == Some(ttl_seconds),
{
    moka::future::Cache::builder()
        .max_capacity(max_entries)
        .time_to_live(std::time::Duration::from_secs(ttl_seconds))
        .build()
}

/// `moka::future::Cache::entry_count`: an estimate of the number of entries.
/// It depends on time and on maintenance that is still to be done, so nothing
/// is stated of it.
#[verifier::external_body]
fn entry_count(cache: &moka::future::Cache<String, tower_mcp::RouterResponse>) -> (count: u64) {
    cache.entry_count()
}

/// `moka::future::Cache::invalidate_all`: later reads give back none of the
/// entries that were put in before. What a read gives back also depends on
/// time, so nothing is stated of the entries.
#[verifier::external_body]
fn invalidate_all(cache: &moka::future::Cache<String, tower_mcp::RouterResponse>) {
    cache.invalidate_all()
}

/// Per-backend cache with separate resource and tool caches (different TTLs).
pub struct BackendCache {
    /// Backend namespace this cache covers.
    pub namespace: String,
    /// Cached resource reads.
    pub resource_cache: Option<moka::future::Cache<String, tower_mcp::RouterResponse>>,
    /// Cached tool calls.
    pub tool_cache: Option<moka::future::Cache<String, tower_mcp::RouterResponse>>,
    /// Hit/miss counters.
    pub stats: CacheStats,
}

/// Hit/miss counters for a backend cache.
#[derive(Debug, Clone, Copy)]
pub struct CacheStats {
    /// Total cache hits.
    pub hits: u64,
    /// Total cache misses.
    pub misses: u64,
}

impl CacheStats {
    /// Counters at zero.
    pub fn new() -> (stats: CacheStats)
        ensures
            stats.hits == 0,
            stats.misses == 0,
    {
        CacheStats { hits: 0, misses: 0 }
    }
}

/// Snapshot of cache statistics for a single backend.
///
/// Returned by [`CacheHandle::stats()`] to report hit/miss rates
/// and entry counts per cached namespace.
#[derive(Debug)]
pub struct CacheStatsSnapshot {
    /// Backend namespace this cache covers.
    pub namespace: String,
    /// Total cache hits.
    pub hits: u64,
    /// Total cache misses.
    pub misses: u64,
    /// Current number of cached entries.
    pub entry_count: u64,
}

impl CacheStatsSnapshot {
    /// The number of lookups of which the hits are a fraction.
    pub fn lookups(&self) -> (total: u128)
        ensures
            total == self.hits + self.misses,
    {
        self.hits as u128 + self.misses as u128
    }
}

/// Where the answer to a request is cached.
#[derive(Debug)]
pub struct CacheSlot {
    /// The position of the backend among those with a cache.
    pub backend: usize,
    /// Whether it is among the tool calls, else it is among the resource reads.
    pub tool: bool,
    /// The key.
    pub key: String,
}

/// The caches of all backends that have one.
pub struct CacheHandle {
    /// The caches, in the order of the backends.
    pub caches: Vec<BackendCache>,
}

/// A cache with the limits of a configuration: none for a time to live of zero.
pub open spec fn cache_with(
    cache: Option<moka::future::Cache<String, tower_mcp::RouterResponse>>,
    max_entries: u64,
    ttl_seconds: u64,
) -> bool {
    match cache {
        Some(c) => {
            &&& ttl_seconds > 0
            &&& cache_capacity(c) == Some(max_entries)
            &&& cache_ttl_seconds(c) == Some(ttl_seconds)
        },
        None => ttl_seconds == 0,
    }
}

/// The backend at position `i` is the one whose caches count for a name: the
/// first one whose namespace the name begins with.
pub open spec fn covers(caches: Seq<BackendCache>, i: int, name: Seq<char>) -> bool {
    &&& 0 <= i < caches.len()
    &&& caches[i].namespace@.is_prefix_of(name)
    &&& forall|j: int| 0 <= j < i ==> !(#[trigger] caches[j]).namespace@.is_prefix_of(name)
}

/// The name by which the backend of a request is found, and whether the
/// request is a tool call. Only tool calls and resource reads are cached.
pub open spec fn cached_name(request: McpRequest) -> Option<(Seq<char>, bool)> {
    match request {
        McpRequest::CallTool(params) => Some((params.name@, true)),
        McpRequest::ReadResource(params) => Some((params.uri@, false)),
        _ => None,
    }
}

/// The backend has a cache for tool calls, or for resource reads.
pub open spec fn has_cache(cache: BackendCache, tool: bool) -> bool {
    if tool {
        cache.tool_cache is Some
    } else {
        cache.resource_cache is Some
    }
}

/// A request is answered from the cache of the backend at position `i`.
pub open spec fn cached_at(caches: Seq<BackendCache>, request: McpRequest, i: int) -> bool {
    cached_name(request) matches Some((name, tool)) && covers(caches, i, name) && has_cache(
        caches[i],
        tool,
    )
}

/// Where the answer to a request is cached.
pub ghost struct SlotView {
    /// The position of the backend among those with a cache.
    pub backend: int,
    /// Whether it is among the tool calls, else it is among the resource reads.
    pub tool: bool,
    /// The key.
    pub key: Seq<char>,
}

impl View for CacheSlot {
    type V = SlotView;

    open spec fn view(&self) -> SlotView {
        SlotView { backend: self.backend as int, tool: self.tool, key: self.key@ }
    }
}

/// Where the answer to a request is cached, `None` for a request whose answer
/// is not.
pub open spec fn slot_of(caches: Seq<BackendCache>, request: McpRequest) -> Option<SlotView> {
    match (cached_name(request), key_of(request)) {
        (Some((_, tool)), Some(key)) => if exists|i: int| cached_at(caches, request, i) {
            let backend = choose|i: int| cached_at(caches, request, i);
            Some(SlotView { backend, tool, key })
        } else {
            None
        },
        _ => None,
    }
}

fn cover(caches: &Vec<BackendCache>, name: &str) -> (at: Option<usize>)
    ensures
        match at {
            Some(i) => covers(caches@, i as int, name@),
            None => forall|i: int| !covers(caches@, i, name@),
        },
{
    let mut i: usize = 0;
    while i < caches.len()
        invariant
            i <= caches@.len(),
            forall|j: int| 0 <= j < i ==> !(#[trigger] caches@[j]).namespace@.is_prefix_of(name@),
        decreases caches@.len() - i,
    {
        if starts_with(name, caches[i].namespace.as_str()) {
            return Some(i);
        }
        i = i + 1;
    }
    None
}

proof fn lemma_one_covers(caches: Seq<BackendCache>, i: int, j: int, name: Seq<char>)
    requires
        covers(caches, i, name),
        covers(caches, j, name),
    ensures
        i == j,
{
    if i < j {
        assert(!caches[i].namespace@.is_prefix_of(name));
    } else if j < i {
        assert(!caches[j].namespace@.is_prefix_of(name));
    }
}

impl CacheHandle {
    /// The caches for a configuration per namespace.
    pub fn new(configs: Vec<(String, BackendCacheConfig)>) -> (handle: CacheHandle)
        requires
            forall|i: int|
                0 <= i < configs@.len() ==> (#[trigger] configs@[i]).1.resource_ttl_seconds
                    <= MAX_TTL_SECONDS && configs@[i].1.tool_ttl_seconds <= MAX_TTL_SECONDS,
        ensures
            handle.caches@.len() == configs@.len(),
            forall|i: int|
                0 <= i < configs@.len() ==> {
                    let config = configs@[i].1;
                    let cache = #[trigger] handle.caches@[i];
                    &&& cache.namespace@ == configs@[i].0@
                    &&& cache_with(
                        cache.resource_cache,
                        config.max_entries,
                        config.resource_ttl_seconds,
                    )
                    &&& cache_with(cache.tool_cache, config.max_entries, config.tool_ttl_seconds)
                    &&& cache.stats.hits == 0
                    &&& cache.stats.misses == 0
                },
    {
        let mut caches: Vec<BackendCache> = Vec::new();
        let mut i: usize = 0;
        while i < configs.len()
            invariant
                i <= configs@.len(),
                forall|i: int|
                    0 <= i < configs@.len() ==> (#[trigger] configs@[i]).1.resource_ttl_seconds
                        <= MAX_TTL_SECONDS && configs@[i].1.tool_ttl_seconds <= MAX_TTL_SECONDS,
                caches@.len() == i,
                forall|j: int|
                    0 <= j < i ==> {
                        let config = configs@[j].1;
                        let cache = #[trigger] caches@[j];
                        &&& cache.namespace@ == configs@[j].0@
                        &&& cache_with(
                            cache.resource_cache,
                            config.max_entries,
                            config.resource_ttl_seconds,
                        )
                        &&& cache_with(
                            cache.tool_cache,
                            config.max_entries,
                            config.tool_ttl_seconds,
                        )
                        &&& cache.stats.hits == 0
                        &&& cache.stats.misses == 0
                    },
            decreases configs@.len() - i,
        {
            let config: BackendCacheConfig = configs[i].1;
            let resource_cache = if config.resource_ttl_seconds > 0 {
                Some(new_cache(config.max_entries, config.resource_ttl_seconds))
            } else {
                None
            };
            let tool_cache = if config.tool_ttl_seconds > 0 {
                Some(new_cache(config.max_entries, config.tool_ttl_seconds))
            } else {
                None
            };
            caches.push(
                BackendCache {
                    namespace: configs[i].0.clone(),
                    resource_cache,
                    tool_cache,
                    stats: CacheStats::new(),
                },
            );
            i = i + 1;
        }
        CacheHandle { caches }
    }

    /// Extract cache key and find the matching backend cache.
    pub fn resolve_cache(&self, request: &McpRequest) -> (slot: Option<CacheSlot>)
        ensures
            match slot {
                Some(s) => {
                    &&& slot_of(self.caches@, *request) == Some(s@)
                    &&& cached_at(self.caches@, *request, s.backend as int)
                },
                None => {
                    &&& slot_of(self.caches@, *request) is None
                    &&& forall|i: int| !cached_at(self.caches@, *request, i)
                },
            },
    {
        let (name, tool) = match request {
            McpRequest::CallTool(params) => (params.name.as_str(), true),
            McpRequest::ReadResource(params) => (params.uri.as_str(), false),
            _ => return None,
        };
        let backend: usize = match cover(&self.caches, name) {
            Some(i) => i,
            None => return None,
        };
        proof {
            assert forall|j: int| covers(self.caches@, j, name@) implies j == backend by {
                lemma_one_covers(self.caches@, backend as int, j, name@);
            }
        }
        let enabled = if tool {
            self.caches[backend].tool_cache.is_some()
        } else {
            self.caches[backend].resource_cache.is_some()
        };
        if !enabled {
            return None;
        }
        assert(cached_at(self.caches@, *request, backend as int));
        match request_key(request) {
            Some(key) => Some(CacheSlot { backend, tool, key }),
            None => None,
        }
    }

    /// The cache in which a slot lies.
    pub fn cache(&self, slot: &CacheSlot) -> (cache: Option<
        &moka::future::Cache<String, tower_mcp::RouterResponse>,
    >)
        ensures
            match cache {
                Some(c) => {
                    &&& slot.backend < self.caches@.len()
                    &&& if slot.tool {
                        self.caches@[slot.backend as int].tool_cache == Some(*c)
                    } else {
                        self.caches@[slot.backend as int].resource_cache == Some(*c)
                    }
                },
                None => slot.backend >= self.caches@.len() || !has_cache(
                    self.caches@[slot.backend as int],
                    slot.tool,
                ),
            },
    {
        if slot.backend >= self.caches.len() {
            return None;
        }
        let cache = &self.caches[slot.backend];
        if slot.tool {
            cache.tool_cache.as_ref()
        } else {
            cache.resource_cache.as_ref()
        }
    }

    /// What a lookup leads to: an entry that was found is the answer, under
    /// the identifier of the current request, and counts as a hit; else the
    /// request is forwarded, and counts as a miss.
    pub fn on_lookup<B>(
        &mut self,
        slot: &CacheSlot,
        request: &Request,
        found: Option<B>,
    ) -> (answer: Option<Answer<B>>)
        requires
            slot.backend < old(self).caches@.len(),
        ensures
            match (found, answer) {
                (Some(body), Some(a)) => a.id == request.id && a.body == body,
                (None, None) => true,
                _ => false,
            },
            final(self).caches@ == looked_up(
                old(self).caches@,
                slot.backend as int,
                found is Some,
            ),
    {
        let cache = &mut self.caches[slot.backend];
        match found {
            Some(body) => {
                cache.stats.hits = cache.stats.hits.wrapping_add(1);
                Some(Answer { id: request.id.clone(), body })
            },
            None => {
                cache.stats.misses = cache.stats.misses.wrapping_add(1);
                None
            },
        }
    }

    /// Get a snapshot of cache statistics for all backends.
    pub fn stats(&self) -> (stats: Vec<CacheStatsSnapshot>)
        ensures
            stats@.len() == self.caches@.len(),
            forall|i: int|
                0 <= i < stats@.len() ==> {
                    &&& (#[trigger] stats@[i]).namespace@ == self.caches@[i].namespace@
                    &&& stats@[i].hits == self.caches@[i].stats.hits
                    &&& stats@[i].misses == self.caches@[i].stats.misses
                    &&& self.caches@[i].resource_cache is None && self.caches@[i].tool_cache is None
                        ==> stats@[i].entry_count == 0
                },
    {
        let mut stats: Vec<CacheStatsSnapshot> = Vec::new();
        let mut i: usize = 0;
        while i < self.caches.len()
            invariant
                i <= self.caches@.len(),
                stats@.len() == i,
                forall|j: int|
                    0 <= j < i ==> {
                        &&& (#[trigger] stats@[j]).namespace@ == self.caches@[j].namespace@
                        &&& stats@[j].hits == self.caches@[j].stats.hits
                        &&& stats@[j].misses == self.caches@[j].stats.misses
                        &&& self.caches@[j].resource_cache is None
                            && self.caches@[j].tool_cache is None ==> stats@[j].entry_count == 0
                    },
            decreases self.caches@.len() - i,
        {
            let cache = &self.caches[i];
            let resources: u64 = match &cache.resource_cache {
                Some(c) => entry_count(c),
                None => 0,
            };
            let tools: u64 = match &cache.tool_cache {
                Some(c) => entry_count(c),
                None => 0,
            };
            stats.push(
                CacheStatsSnapshot {
                    namespace: cache.namespace.clone(),
                    hits: cache.stats.hits,
                    misses: cache.stats.misses,
                    entry_count: resources.saturating_add(tools),
                },
            );
            i = i + 1;
        }
        stats
    }

    /// Clear all cache entries and reset stats.
    pub fn clear(&mut self)
        ensures
            final(self).caches@.len() == old(self).caches@.len(),
            forall|i: int|
                0 <= i < old(self).caches@.len() ==> #[trigger] final(self).caches@[i]
                    == (BackendCache {
                    stats: CacheStats { hits: 0, misses: 0 },
                    ..old(self).caches@[i]
                }),
    {
        let mut i: usize = 0;
        while i < self.caches.len()
            invariant
                i <= self.caches@.len(),
                self.caches@.len() == old(self).caches@.len(),
                forall|j: int|
                    0 <= j < i ==> #[trigger] self.caches@[j] == (BackendCache {
                        stats: CacheStats { hits: 0, misses: 0 },
                        ..old(self).caches@[j]
                    }),
                forall|j: int|
                    i <= j < self.caches@.len() ==> #[trigger] self.caches@[j] == old(
                        self,
                    ).caches@[j],
            decreases self.caches@.len() - i,
        {
            if let Some(cache) = &self.caches[i].resource_cache {
                invalidate_all(cache);
            }
            if let Some(cache) = &self.caches[i].tool_cache {
                invalidate_all(cache);
            }
            let cache = &mut self.caches[i];
            cache.stats = CacheStats::new();
            i = i + 1;
        }
    }
}

/// The counters after one more lookup.
pub open spec fn counted(stats: CacheStats, hit: bool) -> CacheStats {
    if hit {
        CacheStats { hits: stats.hits.wrapping_add(1), ..stats }
    } else {
        CacheStats { misses: stats.misses.wrapping_add(1), ..stats }
    }
}

/// The caches after a lookup in those of the backend at position `i`.
pub open spec fn looked_up(caches: Seq<BackendCache>, i: int, hit: bool) -> Seq<BackendCache> {
    caches.update(i, BackendCache { stats: counted(caches[i].stats, hit), ..caches[i] })
}

/// Whether a response is put into the cache: only successful ones are.
pub fn is_cacheable<T, E>(response: &Result<T, E>) -> (cacheable: bool)
    ensures
        cacheable == (response is Ok),
{
    response.is_ok()
}

/// Every lookup counts once: as a hit or as a miss.
pub proof fn every_lookup_counts_once(stats: CacheStats, hit: bool)
    requires
        stats.hits < u64::MAX,
        stats.misses < u64::MAX,
    ensures
        counted(stats, hit).hits == stats.hits + if hit {
            1int
        } else {
            0
        },
        counted(stats, hit).misses == stats.misses + if hit {
            0int
        } else {
            1
        },
{
}

/// The caches with the entries that reads of them give back.
pub ghost struct CacheState<B> {
    /// The caches.
    pub caches: Seq<BackendCache>,
    /// The entries that are kept at present.
    pub entries: Map<SlotView, B>,
}

/// What comes of a request.
pub ghost struct Exchange<B, E> {
    /// The caches afterwards.
    pub state: CacheState<B>,
    /// The identifier under which the request is answered.
    pub id: RequestId,
    /// The answer.
    pub reply: Result<B, E>,
    /// Whether the backend was asked.
    pub forwarded: bool,
}

/// What comes of a request to which the backend would reply. A lookup in its
/// slot gives back the entry there; where there is none, the reply of the
/// backend is the answer, and a successful one becomes the entry.
pub open spec fn exchange<B, E>(
    state: CacheState<B>,
    request: Request,
    reply: Result<B, E>,
) -> Exchange<B, E> {
    match slot_of(state.caches, request.inner) {
        None => Exchange { state, id: request.id, reply, forwarded: true },
        Some(slot) => {
            let hit = state.entries.contains_key(slot);
            let caches = looked_up(state.caches, slot.backend, hit);
            if hit {
                Exchange {
                    state: CacheState { caches, ..state },
                    id: request.id,
                    reply: Ok(state.entries[slot]),
                    forwarded: false,
                }
            } else {
                let entries = match reply {
                    Ok(body) => state.entries.insert(slot, body),
                    Err(_) => state.entries,
                };
                Exchange {
                    state: CacheState { caches, entries },
                    id: request.id,
                    reply,
                    forwarded: true,
                }
            }
        },
    }
}

/// A lookup does not change where answers are cached.
proof fn lemma_slots_stay(caches: Seq<BackendCache>, i: int, hit: bool, request: McpRequest)
    requires
        0 <= i < caches.len(),
    ensures
        slot_of(looked_up(caches, i, hit), request) == slot_of(caches, request),
{
    let after = looked_up(caches, i, hit);
    assert forall|j: int| cached_at(after, request, j) <==> cached_at(caches, request, j) by {
        if cached_name(request) is Some {
            let (name, tool) = cached_name(request)->0;
            if covers(caches, j, name) {
                assert forall|k: int| 0 <= k < j implies !(
                #[trigger] after[k]).namespace@.is_prefix_of(name) by {
                    assert(!caches[k].namespace@.is_prefix_of(name));
                }
            }
            if covers(after, j, name) {
                assert forall|k: int| 0 <= k < j implies !(
                #[trigger] caches[k]).namespace@.is_prefix_of(name) by {
                    assert(!after[k].namespace@.is_prefix_of(name));
                }
            }
        }
    }
    if exists|j: int| cached_at(caches, request, j) {
        let a = choose|j: int| cached_at(caches, request, j);
        let b = choose|j: int| cached_at(after, request, j);
        assert(cached_at(after, request, a));
        let (name, _) = cached_name(request)->0;
        lemma_one_covers(caches, a, b, name);
    } else if exists|j: int| cached_at(after, request, j) {
        let b = choose|j: int| cached_at(after, request, j);
        assert(cached_at(caches, request, b));
    }
}

/// Identical requests have one slot.
proof fn lemma_one_slot(caches: Seq<BackendCache>, a: McpRequest, b: McpRequest)
    requires
        are_identical(a, b),
    ensures
        slot_of(caches, a) == slot_of(caches, b),
{
    assert forall|i: int| cached_at(caches, a, i) <==> cached_at(caches, b, i) by {}
    if exists|i: int| cached_at(caches, a, i) {
        let i = choose|i: int| cached_at(caches, a, i);
        let j = choose|j: int| cached_at(caches, b, j);
        assert(cached_at(caches, b, i));
        let (name, _) = cached_name(a)->0;
        lemma_one_covers(caches, i, j, name);
    } else if exists|i: int| cached_at(caches, b, i) {
        let j = choose|j: int| cached_at(caches, b, j);
        assert(cached_at(caches, a, j));
    }
}

/// Of two identical requests that are cached, the second one does not reach
/// the backend where the first one was answered successfully: it gets the same
/// answer, under its own identifier, and counts as a hit. Where the first one
/// failed, nothing is kept, and the second one is forwarded and counts as a
/// miss. This is for as long as entries are kept: until their time to live is
/// over, the caches are cleared, or room is needed.
pub proof fn replies_are_given_back<B, E>(
    state: CacheState<B>,
    first: Request,
    first_reply: Result<B, E>,
    second: Request,
    second_reply: Result<B, E>,
)
    requires
        slot_of(state.caches, first.inner) is Some,
        are_identical(first.inner, second.inner),
    ensures
        ({
            let i = slot_of(state.caches, first.inner)->0.backend;
            let one = exchange(state, first, first_reply);
            let two = exchange(one.state, second, second_reply);
            &&& two.id == second.id
            &&& one.reply matches Ok(body) ==> {
                &&& !two.forwarded
                &&& two.reply == Ok::<B, E>(body)
                &&& two.state.caches == looked_up(one.state.caches, i, true)
            }
            &&& one.reply is Err ==> {
                &&& one.state.entries == state.entries
                &&& two.forwarded
                &&& two.reply == second_reply
                &&& two.state.caches == looked_up(one.state.caches, i, false)
            }
        }),
{
    let slot = slot_of(state.caches, first.inner)->0;
    assert(cached_at(state.caches, first.inner, slot.backend));
    lemma_slots_stay(
        state.caches,
        slot.backend,
        state.entries.contains_key(slot),
        first.inner,
    );
    let one = exchange(state, first, first_reply);
    lemma_one_slot(one.state.caches, first.inner, second.inner);
}

/// A request that has no slot is forwarded, and no counter and no entry
/// changes.
pub proof fn uncached_requests_are_forwarded<B, E>(
    state: CacheState<B>,
    request: Request,
    reply: Result<B, E>,
)
    requires
        forall|i: int| !cached_at(state.caches, request.inner, i),
    ensures
        exchange(state, request, reply) == (Exchange {
            state,
            id: request.id,
            reply,
            forwarded: true,
        }),
{
}

/// A time to live of zero switches a cache off: what the backend covers is not
/// answered from it.
pub proof fn disabled_caches_answer_nothing(
    caches: Seq<BackendCache>,
    request: McpRequest,
    i: int,
    max_entries: u64,
)
    requires
        0 <= i < caches.len(),
        request is CallTool ==> cache_with(caches[i].tool_cache, max_entries, 0),
        request is ReadResource ==> cache_with(caches[i].resource_cache, max_entries, 0),
    ensures
        !cached_at(caches, request, i),
{
}

/// Requests other than tool calls and resource reads are never cached.
pub proof fn other_requests_are_not_cached(
    caches: Seq<BackendCache>,
    request: McpRequest,
    i: int,
)
    requires
        !(request is CallTool),
        !(request is ReadResource),
    ensures
        !cached_at(caches, request, i),
{
}

/// A tool call has its slot among the tool calls of the backend whose
/// namespace is the first one that the tool's name begins with, under the key
/// of the call, where that backend caches tool calls, and else none.
pub proof fn calls_are_cached_by_their_backend(
    caches: Seq<BackendCache>,
    request: McpRequest,
    i: int,
)
    requires
        request is CallTool,
        0 <= i < caches.len(),
        caches[i].namespace@.is_prefix_of(request->CallTool_0.name@),
        forall|j: int|
            0 <= j < i ==> !(#[trigger] caches[j]).namespace@.is_prefix_of(
                request->CallTool_0.name@,
            ),
    ensures
        caches[i].tool_cache is Some ==> slot_of(caches, request) == Some(
            SlotView { backend: i, tool: true, key: key_of(request)->0 },
        ),
        caches[i].tool_cache is None ==> slot_of(caches, request) is None,
{
    let name = request->CallTool_0.name@;
    assert(covers(caches, i, name));
    assert forall|j: int| cached_at(caches, request, j) implies j == i by {
        lemma_one_covers(caches, i, j, name);
    }
    assert(caches[i].tool_cache is Some ==> cached_at(caches, request, i));
}

/// A resource read has its slot among the resource reads of the backend whose
/// namespace is the first one that the URI begins with, under the key of the
/// read, where that backend caches resource reads, and else none.
pub proof fn reads_are_cached_by_their_backend(
    caches: Seq<BackendCache>,
    request: McpRequest,
    i: int,
)
    requires
        request is ReadResource,
        0 <= i < caches.len(),
        caches[i].namespace@.is_prefix_of(request->ReadResource_0.uri@),
        forall|j: int|
            0 <= j < i ==> !(#[trigger] caches[j]).namespace@.is_prefix_of(
                request->ReadResource_0.uri@,
            ),
    ensures
        caches[i].resource_cache is Some ==> slot_of(caches, request) == Some(
            SlotView { backend: i, tool: false, key: key_of(request)->0 },
        ),
        caches[i].resource_cache is None ==> slot_of(caches, request) is None,
{
    let uri = request->ReadResource_0.uri@;
    assert(covers(caches, i, uri));
    assert forall|j: int| cached_at(caches, request, j) implies j == i by {
        lemma_one_covers(caches, i, j, uri);
    }
    assert(caches[i].resource_cache is Some ==> cached_at(caches, request, i));
}

/// What is in no backend's namespace has no slot, nor has a request that is
/// neither a tool call nor a resource read.
pub proof fn other_requests_have_no_slot(caches: Seq<BackendCache>, request: McpRequest)
    requires
        request matches McpRequest::CallTool(params) ==> forall|i: int|
            0 <= i < caches.len() ==> !(#[trigger] caches[i]).namespace@.is_prefix_of(params.name@),
        request matches McpRequest::ReadResource(params) ==> forall|i: int|
            0 <= i < caches.len() ==> !(#[trigger] caches[i]).namespace@.is_prefix_of(params.uri@),
    ensures
        slot_of(caches, request) is None,
{
}

/// A request is answered from the caches of a backend exactly where its slot
/// is there.
pub proof fn slots_lie_where_requests_are_cached(
    caches: Seq<BackendCache>,
    request: McpRequest,
    i: int,
)
    ensures
        cached_at(caches, request, i) <==> slot_of(caches, request) is Some && slot_of(
            caches,
            request,
        )->0.backend == i,
{
    if cached_at(caches, request, i) {
        let (name, _) = cached_name(request)->0;
        let j = choose|j: int| cached_at(caches, request, j);
        lemma_one_covers(caches, i, j, name);
    }
}

/// A slot says what it holds.
pub proof fn slots_say_what_they_hold(slot: CacheSlot)
    ensures
        slot@.backend == slot.backend,
        slot@.tool == slot.tool,
        slot@.key == slot.key@,
{
}

/// A lookup changes one counter of one backend, and nothing else of the
/// caches.
pub proof fn lookups_change_one_counter(caches: Seq<BackendCache>, i: int, hit: bool, j: int)
    requires
        0 <= i < caches.len(),
        0 <= j < caches.len(),
    ensures
        looked_up(caches, i, hit).len() == caches.len(),
        looked_up(caches, i, hit)[j].namespace == caches[j].namespace,
        looked_up(caches, i, hit)[j].resource_cache == caches[j].resource_cache,
        looked_up(caches, i, hit)[j].tool_cache == caches[j].tool_cache,
        j != i ==> looked_up(caches, i, hit)[j].stats == caches[j].stats,
        hit ==> looked_up(caches, i, hit)[i].stats.misses == caches[i].stats.misses,
        hit && caches[i].stats.hits < u64::MAX ==> looked_up(caches, i, hit)[i].stats.hits
            == caches[i].stats.hits + 1,
        hit && caches[i].stats.hits == u64::MAX ==> looked_up(caches, i, hit)[i].stats.hits == 0,
        !hit ==> looked_up(caches, i, hit)[i].stats.hits == caches[i].stats.hits,
        !hit && caches[i].stats.misses < u64::MAX ==> looked_up(caches, i, hit)[i].stats.misses
            == caches[i].stats.misses + 1,
        !hit && caches[i].stats.misses == u64::MAX ==> looked_up(caches, i, hit)[i].stats.misses
            == 0,
{
}

/// There is a cache exactly where the time to live is not zero, and it has the
/// limits that it is made with.
pub proof fn caches_have_their_limits(
    cache: Option<moka::future::Cache<String, tower_mcp::RouterResponse>>,
    max_entries: u64,
    ttl_seconds: u64,
)
    requires
        cache_with(cache, max_entries, ttl_seconds),
    ensures
        cache is Some <==> ttl_seconds > 0,
        cache is Some ==> cache_capacity(cache->0) == Some(max_entries),
        cache is Some ==> cache_ttl_seconds(cache->0) == Some(ttl_seconds),
{
}

/// A backend has a cache for tool calls where it holds one, and for resource
/// reads where it holds one.
pub proof fn caches_are_told_apart(cache: BackendCache)
    ensures
        has_cache(cache, true) <==> cache.tool_cache is Some,
        has_cache(cache, false) <==> cache.resource_cache is Some,
{
}

} // verus!
