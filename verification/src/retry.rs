//! Retry middleware for per-backend request retries with exponential backoff.
//!
//! Only retries requests that result in MCP error responses with transient
//! error codes (internal errors, timeouts). Tool-not-found and other client
//! errors are not retried.
//!
//! # Retry Budget
//!
//! When `budget_percent` is configured, retries are capped as a percentage of
//! total request volume over a 10-second rolling window. This prevents retry
//! storms where many failing requests simultaneously retry and overwhelm the
//! backend. A `min_retries_per_sec` floor (default: 10) ensures low-traffic
//! backends can still retry.

use vstd::arithmetic::power2::*;
use vstd::prelude::*;

use crate::config::RetryConfig;
use crate::float::Float;

verus! {

/// The length of the rolling window in milliseconds.
pub const WINDOW_MS: u64 = 10_000;

/// Retry budget that tracks requests and retries across a rolling window.
///
/// Used to cap retries as a percentage of total request volume, preventing
/// retry storms during widespread backend failures.
#[derive(Debug, Clone, Copy)]
pub struct RetryBudget {
    /// The percentage of requests that can be retries.
    pub budget_percent: Float,
    /// Retries per second that are allowed regardless of the percentage.
    pub min_retries_per_sec: u32,
    /// Total requests seen in the current window.
    pub requests: u64,
    /// Retries issued in the current window.
    pub retries: u64,
    /// Window start time as milliseconds since an arbitrary epoch.
    pub window_start_ms: u64,
}

/// A budget at a time: where the window has expired, a new one begins with its
/// counters at zero.
pub open spec fn rotated(budget: RetryBudget, now_ms: u64) -> RetryBudget {
    if now_ms >= budget.window_start_ms + WINDOW_MS {
        RetryBudget { requests: 0, retries: 0, window_start_ms: now_ms, ..budget }
    } else {
        budget
    }
}

/// A budget after one more request.
pub open spec fn recorded(budget: RetryBudget, now_ms: u64) -> RetryBudget {
    let b = rotated(budget, now_ms);
    RetryBudget { requests: b.requests.wrapping_add(1), ..b }
}

/// A budget after a retry was allowed, or not.
pub open spec fn settled(budget: RetryBudget, allowed: bool) -> RetryBudget {
    if allowed {
        RetryBudget { retries: (budget.retries + 1) as u64, ..budget }
    } else {
        budget
    }
}

/// The number of retries that a window allows regardless of the percentage.
pub open spec fn retry_floor(budget: RetryBudget) -> int {
    budget.min_retries_per_sec * WINDOW_MS / 1000
}

/// A budget allows one more retry: the window has not had as many as it allows
/// regardless of the percentage, or the ratio of retries to requests and
/// retries together is below the percentage with this retry in it.
pub open spec fn allows(budget: RetryBudget) -> bool {
    budget.retries < retry_floor(budget) || budget.budget_percent.exceeds_ratio(
        budget.retries as nat + 1,
        budget.requests as nat + budget.retries as nat + 1,
    )
}

/// The counts with one more retry can be held, where they are looked at.
pub open spec fn countable(budget: RetryBudget) -> bool {
    budget.retries >= retry_floor(budget) ==> budget.requests + budget.retries < u64::MAX
}

impl RetryBudget {
    /// Create a new retry budget.
    pub fn new(budget_percent: Float, min_retries_per_sec: u32, now_ms: u64) -> (budget:
        RetryBudget)
        ensures
            budget == (RetryBudget {
                budget_percent,
                min_retries_per_sec,
                requests: 0,
                retries: 0,
                window_start_ms: now_ms,
            }),
    {
        RetryBudget {
            budget_percent,
            min_retries_per_sec,
            requests: 0,
            retries: 0,
            window_start_ms: now_ms,
        }
    }

    /// Record that a request was seen. Called for every request attempt.
    pub fn record_request(&mut self, now_ms: u64)
        ensures
            *final(self) == recorded(*old(self), now_ms),
    {
        self.maybe_rotate_window(now_ms);
        self.requests = self.requests.wrapping_add(1);
    }

    /// Check if a retry is allowed and, if so, record it.
    /// Returns `true` if the retry should proceed.
    pub fn allow_retry(&mut self, now_ms: u64) -> (allowed: bool)
        requires
            countable(rotated(*old(self), now_ms)),
        ensures
            allowed == allows(rotated(*old(self), now_ms)),
            *final(self) == settled(rotated(*old(self), now_ms), allowed),
    {
        self.maybe_rotate_window(now_ms);
        // Floor: always allow min_retries_per_sec scaled to window
        assert(self.min_retries_per_sec * WINDOW_MS <= 0xffff_ffff * 10_000);
        let min_retries: u64 = (self.min_retries_per_sec as u64 * WINDOW_MS) / 1000;
        if self.retries < min_retries {
            self.retries = self.retries + 1;
            return true;
        }
        // The ratio is looked at as it would be *after* adding this retry.

        let new_retries: u64 = self.retries + 1;
        let new_total: u64 = self.requests + new_retries;
        if self.budget_percent.is_above_ratio(new_retries, new_total) {
            self.retries = new_retries;
            true
        } else {
            false
        }
    }

    /// Rotate the window if it has expired, resetting counters.
    pub fn maybe_rotate_window(&mut self, now_ms: u64)
        ensures
            *final(self) == rotated(*old(self), now_ms),
    {
        if now_ms.saturating_sub(self.window_start_ms) >= WINDOW_MS {
            self.window_start_ms = now_ms;
            self.requests = 0;
            self.retries = 0;
        }
    }

    /// Get current stats for testing/observability.
    pub fn stats(&self) -> (stats: (u64, u64))
        ensures
            stats == (self.requests, self.retries),
    {
        (self.requests, self.retries)
    }
}

/// MCP-aware retry policy with exponential backoff. The retry budget is kept
/// beside it, as it is shared between the requests to a backend.
#[derive(Debug, Clone, Copy)]
pub struct McpRetryPolicy {
    /// How often a request is retried at most.
    pub max_retries: u32,
    /// How often the request was retried so far.
    pub attempts: u32,
    /// The backoff before the doubling, in milliseconds.
    pub initial_backoff_ms: u64,
    /// The longest backoff, in milliseconds.
    pub max_backoff_ms: u64,
}

/// The error code is that of an internal error or of a server error.
pub open spec fn retriable(code: i32) -> bool {
    code == -32603 || -32099 <= code <= -32000
}

/// Returns true if the MCP error code indicates a transient/retriable error.
pub fn is_retriable_error(code: i32) -> (is_retriable: bool)
    ensures
        is_retriable == retriable(code),
        code == -32603 ==> is_retriable,
        -32099 <= code <= -32000 ==> is_retriable,
        code < -32603 || -32603 < code < -32099 || -32000 < code ==> !is_retriable,
{
    // JSON-RPC internal error (-32603) and server errors (-32000 to -32099)
    // are potentially transient. Method not found, invalid params, etc. are not.
    code == -32603 || (-32099 <= code && code <= -32000)
}

/// The factor by which the backoff has grown after a number of attempts: it
/// doubles with each, up to the largest 32-bit number.
pub open spec fn growth(attempts: nat) -> nat {
    if attempts < 32 {
        pow2(attempts)
    } else {
        0xffff_ffff
    }
}

/// The backoff after a number of attempts, in milliseconds.
pub open spec fn backoff_ms(initial_ms: nat, max_ms: nat, attempts: nat) -> nat {
    if initial_ms * growth(attempts) <= max_ms {
        initial_ms * growth(attempts)
    } else {
        max_ms
    }
}

/// The grown backoff can be held as a duration: its seconds fit in 64 bits.
pub open spec fn holdable(initial_ms: nat, attempts: nat) -> bool {
    initial_ms * growth(attempts) < 1000 * 0x1_0000_0000_0000_0000
}

fn grow(attempts: u32) -> (factor: u64)
    ensures
        factor == growth(attempts as nat),
{
    if attempts >= 32 {
        return 0xffff_ffff;
    }
    let mut factor: u64 = 1;
    let mut i: u32 = 0;
    proof {
        lemma2_to64();
    }
    while i < attempts
        invariant
            i <= attempts < 32,
            factor == pow2(i as nat),
        decreases attempts - i,
    {
        proof {
            lemma_pow2_unfold((i + 1) as nat);
            lemma2_to64();
            if i < 31 {
                lemma_pow2_strictly_increases(i as nat, 31);
            }
        }
        factor = factor * 2;
        i = i + 1;
    }
    factor
}

impl McpRetryPolicy {
    /// Create a new retry policy from config, with its budget where it has one.
    pub fn from_config(config: &RetryConfig, now_ms: u64) -> (policy: (
        McpRetryPolicy,
        Option<RetryBudget>,
    ))
        ensures
            policy.0 == (McpRetryPolicy {
                max_retries: config.max_retries,
                attempts: 0,
                initial_backoff_ms: config.initial_backoff_ms,
                max_backoff_ms: config.max_backoff_ms,
            }),
            policy.1 == (match config.budget_percent {
                Some(percent) => Some(
                    RetryBudget {
                        budget_percent: percent,
                        min_retries_per_sec: config.min_retries_per_sec,
                        requests: 0,
                        retries: 0,
                        window_start_ms: now_ms,
                    },
                ),
                None => None,
            }),
    {
        let budget = match config.budget_percent {
            Some(percent) => Some(RetryBudget::new(percent, config.min_retries_per_sec, now_ms)),
            None => None,
        };
        (
            McpRetryPolicy {
                max_retries: config.max_retries,
                attempts: 0,
                initial_backoff_ms: config.initial_backoff_ms,
                max_backoff_ms: config.max_backoff_ms,
            },
            budget,
        )
    }

    /// The backoff of the policy, in milliseconds.
    pub open spec fn backoff(&self) -> nat {
        backoff_ms(
            self.initial_backoff_ms as nat,
            self.max_backoff_ms as nat,
            self.attempts as nat,
        )
    }

    /// The backoff of the policy, in milliseconds.
    pub fn backoff_duration(&self) -> (delay_ms: u64)
        requires
            holdable(self.initial_backoff_ms as nat, self.attempts as nat),
        ensures
            delay_ms == self.backoff(),
            delay_ms <= self.max_backoff_ms,
            self.attempts == 0 && self.initial_backoff_ms <= self.max_backoff_ms ==> delay_ms
                == self.initial_backoff_ms,
            self.attempts < 32 && self.initial_backoff_ms * pow2(self.attempts as nat)
                <= self.max_backoff_ms ==> delay_ms == self.initial_backoff_ms * pow2(
                self.attempts as nat,
            ),
    {
        proof {
            lemma2_to64();
        }
        let factor: u64 = grow(self.attempts);
        proof {
            lemma_growth_bound(self.attempts as nat);
            assert(self.initial_backoff_ms * factor <= 0xffff_ffff_ffff_ffff * 0xffff_ffff)
                by (nonlinear_arith)
                requires
                    self.initial_backoff_ms <= 0xffff_ffff_ffff_ffff,
                    factor <= 0xffff_ffff,
            ;
        }
        let backoff: u128 = self.initial_backoff_ms as u128 * factor as u128;
        if backoff <= self.max_backoff_ms as u128 {
            backoff as u64
        } else {
            self.max_backoff_ms
        }
    }

    /// The request is to be retried, as far as the budget allows it: it was not
    /// retried too often, and the response is an error that may be transient.
    pub open spec fn wants_retry(&self, error_code: Option<i32>) -> bool {
        &&& self.attempts < self.max_retries
        &&& error_code matches Some(code) && retriable(code)
    }

    /// Decides after a response whether its request is retried. `error_code`
    /// is the code of an error response. Returns the milliseconds to wait
    /// before the retry: the initial backoff before the first one, and twice as
    /// long before each later one, up to the maximum.
    ///
    /// Every attempt counts as a request in the budget.
    pub fn retry(
        &mut self,
        budget: &mut Option<RetryBudget>,
        now_ms: u64,
        error_code: Option<i32>,
    ) -> (delay_ms: Option<u64>)
        requires
            old(self).wants_retry(error_code) ==> holdable(
                old(self).initial_backoff_ms as nat,
                old(self).attempts as nat,
            ),
            old(self).wants_retry(error_code) ==> (*old(budget) matches Some(b) ==> countable(
                recorded(b, now_ms),
            )),
        ensures
            match delay_ms {
                Some(delay) => {
                    &&& old(self).wants_retry(error_code)
                    &&& *final(self) == (McpRetryPolicy {
                        attempts: (old(self).attempts + 1) as u32,
                        ..*old(self)
                    })
                    &&& delay == old(self).backoff()
                },
                None => *final(self) == *old(self),
            },
            *old(budget) is None ==> (delay_ms is Some <==> old(self).attempts < old(
                self,
            ).max_retries && (error_code matches Some(code) && (code == -32603 || -32099 <= code
                <= -32000))),
            match *old(budget) {
                None => {
                    &&& *final(budget) is None
                    &&& delay_ms is Some <==> old(self).wants_retry(error_code)
                },
                Some(b) => {
                    let r = recorded(b, now_ms);
                    &&& *final(budget) == Some(settled(r, delay_ms is Some))
                    &&& delay_ms is Some <==> old(self).wants_retry(error_code) && allows(r)
                },
            },
    {
        // Record the request in the budget (every attempt counts)
        if let Some(b) = budget {
            b.record_request(now_ms);
        }
        if self.attempts >= self.max_retries {
            return None;
        }
        let code: i32 = match error_code {
            Some(code) => code,
            None => return None,
        };
        if !is_retriable_error(code) {
            return None;
        }
        // Check budget before allowing retry

        if let Some(b) = budget {
            if !b.allow_retry(now_ms) {
                return None;
            }
        }
        let delay_ms: u64 = self.backoff_duration();
        self.attempts = self.attempts + 1;
        Some(delay_ms)
    }
}

proof fn lemma_growth_bound(attempts: nat)
    ensures
        1 <= growth(attempts) <= 0xffff_ffff,
{
    lemma2_to64();
    if attempts < 31 {
        lemma_pow2_strictly_increases(attempts, 31);
    }
    if attempts < 32 {
        lemma_pow2_pos(attempts);
    }
}

proof fn lemma_growth_increases(a: nat, b: nat)
    requires
        a <= b,
    ensures
        growth(a) <= growth(b),
{
    lemma_growth_bound(a);
    lemma_growth_bound(b);
    if a < b && b < 32 {
        lemma_pow2_strictly_increases(a, b);
    }
}

/// The backoff never exceeds its maximum, and never shrinks with the attempts.
pub proof fn backoff_grows_up_to_its_maximum(initial_ms: nat, max_ms: nat, a: nat, b: nat)
    requires
        a <= b,
    ensures
        backoff_ms(initial_ms, max_ms, b) <= max_ms,
        backoff_ms(initial_ms, max_ms, a) <= backoff_ms(initial_ms, max_ms, b),
{
    lemma_growth_increases(a, b);
    assert(initial_ms * growth(a) <= initial_ms * growth(b)) by (nonlinear_arith)
        requires
            growth(a) <= growth(b),
            initial_ms >= 0,
    ;
}

/// The first retry comes after the initial backoff, or the maximum where that
/// is shorter.
pub proof fn first_backoff_is_the_initial_one(initial_ms: nat, max_ms: nat)
    ensures
        backoff_ms(initial_ms, max_ms, 0) == (if initial_ms <= max_ms {
            initial_ms
        } else {
            max_ms
        }),
{
    lemma2_to64();
    assert(growth(0) == 1);
    assert(initial_ms * 1 == initial_ms);
}

/// The backoff doubles with each attempt until it reaches its maximum.
pub proof fn backoff_doubles(initial_ms: nat, max_ms: nat, attempts: nat)
    requires
        attempts < 31,
        2 * backoff_ms(initial_ms, max_ms, attempts) <= max_ms,
        initial_ms * growth(attempts) <= max_ms,
    ensures
        backoff_ms(initial_ms, max_ms, attempts + 1) == 2 * backoff_ms(
            initial_ms,
            max_ms,
            attempts,
        ),
{
    lemma_pow2_unfold(attempts + 1);
    let g = growth(attempts);
    assert(growth(attempts + 1) == 2 * g);
    assert(initial_ms * (2 * g) == 2 * (initial_ms * g)) by (nonlinear_arith);
}

/// A budget is kept: the retries are within the floor, or their ratio to the
/// requests and retries together is below the percentage.
pub open spec fn within_budget(budget: RetryBudget) -> bool {
    budget.retries <= retry_floor(budget) || budget.budget_percent.exceeds_ratio(
        budget.retries as nat,
        budget.requests as nat + budget.retries as nat,
    )
}

/// What happens to a budget.
pub ghost enum BudgetEvent {
    /// A request is recorded at a time.
    Request(u64),
    /// A retry is asked for at a time.
    Retry(u64),
}

/// A budget after something happened to it.
pub open spec fn after_event(budget: RetryBudget, event: BudgetEvent) -> RetryBudget {
    match event {
        BudgetEvent::Request(now_ms) => recorded(budget, now_ms),
        BudgetEvent::Retry(now_ms) => settled(
            rotated(budget, now_ms),
            allows(rotated(budget, now_ms)),
        ),
    }
}

/// A budget after several things happened to it, one after the other.
pub open spec fn after_events(budget: RetryBudget, events: Seq<BudgetEvent>) -> RetryBudget
    decreases events.len(),
{
    if events.len() == 0 {
        budget
    } else {
        after_event(after_events(budget, events.drop_last()), events.last())
    }
}

/// One more request leaves a budget kept.
proof fn lemma_request_keeps(budget: RetryBudget)
    requires
        within_budget(budget),
        budget.requests < u64::MAX,
    ensures
        within_budget(RetryBudget { requests: (budget.requests + 1) as u64, ..budget }),
{
    let m = budget.budget_percent.magnitude();
    let whole = budget.requests as nat + budget.retries as nat;
    assert(m * whole <= m * (whole + 1)) by (nonlinear_arith)
        requires
            m >= 0,
    ;
}

proof fn lemma_kept_after(budget: RetryBudget, events: Seq<BudgetEvent>)
    requires
        budget.requests == 0,
        budget.retries == 0,
        events.len() < u64::MAX,
    ensures
        within_budget(after_events(budget, events)),
        after_events(budget, events).requests + after_events(budget, events).retries
            <= events.len(),
        after_events(budget, events).budget_percent == budget.budget_percent,
        after_events(budget, events).min_retries_per_sec == budget.min_retries_per_sec,
    decreases events.len(),
{
    if events.len() > 0 {
        lemma_kept_after(budget, events.drop_last());
        let before = after_events(budget, events.drop_last());
        let now_ms = match events.last() {
            BudgetEvent::Request(now_ms) => now_ms,
            BudgetEvent::Retry(now_ms) => now_ms,
        };
        assert(within_budget(rotated(before, now_ms)));
        lemma_request_keeps(rotated(before, now_ms));
    }
}

/// Whatever is recorded and asked for, a budget is kept: in every window, the
/// retries are within the floor, or below the percentage of the requests and
/// retries together. There are to be fewer events than 64 bits can count.
pub proof fn budget_is_kept(
    budget_percent: Float,
    min_retries_per_sec: u32,
    window_start_ms: u64,
    events: Seq<BudgetEvent>,
)
    requires
        events.len() < u64::MAX,
    ensures
        ({
            let budget = RetryBudget {
                budget_percent,
                min_retries_per_sec,
                requests: 0,
                retries: 0,
                window_start_ms,
            };
            let after = after_events(budget, events);
            &&& within_budget(after)
            &&& min_retries_per_sec == 0 ==> after.retries == 0 || budget_percent.exceeds_ratio(
                after.retries as nat,
                after.requests as nat + after.retries as nat,
            )
        }),
{
    let budget = RetryBudget {
        budget_percent,
        min_retries_per_sec,
        requests: 0,
        retries: 0,
        window_start_ms,
    };
    lemma_kept_after(budget, events);
}

/// A request is retried at most as often as configured: the attempts never
/// exceed the maximum.
pub proof fn attempts_are_bounded(before: McpRetryPolicy, after: McpRetryPolicy, code: Option<i32>)
    requires
        before.attempts <= before.max_retries,
        after == before || (before.wants_retry(code) && after == (McpRetryPolicy {
            attempts: (before.attempts + 1) as u32,
            ..before
        })),
    ensures
        after.attempts <= after.max_retries,
{
}

/// The backoff before the next attempt is the initial one, doubled for each
/// attempt so far, but at most the maximum. From the 32nd attempt on the
/// factor is the largest 32-bit number.
pub proof fn backoff_is_exponential(initial_ms: nat, max_ms: nat, attempts: nat)
    ensures
        attempts < 32 && initial_ms * pow2(attempts) <= max_ms ==> backoff_ms(
            initial_ms,
            max_ms,
            attempts,
        ) == initial_ms * pow2(attempts),
        attempts < 32 && initial_ms * pow2(attempts) > max_ms ==> backoff_ms(
            initial_ms,
            max_ms,
            attempts,
        ) == max_ms,
        attempts >= 32 && initial_ms * 0xffff_ffff <= max_ms ==> backoff_ms(
            initial_ms,
            max_ms,
            attempts,
        ) == initial_ms * 0xffff_ffff,
        attempts >= 32 && initial_ms * 0xffff_ffff > max_ms ==> backoff_ms(
            initial_ms,
            max_ms,
            attempts,
        ) == max_ms,
{
}

/// A window lasts ten seconds: until then a budget stays as it is, and from
/// then on its counters begin at zero, with the window at the present time.
pub proof fn windows_last_ten_seconds(budget: RetryBudget, now_ms: u64)
    ensures
        now_ms < budget.window_start_ms + 10_000 ==> rotated(budget, now_ms) == budget,
        now_ms >= budget.window_start_ms + 10_000 ==> {
            let r = rotated(budget, now_ms);
            &&& r.requests == 0
            &&& r.retries == 0
            &&& r.window_start_ms == now_ms
            &&& r.budget_percent == budget.budget_percent
            &&& r.min_retries_per_sec == budget.min_retries_per_sec
        },
{
}

/// A request counts once in the window in which it comes, and changes nothing
/// else.
pub proof fn requests_count_once(budget: RetryBudget, now_ms: u64)
    requires
        budget.requests < u64::MAX,
    ensures
        ({
            let r = recorded(budget, now_ms);
            &&& now_ms < budget.window_start_ms + 10_000 ==> r.requests == budget.requests + 1
                && r.retries == budget.retries && r.window_start_ms == budget.window_start_ms
            &&& now_ms >= budget.window_start_ms + 10_000 ==> r.requests == 1 && r.retries == 0
                && r.window_start_ms == now_ms
            &&& r.budget_percent == budget.budget_percent
            &&& r.min_retries_per_sec == budget.min_retries_per_sec
        }),
{
}

/// A retry is allowed exactly where the window has had fewer than ten seconds
/// of the floor, or the ratio with this retry in it is below the percentage.
/// An allowed retry counts once, one that is not allowed changes nothing.
pub proof fn retries_are_allowed_under_floor_or_percentage(budget: RetryBudget)
    requires
        budget.retries < u64::MAX,
    ensures
        allows(budget) <==> budget.retries < 10 * budget.min_retries_per_sec
            || budget.budget_percent.exceeds_ratio(
            (budget.retries + 1) as nat,
            (budget.requests + budget.retries + 1) as nat,
        ),
        settled(budget, false) == budget,
        settled(budget, true) == (RetryBudget {
            retries: (budget.retries + 1) as u64,
            ..budget
        }),
        settled(budget, true).retries == budget.retries + 1,
{
}

/// Which responses are retried, as far as the budget allows it: errors with
/// the code of an internal error or of a server error, while fewer attempts
/// were made than configured.
pub proof fn transient_errors_are_retried(policy: McpRetryPolicy, error_code: Option<i32>)
    ensures
        error_code is None ==> !policy.wants_retry(error_code),
        error_code matches Some(code) ==> (policy.wants_retry(error_code) <==> policy.attempts
            < policy.max_retries && (code == -32603 || (-32100 < code && code < -31999))),
{
}

/// A backoff can be held exactly where the initial one, doubled with each
/// attempt, or times 4294967295 from 32 attempts on, has fewer than 2 to the
/// 64 seconds. Counts can be held where the floor is not used up, or requests
/// and retries together are fewer than a 64-bit number can count.
pub proof fn limits_are_those_of_the_machine(initial_ms: nat, attempts: nat, budget: RetryBudget)
    ensures
        attempts < 32 ==> (holdable(initial_ms, attempts) <==> initial_ms * pow2(attempts)
            < 18_446_744_073_709_551_616_000),
        attempts >= 32 ==> (holdable(initial_ms, attempts) <==> initial_ms * 4_294_967_295
            < 18_446_744_073_709_551_616_000),
        countable(budget) <==> budget.retries < budget.min_retries_per_sec * 10
            || budget.requests + budget.retries < 18_446_744_073_709_551_615,
{
    assert(budget.min_retries_per_sec * 10_000 / 1000 == budget.min_retries_per_sec * 10);
}

/// Events happen to a budget one after the other, in their order.
pub proof fn events_happen_in_order(
    budget: RetryBudget,
    events: Seq<BudgetEvent>,
    event: BudgetEvent,
)
    ensures
        after_events(budget, Seq::empty()) == budget,
        after_events(budget, events.push(event)) == after_event(
            after_events(budget, events),
            event,
        ),
{
    assert(events.push(event).drop_last() =~= events);
}

} // verus!
