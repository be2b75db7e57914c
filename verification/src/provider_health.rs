//! Provider health tracking for LLM backends.
//!
//! Tracks health metrics per provider:
//! - success/failure counters and consecutive-failure streaks
//! - a bounded ring of recent latencies
//! - cooldown periods after repeated failures
//! - integration with the circuit breaker registry
//!
//! Health is derived on every read and never stored.  As in
//! [`crate::circuit_breaker`], every state change is captured by a
//! spec-level transition function over [`ProviderStateView`], internal
//! timing is in milliseconds of monotonic time since the registry's
//! creation, and methods that read the clock state what holds for every
//! value it can return.

use vstd::prelude::*;

verus! {

use crate::circuit_breaker::CircuitBreakerDecision;
use crate::circuit_breaker::CircuitBreakerRegistry;
use crate::circuit_breaker::CircuitState;
use crate::circuit_breaker::spec_breakers_updated;
use crate::clock;
use crate::num::spec_saturating_mul_u64;

/// Health state of a provider.
#[derive(Debug, Clone, Copy, PartialEq, Eq, Default, Structural)]
pub enum HealthState {
    /// Provider is responding normally.
    #[default]
    Healthy,
    /// Provider is experiencing intermittent issues.
    Degraded,
    /// Provider is not responding or failing consistently.
    Unhealthy,
}

/// Configuration for health tracking.
#[derive(Debug, Clone, Copy, PartialEq, Eq, Structural)]
pub struct HealthConfig {
    /// Latency threshold for degraded state (ms).
    pub degraded_latency_ms: u64,
    /// Failure count threshold for degraded state.
    pub degraded_failure_count: u32,
    /// Failure count threshold for unhealthy state.
    pub unhealthy_failure_count: u32,
    /// Cooldown duration after unhealthy (seconds).
    pub cooldown_secs: u64,
    /// Window size for latency averaging.
    pub latency_window: usize,
}

impl HealthConfig {
    /// A usable configuration: the latency ring is not empty and at least
    /// one failure is needed before a provider counts as unhealthy.
    pub open spec fn wf(&self) -> bool {
        self.latency_window >= 1 && self.unhealthy_failure_count >= 1
    }

    /// The cooldown in milliseconds of monotonic time.
    pub open spec fn spec_cooldown_ms(&self) -> u64 {
        spec_saturating_mul_u64(self.cooldown_secs, 1000)
    }
}

impl Default for HealthConfig {
    /// Average latency above 5 s degrades; 2 consecutive failures degrade,
    /// 5 make the provider unhealthy with a 60 s cooldown; the latency
    /// window keeps the last 10 samples.
    fn default() -> (c: Self)
        ensures
            c.degraded_latency_ms == 5000,
            c.degraded_failure_count == 2,
            c.unhealthy_failure_count == 5,
            c.cooldown_secs == 60,
            c.latency_window == 10,
            c.wf(),
    {
        HealthConfig {
            degraded_latency_ms: 5000,
            degraded_failure_count: 2,
            unhealthy_failure_count: 5,
            cooldown_secs: 60,
            latency_window: 10,
        }
    }
}

/// The sum of the latencies in the ring.
pub open spec fn latency_sum(s: Seq<u64>) -> int
    decreases s.len(),
{
    if s.len() == 0 {
        0
    } else {
        latency_sum(s.drop_last()) + s.last()
    }
}

/// Every latency sum lies between 0 and `len * u64::MAX`.
pub proof fn lemma_latency_sum_bounds(s: Seq<u64>)
    ensures
        0 <= latency_sum(s) <= s.len() * (u64::MAX as int),
    decreases s.len(),
{
    if s.len() > 0 {
        lemma_latency_sum_bounds(s.drop_last());
    }
}

/// Internal mutable state for a provider.
#[derive(Debug)]
pub struct ProviderState {
    pub consecutive_failures: u32,
    pub consecutive_successes: u32,
    /// Ring of the most recent success latencies, in ms.
    pub recent_latencies: Vec<u64>,
    /// Slot of the ring that the next sample overwrites once it is full.
    pub latency_index: usize,
    pub total_requests: u64,
    pub successful_requests: u64,
    pub failed_requests: u64,
    /// Monotonic milliseconds of the last recorded success.
    pub last_success_ms: Option<u64>,
    /// Monotonic milliseconds of the last recorded failure.
    pub last_failure_ms: Option<u64>,
    /// Monotonic milliseconds until which the provider is cooling down.
    pub cooldown_until_ms: Option<u64>,
}

/// The mathematical model of a provider's state: the latency ring as a
/// sequence, everything else as plain values.
pub struct ProviderStateView {
    pub consecutive_failures: u32,
    pub consecutive_successes: u32,
    pub recent_latencies: Seq<u64>,
    pub latency_index: usize,
    pub total_requests: u64,
    pub successful_requests: u64,
    pub failed_requests: u64,
    pub last_success_ms: Option<u64>,
    pub last_failure_ms: Option<u64>,
    pub cooldown_until_ms: Option<u64>,
}

impl View for ProviderState {
    type V = ProviderStateView;

    open spec fn view(&self) -> ProviderStateView {
        ProviderStateView {
            consecutive_failures: self.consecutive_failures,
            consecutive_successes: self.consecutive_successes,
            recent_latencies: self.recent_latencies@,
            latency_index: self.latency_index,
            total_requests: self.total_requests,
            successful_requests: self.successful_requests,
            failed_requests: self.failed_requests,
            last_success_ms: self.last_success_ms,
            last_failure_ms: self.last_failure_ms,
            cooldown_until_ms: self.cooldown_until_ms,
        }
    }
}

/// The state of a provider that has not been seen yet.
pub open spec fn fresh_provider_state() -> ProviderStateView {
    ProviderStateView {
        consecutive_failures: 0,
        consecutive_successes: 0,
        recent_latencies: Seq::<u64>::empty(),
        latency_index: 0,
        total_requests: 0,
        successful_requests: 0,
        failed_requests: 0,
        last_success_ms: None,
        last_failure_ms: None,
        cooldown_until_ms: None,
    }
}

impl ProviderStateView {
    /// The ring invariant under a window size: never more entries than the
    /// window, and the overwrite slot stays inside the window.
    pub open spec fn wf(self, window: usize) -> bool {
        self.recent_latencies.len() <= window && self.latency_index < window
    }

    /// The state with `latency_ms` added to the ring: appended while the
    /// ring is filling, overwriting the oldest slot once it is full.
    pub open spec fn spec_add_latency(self, latency_ms: u64, window: usize) -> ProviderStateView {
        if self.recent_latencies.len() < window {
            ProviderStateView { recent_latencies: self.recent_latencies.push(latency_ms), ..self }
        } else {
            ProviderStateView {
                recent_latencies: self.recent_latencies.update(
                    self.latency_index as int,
                    latency_ms,
                ),
                latency_index: (((self.latency_index + 1) as int) % (window as int)) as usize,
                ..self
            }
        }
    }

    /// Whether the provider is cooling down at `now_ms`.
    pub open spec fn spec_in_cooldown(self, now_ms: u64) -> bool {
        match self.cooldown_until_ms {
            Some(c) => now_ms < c,
            None => false,
        }
    }

    /// The derived health at `now_ms`: unhealthy while cooling down or past
    /// the unhealthy failure count; degraded past the degraded failure
    /// count or when the average recent latency exceeds the threshold;
    /// healthy otherwise.  (An empty ring averages to zero.)
    pub open spec fn spec_health_at(self, config: HealthConfig, now_ms: u64) -> HealthState {
        if self.spec_in_cooldown(now_ms) {
            HealthState::Unhealthy
        } else if self.consecutive_failures >= config.unhealthy_failure_count {
            HealthState::Unhealthy
        } else if self.consecutive_failures >= config.degraded_failure_count {
            HealthState::Degraded
        } else if latency_sum(self.recent_latencies) > (config.degraded_latency_ms as int)
            * self.recent_latencies.len() {
            HealthState::Degraded
        } else {
            HealthState::Healthy
        }
    }

    /// The state after a success with latency `latency_ms` recorded at
    /// `now_ms`: counters advance, the failure streak and any cooldown are
    /// cleared, and the latency enters the ring.
    pub open spec fn spec_after_success(
        self,
        latency_ms: u64,
        now_ms: u64,
        config: HealthConfig,
    ) -> ProviderStateView {
        let with_latency = self.spec_add_latency(latency_ms, config.latency_window);
        ProviderStateView {
            total_requests: self.total_requests.saturating_add(1),
            successful_requests: self.successful_requests.saturating_add(1),
            consecutive_successes: self.consecutive_successes.saturating_add(1),
            consecutive_failures: 0,
            last_success_ms: Some(now_ms),
            cooldown_until_ms: None,
            ..with_latency
        }
    }

    /// Law: a recorded failure that reaches the unhealthy failure count
    /// starts a cooldown ending `cooldown_secs` after it, and from that
    /// moment the provider is unhealthy — hence unavailable — at every
    /// instant, whether before the cooldown's end (by the cooldown) or
    /// after it (by the failure count still standing), until something else
    /// changes the state.
    pub proof fn lemma_failure_reaching_threshold_blocks(
        self,
        now_ms: u64,
        config: HealthConfig,
        t: u64,
    )
        requires
            config.wf(),
        ensures
            ({
                let a = self.spec_after_failure(now_ms, config);
                a.consecutive_failures >= config.unhealthy_failure_count ==> {
                    &&& a.cooldown_until_ms == Some(now_ms.saturating_add(config.spec_cooldown_ms()))
                    &&& a.spec_health_at(config, t) == HealthState::Unhealthy
                }
            }),
    {
    }

    /// Law: recording further failures never makes an unhealthy provider
    /// available again.
    pub proof fn lemma_failure_keeps_unhealthy(self, now_ms: u64, config: HealthConfig, t: u64)
        requires
            config.wf(),
            self.consecutive_failures >= config.unhealthy_failure_count,
        ensures
            self.spec_after_failure(now_ms, config).spec_health_at(config, t)
                == HealthState::Unhealthy,
    {
    }

    /// Law: a recorded success zeroes the failure streak and clears any
    /// cooldown, so the provider is not unhealthy at any instant afterwards:
    /// it is available again.
    pub proof fn lemma_success_restores_availability(
        self,
        latency_ms: u64,
        now_ms: u64,
        config: HealthConfig,
        t: u64,
    )
        requires
            config.wf(),
        ensures
            ({
                let a = self.spec_after_success(latency_ms, now_ms, config);
                &&& a.consecutive_failures == 0
                &&& a.cooldown_until_ms matches None
                &&& a.spec_health_at(config, t) != HealthState::Unhealthy
            }),
    {
    }

    /// The state after a failure recorded at `now_ms`: counters advance,
    /// the success streak is cleared, and reaching the unhealthy failure
    /// count starts a cooldown.
    pub open spec fn spec_after_failure(self, now_ms: u64, config: HealthConfig) -> ProviderStateView {
        let cf = self.consecutive_failures.saturating_add(1);
        ProviderStateView {
            total_requests: self.total_requests.saturating_add(1),
            failed_requests: self.failed_requests.saturating_add(1),
            consecutive_failures: cf,
            consecutive_successes: 0,
            last_failure_ms: Some(now_ms),
            cooldown_until_ms: if cf >= config.unhealthy_failure_count {
                Some(now_ms.saturating_add(config.spec_cooldown_ms()))
            } else {
                self.cooldown_until_ms
            },
            ..self
        }
    }
}

impl ProviderState {
    /// The state of a backend before any request was recorded.
    pub fn new() -> (s: Self)
        ensures
            s@ == fresh_provider_state(),
    {
        let s = ProviderState {
            consecutive_failures: 0,
            consecutive_successes: 0,
            recent_latencies: Vec::new(),
            latency_index: 0,
            total_requests: 0,
            successful_requests: 0,
            failed_requests: 0,
            last_success_ms: None,
            last_failure_ms: None,
            cooldown_until_ms: None,
        };
        proof {
            assert(s@.recent_latencies =~= fresh_provider_state().recent_latencies);
        }
        s
    }

    /// Add a latency sample to the ring of size `window_size`.
    pub fn add_latency(&mut self, latency_ms: u64, window_size: usize)
        requires
            old(self)@.wf(window_size),
            window_size >= 1,
        ensures
            final(self)@ == old(self)@.spec_add_latency(latency_ms, window_size),
            final(self)@.wf(window_size),
    {
        if self.recent_latencies.len() < window_size {
            self.recent_latencies.push(latency_ms);
        } else {
            let idx = self.latency_index;
            let slot = &mut self.recent_latencies[idx];
            *slot = latency_ms;
            self.latency_index = (self.latency_index + 1) % window_size;
        }
    }

    /// Whether the provider is cooling down at `now_ms`.
    pub fn is_in_cooldown(&self, now_ms: u64) -> (r: bool)
        ensures
            r == self@.spec_in_cooldown(now_ms),
    {
        match self.cooldown_until_ms {
            Some(c) => now_ms < c,
            None => false,
        }
    }

    /// Compute the derived health state at `now_ms`.
    pub fn compute_state(&self, config: &HealthConfig, now_ms: u64) -> (h: HealthState)
        ensures
            h == self@.spec_health_at(*config, now_ms),
    {
        if self.is_in_cooldown(now_ms) {
            return HealthState::Unhealthy;
        }
        if self.consecutive_failures >= config.unhealthy_failure_count {
            return HealthState::Unhealthy;
        }
        if self.consecutive_failures >= config.degraded_failure_count {
            return HealthState::Degraded;
        }
        let sum = sum_latencies(&self.recent_latencies);
        let count = self.recent_latencies.len();
        proof {
            lemma_latency_sum_bounds(self.recent_latencies@);
            assert((config.degraded_latency_ms as int) * (count as int) <= (u64::MAX as int) * (
            u64::MAX as int)) by (nonlinear_arith)
                requires
                    config.degraded_latency_ms <= u64::MAX,
                    count <= u64::MAX,
            ;
        }
        if sum > (config.degraded_latency_ms as u128) * (count as u128) {
            return HealthState::Degraded;
        }
        HealthState::Healthy
    }

    /// The average recent latency in whole milliseconds (0 for an empty
    /// ring); the mean is truncated toward zero.
    pub fn avg_latency_ms(&self) -> (avg: u64)
        ensures
            self.recent_latencies@.len() == 0 ==> avg == 0,
            self.recent_latencies@.len() > 0 ==> avg == latency_sum(self.recent_latencies@)
                / self.recent_latencies@.len() as int,
    {
        let count = self.recent_latencies.len();
        if count == 0 {
            return 0;
        }
        let sum = sum_latencies(&self.recent_latencies);
        proof {
            lemma_latency_sum_bounds(self.recent_latencies@);
            vstd::arithmetic::div_mod::lemma_div_is_ordered(
                latency_sum(self.recent_latencies@),
                (count as int) * (u64::MAX as int),
                count as int,
            );
            vstd::arithmetic::div_mod::lemma_div_multiples_vanish(u64::MAX as int, count as int);
        }
        let avg = sum / (count as u128);
        avg as u64
    }

    /// Apply a recorded success: exactly the transition
    /// [`ProviderStateView::spec_after_success`].
    pub fn apply_success(&mut self, latency_ms: u64, now_ms: u64, config: &HealthConfig)
        requires
            old(self)@.wf(config.latency_window),
            config.wf(),
        ensures
            final(self)@ == old(self)@.spec_after_success(latency_ms, now_ms, *config),
            final(self)@.wf(config.latency_window),
    {
        self.total_requests = self.total_requests.saturating_add(1);
        self.successful_requests = self.successful_requests.saturating_add(1);
        self.consecutive_successes = self.consecutive_successes.saturating_add(1);
        self.consecutive_failures = 0;
        self.last_success_ms = Some(now_ms);
        self.add_latency(latency_ms, config.latency_window);
        self.cooldown_until_ms = None;
    }

    /// Apply a recorded failure: exactly the transition
    /// [`ProviderStateView::spec_after_failure`].
    pub fn apply_failure(&mut self, now_ms: u64, config: &HealthConfig)
        requires
            old(self)@.wf(config.latency_window),
            config.wf(),
        ensures
            final(self)@ == old(self)@.spec_after_failure(now_ms, *config),
            final(self)@.wf(config.latency_window),
    {
        self.total_requests = self.total_requests.saturating_add(1);
        self.failed_requests = self.failed_requests.saturating_add(1);
        self.consecutive_failures = self.consecutive_failures.saturating_add(1);
        self.consecutive_successes = 0;
        self.last_failure_ms = Some(now_ms);
        if self.consecutive_failures >= config.unhealthy_failure_count {
            self.cooldown_until_ms = Some(now_ms.saturating_add(config.cooldown_secs.saturating_mul(1000)));
        }
    }
}

/// The sum of all latencies in the vector, exactly (it fits in `u128`).
fn sum_latencies(v: &Vec<u64>) -> (s: u128)
    ensures
        s == latency_sum(v@),
{
    let n = v.len();
    let mut acc: u128 = 0;
    let mut i: usize = 0;
    proof {
        assert(v@.take(0) =~= Seq::<u64>::empty());
    }
    while i < n
        invariant
            n == v@.len(),
            0 <= i <= n,
            acc == latency_sum(v@.take(i as int)),
            acc <= (i as int) * (u64::MAX as int),
        decreases n - i,
    {
        proof {
            assert(v@.take(i + 1).drop_last() =~= v@.take(i as int));
            assert(v@.take(i + 1).last() == v@[i as int]);
            assert((i as int) * (u64::MAX as int) + (u64::MAX as int) == ((i + 1) as int) * (
            u64::MAX as int)) by (nonlinear_arith);
            assert(((i + 1) as int) * (u64::MAX as int) <= (u64::MAX as int) * (u64::MAX as int))
                by (nonlinear_arith)
                requires
                    0 <= i,
                    i + 1 <= u64::MAX,
            ;
        }
        acc = acc + (v[i] as u128);
        i = i + 1;
    }
    proof {
        assert(v@.take(n as int) =~= v@);
    }
    acc
}

/// One tracked backend: its name and its state.
#[derive(Debug)]
pub struct ProviderEntry {
    pub name: String,
    pub state: ProviderState,
}

/// The index of the entry named `name`, if one exists.
pub open spec fn spec_find_provider(s: Seq<ProviderEntry>, name: Seq<char>) -> Option<int>
    decreases s.len(),
{
    if s.len() == 0 {
        None
    } else if s[0].name@ == name {
        Some(0)
    } else {
        match spec_find_provider(s.subrange(1, s.len() as int), name) {
            Some(i) => Some(i + 1),
            None => None,
        }
    }
}

/// What `spec_find_provider` finds: the first entry with that name, or a
/// guarantee that none exists.
pub proof fn lemma_find_provider(s: Seq<ProviderEntry>, name: Seq<char>)
    ensures
        match spec_find_provider(s, name) {
            Some(i) => 0 <= i < s.len() && s[i].name@ == name && forall |j: int|
                0 <= j < i ==> (#[trigger] s[j]).name@ != name,
            None => forall |j: int| 0 <= j < s.len() ==> (#[trigger] s[j]).name@ != name,
        },
    decreases s.len(),
{
    if s.len() > 0 && s[0].name@ != name {
        let tail = s.subrange(1, s.len() as int);
        lemma_find_provider(tail, name);
        assert(forall |j: int| 0 <= j < tail.len() ==> tail[j] == s[j + 1]);
        match spec_find_provider(tail, name) {
            Some(i) => {
                assert(tail[i] == s[i + 1]);
                assert forall |j: int| 0 <= j < i + 1 implies (#[trigger] s[j]).name@ != name by {
                    if j >= 1 {
                        assert(tail[j - 1] == s[j]);
                        assert(tail[j - 1].name@ != name);
                    }
                }
            },
            None => {
                assert forall |j: int| 0 <= j < s.len() implies (#[trigger] s[j]).name@
                    != name by {
                    if j >= 1 {
                        assert(tail[j - 1] == s[j]);
                        assert(tail[j - 1].name@ != name);
                    }
                }
            },
        }
    }
}

/// If the entry at `i` is named `name` and no earlier entry is, the find
/// returns exactly `i`.
pub proof fn lemma_identify_first_provider(s: Seq<ProviderEntry>, name: Seq<char>, i: int)
    requires
        0 <= i < s.len(),
        s[i].name@ == name,
        forall |j: int| 0 <= j < i ==> (#[trigger] s[j]).name@ != name,
    ensures
        spec_find_provider(s, name) == Some(i),
{
    lemma_find_provider(s, name);
    match spec_find_provider(s, name) {
        Some(k) => {
            if k < i {
                assert(s[k].name@ != name);
            } else if k > i {
                assert(s[i].name@ != name);
            }
        },
        None => {
            assert(s[i].name@ != name);
        },
    }
}

/// The tracked state of `name`, or the fresh state if it was never seen.
pub open spec fn spec_state_or_fresh(s: Seq<ProviderEntry>, name: Seq<char>) -> ProviderStateView {
    match spec_find_provider(s, name) {
        Some(i) => s[i].state@,
        None => fresh_provider_state(),
    }
}

/// The tracked state of `name`, if it has been seen.
pub open spec fn spec_lookup_state(s: Seq<ProviderEntry>, name: Seq<char>) -> Option<
    ProviderStateView,
> {
    match spec_find_provider(s, name) {
        Some(i) => Some(s[i].state@),
        None => None,
    }
}

/// `post` is `pre` after the entry named `name` (lazily created when
/// absent) has been given the state `updated`.
pub open spec fn spec_providers_updated(
    pre: Seq<ProviderEntry>,
    post: Seq<ProviderEntry>,
    name: Seq<char>,
    updated: ProviderStateView,
) -> bool {
    match spec_find_provider(pre, name) {
        Some(i) => exists |e: ProviderEntry|
            #![trigger pre.update(i, e)]
            e.name@ == name && e.state@ == updated && post == pre.update(i, e),
        None => exists |e: ProviderEntry|
            #![trigger pre.push(e)]
            e.name@ == name && e.state@ == updated && post == pre.push(e),
    }
}

/// The health-registry invariant over its parts: every entry's ring obeys
/// the window and backend names are unique.
pub open spec fn health_wf_parts(config: HealthConfig, s: Seq<ProviderEntry>) -> bool {
    &&& config.wf()
    &&& forall |i: int| 0 <= i < s.len() ==> (#[trigger] s[i]).state@.wf(config.latency_window)
    &&& forall |i: int, j: int|
        0 <= i < j < s.len() ==> (#[trigger] s[i]).name@ != (#[trigger] s[j]).name@
}

/// Registry of provider health tracking.
#[derive(Debug)]
pub struct ProviderHealthRegistry {
    pub config: HealthConfig,
    pub providers: Vec<ProviderEntry>,
    /// Creation time; all stored timestamps are milliseconds since this.
    pub epoch: std::time::Instant,
    /// An attached circuit breaker registry, mirrored on every record.
    pub circuit_breakers: Option<CircuitBreakerRegistry>,
}

impl ProviderHealthRegistry {
    /// Registry invariant.
    pub open spec fn wf(&self) -> bool {
        &&& health_wf_parts(self.config, self.providers@)
        &&& match self.circuit_breakers {
            Some(c) => c.wf(),
            None => true,
        }
    }

    /// Whether the attached breaker registry reports `name` as open.
    pub open spec fn spec_breaker_open(&self, name: Seq<char>) -> bool {
        match self.circuit_breakers {
            Some(c) => c.spec_is_open(name),
            None => false,
        }
    }

    /// The derived health of `name` at `now_ms`; unknown backends are
    /// healthy.
    pub open spec fn spec_health_of(&self, name: Seq<char>, now_ms: u64) -> HealthState {
        match spec_find_provider(self.providers@, name) {
            Some(i) => self.providers@[i].state@.spec_health_at(self.config, now_ms),
            None => HealthState::Healthy,
        }
    }

    /// Available at `now_ms`: no open breaker and not unhealthy.  Unknown
    /// backends are available.
    pub open spec fn spec_available_at(&self, name: Seq<char>, now_ms: u64) -> bool {
        !self.spec_breaker_open(name) && self.spec_health_of(name, now_ms)
            != HealthState::Unhealthy
    }

    /// The candidates available at `now_ms`, in input order: exactly the
    /// members `b` of `backends` with `spec_available_at(b, now_ms)`, kept
    /// in their input order (duplicates included).
    pub open spec fn spec_filter_available(
        &self,
        backends: Seq<Seq<char>>,
        now_ms: u64,
    ) -> Seq<Seq<char>>
        decreases backends.len(),
    {
        if backends.len() == 0 {
            Seq::<Seq<char>>::empty()
        } else {
            let rest = self.spec_filter_available(backends.drop_last(), now_ms);
            if self.spec_available_at(backends.last(), now_ms) {
                rest.push(backends.last())
            } else {
                rest
            }
        }
    }

    /// The circuit state of `name` as the attached breaker registry knows
    /// it; `Closed` when there is no registry or no breaker yet.
    pub open spec fn spec_circuit_state_of(&self, name: Seq<char>) -> CircuitState {
        match self.circuit_breakers {
            Some(c) => match crate::circuit_breaker::spec_find_breaker(c.breakers@, name) {
                Some(i) => c.breakers@[i].circuit_state,
                None => CircuitState::Closed,
            },
            None => CircuitState::Closed,
        }
    }

    /// Create a new health registry.
    pub fn new(config: HealthConfig) -> (r: Self)
        requires
            config.wf(),
        ensures
            r.config == config,
            r.providers@.len() == 0,
            r.circuit_breakers matches None,
            r.wf(),
    {
        ProviderHealthRegistry {
            config,
            providers: Vec::new(),
            epoch: clock::instant_now(),
            circuit_breakers: None,
        }
    }

    /// Attach a circuit breaker registry; every later record is mirrored to
    /// it.
    pub fn with_circuit_breakers(self, cb: CircuitBreakerRegistry) -> (r: Self)
        requires
            self.wf(),
            cb.wf(),
        ensures
            r.config == self.config,
            r.providers@ == self.providers@,
            r.epoch == self.epoch,
            r.circuit_breakers == Some(cb),
            r.wf(),
    {
        ProviderHealthRegistry { circuit_breakers: Some(cb), ..self }
    }

    /// Find the entry for `backend`, creating a fresh one when absent, and
    /// return its index.
    fn ensure_provider(&mut self, backend: &str) -> (i: usize)
        requires
            old(self).wf(),
        ensures
            final(self).wf(),
            final(self).config == old(self).config,
            final(self).epoch == old(self).epoch,
            final(self).circuit_breakers == old(self).circuit_breakers,
            i < final(self).providers@.len(),
            final(self).providers@[i as int].name@ == backend@,
            spec_find_provider(final(self).providers@, backend@) == Some(i as int),
            forall |j: int| 0 <= j < i ==> (#[trigger] final(self).providers@[j]).name@ != backend@,
            match spec_find_provider(old(self).providers@, backend@) {
                Some(k) => k == i as int && final(self).providers@ == old(self).providers@,
                None => i as int == old(self).providers@.len() && final(self).providers@[i as int].state@
                    == fresh_provider_state() && final(self).providers@ == old(
                    self,
                ).providers@.push(final(self).providers@[i as int]),
            },
    {
        let key: String = backend.to_owned();
        let n = self.providers.len();
        let mut i: usize = 0;
        while i < n
            invariant
                n == self.providers@.len(),
                0 <= i <= n,
                forall |j: int| 0 <= j < i ==> (#[trigger] self.providers@[j]).name@ != backend@,
                key@ == backend@,
                *self == *old(self),
                old(self).wf(),
            decreases n - i,
        {
            if self.providers[i].name == key {
                proof {
                    lemma_identify_first_provider(self.providers@, backend@, i as int);
                }
                return i;
            }
            i = i + 1;
        }
        proof {
            lemma_find_provider(self.providers@, backend@);
            match spec_find_provider(self.providers@, backend@) {
                Some(k) => {
                    assert(self.providers@[k].name@ != backend@);
                    assert(false);
                },
                None => {},
            }
        }
        let entry = ProviderEntry { name: key, state: ProviderState::new() };
        let ghost pre = self.providers@;
        self.providers.push(entry);
        let idx = self.providers.len() - 1;
        proof {
            let s = self.providers@;
            assert(forall |j: int| 0 <= j < pre.len() ==> s[j] == pre[j]);
            lemma_identify_first_provider(s, backend@, idx as int);
            assert(forall |j: int|
                0 <= j < s.len() ==> (#[trigger] s[j]).state@.wf(self.config.latency_window));
            assert(forall |j: int, k: int|
                0 <= j < k < s.len() ==> (#[trigger] s[j]).name@ != (#[trigger] s[k]).name@);
        }
        idx
    }

    /// Record a successful request with its latency.  Whatever instant the
    /// clock returns, the backend's state takes exactly the
    /// [`ProviderStateView::spec_after_success`] transition at it — so its
    /// consecutive-failure count is zero and its cooldown is cleared — and
    /// the success is mirrored to the attached breaker registry.
    pub fn record_success(&mut self, backend: &str, latency_ms: u64)
        requires
            old(self).wf(),
        ensures
            final(self).wf(),
            final(self).config == old(self).config,
            final(self).epoch == old(self).epoch,
            exists |now_ms: u64|
                #![trigger spec_state_or_fresh(old(self).providers@, backend@).spec_after_success(latency_ms, now_ms, old(self).config)]
                spec_providers_updated(
                    old(self).providers@,
                    final(self).providers@,
                    backend@,
                    spec_state_or_fresh(old(self).providers@, backend@).spec_after_success(
                        latency_ms,
                        now_ms,
                        old(self).config,
                    ),
                ),
            ({
                let st = spec_lookup_state(final(self).providers@, backend@);
                &&& st matches Some(s)
                &&& s.consecutive_failures == 0
                &&& s.cooldown_until_ms matches None
                &&& s.last_success_ms matches Some(_)
            }),
            match old(self).circuit_breakers {
                None => final(self).circuit_breakers matches None,
                Some(pre_cbr) => final(self).circuit_breakers matches Some(post_cbr)
                    && post_cbr.config == pre_cbr.config && exists |before: crate::circuit_breaker::CircuitBreaker|
                    #![trigger before.spec_after_success()]
                    spec_breakers_updated(
                        pre_cbr,
                        post_cbr.breakers@,
                        backend@,
                        before,
                        before.spec_after_success(),
                    ),
            },
    {
        let now_ms = clock::elapsed_ms(&self.epoch);
        let cfg = self.config;
        let i = self.ensure_provider(backend);
        let ghost mid = *self;
        let e = &mut self.providers[i];
        proof {
            assert(e.state@.wf(cfg.latency_window));
        }
        e.state.apply_success(latency_ms, now_ms, &cfg);
        proof {
            let ghost fe = self.providers@[i as int];
            assert(self.providers@ == mid.providers@.update(i as int, fe));
            assert(fe.name@ == backend@);
            assert(fe.state@ == mid.providers@[i as int].state@.spec_after_success(
                latency_ms,
                now_ms,
                cfg,
            ));
            lemma_identify_first_provider(self.providers@, backend@, i as int);
            match spec_find_provider(old(self).providers@, backend@) {
                Some(k) => {
                    assert(mid.providers@ == old(self).providers@);
                    assert(spec_providers_updated(
                        old(self).providers@,
                        self.providers@,
                        backend@,
                        spec_state_or_fresh(old(self).providers@, backend@).spec_after_success(
                            latency_ms,
                            now_ms,
                            old(self).config,
                        ),
                    ));
                },
                None => {
                    let pre = old(self).providers@;
                    assert(mid.providers@ == pre.push(mid.providers@[i as int]));
                    assert(self.providers@ =~= pre.push(fe));
                    assert(spec_providers_updated(
                        old(self).providers@,
                        self.providers@,
                        backend@,
                        spec_state_or_fresh(old(self).providers@, backend@).spec_after_success(
                            latency_ms,
                            now_ms,
                            old(self).config,
                        ),
                    ));
                },
            }
            assert(forall |j: int|
                0 <= j < self.providers@.len() ==> (#[trigger] self.providers@[j]).state@.wf(
                    cfg.latency_window,
                ));
            assert(forall |j: int|
                0 <= j < self.providers@.len() ==> (#[trigger] self.providers@[j]).name@
                    == mid.providers@[j].name@);
            assert(forall |j: int, k: int|
                0 <= j < k < self.providers@.len() ==> (#[trigger] self.providers@[j]).name@ != (
                #[trigger] self.providers@[k]).name@);
        }
        match &mut self.circuit_breakers {
            Some(cb) => {
                cb.record_success(backend);
            },
            None => {},
        }
    }

    /// Record a failed request.  Whatever instant the clock returns, the
    /// backend's state takes exactly the
    /// [`ProviderStateView::spec_after_failure`] transition at it, and the
    /// failure is mirrored to the attached breaker registry.
    pub fn record_failure(&mut self, backend: &str)
        requires
            old(self).wf(),
        ensures
            final(self).wf(),
            final(self).config == old(self).config,
            final(self).epoch == old(self).epoch,
            exists |now_ms: u64|
                #![trigger spec_state_or_fresh(old(self).providers@, backend@).spec_after_failure(now_ms, old(self).config)]
                spec_providers_updated(
                    old(self).providers@,
                    final(self).providers@,
                    backend@,
                    spec_state_or_fresh(old(self).providers@, backend@).spec_after_failure(
                        now_ms,
                        old(self).config,
                    ),
                ),
            match old(self).circuit_breakers {
                None => final(self).circuit_breakers matches None,
                Some(pre_cbr) => final(self).circuit_breakers matches Some(post_cbr)
                    && post_cbr.config == pre_cbr.config && exists |now2: u64, before: crate::circuit_breaker::CircuitBreaker|
                    #![trigger before.spec_after_failure(now2)]
                    spec_breakers_updated(
                        pre_cbr,
                        post_cbr.breakers@,
                        backend@,
                        before,
                        before.spec_after_failure(now2),
                    ),
            },
    {
        let now_ms = clock::elapsed_ms(&self.epoch);
        let cfg = self.config;
        let i = self.ensure_provider(backend);
        let ghost mid = *self;
        let e = &mut self.providers[i];
        proof {
            assert(e.state@.wf(cfg.latency_window));
        }
        e.state.apply_failure(now_ms, &cfg);
        proof {
            let ghost fe = self.providers@[i as int];
            assert(self.providers@ == mid.providers@.update(i as int, fe));
            assert(fe.name@ == backend@);
            assert(fe.state@ == mid.providers@[i as int].state@.spec_after_failure(now_ms, cfg));
            lemma_identify_first_provider(self.providers@, backend@, i as int);
            match spec_find_provider(old(self).providers@, backend@) {
                Some(k) => {
                    assert(mid.providers@ == old(self).providers@);
                    assert(spec_providers_updated(
                        old(self).providers@,
                        self.providers@,
                        backend@,
                        spec_state_or_fresh(old(self).providers@, backend@).spec_after_failure(
                            now_ms,
                            old(self).config,
                        ),
                    ));
                },
                None => {
                    let pre = old(self).providers@;
                    assert(mid.providers@ == pre.push(mid.providers@[i as int]));
                    assert(self.providers@ =~= pre.push(fe));
                    assert(spec_providers_updated(
                        old(self).providers@,
                        self.providers@,
                        backend@,
                        spec_state_or_fresh(old(self).providers@, backend@).spec_after_failure(
                            now_ms,
                            old(self).config,
                        ),
                    ));
                },
            }
            assert(forall |j: int|
                0 <= j < self.providers@.len() ==> (#[trigger] self.providers@[j]).state@.wf(
                    cfg.latency_window,
                ));
            assert(forall |j: int|
                0 <= j < self.providers@.len() ==> (#[trigger] self.providers@[j]).name@
                    == mid.providers@[j].name@);
            assert(forall |j: int, k: int|
                0 <= j < k < self.providers@.len() ==> (#[trigger] self.providers@[j]).name@ != (
                #[trigger] self.providers@[k]).name@);
        }
        match &mut self.circuit_breakers {
            Some(cb) => {
                cb.record_failure(backend);
            },
            None => {},
        }
    }

    /// Ask the attached circuit breaker registry whether a request to the
    /// backend may proceed; with no registry attached everything is
    /// allowed.  The provider states themselves are untouched.
    pub fn check_breaker(&mut self, backend: &str) -> (d: CircuitBreakerDecision)
        requires
            old(self).wf(),
        ensures
            final(self).wf(),
            final(self).config == old(self).config,
            final(self).epoch == old(self).epoch,
            final(self).providers@ == old(self).providers@,
            match old(self).circuit_breakers {
                None => final(self).circuit_breakers matches None && d
                    == CircuitBreakerDecision::Allow,
                Some(pre_cbr) => final(self).circuit_breakers matches Some(post_cbr)
                    && post_cbr.config == pre_cbr.config && exists |now_ms: u64, before: crate::circuit_breaker::CircuitBreaker|
                    #![trigger before.spec_after_check(now_ms)]
                    d == before.spec_check_decision(now_ms) && spec_breakers_updated(
                        pre_cbr,
                        post_cbr.breakers@,
                        backend@,
                        before,
                        before.spec_after_check(now_ms),
                    ),
            },
    {
        match &mut self.circuit_breakers {
            Some(cb) => cb.check(backend),
            None => CircuitBreakerDecision::Allow,
        }
    }

    /// Get the health state for a backend, evaluating the clock at `now_ms`
    /// milliseconds since the registry's creation.
    pub fn get_health_at(&self, backend: &str, now_ms: u64) -> (h: HealthState)
        ensures
            h == self.spec_health_of(backend@, now_ms),
    {
        proof {
            lemma_find_provider(self.providers@, backend@);
        }
        let key: String = backend.to_owned();
        let n = self.providers.len();
        let mut i: usize = 0;
        while i < n
            invariant
                n == self.providers@.len(),
                0 <= i <= n,
                forall |j: int| 0 <= j < i ==> (#[trigger] self.providers@[j]).name@ != backend@,
                key@ == backend@,
            decreases n - i,
        {
            if self.providers[i].name == key {
                proof {
                    lemma_identify_first_provider(self.providers@, backend@, i as int);
                }
                return self.providers[i].state.compute_state(&self.config, now_ms);
            }
            i = i + 1;
        }
        HealthState::Healthy
    }

    /// Get the health state for a backend.  Reads the monotonic clock;
    /// whatever time it returns, the result is the derived health at that
    /// time, and a backend never seen is healthy.
    pub fn get_health(&self, backend: &str) -> (h: HealthState)
        ensures
            exists |now_ms: u64| h == #[trigger] self.spec_health_of(backend@, now_ms),
            spec_find_provider(self.providers@, backend@) matches None ==> h
                == HealthState::Healthy,
    {
        let now_ms = clock::elapsed_ms(&self.epoch);
        let h = self.get_health_at(backend, now_ms);
        proof {
            assert(h == self.spec_health_of(backend@, now_ms));
        }
        h
    }

    /// Whether a backend is available at `now_ms`: its breaker is not open
    /// and it is not unhealthy.  Unknown backends are available.
    pub fn is_available_at(&self, backend: &str, now_ms: u64) -> (r: bool)
        ensures
            r == self.spec_available_at(backend@, now_ms),
    {
        match &self.circuit_breakers {
            Some(cb) => {
                if cb.is_open(backend) {
                    return false;
                }
            },
            None => {},
        }
        let h = self.get_health_at(backend, now_ms);
        match h {
            HealthState::Unhealthy => false,
            _ => true,
        }
    }

    /// Check if a backend is available (healthy or degraded, with no open
    /// breaker).  Reads the monotonic clock; whatever time it returns, the
    /// result is the availability at that time.
    pub fn is_available(&self, backend: &str) -> (r: bool)
        ensures
            exists |now_ms: u64| r == #[trigger] self.spec_available_at(backend@, now_ms),
            spec_find_provider(self.providers@, backend@) matches None ==> r == !self.spec_breaker_open(
                backend@,
            ),
    {
        let now_ms = clock::elapsed_ms(&self.epoch);
        let r = self.is_available_at(backend, now_ms);
        proof {
            assert(r == self.spec_available_at(backend@, now_ms));
        }
        r
    }

    /// The candidates available at `now_ms`, in input order.
    pub fn filter_available_at(&self, backends: &Vec<String>, now_ms: u64) -> (r: Vec<String>)
        ensures
            r.deep_view() == self.spec_filter_available(backends.deep_view(), now_ms),
    {
        let ghost all = backends.deep_view();
        let mut out: Vec<String> = Vec::new();
        let n = backends.len();
        let mut i: usize = 0;
        proof {
            assert(backends.deep_view().len() == backends@.len());
            assert(all.take(0) =~= Seq::<Seq<char>>::empty());
            assert(out.deep_view() =~= self.spec_filter_available(all.take(0), now_ms));
        }
        while i < n
            invariant
                n == backends@.len(),
                all == backends.deep_view(),
                all.len() == n,
                forall |j: int| 0 <= j < n ==> all[j] == (#[trigger] backends@[j])@,
                0 <= i <= n,
                out.deep_view() == self.spec_filter_available(all.take(i as int), now_ms),
            decreases n - i,
        {
            proof {
                assert(all.take(i + 1).drop_last() =~= all.take(i as int));
                assert(all.take(i + 1).last() == all[i as int]);
            }
            let ghost pre_out = out.deep_view();
            if self.is_available_at(backends[i].as_str(), now_ms) {
                out.push(backends[i].clone());
                proof {
                    assert(out.deep_view() =~= pre_out.push(all[i as int]));
                }
            }
            proof {
                assert(out.deep_view() =~= self.spec_filter_available(all.take(i + 1), now_ms));
            }
            i = i + 1;
        }
        proof {
            assert(all.take(n as int) =~= all);
        }
        out
    }

    /// Get the available backends among the candidates, in input order.
    /// Reads the monotonic clock once; whatever time it returns, the result
    /// is the availability filter at that time.
    pub fn filter_available(&self, backends: &Vec<String>) -> (r: Vec<String>)
        ensures
            exists |now_ms: u64| r.deep_view() == #[trigger] self.spec_filter_available(
                backends.deep_view(),
                now_ms,
            ),
    {
        let now_ms = clock::elapsed_ms(&self.epoch);
        let r = self.filter_available_at(backends, now_ms);
        proof {
            assert(r.deep_view() == self.spec_filter_available(backends.deep_view(), now_ms));
        }
        r
    }

    /// Get detailed health info for a backend.  Counters and streaks are
    /// reported exactly; the average latency is the truncated mean of the
    /// ring; the `last_*` and `cooldown_until` fields are wall-clock Unix
    /// seconds, present exactly when the corresponding event is on record.
    pub fn get_health_info(&self, backend: &str) -> (r: ProviderHealth)
        ensures
            r.backend@ == backend@,
            match spec_lookup_state(self.providers@, backend@) {
                Some(st) => {
                    &&& exists |now_ms: u64| r.state == #[trigger] st.spec_health_at(
                        self.config,
                        now_ms,
                    )
                    &&& r.consecutive_failures == st.consecutive_failures
                    &&& r.total_requests == st.total_requests
                    &&& r.successful_requests == st.successful_requests
                    &&& r.failed_requests == st.failed_requests
                    &&& (st.recent_latencies.len() == 0 ==> r.avg_latency_ms == 0)
                    &&& (st.recent_latencies.len() > 0 ==> r.avg_latency_ms == latency_sum(
                        st.recent_latencies,
                    ) / st.recent_latencies.len() as int)
                    &&& (r.last_success matches Some(_) <==> st.last_success_ms matches Some(_))
                    &&& (r.last_failure matches Some(_) <==> st.last_failure_ms matches Some(_))
                    &&& (r.cooldown_until matches Some(_) <==> st.cooldown_until_ms matches Some(
                        _,
                    ))
                },
                None => {
                    &&& r.state == HealthState::Healthy
                    &&& r.consecutive_failures == 0
                    &&& r.avg_latency_ms == 0
                    &&& r.total_requests == 0
                    &&& r.successful_requests == 0
                    &&& r.failed_requests == 0
                    &&& r.last_success matches None
                    &&& r.last_failure matches None
                    &&& r.cooldown_until matches None
                },
            },
    {
        proof {
            lemma_find_provider(self.providers@, backend@);
        }
        let now_unix = clock::unix_now_secs();
        let now_ms = clock::elapsed_ms(&self.epoch);
        let key: String = backend.to_owned();
        let n = self.providers.len();
        let mut i: usize = 0;
        while i < n
            invariant
                n == self.providers@.len(),
                0 <= i <= n,
                forall |j: int| 0 <= j < i ==> (#[trigger] self.providers@[j]).name@ != backend@,
                key@ == backend@,
            decreases n - i,
        {
            if self.providers[i].name == key {
                proof {
                    lemma_identify_first_provider(self.providers@, backend@, i as int);
                }
                let st = &self.providers[i].state;
                let last_success = match st.last_success_ms {
                    Some(_) => Some(now_unix),
                    None => None,
                };
                let last_failure = match st.last_failure_ms {
                    Some(_) => Some(now_unix),
                    None => None,
                };
                let cooldown_until = match st.cooldown_until_ms {
                    Some(c) => Some(now_unix.saturating_add(c.saturating_sub(now_ms) / 1000)),
                    None => None,
                };
                return ProviderHealth {
                    backend: key,
                    state: st.compute_state(&self.config, now_ms),
                    consecutive_failures: st.consecutive_failures,
                    avg_latency_ms: st.avg_latency_ms(),
                    total_requests: st.total_requests,
                    successful_requests: st.successful_requests,
                    failed_requests: st.failed_requests,
                    last_success,
                    last_failure,
                    cooldown_until,
                };
            }
            i = i + 1;
        }
        ProviderHealth {
            backend: key,
            state: HealthState::Healthy,
            consecutive_failures: 0,
            avg_latency_ms: 0,
            total_requests: 0,
            successful_requests: 0,
            failed_requests: 0,
            last_success: None,
            last_failure: None,
            cooldown_until: None,
        }
    }

    /// Get health info for all tracked backends, in registry order.
    pub fn all_health_info(&self) -> (r: Vec<ProviderHealth>)
        requires
            self.wf(),
        ensures
            r@.len() == self.providers@.len(),
            forall |i: int|
                0 <= i < r@.len() ==> {
                    let st = self.providers@[i].state@;
                    &&& (#[trigger] r@[i]).backend@ == self.providers@[i].name@
                    &&& r@[i].consecutive_failures == st.consecutive_failures
                    &&& r@[i].total_requests == st.total_requests
                    &&& r@[i].successful_requests == st.successful_requests
                    &&& r@[i].failed_requests == st.failed_requests
                },
    {
        let mut out: Vec<ProviderHealth> = Vec::new();
        let n = self.providers.len();
        let mut i: usize = 0;
        while i < n
            invariant
                self.wf(),
                n == self.providers@.len(),
                0 <= i <= n,
                out@.len() == i,
                forall |k: int|
                    0 <= k < i ==> {
                        let st = self.providers@[k].state@;
                        &&& (#[trigger] out@[k]).backend@ == self.providers@[k].name@
                        &&& out@[k].consecutive_failures == st.consecutive_failures
                        &&& out@[k].total_requests == st.total_requests
                        &&& out@[k].successful_requests == st.successful_requests
                        &&& out@[k].failed_requests == st.failed_requests
                    },
            decreases n - i,
        {
            proof {
                assert(forall |j: int|
                    0 <= j < i ==> (#[trigger] self.providers@[j]).name@
                        != self.providers@[i as int].name@);
                lemma_identify_first_provider(
                    self.providers@,
                    self.providers@[i as int].name@,
                    i as int,
                );
            }
            let name_owned = self.providers[i].name.clone();
            let info = self.get_health_info(name_owned.as_str());
            out.push(info);
            i = i + 1;
        }
        out
    }

    /// Get combined health and circuit breaker status for a backend.
    pub fn get_status(&self, backend: &str) -> (r: ProviderStatus)
        ensures
            r.backend@ == backend@,
            r.circuit_state == self.spec_circuit_state_of(backend@),
            exists |now_ms: u64|
                r.health == #[trigger] self.spec_health_of(backend@, now_ms) && r.available
                    == self.spec_available_at(backend@, now_ms),
    {
        let now_ms = clock::elapsed_ms(&self.epoch);
        let health = self.get_health_at(backend, now_ms);
        let circuit_state = match &self.circuit_breakers {
            Some(cb) => {
                match cb.stats(backend) {
                    Some(s) => s.state,
                    None => CircuitState::Closed,
                }
            },
            None => CircuitState::Closed,
        };
        let available = self.is_available_at(backend, now_ms);
        proof {
            assert(health == self.spec_health_of(backend@, now_ms) && available
                == self.spec_available_at(backend@, now_ms));
        }
        ProviderStatus { backend: backend.to_owned(), health, circuit_state, available }
    }
}

impl Default for ProviderHealthRegistry {
    /// A registry with the default health configuration and no breaker
    /// registry attached.
    fn default() -> (r: Self)
        ensures
            r.config.degraded_latency_ms == 5000,
            r.config.degraded_failure_count == 2,
            r.config.unhealthy_failure_count == 5,
            r.config.cooldown_secs == 60,
            r.config.latency_window == 10,
            r.providers@.len() == 0,
            r.circuit_breakers matches None,
            r.wf(),
    {
        ProviderHealthRegistry::new(HealthConfig::default())
    }
}

/// Health metrics reported for a single provider.  The `last_*` and
/// `cooldown_until` timestamps are wall-clock Unix seconds.
#[derive(Debug, Clone)]
pub struct ProviderHealth {
    pub backend: String,
    pub state: HealthState,
    pub consecutive_failures: u32,
    /// Truncated mean of the recent latencies, in ms (0 with no samples).
    pub avg_latency_ms: u64,
    pub total_requests: u64,
    pub successful_requests: u64,
    pub failed_requests: u64,
    pub last_success: Option<u64>,
    pub last_failure: Option<u64>,
    pub cooldown_until: Option<u64>,
}

/// Combined status for a provider.
#[derive(Debug, Clone)]
pub struct ProviderStatus {
    pub backend: String,
    pub health: HealthState,
    pub circuit_state: CircuitState,
    pub available: bool,
}

} // verus!
