//! Circuit breaker pattern for protecting against cascading failures.
//!
//! States: Closed -> Open -> HalfOpen -> Closed
//! - Closed: normal operation, requests pass through
//! - Open: failures exceeded threshold, requests are rejected immediately
//! - HalfOpen: recovery period, limited requests allowed to probe health
//!
//! Every transition is captured by a spec-level transition function
//! (`spec_after_failure`, `spec_after_success`, `spec_after_check`), and the
//! executable recorder methods are proved to implement exactly those
//! transitions.  Internal timing uses milliseconds of monotonic time
//! measured from the breaker's creation; methods that read the clock state
//! what holds for every value it can return.

use vstd::prelude::*;

verus! {

use crate::clock;
use crate::num::spec_saturating_mul_u64;

/// Circuit breaker state.
#[derive(Debug, Clone, Copy, PartialEq, Eq, Default, Structural)]
pub enum CircuitState {
    #[default]
    Closed,
    Open,
    HalfOpen,
}

/// Configuration for circuit breaker behavior.
#[derive(Debug, Clone, Copy, PartialEq, Eq, Structural)]
pub struct CircuitBreakerConfig {
    /// Number of consecutive failures before opening circuit.
    pub failure_threshold: u32,
    /// Duration to keep circuit open before trying half-open.
    pub recovery_timeout_secs: u64,
    /// Number of successful probes in half-open before closing.
    pub half_open_probes: u32,
    /// Enable circuit breaker (can be disabled via config).
    pub enabled: bool,
}

impl CircuitBreakerConfig {
    /// A usable configuration: both thresholds are positive, so the state
    /// invariants of a breaker are meaningful.
    pub open spec fn wf(&self) -> bool {
        self.failure_threshold >= 1 && self.half_open_probes >= 1
    }

    /// The recovery timeout in milliseconds of monotonic time.
    pub open spec fn spec_recovery_timeout_ms(&self) -> u64 {
        spec_saturating_mul_u64(self.recovery_timeout_secs, 1000)
    }
}

impl Default for CircuitBreakerConfig {
    /// 5 consecutive failures trip the circuit; recovery is probed after
    /// 30 s, and 3 successful probes close it again.
    fn default() -> (c: Self)
        ensures
            c.failure_threshold == 5,
            c.recovery_timeout_secs == 30,
            c.half_open_probes == 3,
            c.enabled == true,
            c.wf(),
    {
        CircuitBreakerConfig {
            failure_threshold: 5,
            recovery_timeout_secs: 30,
            half_open_probes: 3,
            enabled: true,
        }
    }
}

/// Result of a circuit breaker check.
#[derive(Debug, Clone, Copy, PartialEq, Eq, Structural)]
pub enum CircuitBreakerDecision {
    /// Request should proceed.
    Allow,
    /// Request rejected due to open circuit.
    Reject,
    /// Request allowed as a probe in half-open state.
    Probe,
}

/// A single circuit breaker instance.
#[derive(Debug)]
pub struct CircuitBreaker {
    pub name: String,
    pub config: CircuitBreakerConfig,
    /// Creation time; all stored timestamps are milliseconds since this.
    pub epoch: std::time::Instant,
    pub circuit_state: CircuitState,
    pub consecutive_failures: u32,
    pub consecutive_successes: u32,
    /// Monotonic milliseconds of the last recorded failure.
    pub last_failure_ms: Option<u64>,
    pub total_failures: u64,
    pub total_successes: u64,
    pub total_rejections: u64,
}

impl CircuitBreaker {
    /// State invariant.  When the breaker is enabled: a closed circuit has
    /// not yet reached the failure threshold, an open circuit remembers the
    /// failure that opened (or re-armed) it, and a half-open circuit has not
    /// yet collected enough probes to close.
    pub open spec fn wf(&self) -> bool {
        &&& self.config.wf()
        &&& (self.config.enabled ==> {
            &&& (self.circuit_state == CircuitState::Closed ==> self.consecutive_failures
                < self.config.failure_threshold)
            &&& (self.circuit_state == CircuitState::Open ==> self.last_failure_ms matches Some(_))
            &&& (self.circuit_state == CircuitState::HalfOpen ==> self.consecutive_successes
                < self.config.half_open_probes)
        })
    }

    /// The breaker after a success is recorded.  Consecutive failures are
    /// zeroed; enough consecutive probes close a half-open circuit, and a
    /// success observed while open closes the circuit defensively.
    pub open spec fn spec_after_success(self) -> CircuitBreaker {
        if !self.config.enabled {
            self
        } else {
            let base = CircuitBreaker {
                total_successes: self.total_successes.saturating_add(1),
                consecutive_failures: 0,
                ..self
            };
            match self.circuit_state {
                CircuitState::Closed => base,
                CircuitState::HalfOpen => {
                    let cs = self.consecutive_successes.saturating_add(1);
                    if cs >= self.config.half_open_probes {
                        CircuitBreaker {
                            circuit_state: CircuitState::Closed,
                            consecutive_successes: 0,
                            ..base
                        }
                    } else {
                        CircuitBreaker { consecutive_successes: cs, ..base }
                    }
                },
                CircuitState::Open => CircuitBreaker { circuit_state: CircuitState::Closed, ..base },
            }
        }
    }

    /// The breaker after a failure recorded at `now_ms`.  The failure time
    /// is always refreshed (restarting the recovery clock); reaching the
    /// threshold opens a closed circuit, and any probe failure reopens a
    /// half-open one.
    pub open spec fn spec_after_failure(self, now_ms: u64) -> CircuitBreaker {
        if !self.config.enabled {
            self
        } else {
            let base = CircuitBreaker {
                total_failures: self.total_failures.saturating_add(1),
                consecutive_failures: self.consecutive_failures.saturating_add(1),
                consecutive_successes: 0,
                last_failure_ms: Some(now_ms),
                ..self
            };
            match self.circuit_state {
                CircuitState::Closed => {
                    if base.consecutive_failures >= self.config.failure_threshold {
                        CircuitBreaker { circuit_state: CircuitState::Open, ..base }
                    } else {
                        base
                    }
                },
                CircuitState::HalfOpen => CircuitBreaker { circuit_state: CircuitState::Open, ..base },
                CircuitState::Open => base,
            }
        }
    }

    /// The admission decision of a check performed at `now_ms`: closed
    /// circuits allow, half-open circuits probe, and an open circuit
    /// rejects until the recovery timeout has elapsed since the last
    /// failure, at which point the check itself probes.
    pub open spec fn spec_check_decision(self, now_ms: u64) -> CircuitBreakerDecision {
        if !self.config.enabled {
            CircuitBreakerDecision::Allow
        } else {
            match self.circuit_state {
                CircuitState::Closed => CircuitBreakerDecision::Allow,
                CircuitState::HalfOpen => CircuitBreakerDecision::Probe,
                CircuitState::Open => {
                    if self.spec_recovery_elapsed(now_ms) {
                        CircuitBreakerDecision::Probe
                    } else {
                        CircuitBreakerDecision::Reject
                    }
                },
            }
        }
    }

    /// Whether the recovery timeout has elapsed at `now_ms` since the last
    /// recorded failure.
    pub open spec fn spec_recovery_elapsed(self, now_ms: u64) -> bool {
        match self.last_failure_ms {
            Some(t) => now_ms.saturating_sub(t) >= self.config.spec_recovery_timeout_ms(),
            None => false,
        }
    }

    /// The breaker after a check performed at `now_ms`: the open-to-half-open
    /// transition happens inside the check, and a rejected check is counted.
    pub open spec fn spec_after_check(self, now_ms: u64) -> CircuitBreaker {
        if self.config.enabled && self.circuit_state == CircuitState::Open {
            if self.spec_recovery_elapsed(now_ms) {
                CircuitBreaker {
                    circuit_state: CircuitState::HalfOpen,
                    consecutive_successes: 0,
                    ..self
                }
            } else {
                CircuitBreaker { total_rejections: self.total_rejections.saturating_add(1), ..self }
            }
        } else {
            self
        }
    }

    /// Create a new circuit breaker with the given name and config.
    pub fn new(name: &str, config: CircuitBreakerConfig) -> (cb: Self)
        requires
            config.wf(),
        ensures
            cb.name@ == name@,
            cb.config == config,
            cb.circuit_state == CircuitState::Closed,
            cb.consecutive_failures == 0,
            cb.consecutive_successes == 0,
            cb.last_failure_ms matches None,
            cb.total_failures == 0,
            cb.total_successes == 0,
            cb.total_rejections == 0,
            cb.wf(),
    {
        CircuitBreaker {
            name: name.to_owned(),
            config,
            epoch: clock::instant_now(),
            circuit_state: CircuitState::Closed,
            consecutive_failures: 0,
            consecutive_successes: 0,
            last_failure_ms: None,
            total_failures: 0,
            total_successes: 0,
            total_rejections: 0,
        }
    }

    /// Get current state.
    pub fn state(&self) -> (s: CircuitState)
        ensures
            s == self.circuit_state,
    {
        self.circuit_state
    }

    /// Check if a request should be allowed, evaluating the clock at
    /// `now_ms` milliseconds since the breaker's creation.
    pub fn check_at(&mut self, now_ms: u64) -> (d: CircuitBreakerDecision)
        requires
            old(self).wf(),
        ensures
            final(self).wf(),
            d == old(self).spec_check_decision(now_ms),
            *final(self) == old(self).spec_after_check(now_ms),
    {
        if !self.config.enabled {
            return CircuitBreakerDecision::Allow;
        }
        match self.circuit_state {
            CircuitState::Closed => CircuitBreakerDecision::Allow,
            CircuitState::HalfOpen => CircuitBreakerDecision::Probe,
            CircuitState::Open => {
                let mut recovery_elapsed = false;
                if let Some(t) = self.last_failure_ms {
                    let timeout_ms = self.config.recovery_timeout_secs.saturating_mul(1000);
                    if now_ms.saturating_sub(t) >= timeout_ms {
                        recovery_elapsed = true;
                    }
                }
                if recovery_elapsed {
                    self.circuit_state = CircuitState::HalfOpen;
                    self.consecutive_successes = 0;
                    CircuitBreakerDecision::Probe
                } else {
                    self.total_rejections = self.total_rejections.saturating_add(1);
                    CircuitBreakerDecision::Reject
                }
            },
        }
    }

    /// Check if a request should be allowed.  Reads the monotonic clock;
    /// whatever time it returns, the result and the new state are those of
    /// [`Self::check_at`] at that time.
    pub fn check(&mut self) -> (d: CircuitBreakerDecision)
        requires
            old(self).wf(),
        ensures
            final(self).wf(),
            exists |now_ms: u64|
                d == old(self).spec_check_decision(now_ms) && *final(self) == old(
                    self,
                ).spec_after_check(now_ms),
            !old(self).config.enabled ==> d == CircuitBreakerDecision::Allow && *final(self)
                == *old(self),
            old(self).circuit_state == CircuitState::Closed ==> d == CircuitBreakerDecision::Allow
                && *final(self) == *old(self),
            old(self).config.enabled && old(self).circuit_state == CircuitState::HalfOpen ==> d
                == CircuitBreakerDecision::Probe && *final(self) == *old(self),
            old(self).config.enabled && old(self).circuit_state == CircuitState::Open ==> (d
                == CircuitBreakerDecision::Reject || d == CircuitBreakerDecision::Probe),
    {
        let now_ms = clock::elapsed_ms(&self.epoch);
        let d = self.check_at(now_ms);
        proof {
            assert(d == old(self).spec_check_decision(now_ms) && *self == old(
                self,
            ).spec_after_check(now_ms));
        }
        d
    }

    /// Record a successful request.
    pub fn record_success(&mut self)
        requires
            old(self).wf(),
        ensures
            final(self).wf(),
            *final(self) == old(self).spec_after_success(),
            final(self).config == old(self).config,
            final(self).name@ == old(self).name@,
            old(self).config.enabled ==> final(self).consecutive_failures == 0,
    {
        if !self.config.enabled {
            return ;
        }
        self.total_successes = self.total_successes.saturating_add(1);
        self.consecutive_failures = 0;
        match self.circuit_state {
            CircuitState::Closed => {},
            CircuitState::HalfOpen => {
                self.consecutive_successes = self.consecutive_successes.saturating_add(1);
                if self.consecutive_successes >= self.config.half_open_probes {
                    self.circuit_state = CircuitState::Closed;
                    self.consecutive_successes = 0;
                }
            },
            CircuitState::Open => {
                self.circuit_state = CircuitState::Closed;
            },
        }
    }

    /// Record a failed request at `now_ms` milliseconds since the breaker's
    /// creation.
    pub fn record_failure_at(&mut self, now_ms: u64)
        requires
            old(self).wf(),
        ensures
            final(self).wf(),
            *final(self) == old(self).spec_after_failure(now_ms),
    {
        if !self.config.enabled {
            return ;
        }
        self.total_failures = self.total_failures.saturating_add(1);
        self.consecutive_failures = self.consecutive_failures.saturating_add(1);
        self.consecutive_successes = 0;
        self.last_failure_ms = Some(now_ms);
        match self.circuit_state {
            CircuitState::Closed => {
                if self.consecutive_failures >= self.config.failure_threshold {
                    self.circuit_state = CircuitState::Open;
                }
            },
            CircuitState::HalfOpen => {
                self.circuit_state = CircuitState::Open;
            },
            CircuitState::Open => {},
        }
    }

    /// Record a failed request.  Reads the monotonic clock; whatever time it
    /// returns, the new state is that of [`Self::record_failure_at`] at that
    /// time.
    pub fn record_failure(&mut self)
        requires
            old(self).wf(),
        ensures
            final(self).wf(),
            exists |now_ms: u64| *final(self) == old(self).spec_after_failure(now_ms),
            final(self).config == old(self).config,
            final(self).name@ == old(self).name@,
    {
        let now_ms = clock::elapsed_ms(&self.epoch);
        self.record_failure_at(now_ms);
        proof {
            assert(*self == old(self).spec_after_failure(now_ms));
        }
    }

    /// Get statistics for this circuit breaker.
    pub fn stats(&self) -> (s: CircuitBreakerStats)
        ensures
            s.name@ == self.name@,
            s.state == self.circuit_state,
            s.consecutive_failures == self.consecutive_failures,
            s.total_failures == self.total_failures,
            s.total_successes == self.total_successes,
            s.total_rejections == self.total_rejections,
    {
        CircuitBreakerStats {
            name: self.name.clone(),
            state: self.circuit_state,
            consecutive_failures: self.consecutive_failures,
            total_failures: self.total_failures,
            total_successes: self.total_successes,
            total_rejections: self.total_rejections,
        }
    }
}

/// Statistics for a circuit breaker.
#[derive(Debug, Clone)]
pub struct CircuitBreakerStats {
    pub name: String,
    pub state: CircuitState,
    pub consecutive_failures: u32,
    pub total_failures: u64,
    pub total_successes: u64,
    pub total_rejections: u64,
}

/// The breaker after a sequence of failures recorded at the given times.
pub open spec fn spec_after_failures(b: CircuitBreaker, times: Seq<u64>) -> CircuitBreaker
    decreases times.len(),
{
    if times.len() == 0 {
        b
    } else {
        spec_after_failures(b.spec_after_failure(times[0]), times.subrange(1, times.len() as int))
    }
}

/// Recorded failures never leave the `Open` state, and the last of them is
/// remembered as the failure time.
proof fn lemma_failures_keep_open(b: CircuitBreaker, times: Seq<u64>)
    requires
        b.wf(),
        b.config.enabled,
        b.circuit_state == CircuitState::Open,
    ensures
        spec_after_failures(b, times).wf(),
        spec_after_failures(b, times).circuit_state == CircuitState::Open,
        spec_after_failures(b, times).config == b.config,
        times.len() >= 1 ==> spec_after_failures(b, times).last_failure_ms == Some(
            times[times.len() - 1],
        ),
        times.len() == 0 ==> spec_after_failures(b, times) == b,
    decreases times.len(),
{
    if times.len() > 0 {
        let b1 = b.spec_after_failure(times[0]);
        let rest = times.subrange(1, times.len() as int);
        lemma_failures_keep_open(b1, rest);
        if times.len() == 1 {
            assert(rest.len() == 0);
        } else {
            assert(rest[rest.len() - 1] == times[times.len() - 1]);
        }
    }
}

/// From a closed circuit, each recorded failure raises the consecutive
/// count by one until the threshold is reached, at which point the circuit
/// opens and stays open.
proof fn lemma_failures_from_closed(b: CircuitBreaker, times: Seq<u64>)
    requires
        b.wf(),
        b.config.enabled,
        b.circuit_state == CircuitState::Closed,
    ensures
        spec_after_failures(b, times).wf(),
        spec_after_failures(b, times).config == b.config,
        b.consecutive_failures + times.len() >= b.config.failure_threshold ==> spec_after_failures(
            b,
            times,
        ).circuit_state == CircuitState::Open,
        b.consecutive_failures + times.len() < b.config.failure_threshold ==> spec_after_failures(
            b,
            times,
        ).circuit_state == CircuitState::Closed && spec_after_failures(b, times).consecutive_failures
            == b.consecutive_failures + times.len(),
        times.len() >= 1 ==> spec_after_failures(b, times).last_failure_ms == Some(
            times[times.len() - 1],
        ),
    decreases times.len(),
{
    if times.len() > 0 {
        let b1 = b.spec_after_failure(times[0]);
        let rest = times.subrange(1, times.len() as int);
        if b1.circuit_state == CircuitState::Open {
            lemma_failures_keep_open(b1, rest);
        } else {
            lemma_failures_from_closed(b1, rest);
        }
        if times.len() == 1 {
            assert(rest.len() == 0);
        } else {
            assert(rest[rest.len() - 1] == times[times.len() - 1]);
        }
    }
}

/// Law: with the breaker enabled, `failure_threshold` consecutive recorded
/// failures starting from a fresh closed breaker leave the circuit `Open`,
/// so a following check cannot `Allow`: it rejects, and it probes instead
/// exactly when the recovery timeout has already elapsed since the last
/// failure (for example immediately, when `recovery_timeout_secs` is 0).
pub proof fn lemma_threshold_failures_trip(b: CircuitBreaker, times: Seq<u64>, now_ms: u64)
    requires
        b.wf(),
        b.config.enabled,
        b.circuit_state == CircuitState::Closed,
        b.consecutive_failures == 0,
        times.len() >= b.config.failure_threshold,
    ensures
        spec_after_failures(b, times).circuit_state == CircuitState::Open,
        spec_after_failures(b, times).last_failure_ms == Some(times[times.len() - 1]),
        spec_after_failures(b, times).spec_check_decision(now_ms)
            != CircuitBreakerDecision::Allow,
        spec_after_failures(b, times).spec_check_decision(now_ms) == CircuitBreakerDecision::Probe
            <==> now_ms.saturating_sub(times[times.len() - 1])
            >= b.config.spec_recovery_timeout_ms(),
{
    lemma_failures_from_closed(b, times);
}

/// `post_breakers` is the breaker sequence of `pre` after the breaker named
/// `name` (lazily created as `before` when absent) has been replaced by
/// `updated`.
pub open spec fn spec_breakers_updated(
    pre: CircuitBreakerRegistry,
    post_breakers: Seq<CircuitBreaker>,
    name: Seq<char>,
    before: CircuitBreaker,
    updated: CircuitBreaker,
) -> bool {
    match spec_find_breaker(pre.breakers@, name) {
        Some(i) => before == pre.breakers@[i] && post_breakers == pre.breakers@.update(i, updated),
        None => is_fresh_breaker(before, name, pre.config) && post_breakers == pre.breakers@.push(
            updated,
        ),
    }
}

/// Registry of circuit breakers per backend.
#[derive(Debug)]
pub struct CircuitBreakerRegistry {
    pub config: CircuitBreakerConfig,
    pub breakers: Vec<CircuitBreaker>,
}

/// The index of the breaker named `name`, if one exists.
pub open spec fn spec_find_breaker(s: Seq<CircuitBreaker>, name: Seq<char>) -> Option<int>
    decreases s.len(),
{
    if s.len() == 0 {
        None
    } else if s[0].name@ == name {
        Some(0)
    } else {
        match spec_find_breaker(s.subrange(1, s.len() as int), name) {
            Some(i) => Some(i + 1),
            None => None,
        }
    }
}

/// What `spec_find_breaker` finds: the first breaker with that name, or a
/// guarantee that none exists.
pub proof fn lemma_find_breaker(s: Seq<CircuitBreaker>, name: Seq<char>)
    ensures
        match spec_find_breaker(s, name) {
            Some(i) => 0 <= i < s.len() && s[i].name@ == name && forall |j: int|
                0 <= j < i ==> (#[trigger] s[j]).name@ != name,
            None => forall |j: int| 0 <= j < s.len() ==> (#[trigger] s[j]).name@ != name,
        },
    decreases s.len(),
{
    if s.len() > 0 && s[0].name@ != name {
        let tail = s.subrange(1, s.len() as int);
        lemma_find_breaker(tail, name);
        assert(forall |j: int| 0 <= j < tail.len() ==> tail[j] == s[j + 1]);
        match spec_find_breaker(tail, name) {
            Some(i) => {
                assert(tail[i] == s[i + 1]);
                assert forall |j: int| 0 <= j < i + 1 implies (#[trigger] s[j]).name@ != name by {
                    if j >= 1 {
                        assert(tail[j - 1] == s[j]);
                        assert(tail[j - 1].name@ != name);
                    }
                }
            },
            None => {
                assert forall |j: int| 0 <= j < s.len() implies (#[trigger] s[j]).name@
                    != name by {
                    if j >= 1 {
                        assert(tail[j - 1] == s[j]);
                        assert(tail[j - 1].name@ != name);
                    }
                }
            },
        }
    }
}

/// If the entry at `i` is named `name` and no earlier entry is, the find
/// returns exactly `i`.
pub proof fn lemma_identify_first_match(s: Seq<CircuitBreaker>, name: Seq<char>, i: int)
    requires
        0 <= i < s.len(),
        s[i].name@ == name,
        forall |j: int| 0 <= j < i ==> (#[trigger] s[j]).name@ != name,
    ensures
        spec_find_breaker(s, name) == Some(i),
{
    lemma_find_breaker(s, name);
    match spec_find_breaker(s, name) {
        Some(k) => {
            if k < i {
                assert(s[k].name@ != name);
            } else if k > i {
                assert(s[i].name@ != name);
            }
        },
        None => {
            assert(s[i].name@ != name);
        },
    }
}

/// A freshly created breaker for `name` under `config`: closed, with all
/// counters zero and no failure recorded.
pub open spec fn is_fresh_breaker(
    cb: CircuitBreaker,
    name: Seq<char>,
    config: CircuitBreakerConfig,
) -> bool {
    &&& cb.name@ == name
    &&& cb.config == config
    &&& cb.circuit_state == CircuitState::Closed
    &&& cb.consecutive_failures == 0
    &&& cb.consecutive_successes == 0
    &&& cb.last_failure_ms matches None
    &&& cb.total_failures == 0
    &&& cb.total_successes == 0
    &&& cb.total_rejections == 0
}

/// The registry invariant over its parts: every breaker is well formed,
/// carries the registry's config, and backend names are unique.
pub open spec fn registry_wf_parts(config: CircuitBreakerConfig, s: Seq<CircuitBreaker>) -> bool {
    &&& config.wf()
    &&& forall |i: int| 0 <= i < s.len() ==> (#[trigger] s[i]).wf()
    &&& forall |i: int| 0 <= i < s.len() ==> (#[trigger] s[i]).config == config
    &&& forall |i: int, j: int|
        0 <= i < j < s.len() ==> (#[trigger] s[i]).name@ != (#[trigger] s[j]).name@
}

impl CircuitBreakerRegistry {
    /// Registry invariant.
    pub open spec fn wf(&self) -> bool {
        registry_wf_parts(self.config, self.breakers@)
    }

    /// Create a new registry with the given config.
    pub fn new(config: CircuitBreakerConfig) -> (r: Self)
        requires
            config.wf(),
        ensures
            r.config == config,
            r.breakers@.len() == 0,
            r.wf(),
    {
        CircuitBreakerRegistry { config, breakers: Vec::new() }
    }

    /// Get or create the circuit breaker for a backend.  Mutations made
    /// through the returned reference are seen by the registry; the
    /// registry invariant is restored as long as the caller preserves the
    /// breaker's invariant, name and config.
    pub fn get(&mut self, backend: &str) -> (b: &mut CircuitBreaker)
        requires
            old(self).wf(),
        ensures
            b.wf(),
            b.config == old(self).config,
            b.name@ == backend@,
            final(self).config == old(self).config,
            match spec_find_breaker(old(self).breakers@, backend@) {
                Some(i) => *b == old(self).breakers@[i] && final(self).breakers@ == old(
                    self,
                ).breakers@.update(i, *final(b)),
                None => is_fresh_breaker(*b, backend@, old(self).config) && final(self).breakers@
                    == old(self).breakers@.push(*final(b)),
            },
            (final(b).wf() && final(b).config == old(self).config && final(b).name@ == backend@)
                ==> final(self).wf(),
    {
        proof {
            lemma_find_breaker(self.breakers@, backend@);
        }
        let key: String = backend.to_owned();
        let n = self.breakers.len();
        let mut i: usize = 0;
        while i < n
            invariant
                n == self.breakers@.len(),
                0 <= i <= n,
                forall |j: int| 0 <= j < i ==> (#[trigger] self.breakers@[j]).name@ != backend@,
                key@ == backend@,
                *self == *old(self),
                old(self).wf(),
            decreases n - i,
        {
            if self.breakers[i].name == key {
                proof {
                    assert(self.breakers@[i as int].name@ == backend@);
                    lemma_identify_first_match(self.breakers@, backend@, i as int);
                    assert(old(self).breakers@ == self.breakers@);
                    assert(old(self).breakers@[i as int].wf());
                    assert(old(self).breakers@[i as int].config == old(self).config);
                    assert forall |y: CircuitBreaker|
                        (y.wf() && y.config == old(self).config && y.name@ == backend@) implies
                        registry_wf_parts(
                            old(self).config,
                            old(self).breakers@.update(i as int, y),
                        ) by {
                        let prev = old(self).breakers@;
                        let s = prev.update(i as int, y);
                        assert(forall |j: int|
                            0 <= j < s.len() && j != i as int ==> s[j] == prev[j]);
                        assert(s[i as int] == y);
                        assert(forall |j: int| 0 <= j < s.len() ==> (#[trigger] s[j]).wf());
                        assert(forall |j: int|
                            0 <= j < s.len() ==> (#[trigger] s[j]).config == old(self).config);
                        assert(forall |j: int|
                            0 <= j < s.len() ==> (#[trigger] s[j]).name@ == prev[j].name@);
                        assert(forall |j: int, k: int|
                            0 <= j < k < s.len() ==> (#[trigger] s[j]).name@ != (
                            #[trigger] s[k]).name@);
                    }
                }
                return &mut self.breakers[i];
            }
            i = i + 1;
        }
        proof {
            lemma_find_breaker(self.breakers@, backend@);
            match spec_find_breaker(self.breakers@, backend@) {
                Some(k) => {
                    assert(self.breakers@[k].name@ != backend@);
                    assert(false);
                },
                None => {},
            }
        }
        let cb = CircuitBreaker::new(backend, self.config);
        let ghost pre = self.breakers@;
        self.breakers.push(cb);
        let last = self.breakers.len() - 1;
        proof {
            assert forall |y: CircuitBreaker|
                #![trigger pre.push(y)]
                true implies pre.push(cb).update(pre.len() as int, y) == pre.push(y) by {
                assert(pre.push(cb).update(pre.len() as int, y) =~= pre.push(y));
            }
            assert forall |y: CircuitBreaker|
                (y.wf() && y.config == old(self).config && y.name@ == backend@) implies
                registry_wf_parts(old(self).config, pre.push(y)) by {
                let s = pre.push(y);
                assert(forall |j: int| 0 <= j < pre.len() ==> s[j] == pre[j]);
                assert(s[pre.len() as int] == y);
                assert(forall |j: int| 0 <= j < s.len() ==> (#[trigger] s[j]).wf());
                assert(forall |j: int|
                    0 <= j < s.len() ==> (#[trigger] s[j]).config == old(self).config);
                assert(forall |j: int| 0 <= j < pre.len() ==> (#[trigger] s[j]).name@ != backend@);
                assert(forall |j: int, k: int|
                    0 <= j < k < s.len() ==> (#[trigger] s[j]).name@ != (#[trigger] s[k]).name@);
            }
        }
        &mut self.breakers[last]
    }

    /// Check if a request to a backend should be allowed.
    pub fn check(&mut self, backend: &str) -> (d: CircuitBreakerDecision)
        requires
            old(self).wf(),
        ensures
            final(self).wf(),
            final(self).config == old(self).config,
            exists |now_ms: u64, before: CircuitBreaker|
                #![trigger before.spec_after_check(now_ms)]
                d == before.spec_check_decision(now_ms) && spec_breakers_updated(
                    *old(self),
                    final(self).breakers@,
                    backend@,
                    before,
                    before.spec_after_check(now_ms),
                ),
    {
        let ghost pre = *self;
        let b = self.get(backend);
        let ghost before = *b;
        let d = b.check();
        proof {
            let now_ms = choose |now_ms: u64|
                d == before.spec_check_decision(now_ms) && *b == before.spec_after_check(now_ms);
            assert(d == before.spec_check_decision(now_ms) && spec_breakers_updated(
                pre,
                self.breakers@,
                backend@,
                before,
                before.spec_after_check(now_ms),
            ));
        }
        d
    }

    /// Record success for a backend.
    pub fn record_success(&mut self, backend: &str)
        requires
            old(self).wf(),
        ensures
            final(self).wf(),
            final(self).config == old(self).config,
            exists |before: CircuitBreaker|
                #![trigger before.spec_after_success()]
                spec_breakers_updated(
                    *old(self),
                    final(self).breakers@,
                    backend@,
                    before,
                    before.spec_after_success(),
                ),
    {
        let ghost pre = *self;
        let b = self.get(backend);
        let ghost before = *b;
        b.record_success();
        proof {
            assert(spec_breakers_updated(
                pre,
                self.breakers@,
                backend@,
                before,
                before.spec_after_success(),
            ));
        }
    }

    /// Record failure for a backend.
    pub fn record_failure(&mut self, backend: &str)
        requires
            old(self).wf(),
        ensures
            final(self).wf(),
            final(self).config == old(self).config,
            exists |now_ms: u64, before: CircuitBreaker|
                #![trigger before.spec_after_failure(now_ms)]
                spec_breakers_updated(
                    *old(self),
                    final(self).breakers@,
                    backend@,
                    before,
                    before.spec_after_failure(now_ms),
                ),
    {
        let ghost pre = *self;
        let b = self.get(backend);
        let ghost before = *b;
        b.record_failure();
        proof {
            let now_ms = choose |now_ms: u64| *b == before.spec_after_failure(now_ms);
            assert(spec_breakers_updated(
                pre,
                self.breakers@,
                backend@,
                before,
                before.spec_after_failure(now_ms),
            ));
        }
    }

    /// Get statistics for all circuit breakers.
    pub fn all_stats(&self) -> (r: Vec<CircuitBreakerStats>)
        ensures
            r@.len() == self.breakers@.len(),
            forall |i: int|
                0 <= i < r@.len() ==> {
                    let cb = self.breakers@[i];
                    &&& (#[trigger] r@[i]).name@ == cb.name@
                    &&& r@[i].state == cb.circuit_state
                    &&& r@[i].consecutive_failures == cb.consecutive_failures
                    &&& r@[i].total_failures == cb.total_failures
                    &&& r@[i].total_successes == cb.total_successes
                    &&& r@[i].total_rejections == cb.total_rejections
                },
    {
        let mut out: Vec<CircuitBreakerStats> = Vec::new();
        let n = self.breakers.len();
        let mut i: usize = 0;
        while i < n
            invariant
                n == self.breakers@.len(),
                0 <= i <= n,
                out@.len() == i,
                forall |k: int|
                    0 <= k < i ==> {
                        let cb = self.breakers@[k];
                        &&& (#[trigger] out@[k]).name@ == cb.name@
                        &&& out@[k].state == cb.circuit_state
                        &&& out@[k].consecutive_failures == cb.consecutive_failures
                        &&& out@[k].total_failures == cb.total_failures
                        &&& out@[k].total_successes == cb.total_successes
                        &&& out@[k].total_rejections == cb.total_rejections
                    },
            decreases n - i,
        {
            out.push(self.breakers[i].stats());
            i = i + 1;
        }
        out
    }

    /// Get statistics for a specific backend, if the registry has seen it.
    pub fn stats(&self, backend: &str) -> (r: Option<CircuitBreakerStats>)
        ensures
            match spec_find_breaker(self.breakers@, backend@) {
                Some(i) => {
                    let cb = self.breakers@[i];
                    &&& r matches Some(s)
                    &&& s.name@ == cb.name@
                    &&& s.state == cb.circuit_state
                    &&& s.consecutive_failures == cb.consecutive_failures
                    &&& s.total_failures == cb.total_failures
                    &&& s.total_successes == cb.total_successes
                    &&& s.total_rejections == cb.total_rejections
                },
                None => r matches None,
            },
    {
        proof {
            lemma_find_breaker(self.breakers@, backend@);
        }
        let key: String = backend.to_owned();
        let n = self.breakers.len();
        let mut i: usize = 0;
        while i < n
            invariant
                n == self.breakers@.len(),
                0 <= i <= n,
                forall |j: int| 0 <= j < i ==> (#[trigger] self.breakers@[j]).name@ != backend@,
                key@ == backend@,
            decreases n - i,
        {
            if self.breakers[i].name == key {
                proof {
                    lemma_identify_first_match(self.breakers@, backend@, i as int);
                }
                return Some(self.breakers[i].stats());
            }
            i = i + 1;
        }
        None
    }

    /// Check if the circuit is open for a backend.  Unknown backends are
    /// reported as not open.
    pub fn is_open(&self, backend: &str) -> (r: bool)
        ensures
            r == self.spec_is_open(backend@),
    {
        proof {
            lemma_find_breaker(self.breakers@, backend@);
        }
        let key: String = backend.to_owned();
        let n = self.breakers.len();
        let mut i: usize = 0;
        while i < n
            invariant
                n == self.breakers@.len(),
                0 <= i <= n,
                forall |j: int| 0 <= j < i ==> (#[trigger] self.breakers@[j]).name@ != backend@,
                key@ == backend@,
            decreases n - i,
        {
            if self.breakers[i].name == key {
                proof {
                    lemma_identify_first_match(self.breakers@, backend@, i as int);
                }
                let open = match self.breakers[i].circuit_state {
                    CircuitState::Open => true,
                    _ => false,
                };
                return open;
            }
            i = i + 1;
        }
        false
    }

    /// Whether the breaker for `name` exists and is open.
    pub open spec fn spec_is_open(&self, name: Seq<char>) -> bool {
        match spec_find_breaker(self.breakers@, name) {
            Some(i) => self.breakers@[i].circuit_state == CircuitState::Open,
            None => false,
        }
    }
}

impl Default for CircuitBreakerRegistry {
    /// A registry with the default breaker configuration.
    fn default() -> (r: Self)
        ensures
            r.config.failure_threshold == 5,
            r.config.recovery_timeout_secs == 30,
            r.config.half_open_probes == 3,
            r.config.enabled == true,
            r.breakers@.len() == 0,
            r.wf(),
    {
        CircuitBreakerRegistry::new(CircuitBreakerConfig::default())
    }
}

} // verus!
