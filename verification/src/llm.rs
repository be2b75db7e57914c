//! Chat-completion data types and the retry policy of the transport.
//!
//! One chat call sends `POST {base_url}/chat/completions` and retries on
//! rate limiting (HTTP 429), server errors (5xx) and connection-level
//! failures, with jittered exponential backoff bounded by a fixed budget.
//! The decision logic of the retry loop lives here; the HTTP send and the
//! sleep between attempts are performed by the caller that owns the
//! transport, which feeds each attempt's failure back into [`RetryState`].

use vstd::prelude::*;

verus! {

use crate::num::spec_saturating_mul_u64;

/// Maximum number of attempts for one chat call.
pub const MAX_RETRIES: u32 = 5;

/// Backoff before the second attempt, in milliseconds.
pub const INITIAL_BACKOFF_MS: u64 = 1000;

/// Upper bound on any backoff or jittered wait, in milliseconds.
pub const MAX_BACKOFF_MS: u64 = 60000;

/// Numerator of the one-sided jitter factor (3/10, i.e. up to +30%).
pub const JITTER_NUM: u64 = 3;

/// Denominator of the one-sided jitter factor.
pub const JITTER_DEN: u64 = 10;

/// A status is retried when the provider rate-limits (429) or fails
/// server-side (any 5xx).
pub open spec fn spec_retryable_status(code: u16) -> bool {
    code == 429 || (500 <= code && code < 600)
}

/// Check if an HTTP status code is retryable (429 rate limit or 5xx server
/// error).
pub fn is_retryable_status(code: u16) -> (r: bool)
    ensures
        r == spec_retryable_status(code),
{
    code == 429 || (500 <= code && code < 600)
}

/// Relies on rand::Rng::gen_range over `0..bound`: the result is drawn from
/// `[0, bound)`; the call panics on an empty range, so `bound` must be
/// positive.
#[verifier::external_body]
fn random_below(bound: u64) -> (r: u64)
    requires
        bound >= 1,
    ensures
        r < bound,
{
    rand::Rng::gen_range(&mut rand::thread_rng(), 0..bound)
}

/// Calculate a jittered backoff delay: `base_ms` plus a uniformly random
/// one-sided offset of at most `JITTER_NUM/JITTER_DEN` of `base_ms`, capped
/// at [`MAX_BACKOFF_MS`].
pub fn jittered_backoff(base_ms: u64) -> (r: u64)
    ensures
        r <= MAX_BACKOFF_MS,
        base_ms <= MAX_BACKOFF_MS ==> base_ms <= r,
        r as int <= base_ms as int + (base_ms as int) * (JITTER_NUM as int) / (JITTER_DEN as int),
{
    proof {
        assert((base_ms as int) * (JITTER_NUM as int) <= (u64::MAX as int) * (JITTER_NUM as int))
            by (nonlinear_arith)
            requires
                base_ms <= u64::MAX,
        ;
    }
    let max_offset_wide: u128 = (base_ms as u128) * (JITTER_NUM as u128) / (JITTER_DEN as u128);
    proof {
        vstd::arithmetic::div_mod::lemma_div_is_ordered(
            (base_ms as int) * (JITTER_NUM as int),
            (u64::MAX as int) * (JITTER_NUM as int),
            JITTER_DEN as int,
        );
    }
    assert(max_offset_wide < u64::MAX as u128);
    let max_offset: u64 = max_offset_wide as u64;
    let offset: u64 = random_below(max_offset + 1);
    let jittered: u64 = base_ms.saturating_add(offset);
    if jittered < MAX_BACKOFF_MS {
        jittered
    } else {
        MAX_BACKOFF_MS
    }
}

/// Token usage statistics from the API response.
#[derive(Debug, Default, Clone)]
pub struct Usage {
    pub prompt_tokens: u64,
    pub completion_tokens: u64,
}

/// A function invocation requested by the model.
#[derive(Debug, Clone)]
pub struct FunctionCall {
    pub name: String,
    pub arguments: String,
}

/// One tool call carried by an assistant message.
#[derive(Debug, Clone)]
pub struct ToolCall {
    pub id: String,
    pub call_type: String,
    pub function: FunctionCall,
}

/// A chat message, either sent to or received from the provider.
#[derive(Debug, Clone)]
pub struct Message {
    pub role: String,
    pub content: Option<String>,
    pub tool_calls: Option<Vec<ToolCall>>,
}

/// One completion choice of a chat response.
#[derive(Debug)]
pub struct Choice {
    pub message: Message,
    pub finish_reason: Option<String>,
}

/// The provider's reply to one chat-completion request.
#[derive(Debug)]
pub struct ChatResponse {
    pub choices: Vec<Choice>,
    pub usage: Option<Usage>,
}

/// Result of an LLM call including timing and retry info.
#[derive(Debug)]
pub struct LlmCallResult {
    pub response: ChatResponse,
    pub latency_ms: u64,
    pub retries: u32,
}

/// How one attempt of a chat call failed.
#[derive(Debug, Clone)]
pub enum AttemptFailure {
    /// A non-2xx HTTP status, together with the parsed `Retry-After`
    /// header in seconds where the response carried one.
    Status { code: u16, retry_after_secs: Option<u64> },
    /// A connection-level error: timeout, DNS, TLS or connection reset.
    Connection,
}

impl AttemptFailure {
    /// Whether this failure is worth another attempt at all.
    pub open spec fn spec_retryable(self) -> bool {
        match self {
            AttemptFailure::Status { code, .. } => spec_retryable_status(code),
            AttemptFailure::Connection => true,
        }
    }
}

/// What the transport must do after a failed attempt.
#[derive(Debug, Clone, PartialEq, Eq, Structural)]
pub enum RetryDecision {
    /// The failure is non-retryable or the retry budget is exhausted:
    /// surface the error.
    GiveUp,
    /// Sleep for `wait_ms` milliseconds, then send the next attempt.
    RetryAfter { wait_ms: u64 },
}

/// Progress of one chat call through its attempt budget.
#[derive(Debug, Clone, PartialEq, Eq, Structural)]
pub struct RetryState {
    /// Attempts sent so far.
    pub attempts: u32,
    /// Backoff that the next jittered wait is based on.
    pub backoff_ms: u64,
    /// Waits slept so far (reported as `retries` in [`LlmCallResult`]).
    pub retries: u32,
}

impl RetryState {
    pub open spec fn wf(&self) -> bool {
        &&& self.attempts <= MAX_RETRIES
        &&& INITIAL_BACKOFF_MS <= self.backoff_ms <= MAX_BACKOFF_MS
        &&& self.retries <= self.attempts
    }

    /// State before the first attempt of a chat call.
    pub fn new() -> (s: Self)
        ensures
            s.attempts == 0,
            s.backoff_ms == INITIAL_BACKOFF_MS,
            s.retries == 0,
            s.wf(),
    {
        RetryState { attempts: 0, backoff_ms: INITIAL_BACKOFF_MS, retries: 0 }
    }
}

/// The backoff that follows `backoff_ms`: doubled, capped at
/// [`MAX_BACKOFF_MS`].
pub open spec fn spec_next_backoff(backoff_ms: u64) -> u64 {
    if spec_saturating_mul_u64(backoff_ms, 2) > MAX_BACKOFF_MS {
        MAX_BACKOFF_MS
    } else {
        spec_saturating_mul_u64(backoff_ms, 2)
    }
}

/// Decide what to do after a failed attempt, and advance the retry state.
///
/// The attempt just made is counted; on a retryable failure within budget
/// the wait is the provider's `Retry-After` (converted to milliseconds)
/// where present, else a jittered backoff, and the backoff doubles for the
/// next round.
pub fn plan_retry(state: &mut RetryState, failure: &AttemptFailure) -> (d: RetryDecision)
    requires
        old(state).wf(),
        old(state).attempts < MAX_RETRIES,
    ensures
        final(state).wf(),
        final(state).attempts == old(state).attempts + 1,
        !failure.spec_retryable() || final(state).attempts == MAX_RETRIES ==> {
            &&& d == RetryDecision::GiveUp
            &&& final(state).backoff_ms == old(state).backoff_ms
            &&& final(state).retries == old(state).retries
        },
        failure.spec_retryable() && final(state).attempts < MAX_RETRIES ==> {
            &&& final(state).backoff_ms == spec_next_backoff(old(state).backoff_ms)
            &&& final(state).retries == old(state).retries + 1
            &&& match *failure {
                AttemptFailure::Status { code, retry_after_secs: Some(secs) } => d
                    == (RetryDecision::RetryAfter { wait_ms: spec_saturating_mul_u64(secs, 1000) }),
                _ => {
                    &&& d matches RetryDecision::RetryAfter { wait_ms }
                    &&& old(state).backoff_ms <= wait_ms <= MAX_BACKOFF_MS
                    &&& wait_ms as int <= old(state).backoff_ms as int + (old(
                        state,
                    ).backoff_ms as int) * (JITTER_NUM as int) / (JITTER_DEN as int)
                },
            }
        },
{
    state.attempts = state.attempts + 1;
    let retryable = match failure {
        AttemptFailure::Status { code, .. } => is_retryable_status(*code),
        AttemptFailure::Connection => true,
    };
    if !retryable || state.attempts >= MAX_RETRIES {
        return RetryDecision::GiveUp;
    }
    let wait_ms: u64 = match failure {
        AttemptFailure::Status { retry_after_secs: Some(secs), .. } => secs.saturating_mul(1000),
        _ => jittered_backoff(state.backoff_ms),
    };
    let doubled: u64 = state.backoff_ms.saturating_mul(2);
    state.backoff_ms = if doubled > MAX_BACKOFF_MS {
        MAX_BACKOFF_MS
    } else {
        doubled
    };
    state.retries = state.retries + 1;
    RetryDecision::RetryAfter { wait_ms }
}

} // verus!
