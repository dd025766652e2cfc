//! Retry and backoff policy of the upstream content adapter.
//!
//! The adapter reacts to rate-limit signals from the upstream: a response
//! whose status is "too many requests" (429) or "forbidden" (403, which the
//! upstream overloads for quota exhaustion) is retried after a wait, with the
//! backoff doubling each time up to a cap, for at most five attempts.  This
//! module holds the whole policy as a pure state machine; the I/O loop around
//! it merely issues requests and sleeps for the returned waits.

use vstd::prelude::*;

verus! {

/// Maximum number of requests issued for one adapter call.
pub const MAX_ATTEMPTS: u32 = 5;

/// Backoff before the first retry, in milliseconds.
pub const INITIAL_BACKOFF_MS: u64 = 100;

/// Upper cap on the backoff, in milliseconds.
pub const MAX_BACKOFF_MS: u64 = 30000;

/// Remaining-quota level under which a warning is emitted.
pub const RATE_LIMIT_LOW_WATER: u64 = 100;

/// Statuses that signal rate limiting.
pub open spec fn spec_rate_limited(status: u16) -> bool {
    status == 429 || status == 403
}

/// Whether `status` signals rate limiting.
pub fn is_rate_limited(status: u16) -> (r: bool)
    ensures
        r == spec_rate_limited(status),
{
    status == 429 || status == 403
}

/// Whether a rate-limit-remaining signal is low enough to warrant a warning
/// (observability only, never control flow).
pub fn should_warn_rate_limit(remaining: Option<u64>) -> (r: bool)
    ensures
        r <==> (remaining matches Some(v) && v < RATE_LIMIT_LOW_WATER),
{
    match remaining {
        Some(v) => v < RATE_LIMIT_LOW_WATER,
        None => false,
    }
}

/// How the adapter classifies a response that it will not retry.
#[derive(Debug, Clone, Copy, PartialEq, Eq, Structural)]
pub enum UpstreamClass {
    /// A success status (2xx).
    Success,
    /// A rate-limit status (429 or 403).
    RateLimited,
    /// Any other non-success status.
    Failure,
}

/// Classify a response status.
pub fn classify_status(status: u16) -> (r: UpstreamClass)
    ensures
        r is Success <==> 200 <= status < 300,
        r is RateLimited <==> !(200 <= status < 300) && spec_rate_limited(status),
        r is Failure <==> !(200 <= status < 300) && !spec_rate_limited(status),
{
    if 200 <= status && status < 300 {
        UpstreamClass::Success
    } else if is_rate_limited(status) {
        UpstreamClass::RateLimited
    } else {
        UpstreamClass::Failure
    }
}

/// The retry state of one adapter call.
#[derive(Debug, Clone, Copy, PartialEq, Eq, Structural)]
pub struct RetryState {
    /// Index of the request just issued, starting at 0.
    pub attempt: u32,
    /// Current backoff in milliseconds.
    pub backoff_ms: u64,
}

/// What to do with the response of the current attempt.
#[derive(Debug, Clone, Copy, PartialEq, Eq, Structural)]
pub enum RetryDecision {
    /// Hand the response to the caller (success or non-retryable error).
    Accept,
    /// Sleep this many seconds, then retry.
    Sleep { wait_secs: u64 },
    /// The retry budget is spent; the call fails with `RateLimitExhausted`.
    Exhausted,
}

/// The backoff after one doubling step.
pub open spec fn spec_next_backoff(b: u64) -> u64 {
    if 2 * b <= MAX_BACKOFF_MS {
        (2 * b) as u64
    } else {
        MAX_BACKOFF_MS
    }
}

/// The wait before a retry: the upstream's hint when present, else the
/// current backoff converted to whole seconds.
pub open spec fn spec_wait_secs(backoff_ms: u64, retry_after_secs: Option<u64>) -> u64 {
    match retry_after_secs {
        Some(hint) => hint,
        None => (backoff_ms / 1000) as u64,
    }
}

impl RetryState {
    /// The states the policy can reach: at most `MAX_ATTEMPTS` requests, and
    /// a backoff that started at `INITIAL_BACKOFF_MS` and was only ever
    /// doubled under the cap.
    pub open spec fn wf(self) -> bool {
        &&& self.attempt <= MAX_ATTEMPTS
        &&& INITIAL_BACKOFF_MS <= self.backoff_ms <= MAX_BACKOFF_MS
    }

    /// The state before the first request.
    pub fn new() -> (r: RetryState)
        ensures
            r == (RetryState { attempt: 0, backoff_ms: INITIAL_BACKOFF_MS }),
            r.wf(),
    {
        RetryState { attempt: 0, backoff_ms: INITIAL_BACKOFF_MS }
    }

    /// Decide on the response of the current attempt.
    ///
    /// A non-rate-limited status is accepted as it is.  A rate-limited status
    /// is retried after a wait while attempts remain; once `MAX_ATTEMPTS`
    /// responses were rate-limited in a row, the call is exhausted.
    pub fn step(&mut self, status: u16, retry_after_secs: Option<u64>) -> (d: RetryDecision)
        requires
            old(self).wf(),
        ensures
            final(self).wf(),
            !spec_rate_limited(status) ==> d == RetryDecision::Accept && *final(self) == *old(self),
            spec_rate_limited(status) && old(self).attempt + 1 < MAX_ATTEMPTS ==> {
                &&& d == (RetryDecision::Sleep {
                    wait_secs: spec_wait_secs(old(self).backoff_ms, retry_after_secs),
                })
                &&& final(self).attempt == old(self).attempt + 1
                &&& final(self).backoff_ms == spec_next_backoff(old(self).backoff_ms)
            },
            spec_rate_limited(status) && old(self).attempt + 1 >= MAX_ATTEMPTS ==> d
                == RetryDecision::Exhausted && *final(self) == *old(self),
    {
        if !is_rate_limited(status) {
            RetryDecision::Accept
        } else if self.attempt + 1 < MAX_ATTEMPTS {
            let wait_secs = match retry_after_secs {
                Some(hint) => hint,
                None => self.backoff_ms / 1000,
            };
            self.attempt = self.attempt + 1;
            self.backoff_ms = if self.backoff_ms <= MAX_BACKOFF_MS / 2 {
                2 * self.backoff_ms
            } else {
                MAX_BACKOFF_MS
            };
            RetryDecision::Sleep { wait_secs }
        } else {
            RetryDecision::Exhausted
        }
    }
}

/// One simulated upstream response, for driving the policy without I/O.
#[derive(Debug, Clone, Copy, PartialEq, Eq, Structural)]
pub struct UpstreamProbe {
    pub status: u16,
    pub retry_after_secs: Option<u64>,
}

/// Outcome of driving the policy over a sequence of responses.
#[derive(Debug, Clone, Copy, PartialEq, Eq, Structural)]
pub enum RetryOutcome {
    /// The response with this index was accepted.
    Accepted { index: usize },
    /// Every attempt was rate-limited; the budget is spent.
    Exhausted,
    /// The simulation supplied fewer responses than the policy asked for.
    Starved,
}

/// The run of the policy from attempt `a` with backoff `b` over `responses`:
/// the outcome and the sleeps performed, in order.
pub open spec fn spec_retry_run(responses: Seq<UpstreamProbe>, a: u32, b: u64) -> (
    RetryOutcome,
    Seq<u64>,
)
    decreases MAX_ATTEMPTS - a when a < MAX_ATTEMPTS
{
    if a >= responses.len() {
        (RetryOutcome::Starved, Seq::empty())
    } else if !spec_rate_limited(responses[a as int].status) {
        (RetryOutcome::Accepted { index: a as usize }, Seq::empty())
    } else if a + 1 < MAX_ATTEMPTS {
        let wait = spec_wait_secs(b, responses[a as int].retry_after_secs);
        let rest = spec_retry_run(responses, (a + 1) as u32, spec_next_backoff(b));
        (rest.0, seq![wait] + rest.1)
    } else {
        (RetryOutcome::Exhausted, Seq::empty())
    }
}

/// Backoff law: without upstream hints, the waits of one adapter call are
/// monotonically non-decreasing and each is at most 30 seconds, and a run
/// that started at attempt `a` sleeps at most `MAX_ATTEMPTS - 1 - a` times.
pub proof fn lemma_retry_sleeps_monotone(responses: Seq<UpstreamProbe>, a: u32, b: u64)
    requires
        a < MAX_ATTEMPTS,
        b <= MAX_BACKOFF_MS,
        forall|i: int| 0 <= i < responses.len() ==> (#[trigger] responses[i]).retry_after_secs is None,
    ensures
        ({
            let run = spec_retry_run(responses, a, b);
            &&& run.1.len() <= MAX_ATTEMPTS - 1 - a
            &&& forall|k: int| 0 <= k < run.1.len() ==> #[trigger] run.1[k] <= MAX_BACKOFF_MS / 1000
            &&& forall|k: int| 0 <= k < run.1.len() - 1 ==> #[trigger] run.1[k] <= run.1[k + 1]
            &&& run.1.len() > 0 ==> run.1[0] == b / 1000
        }),
    decreases MAX_ATTEMPTS - a,
{
    let run = spec_retry_run(responses, a, b);
    if a < responses.len() && spec_rate_limited(responses[a as int].status) && a + 1
        < MAX_ATTEMPTS {
        let b2 = spec_next_backoff(b);
        lemma_retry_sleeps_monotone(responses, (a + 1) as u32, b2);
        let rest = spec_retry_run(responses, (a + 1) as u32, b2);
        assert(run.1 == seq![(b / 1000) as u64] + rest.1);
        assert(b / 1000 <= b2 / 1000) by {
            vstd::arithmetic::div_mod::lemma_div_is_ordered(b as int, b2 as int, 1000);
        }
        assert(b / 1000 <= MAX_BACKOFF_MS / 1000) by {
            vstd::arithmetic::div_mod::lemma_div_is_ordered(
                b as int,
                MAX_BACKOFF_MS as int,
                1000,
            );
        }
    }
}

/// Retry-budget law, exhaustion side: when the first `MAX_ATTEMPTS` responses
/// are all rate-limited, the call fails as exhausted after exactly
/// `MAX_ATTEMPTS - 1` sleeps (no sleep follows the final attempt).
pub proof fn lemma_retry_budget_exhausted(responses: Seq<UpstreamProbe>)
    requires
        responses.len() >= MAX_ATTEMPTS,
        forall|i: int|
            0 <= i < MAX_ATTEMPTS ==> spec_rate_limited((#[trigger] responses[i]).status),
    ensures
        spec_retry_run(responses, 0, INITIAL_BACKOFF_MS).0 is Exhausted,
        spec_retry_run(responses, 0, INITIAL_BACKOFF_MS).1.len() == MAX_ATTEMPTS - 1,
{
    reveal_with_fuel(spec_retry_run, 6);
}

/// Retry-budget law, success side: when the first `MAX_ATTEMPTS - 1`
/// responses are rate-limited and the next one is not, that response is
/// accepted after exactly `MAX_ATTEMPTS - 1` sleeps.
pub proof fn lemma_retry_budget_success(responses: Seq<UpstreamProbe>)
    requires
        responses.len() >= MAX_ATTEMPTS,
        forall|i: int|
            0 <= i < MAX_ATTEMPTS - 1 ==> spec_rate_limited((#[trigger] responses[i]).status),
        !spec_rate_limited(responses[MAX_ATTEMPTS - 1].status),
    ensures
        spec_retry_run(responses, 0, INITIAL_BACKOFF_MS).0 == (RetryOutcome::Accepted {
            index: (MAX_ATTEMPTS - 1) as usize,
        }),
        spec_retry_run(responses, 0, INITIAL_BACKOFF_MS).1.len() == MAX_ATTEMPTS - 1,
{
    reveal_with_fuel(spec_retry_run, 6);
}

/// Drive the whole policy over simulated responses, collecting the sleeps.
pub fn run_retry(responses: &Vec<UpstreamProbe>) -> (r: (RetryOutcome, Vec<u64>))
    ensures
        (r.0, r.1@) == spec_retry_run(responses@, 0, INITIAL_BACKOFF_MS),
{
    let mut st = RetryState::new();
    let mut sleeps: Vec<u64> = Vec::new();
    loop
        invariant
            st.wf(),
            st.attempt < MAX_ATTEMPTS,
            ({
                let whole = spec_retry_run(responses@, 0, INITIAL_BACKOFF_MS);
                let rest = spec_retry_run(responses@, st.attempt, st.backoff_ms);
                whole.0 == rest.0 && whole.1 == sleeps@ + rest.1
            }),
        decreases MAX_ATTEMPTS - st.attempt,
    {
        if st.attempt as usize >= responses.len() {
            return (RetryOutcome::Starved, sleeps);
        }
        let probe = responses[st.attempt as usize];
        let decision = st.step(probe.status, probe.retry_after_secs);
        match decision {
            RetryDecision::Accept => {
                return (RetryOutcome::Accepted { index: st.attempt as usize }, sleeps);
            },
            RetryDecision::Sleep { wait_secs } => {
                sleeps.push(wait_secs);
            },
            RetryDecision::Exhausted => {
                return (RetryOutcome::Exhausted, sleeps);
            },
        }
    }
}

} // verus!
