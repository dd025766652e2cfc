use gatewayapi::retry::{
    classify_status, is_rate_limited, run_retry, should_warn_rate_limit, RetryDecision,
    RetryOutcome, RetryState, UpstreamClass, UpstreamProbe,
};

fn probe(status: u16, retry_after_secs: Option<u64>) -> UpstreamProbe {
    UpstreamProbe { status, retry_after_secs }
}

#[test]
fn success_after_four_rate_limits() {
    // Four rate-limited responses, then a success: the success is returned
    // after exactly four backoff sleeps, monotone and capped.
    let responses = vec![
        probe(429, None),
        probe(429, None),
        probe(429, None),
        probe(429, None),
        probe(200, None),
    ];
    let (outcome, sleeps) = run_retry(&responses);
    assert_eq!(outcome, RetryOutcome::Accepted { index: 4 });
    assert_eq!(sleeps.len(), 4);
    for w in 0..sleeps.len() - 1 {
        assert!(sleeps[w] <= sleeps[w + 1]);
    }
    for &w in &sleeps {
        assert!(w <= 30);
    }
    // The backoff starts at 100 ms, so whole-second waits round to zero.
    assert_eq!(sleeps, vec![0, 0, 0, 0]);
}

#[test]
fn exhausted_after_five_rate_limits() {
    // Five rate-limited responses exhaust the budget; a later success is
    // never requested.
    let responses = vec![
        probe(429, None),
        probe(403, None),
        probe(429, None),
        probe(403, None),
        probe(429, None),
        probe(200, None),
    ];
    let (outcome, sleeps) = run_retry(&responses);
    assert_eq!(outcome, RetryOutcome::Exhausted);
    assert_eq!(sleeps.len(), 4);
}

#[test]
fn retry_after_hint_is_respected() {
    let responses = vec![probe(429, Some(7)), probe(200, None)];
    let (outcome, sleeps) = run_retry(&responses);
    assert_eq!(outcome, RetryOutcome::Accepted { index: 1 });
    assert_eq!(sleeps, vec![7]);
}

#[test]
fn forbidden_counts_as_rate_limited() {
    assert!(is_rate_limited(403));
    assert!(is_rate_limited(429));
    assert!(!is_rate_limited(404));
    assert!(!is_rate_limited(200));
}

#[test]
fn first_success_is_accepted_immediately() {
    let responses = vec![probe(200, None)];
    let (outcome, sleeps) = run_retry(&responses);
    assert_eq!(outcome, RetryOutcome::Accepted { index: 0 });
    assert!(sleeps.is_empty());
}

#[test]
fn non_retryable_error_is_accepted_immediately() {
    // A plain not-found is handed back without any retry.
    let responses = vec![probe(404, None), probe(200, None)];
    let (outcome, sleeps) = run_retry(&responses);
    assert_eq!(outcome, RetryOutcome::Accepted { index: 0 });
    assert!(sleeps.is_empty());
}

#[test]
fn step_backoff_doubles_and_caps() {
    let mut st = RetryState::new();
    assert_eq!(st.backoff_ms, 100);
    let d = st.step(429, None);
    assert_eq!(d, RetryDecision::Sleep { wait_secs: 0 });
    assert_eq!(st.backoff_ms, 200);
    // Drive the backoff to its cap.
    let mut b = 200u64;
    for _ in 0..20 {
        let mut s2 = RetryState { attempt: 0, backoff_ms: b };
        s2.step(429, None);
        b = s2.backoff_ms;
    }
    assert_eq!(b, 30000);
}

#[test]
fn classify_statuses() {
    assert_eq!(classify_status(200), UpstreamClass::Success);
    assert_eq!(classify_status(204), UpstreamClass::Success);
    assert_eq!(classify_status(404), UpstreamClass::Failure);
    assert_eq!(classify_status(500), UpstreamClass::Failure);
    assert_eq!(classify_status(429), UpstreamClass::RateLimited);
    assert_eq!(classify_status(403), UpstreamClass::RateLimited);
}

#[test]
fn low_water_warning() {
    assert!(should_warn_rate_limit(Some(99)));
    assert!(should_warn_rate_limit(Some(0)));
    assert!(!should_warn_rate_limit(Some(100)));
    assert!(!should_warn_rate_limit(None));
}
