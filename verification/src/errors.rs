//! Error taxonomy of the gateway core.
//!
//! Only these errors propagate out of the engine; per-source parse and cache
//! failures are swallowed where they arise and merely shrink the result set.

use vstd::prelude::*;
use vstd::string::StringExecFns;

verus! {

/// An error that a gateway entry point reports to its caller.
#[derive(Debug, Clone, PartialEq, Eq, Structural)]
pub enum EngineError {
    /// Transport failure reaching the upstream host.
    Network,
    /// The upstream kept rate-limiting past the retry budget.
    RateLimitExhausted,
    /// A non-success upstream response unrelated to rate limiting;
    /// carries the status code.
    Upstream(u16),
    /// The entity has no discoverable sub-source directories.
    NoSourcesFound,
}

impl EngineError {
    /// A short diagnostic label for logs and transport mapping.
    pub fn label(&self) -> (r: String)
        ensures
            self is Network ==> r@ == "network error"@,
            self is RateLimitExhausted ==> r@ == "rate limit exhausted"@,
            self is Upstream ==> r@ == "upstream error"@,
            self is NoSourcesFound ==> r@ == "no sources found"@,
    {
        match self {
            EngineError::Network => String::from_str("network error"),
            EngineError::RateLimitExhausted => String::from_str("rate limit exhausted"),
            EngineError::Upstream(_) => String::from_str("upstream error"),
            EngineError::NoSourcesFound => String::from_str("no sources found"),
        }
    }
}

} // verus!
