//! The health report of the gateway.
//!
//! The health probe itself is I/O; this module holds the report it feeds:
//! how a cache probe's outcome maps to the reported status words, and when
//! the service counts as degraded.

use vstd::prelude::*;
use vstd::string::StringExecFns;

verus! {

/// Outcome of probing the cache backend.
#[derive(Debug, Clone, Copy, PartialEq, Eq, Structural)]
pub enum CacheHealth {
    /// The probe answered and the backend is up.
    Healthy,
    /// The probe answered that the backend is down.
    Unavailable,
    /// The probe itself failed.
    Error,
}

/// Health of the gateway's dependencies.
#[derive(Debug, Clone, PartialEq, Eq)]
pub struct HealthDependencies {
    /// State of the cache backend.
    pub redis: String,
}

/// The health report.
#[derive(Debug, Clone, PartialEq, Eq)]
pub struct HealthResponse {
    /// Overall status: `ok` or `degraded`.
    pub status: String,
    /// Version of the gateway.
    pub version: String,
    /// The gateway is read-only.
    pub mode: String,
    /// Implementation label.
    pub backend: String,
    /// Configuration source label.
    pub config: String,
    /// Per-dependency health.
    pub dependencies: HealthDependencies,
}

/// Build the health report of a cache probe's outcome.  The service is `ok`
/// exactly when the cache is healthy, and `degraded` otherwise; a degraded
/// cache never blocks requests, only latency.
pub fn health_report(version: String, cache: CacheHealth) -> (r: (HealthResponse, bool))
    ensures
        r.1 <==> cache is Healthy,
        r.0.status@ == (if cache is Healthy {
            "ok"@
        } else {
            "degraded"@
        }),
        r.0.dependencies.redis@ == (match cache {
            CacheHealth::Healthy => "healthy"@,
            CacheHealth::Unavailable => "unavailable"@,
            CacheHealth::Error => "error"@,
        }),
        r.0.version == version,
        r.0.mode@ == "read-only"@,
        r.0.backend@ == "rust-axum-onion"@,
        r.0.config@ == "yaml"@,
{
    let healthy = matches!(cache, CacheHealth::Healthy);
    let redis = match cache {
        CacheHealth::Healthy => String::from_str("healthy"),
        CacheHealth::Unavailable => String::from_str("unavailable"),
        CacheHealth::Error => String::from_str("error"),
    };
    let status = if healthy {
        String::from_str("ok")
    } else {
        String::from_str("degraded")
    };
    let response = HealthResponse {
        status,
        version,
        mode: String::from_str("read-only"),
        backend: String::from_str("rust-axum-onion"),
        config: String::from_str("yaml"),
        dependencies: HealthDependencies { redis },
    };
    (response, healthy)
}

} // verus!
