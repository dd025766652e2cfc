use gatewayapi::content::AggregateQuery;
use gatewayapi::health::{health_report, CacheHealth};

#[test]
fn healthy_cache_reports_ok() {
    let (r, ok) = health_report("0.1.0".to_string(), CacheHealth::Healthy);
    assert!(ok);
    assert_eq!(r.status, "ok");
    assert_eq!(r.dependencies.redis, "healthy");
    assert_eq!(r.version, "0.1.0");
    assert_eq!(r.mode, "read-only");
    assert_eq!(r.backend, "rust-axum-onion");
    assert_eq!(r.config, "yaml");
}

#[test]
fn unreachable_cache_degrades_only() {
    let (r, ok) = health_report("0.1.0".to_string(), CacheHealth::Unavailable);
    assert!(!ok);
    assert_eq!(r.status, "degraded");
    assert_eq!(r.dependencies.redis, "unavailable");
    let (r, ok) = health_report("0.1.0".to_string(), CacheHealth::Error);
    assert!(!ok);
    assert_eq!(r.status, "degraded");
    assert_eq!(r.dependencies.redis, "error");
}

fn query(page: Option<usize>, limit: Option<usize>) -> AggregateQuery {
    AggregateQuery { aggregate: None, page, limit, start: None, end: None }
}

#[test]
fn aggregate_query_validation() {
    assert!(query(None, None).validate());
    assert!(query(Some(1), Some(1)).validate());
    assert!(query(Some(10000), Some(100)).validate());
    assert!(!query(Some(0), None).validate());
    assert!(!query(Some(10001), None).validate());
    assert!(!query(None, Some(0)).validate());
    assert!(!query(None, Some(101)).validate());
}
