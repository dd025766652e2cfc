use gatewayapi::codec::{
    decode_history_response, decode_stats_response, encode_history_response, encode_stats_response,
};
use gatewayapi::content::RepoConfig;
use gatewayapi::ohlcv::OhlcvPoint;
use gatewayapi::service::{
    candidate_days, fold_history_response, fold_stats_response, history_walk_done,
    resolution_interval_secs, validate_range, validate_resolution, TickerHistoryQuery,
    TickerService, TickerStatsQuery,
};
use gatewayapi::stats::{ExchangeStats, PricePoint};

fn sample_exchanges() -> Vec<ExchangeStats> {
    vec![
        ExchangeStats {
            exchange: "ascendex".to_string(),
            last: Some(2_000_000),
            high: Some(2_500_000),
            low: Some(1_500_000),
            volume_24h: Some(100_000_000),
            change_pct: Some(2_500_000),
            data_points: 1440,
        },
        ExchangeStats {
            exchange: "mexc".to_string(),
            last: Some(4_000_000),
            high: None,
            low: None,
            volume_24h: Some(300_000_000),
            change_pct: None,
            data_points: 12,
        },
    ]
}

#[test]
fn stats_response_assembly() {
    let r = fold_stats_response(
        "slow".to_string(),
        "today".to_string(),
        sample_exchanges(),
        1_704_105_900_123,
    );
    assert_eq!(r.token, "slow");
    assert_eq!(r.range, "today");
    assert_eq!(r.timestamp, "2024-01-01T10:45:00Z");
    assert_eq!(r.exchanges.len(), 2);
    assert_eq!(r.aggregate.exchange_count, 2);
    assert_eq!(r.aggregate.avg_price, Some(3_000_000));
    assert_eq!(r.aggregate.vwap, Some(3_500_000));
}

#[test]
fn stats_responses_are_reproducible() {
    // The same request against the same snapshots at the same instant gives
    // byte-identical cache blobs; together with the codec round trip this
    // is what makes a cached second call identical to the first.
    let a = fold_stats_response(
        "slow".to_string(),
        "7d".to_string(),
        sample_exchanges(),
        1_704_105_900_123,
    );
    let b = fold_stats_response(
        "slow".to_string(),
        "7d".to_string(),
        sample_exchanges(),
        1_704_105_900_123,
    );
    assert_eq!(a, b);
    assert_eq!(encode_stats_response(&a), encode_stats_response(&b));
}

#[test]
fn stats_cache_blob_round_trip() {
    let r = fold_stats_response(
        "slow".to_string(),
        "30d".to_string(),
        sample_exchanges(),
        1_704_105_900_123,
    );
    let blob = encode_stats_response(&r);
    let back = decode_stats_response(&blob).expect("blob should decode");
    assert_eq!(back, r);
    // Re-encoding the decoded response reproduces the blob byte for byte.
    assert_eq!(encode_stats_response(&back), blob);
}

#[test]
fn stats_cache_blob_rejects_corruption() {
    let r = fold_stats_response(
        "slow".to_string(),
        "today".to_string(),
        sample_exchanges(),
        0,
    );
    let blob = encode_stats_response(&r);
    let mut truncated = blob.clone();
    truncated.pop();
    assert!(decode_stats_response(&truncated).is_none());
    let trailing = format!("{}x", blob);
    assert!(decode_stats_response(&trailing).is_none());
    assert!(decode_stats_response("garbage").is_none());
}

#[test]
fn history_response_assembly_and_round_trip() {
    let points = vec![
        PricePoint {
            last: Some(1_000_000),
            high: None,
            low: None,
            quote_volume: Some(5_000_000),
            percentage: None,
            timestamp_ms: Some(1_704_103_200_000),
        },
        PricePoint {
            last: Some(2_000_000),
            high: None,
            low: None,
            quote_volume: Some(7_000_000),
            percentage: None,
            timestamp_ms: Some(1_704_106_800_000),
        },
    ];
    let r = fold_history_response(
        "kaspa".to_string(),
        "7d".to_string(),
        "1h".to_string(),
        points,
    );
    assert_eq!(r.token, "kaspa");
    assert_eq!(r.resolution, "1h");
    assert_eq!(r.data.len(), 2);
    assert_eq!(r.data[0].timestamp, 1_704_103_200);
    let blob = encode_history_response(&r);
    let back = decode_history_response(&blob).expect("blob should decode");
    assert_eq!(back, r);
}

#[test]
fn history_codec_handles_negative_values() {
    let r = gatewayapi::service::TickerHistoryResponse {
        token: "t".to_string(),
        range: "today".to_string(),
        resolution: "1m".to_string(),
        data: vec![OhlcvPoint {
            timestamp: -60,
            open: -1,
            high: 5,
            low: -7,
            close: 0,
            volume: 9,
        }],
    };
    let blob = encode_history_response(&r);
    assert_eq!(decode_history_response(&blob), Some(r));
}

#[test]
fn range_and_resolution_validation() {
    assert!(validate_range("today"));
    assert!(validate_range("7d"));
    assert!(validate_range("30d"));
    assert!(!validate_range("1y"));
    assert!(!validate_range(""));
    assert!(validate_resolution("1m"));
    assert!(validate_resolution("5m"));
    assert!(validate_resolution("1h"));
    assert!(validate_resolution("1d"));
    assert!(!validate_resolution("1w"));
}

#[test]
fn resolution_intervals() {
    assert_eq!(resolution_interval_secs("1m"), 60);
    assert_eq!(resolution_interval_secs("5m"), 300);
    assert_eq!(resolution_interval_secs("1h"), 3600);
    assert_eq!(resolution_interval_secs("1d"), 86400);
    // Unrecognized labels fall back to one hour.
    assert_eq!(resolution_interval_secs("2h"), 3600);
}

#[test]
fn history_walk_budget() {
    assert!(!history_walk_done(0, 0));
    assert!(!history_walk_done(4, 14));
    assert!(history_walk_done(5, 5));
    assert!(history_walk_done(0, 15));
    assert!(history_walk_done(5, 15));
}

#[test]
fn snapshot_probe_days() {
    assert_eq!(candidate_days(19723), vec![19723, 19722, 19721]);
    assert_eq!(candidate_days(1), vec![1, 0, 0]);
    assert_eq!(candidate_days(0), vec![0, 0, 0]);
}

#[test]
fn ticker_service_holds_its_dataset() {
    let repo = RepoConfig {
        source: "github".to_string(),
        owner: "KaspaDev".to_string(),
        repo: "Kaspa-Exchange-Data".to_string(),
    };
    let service = TickerService::new(repo.clone());
    assert_eq!(service.default_repo, repo);
}

#[test]
fn query_defaults() {
    let q = TickerStatsQuery { range: None };
    assert_eq!(q.range_or_default(), "today");
    let q = TickerStatsQuery { range: Some("30d".to_string()) };
    assert_eq!(q.range_or_default(), "30d");
    let q = TickerHistoryQuery { range: None, resolution: None };
    assert_eq!(q.range_or_default(), "7d");
    assert_eq!(q.resolution_or_default(), "1h");
    let q = TickerHistoryQuery {
        range: Some("today".to_string()),
        resolution: Some("5m".to_string()),
    };
    assert_eq!(q.range_or_default(), "today");
    assert_eq!(q.resolution_or_default(), "5m");
}

#[test]
fn server_defaults() {
    assert_eq!(gatewayapi::config::default_host(), "0.0.0.0");
    assert_eq!(gatewayapi::config::default_port(), 3010);
    assert_eq!(gatewayapi::config::default_allowed_origins(), "*");
}

#[test]
fn codec_is_safe_for_awkward_strings() {
    let r = fold_stats_response(
        "to\nken:with\u{00e9}".to_string(),
        "today".to_string(),
        vec![],
        1_000,
    );
    let blob = encode_stats_response(&r);
    let back = decode_stats_response(&blob).expect("blob should decode");
    assert_eq!(back, r);
    assert_eq!(back.aggregate.exchange_count, 0);
}
