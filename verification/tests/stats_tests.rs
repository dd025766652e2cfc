use gatewayapi::stats::{
    calculate_aggregate, parse_exchange_stats, ExchangeStats, PricePoint,
};

fn point(
    last: Option<i64>,
    high: Option<i64>,
    low: Option<i64>,
    quote_volume: Option<i64>,
    percentage: Option<i64>,
    timestamp_ms: Option<i64>,
) -> PricePoint {
    PricePoint { last, high, low, quote_volume, percentage, timestamp_ms }
}

fn stats_entry(exchange: &str, last: Option<i64>, volume: Option<i64>) -> ExchangeStats {
    ExchangeStats {
        exchange: exchange.to_string(),
        last,
        high: None,
        low: None,
        volume_24h: volume,
        change_pct: None,
        data_points: 1,
    }
}

#[test]
fn exchange_stats_of_snapshot_points() {
    // Values are fixed-point with six fractional digits.
    let points = vec![
        point(Some(2_500_000), Some(3_000_000), Some(2_000_000), Some(50_000_000), None, None),
        point(Some(2_600_000), Some(3_100_000), Some(1_900_000), None, None, None),
        point(
            Some(2_550_000),
            Some(2_900_000),
            Some(2_100_000),
            Some(100_500_000),
            Some(-1_250_000),
            None,
        ),
    ];
    let s = parse_exchange_stats("ascendex".to_string(), &points);
    assert_eq!(s.exchange, "ascendex");
    assert_eq!(s.last, Some(2_550_000));
    assert_eq!(s.high, Some(3_100_000));
    assert_eq!(s.low, Some(1_900_000));
    // The cumulative-volume field is authoritative in its latest occurrence.
    assert_eq!(s.volume_24h, Some(100_500_000));
    assert_eq!(s.change_pct, Some(-1_250_000));
    assert_eq!(s.data_points, 3);
}

#[test]
fn exchange_stats_of_empty_snapshot() {
    let points: Vec<PricePoint> = vec![];
    let s = parse_exchange_stats("mexc".to_string(), &points);
    assert_eq!(s.last, None);
    assert_eq!(s.high, None);
    assert_eq!(s.low, None);
    assert_eq!(s.volume_24h, None);
    assert_eq!(s.change_pct, None);
    assert_eq!(s.data_points, 0);
}

#[test]
fn exchange_stats_without_volume_field_reports_zero() {
    let points = vec![point(Some(1_000_000), None, None, None, None, None)];
    let s = parse_exchange_stats("gate".to_string(), &points);
    assert_eq!(s.volume_24h, Some(0));
    assert_eq!(s.data_points, 1);
}

#[test]
fn vwap_of_two_weighted_sources() {
    // last 2.0 with volume 100 and last 4.0 with volume 300 give a VWAP of
    // (200 + 1200) / 400 = 3.5.
    let stats = vec![
        stats_entry("a", Some(2_000_000), Some(100_000_000)),
        stats_entry("b", Some(4_000_000), Some(300_000_000)),
    ];
    let agg = calculate_aggregate(&stats);
    assert_eq!(agg.exchange_count, 2);
    assert_eq!(agg.avg_price, Some(3_000_000));
    assert_eq!(agg.total_volume_24h, Some(400_000_000));
    assert_eq!(agg.vwap, Some(3_500_000));
}

#[test]
fn vwap_absent_when_total_volume_is_zero() {
    let stats = vec![
        stats_entry("a", Some(2_000_000), Some(0)),
        stats_entry("b", Some(4_000_000), None),
    ];
    let agg = calculate_aggregate(&stats);
    assert_eq!(agg.exchange_count, 2);
    assert_eq!(agg.avg_price, Some(3_000_000));
    assert_eq!(agg.total_volume_24h, Some(0));
    assert_eq!(agg.vwap, None);
}

#[test]
fn partial_tolerance_counts_only_active_sources() {
    // Two of five sources contributed nothing usable: the aggregate still
    // comes back, with an exchange count of three.
    let stats = vec![
        stats_entry("a", Some(1_000_000), Some(10_000_000)),
        stats_entry("b", None, None),
        stats_entry("c", Some(2_000_000), Some(20_000_000)),
        stats_entry("d", None, None),
        stats_entry("e", Some(3_000_000), Some(30_000_000)),
    ];
    let agg = calculate_aggregate(&stats);
    assert_eq!(agg.exchange_count, 3);
    assert_eq!(agg.avg_price, Some(2_000_000));
}

#[test]
fn aggregate_of_no_active_sources_is_empty() {
    let stats = vec![stats_entry("a", None, Some(5)), stats_entry("b", None, None)];
    let agg = calculate_aggregate(&stats);
    assert_eq!(agg.exchange_count, 0);
    assert_eq!(agg.avg_price, None);
    assert_eq!(agg.total_volume_24h, None);
    assert_eq!(agg.vwap, None);
}

#[test]
fn one_active_source_activates_the_aggregate() {
    let stats = vec![
        stats_entry("a", None, None),
        stats_entry("b", Some(7_000_000), Some(1_000_000)),
    ];
    let agg = calculate_aggregate(&stats);
    assert!(agg.exchange_count >= 1);
    assert!(agg.avg_price.is_some());
}

#[test]
fn average_truncates_toward_zero() {
    let stats = vec![
        stats_entry("a", Some(1), None),
        stats_entry("b", Some(2), None),
    ];
    let agg = calculate_aggregate(&stats);
    assert_eq!(agg.avg_price, Some(1));
}
