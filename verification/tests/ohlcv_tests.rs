use gatewayapi::ohlcv::{aggregate_to_ohlcv, bucket_start_of};
use gatewayapi::stats::PricePoint;

fn point_at(ts_ms: i64, last: i64) -> PricePoint {
    PricePoint {
        last: Some(last),
        high: None,
        low: None,
        quote_volume: None,
        percentage: None,
        timestamp_ms: Some(ts_ms),
    }
}

// 2024-01-01T10:00:00Z, 10:45:00Z and 11:00:00Z, in epoch milliseconds.
const TEN_O_CLOCK_MS: i64 = 1_704_103_200_000;
const TEN_FORTY_FIVE_MS: i64 = 1_704_105_900_000;
const ELEVEN_O_CLOCK_MS: i64 = 1_704_106_800_000;

#[test]
fn hour_bucketing_of_three_points() {
    // Two points within the same hour share a bucket; the next hour opens a
    // new one.
    let points = vec![
        point_at(TEN_O_CLOCK_MS, 1_000_000),
        point_at(TEN_FORTY_FIVE_MS, 2_000_000),
        point_at(ELEVEN_O_CLOCK_MS, 3_000_000),
    ];
    let candles = aggregate_to_ohlcv(&points, 3600);
    assert_eq!(candles.len(), 2);
    assert_eq!(candles[0].timestamp, TEN_O_CLOCK_MS / 1000);
    assert_eq!(candles[1].timestamp, ELEVEN_O_CLOCK_MS / 1000);
    assert_eq!(candles[0].open, 1_000_000);
    assert_eq!(candles[0].close, 2_000_000);
    assert_eq!(candles[1].open, 3_000_000);
    assert_eq!(candles[1].close, 3_000_000);
}

#[test]
fn bucket_start_is_aligned() {
    assert_eq!(bucket_start_of(TEN_FORTY_FIVE_MS, 3600), TEN_O_CLOCK_MS / 1000);
    assert_eq!(bucket_start_of(TEN_O_CLOCK_MS, 3600), TEN_O_CLOCK_MS / 1000);
    assert_eq!(bucket_start_of(ELEVEN_O_CLOCK_MS, 3600), ELEVEN_O_CLOCK_MS / 1000);
    // Sub-millisecond offsets stay in the bucket.
    assert_eq!(bucket_start_of(TEN_FORTY_FIVE_MS + 123, 3600), TEN_O_CLOCK_MS / 1000);
}

#[test]
fn fallback_high_low_equal_close() {
    // No point of the bucket carries a high or low field: both fall back to
    // the close.
    let points = vec![
        point_at(TEN_O_CLOCK_MS, 1_000_000),
        point_at(TEN_FORTY_FIVE_MS, 2_000_000),
    ];
    let candles = aggregate_to_ohlcv(&points, 3600);
    assert_eq!(candles.len(), 1);
    assert_eq!(candles[0].close, 2_000_000);
    assert_eq!(candles[0].high, 2_000_000);
    assert_eq!(candles[0].low, 2_000_000);
}

#[test]
fn explicit_high_low_run_across_the_bucket() {
    let mut a = point_at(TEN_O_CLOCK_MS, 1_000_000);
    a.high = Some(5_000_000);
    a.low = Some(900_000);
    let mut b = point_at(TEN_FORTY_FIVE_MS, 2_000_000);
    b.high = Some(4_000_000);
    b.low = Some(800_000);
    let candles = aggregate_to_ohlcv(&vec![a, b], 3600);
    assert_eq!(candles.len(), 1);
    assert_eq!(candles[0].high, 5_000_000);
    assert_eq!(candles[0].low, 800_000);
}

#[test]
fn volume_is_latest_cumulative_value() {
    let mut a = point_at(TEN_O_CLOCK_MS, 1_000_000);
    a.quote_volume = Some(10_000_000);
    let mut b = point_at(TEN_FORTY_FIVE_MS, 2_000_000);
    b.quote_volume = Some(60_853_370_000);
    let candles = aggregate_to_ohlcv(&vec![a, b], 3600);
    assert_eq!(candles.len(), 1);
    assert_eq!(candles[0].volume, 60_853_370_000);
}

#[test]
fn points_without_timestamps_are_dropped() {
    let mut no_ts = point_at(0, 9_000_000);
    no_ts.timestamp_ms = None;
    let points = vec![no_ts, point_at(TEN_O_CLOCK_MS, 1_000_000)];
    let candles = aggregate_to_ohlcv(&points, 3600);
    assert_eq!(candles.len(), 1);
    assert_eq!(candles[0].open, 1_000_000);
}

#[test]
fn empty_pool_gives_empty_series() {
    let points: Vec<PricePoint> = vec![];
    let candles = aggregate_to_ohlcv(&points, 60);
    assert!(candles.is_empty());
}

#[test]
fn minute_resolution_splits_finer() {
    let points = vec![
        point_at(TEN_O_CLOCK_MS, 1_000_000),
        point_at(TEN_O_CLOCK_MS + 30_000, 2_000_000),
        point_at(TEN_O_CLOCK_MS + 90_000, 3_000_000),
    ];
    let candles = aggregate_to_ohlcv(&points, 60);
    assert_eq!(candles.len(), 2);
    assert_eq!(candles[0].timestamp, TEN_O_CLOCK_MS / 1000);
    assert_eq!(candles[1].timestamp, TEN_O_CLOCK_MS / 1000 + 60);
}

#[test]
fn candles_are_ascending_whatever_the_pool_order() {
    let points = vec![
        point_at(ELEVEN_O_CLOCK_MS, 3_000_000),
        point_at(TEN_O_CLOCK_MS, 1_000_000),
    ];
    let candles = aggregate_to_ohlcv(&points, 3600);
    assert_eq!(candles.len(), 2);
    assert!(candles[0].timestamp < candles[1].timestamp);
}
