//! The aggregation engine's request shaping and response assembly.
//!
//! The engine's entry points are pure steps: cache keys and lookback ranges
//! are deterministic functions of the request, the per-source fetch plan is
//! a function of today's date, and the response envelopes are functions of
//! the request, the clock reading and the parsed snapshots.  The I/O loop
//! around them — cache, upstream, concurrency — performs exactly the steps
//! these functions decide.

use vstd::prelude::*;
use vstd::string::StringExecFns;

use crate::content::RepoConfig;
use crate::dates::{
    CivilDate, spec_epoch_day_of_ms, spec_hour_of_ms, spec_minute_of_ms, spec_second_of_ms,
    spec_datetime_chars, format_rfc3339_utc,
};
use crate::ohlcv::{
    OhlcvPoint, spec_candle, spec_some_in_bucket, spec_bucket_start, spec_candle_present,
    aggregate_to_ohlcv,
};
use crate::stats::{ExchangeStats, AggregateStats, PricePoint, spec_aggregate, MAX_AGG_SOURCES,
    calculate_aggregate};
use crate::text::str_eq;

verus! {

/// Query parameters of the stats entry point.
#[derive(Debug, Clone, PartialEq, Eq)]
pub struct TickerStatsQuery {
    /// Lookback range: today, 7d or 30d; absent means today.
    pub range: Option<String>,
}

/// Query parameters of the history entry point.
#[derive(Debug, Clone, PartialEq, Eq)]
pub struct TickerHistoryQuery {
    /// Lookback range: today, 7d or 30d; absent means 7d.
    pub range: Option<String>,
    /// Series resolution: 1m, 5m, 1h or 1d; absent means 1h.
    pub resolution: Option<String>,
}

impl TickerStatsQuery {
    /// The requested range; an absent one means today.
    pub fn range_or_default(&self) -> (r: String)
        ensures
            self.range matches Some(s) ==> r == s,
            self.range is None ==> r@ == "today"@,
    {
        match &self.range {
            Some(s) => s.clone(),
            None => String::from_str("today"),
        }
    }
}

impl TickerHistoryQuery {
    /// The requested range; an absent one means the trailing week.
    pub fn range_or_default(&self) -> (r: String)
        ensures
            self.range matches Some(s) ==> r == s,
            self.range is None ==> r@ == "7d"@,
    {
        match &self.range {
            Some(s) => s.clone(),
            None => String::from_str("7d"),
        }
    }

    /// The requested resolution; an absent one means hourly.
    pub fn resolution_or_default(&self) -> (r: String)
        ensures
            self.resolution matches Some(s) ==> r == s,
            self.resolution is None ==> r@ == "1h"@,
    {
        match &self.resolution {
            Some(s) => s.clone(),
            None => String::from_str("1h"),
        }
    }
}

/// Response envelope of the stats entry point.
#[derive(Debug, Clone, PartialEq, Eq)]
pub struct TickerStatsResponse {
    /// The entity the statistics describe.
    pub token: String,
    /// When the response was computed (ISO 8601, UTC).
    pub timestamp: String,
    /// The range requested.
    pub range: String,
    /// Per-exchange statistics.
    pub exchanges: Vec<ExchangeStats>,
    /// Cross-exchange aggregate.
    pub aggregate: AggregateStats,
}

/// Response envelope of the history entry point.
#[derive(Debug, Clone, PartialEq, Eq)]
pub struct TickerHistoryResponse {
    /// The entity the series describes.
    pub token: String,
    /// The range requested.
    pub range: String,
    /// The resolution requested.
    pub resolution: String,
    /// The OHLCV series, ascending by bucket start.
    pub data: Vec<OhlcvPoint>,
}

/// The ticker service: entity-oriented lookups against the default dataset.
#[derive(Debug, Clone, PartialEq, Eq)]
pub struct TickerService {
    /// The dataset entity lookups run against.
    pub default_repo: RepoConfig,
}

impl TickerService {
    /// A service over the given default dataset.
    pub fn new(default_repo: RepoConfig) -> (r: TickerService)
        ensures
            r.default_repo == default_repo,
    {
        TickerService { default_repo }
    }
}

/// The cache key of a stats request.
pub open spec fn spec_stats_cache_key(token: Seq<char>, range: Seq<char>) -> Seq<char> {
    "v1:ticker:"@ + token + ":stats:"@ + range
}

/// Build the cache key of a stats request.
pub fn stats_cache_key(token: &str, range: &str) -> (r: String)
    ensures
        r@ == spec_stats_cache_key(token@, range@),
{
    let mut out = String::from_str("v1:ticker:");
    out.append(token);
    out.append(":stats:");
    out.append(range);
    proof {
        assert(out@ =~= spec_stats_cache_key(token@, range@));
    }
    out
}

/// The cache key of a history request.
pub open spec fn spec_history_cache_key(
    token: Seq<char>,
    range: Seq<char>,
    resolution: Seq<char>,
) -> Seq<char> {
    "v1:ticker:"@ + token + ":history:"@ + range + ":"@ + resolution
}

/// Build the cache key of a history request.
pub fn history_cache_key(token: &str, range: &str, resolution: &str) -> (r: String)
    ensures
        r@ == spec_history_cache_key(token@, range@, resolution@),
{
    let mut out = String::from_str("v1:ticker:");
    out.append(token);
    out.append(":history:");
    out.append(range);
    out.append(":");
    out.append(resolution);
    proof {
        assert(out@ =~= spec_history_cache_key(token@, range@, resolution@));
    }
    out
}

/// Whether a range label is one the transport accepts.
pub fn validate_range(range: &str) -> (r: bool)
    ensures
        r <==> (range@ == "today"@ || range@ == "7d"@ || range@ == "30d"@),
{
    str_eq(range, "today") || str_eq(range, "7d") || str_eq(range, "30d")
}

/// Whether a resolution label is one the transport accepts.
pub fn validate_resolution(resolution: &str) -> (r: bool)
    ensures
        r <==> (resolution@ == "1m"@ || resolution@ == "5m"@ || resolution@ == "1h"@ || resolution@
            == "1d"@),
{
    str_eq(resolution, "1m") || str_eq(resolution, "5m") || str_eq(resolution, "1h") || str_eq(
        resolution,
        "1d",
    )
}

/// The bucket width of a resolution label, in seconds; an unrecognized
/// label falls back to one hour.
pub open spec fn spec_resolution_interval(resolution: Seq<char>) -> i64 {
    if resolution == "1m"@ {
        60
    } else if resolution == "5m"@ {
        300
    } else if resolution == "1d"@ {
        86400
    } else {
        3600
    }
}

/// Map a resolution label to its bucket width in seconds.
pub fn resolution_interval_secs(resolution: &str) -> (r: i64)
    ensures
        r == spec_resolution_interval(resolution@),
        r > 0,
{
    if str_eq(resolution, "1m") {
        60
    } else if str_eq(resolution, "5m") {
        300
    } else if str_eq(resolution, "1d") {
        86400
    } else {
        3600
    }
}

/// The first day of a lookback range ending today; an unrecognized label
/// falls back to today.  Lookbacks reaching before the epoch stop at it.
pub open spec fn spec_range_start(range: Seq<char>, today: u32) -> int {
    if range == "7d"@ {
        if today >= 7 {
            today - 7
        } else {
            0
        }
    } else if range == "30d"@ {
        if today >= 30 {
            today - 30
        } else {
            0
        }
    } else {
        today as int
    }
}

/// Resolve a range label to inclusive epoch-day bounds ending today.
pub fn resolve_range(range: &str, today: u32) -> (r: (u32, u32))
    ensures
        r.0 == spec_range_start(range@, today),
        r.1 == today,
        r.0 <= r.1,
{
    let start: u32 = if str_eq(range, "7d") {
        if today >= 7 {
            today - 7
        } else {
            0
        }
    } else if str_eq(range, "30d") {
        if today >= 30 {
            today - 30
        } else {
            0
        }
    } else {
        today
    };
    (start, today)
}

/// The days a stats lookup probes for a source's latest snapshot: today,
/// yesterday, and two days ago, newest first, stopping at the epoch.
pub fn candidate_days(today: u32) -> (r: Vec<u32>)
    ensures
        r@ == seq![
            today,
            (if today >= 1 {
                (today - 1) as u32
            } else {
                0u32
            }),
            (if today >= 2 {
                (today - 2) as u32
            } else {
                0u32
            }),
        ],
{
    let mut out: Vec<u32> = Vec::new();
    out.push(today);
    out.push(if today >= 1 {
        today - 1
    } else {
        0
    });
    out.push(if today >= 2 {
        today - 2
    } else {
        0
    });
    proof {
        assert(out@ =~= seq![
            today,
            (if today >= 1 {
                (today - 1) as u32
            } else {
                0u32
            }),
            (if today >= 2 {
                (today - 2) as u32
            } else {
                0u32
            }),
        ]);
    }
    out
}

/// How many sources must yield data before the history walk stops early.
pub const MAX_HISTORY_SOURCES: usize = 5;

/// How many sources the history walk tries at most.
pub const MAX_HISTORY_TRIES: usize = 15;

/// Whether the history walk is done: enough sources yielded data, or the
/// try budget is spent.
pub fn history_walk_done(sources_with_data: usize, sources_tried: usize) -> (r: bool)
    ensures
        r <==> (sources_with_data >= MAX_HISTORY_SOURCES || sources_tried >= MAX_HISTORY_TRIES),
{
    sources_with_data >= MAX_HISTORY_SOURCES || sources_tried >= MAX_HISTORY_TRIES
}

/// Assemble the stats response: the per-exchange statistics as collected,
/// their aggregate, and a timestamp of the given clock reading.
pub fn fold_stats_response(
    token: String,
    range: String,
    exchanges: Vec<ExchangeStats>,
    now_ms: i64,
) -> (r: TickerStatsResponse)
    requires
        exchanges@.len() <= MAX_AGG_SOURCES,
        forall|i: int| 0 <= i < exchanges@.len() ==> (#[trigger] exchanges@[i]).wf(),
    ensures
        r.token == token,
        r.range == range,
        r.exchanges == exchanges,
        r.aggregate == spec_aggregate(exchanges@),
        exists|cd: CivilDate|
            cd.valid() && cd.epoch_day() == spec_epoch_day_of_ms(now_ms) && r.timestamp@
                == spec_datetime_chars(
                cd,
                spec_hour_of_ms(now_ms) as u64,
                spec_minute_of_ms(now_ms) as u64,
                spec_second_of_ms(now_ms) as u64,
            ),
{
    let aggregate = calculate_aggregate(&exchanges);
    let timestamp = format_rfc3339_utc(now_ms);
    TickerStatsResponse { token, timestamp, range, exchanges, aggregate }
}

/// Assemble the history response: the merged point pool bucketed at the
/// requested resolution.
pub fn fold_history_response(
    token: String,
    range: String,
    resolution: String,
    points: Vec<PricePoint>,
) -> (r: TickerHistoryResponse)
    ensures
        r.token == token,
        r.range == range,
        r.resolution == resolution,
        ({
            let interval = spec_resolution_interval(resolution@);
            &&& forall|j: int|
                0 <= j < r.data@.len() ==> (#[trigger] r.data@[j]) == spec_candle(
                    points@,
                    r.data@[j].timestamp,
                    interval,
                )
            &&& forall|j: int|
                0 <= j < r.data@.len() ==> spec_some_in_bucket(
                    points@,
                    (#[trigger] r.data@[j]).timestamp,
                    interval,
                )
            &&& forall|j: int|
                0 <= j < r.data@.len() ==> ((#[trigger] r.data@[j]).timestamp as int) % (
                interval as int) == 0
            &&& forall|a: int, b: int|
                0 <= a < b < r.data@.len() ==> r.data@[a].timestamp < r.data@[b].timestamp
            &&& forall|i: int|
                0 <= i < points@.len() && (#[trigger] points@[i]).timestamp_ms is Some
                    ==> spec_candle_present(
                    r.data@,
                    spec_bucket_start(points@[i].timestamp_ms->Some_0, interval),
                )
        }),
{
    let interval = resolution_interval_secs(resolution.as_str());
    let data = aggregate_to_ohlcv(&points, interval);
    TickerHistoryResponse { token, range, resolution, data }
}

} // verus!
