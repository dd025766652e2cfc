//! Per-exchange snapshot statistics and the cross-exchange aggregate.
//!
//! Prices, volumes and percentages are fixed-point numbers: an `i64` holding
//! the value scaled by `PRICE_SCALE` (six fractional digits).  The snapshot
//! parser only admits values whose magnitude stays within `VALUE_LIMIT`, and
//! cumulative volumes must be non-negative; within those bounds every sum
//! and product below fits the machine integers it is computed in.

use vstd::prelude::*;

verus! {

/// Scale of the fixed-point representation: six fractional digits.
pub const PRICE_SCALE: i64 = 1_000_000;

/// Largest magnitude (in scaled units) a parsed value may have.
pub const VALUE_LIMIT: i64 = 10_000_000_000_000_000;

/// Most sources one aggregate folds; bounds the sums below.
pub const MAX_AGG_SOURCES: usize = 500;

/// One raw data point of a snapshot file, with every field optional.
#[derive(Debug, Clone, Copy, PartialEq, Eq, Structural)]
pub struct PricePoint {
    /// Last trade price (scaled).
    pub last: Option<i64>,
    /// High price of the element's window (scaled).
    pub high: Option<i64>,
    /// Low price of the element's window (scaled).
    pub low: Option<i64>,
    /// Cumulative quote volume (scaled, never negative).
    pub quote_volume: Option<i64>,
    /// Price change percentage (scaled).
    pub percentage: Option<i64>,
    /// Millisecond epoch timestamp.
    pub timestamp_ms: Option<i64>,
}

impl PricePoint {
    /// Bounds the snapshot parser guarantees of every point it emits.
    pub open spec fn wf(self) -> bool {
        &&& (self.last matches Some(v) ==> -VALUE_LIMIT <= v <= VALUE_LIMIT)
        &&& (self.high matches Some(v) ==> -VALUE_LIMIT <= v <= VALUE_LIMIT)
        &&& (self.low matches Some(v) ==> -VALUE_LIMIT <= v <= VALUE_LIMIT)
        &&& (self.quote_volume matches Some(v) ==> 0 <= v <= VALUE_LIMIT)
        &&& (self.percentage matches Some(v) ==> -VALUE_LIMIT <= v <= VALUE_LIMIT)
    }
}

/// Statistics of a single exchange over the snapshot it contributed.
#[derive(Debug, Clone, PartialEq, Eq)]
pub struct ExchangeStats {
    /// Exchange identifier.
    pub exchange: String,
    /// Last trade price (scaled).
    pub last: Option<i64>,
    /// Highest high across the snapshot's points (scaled).
    pub high: Option<i64>,
    /// Lowest low across the snapshot's points (scaled).
    pub low: Option<i64>,
    /// Trailing-window volume: the final cumulative value (scaled).
    pub volume_24h: Option<i64>,
    /// Price change percentage of the latest point (scaled).
    pub change_pct: Option<i64>,
    /// Number of data points in the snapshot.
    pub data_points: usize,
}

impl ExchangeStats {
    /// Bounds inherited from well-formed points.
    pub open spec fn wf(self) -> bool {
        &&& (self.last matches Some(v) ==> -VALUE_LIMIT <= v <= VALUE_LIMIT)
        &&& (self.high matches Some(v) ==> -VALUE_LIMIT <= v <= VALUE_LIMIT)
        &&& (self.low matches Some(v) ==> -VALUE_LIMIT <= v <= VALUE_LIMIT)
        &&& (self.volume_24h matches Some(v) ==> 0 <= v <= VALUE_LIMIT)
        &&& (self.change_pct matches Some(v) ==> -VALUE_LIMIT <= v <= VALUE_LIMIT)
    }

    /// Statistics of an exchange for which no usable snapshot was found.
    pub fn empty(exchange: String) -> (r: ExchangeStats)
        ensures
            r.exchange == exchange,
            r.last is None,
            r.high is None,
            r.low is None,
            r.volume_24h is None,
            r.change_pct is None,
            r.data_points == 0,
            r.wf(),
    {
        ExchangeStats {
            exchange,
            last: None,
            high: None,
            low: None,
            volume_24h: None,
            change_pct: None,
            data_points: 0,
        }
    }
}

/// Cross-exchange roll-up over the per-exchange statistics.
#[derive(Debug, Clone, PartialEq, Eq, Structural)]
pub struct AggregateStats {
    /// Simple mean of the active exchanges' last prices (scaled).
    pub avg_price: Option<i64>,
    /// Sum of the active exchanges' volumes (scaled).
    pub total_volume_24h: Option<i64>,
    /// Volume-weighted average price (scaled).
    pub vwap: Option<i64>,
    /// Number of active exchanges (those with a last price).
    pub exchange_count: usize,
}

/// Integer division truncated toward zero, for a positive divisor.
pub open spec fn div_trunc(a: int, b: int) -> int
    recommends
        b > 0,
{
    if a >= 0 {
        a / b
    } else {
        -((-a) / b)
    }
}

/// The larger of two scaled values.
pub open spec fn spec_max_i64(a: i64, b: i64) -> i64 {
    if a >= b {
        a
    } else {
        b
    }
}

/// The smaller of two scaled values.
pub open spec fn spec_min_i64(a: i64, b: i64) -> i64 {
    if a <= b {
        a
    } else {
        b
    }
}

/// Fold of an optional running extreme with an optional new value.
pub open spec fn spec_fold_extreme(
    acc: Option<i64>,
    v: Option<i64>,
    take_max: bool,
) -> Option<i64> {
    match v {
        None => acc,
        Some(x) => match acc {
            None => Some(x),
            Some(a) => if take_max {
                Some(spec_max_i64(a, x))
            } else {
                Some(spec_min_i64(a, x))
            },
        },
    }
}

/// Running maximum of the points' explicit `high` fields.
pub open spec fn spec_high(points: Seq<PricePoint>) -> Option<i64>
    decreases points.len(),
{
    if points.len() == 0 {
        None
    } else {
        spec_fold_extreme(spec_high(points.drop_last()), points.last().high, true)
    }
}

/// Running minimum of the points' explicit `low` fields.
pub open spec fn spec_low(points: Seq<PricePoint>) -> Option<i64>
    decreases points.len(),
{
    if points.len() == 0 {
        None
    } else {
        spec_fold_extreme(spec_low(points.drop_last()), points.last().low, false)
    }
}

/// The cumulative-volume field is authoritative in its latest occurrence:
/// the value of the last point that carries it, or 0 when none does.
pub open spec fn spec_cumulative_volume(points: Seq<PricePoint>) -> i64
    decreases points.len(),
{
    if points.len() == 0 {
        0
    } else {
        match points.last().quote_volume {
            Some(v) => v,
            None => spec_cumulative_volume(points.drop_last()),
        }
    }
}

/// Per-exchange fold of a parsed snapshot, mirroring the snapshot layout:
/// the latest point supplies `last` and the change percentage, high and low
/// run across all points, and the volume is the latest cumulative value.
pub fn parse_exchange_stats(exchange: String, points: &Vec<PricePoint>) -> (r: ExchangeStats)
    requires
        forall|i: int| 0 <= i < points@.len() ==> (#[trigger] points@[i]).wf(),
    ensures
        r.exchange == exchange,
        r.data_points == points@.len(),
        points@.len() == 0 ==> r.last is None && r.change_pct is None && r.volume_24h is None,
        points@.len() > 0 ==> {
            &&& r.last == points@.last().last
            &&& r.change_pct == points@.last().percentage
            &&& r.volume_24h == Some(spec_cumulative_volume(points@))
        },
        r.high == spec_high(points@),
        r.low == spec_low(points@),
        r.wf(),
{
    let n = points.len();
    if n == 0 {
        return ExchangeStats::empty(exchange);
    }
    let mut high: Option<i64> = None;
    let mut low: Option<i64> = None;
    let mut volume: i64 = 0;
    let mut i: usize = 0;
    while i < n
        invariant
            n == points@.len(),
            0 <= i <= n,
            forall|k: int| 0 <= k < points@.len() ==> (#[trigger] points@[k]).wf(),
            high == spec_high(points@.take(i as int)),
            low == spec_low(points@.take(i as int)),
            volume == spec_cumulative_volume(points@.take(i as int)),
            high matches Some(v) ==> -VALUE_LIMIT <= v <= VALUE_LIMIT,
            low matches Some(v) ==> -VALUE_LIMIT <= v <= VALUE_LIMIT,
            0 <= volume <= VALUE_LIMIT,
        decreases n - i,
    {
        let p = points[i];
        proof {
            assert(points@.take(i + 1).drop_last() =~= points@.take(i as int));
            assert(points@.take(i + 1).last() == points@[i as int]);
        }
        if let Some(h) = p.high {
            high = match high {
                None => Some(h),
                Some(a) => if a >= h {
                    Some(a)
                } else {
                    Some(h)
                },
            };
        }
        if let Some(l) = p.low {
            low = match low {
                None => Some(l),
                Some(a) => if a <= l {
                    Some(a)
                } else {
                    Some(l)
                },
            };
        }
        if let Some(v) = p.quote_volume {
            volume = v;
        }
        i += 1;
    }
    proof {
        assert(points@.take(n as int) =~= points@);
    }
    let latest = points[n - 1];
    proof {
        assert(points@.last() == points@[n - 1]);
    }
    ExchangeStats {
        exchange,
        last: latest.last,
        high,
        low,
        volume_24h: Some(volume),
        change_pct: latest.percentage,
        data_points: n,
    }
}

/// Number of active entries: those with a last price.
pub open spec fn spec_active_count(s: Seq<ExchangeStats>) -> nat
    decreases s.len(),
{
    if s.len() == 0 {
        0
    } else {
        spec_active_count(s.drop_last()) + if s.last().last is Some {
            1nat
        } else {
            0nat
        }
    }
}

/// Sum of the active entries' last prices.
pub open spec fn spec_sum_last(s: Seq<ExchangeStats>) -> int
    decreases s.len(),
{
    if s.len() == 0 {
        0
    } else {
        spec_sum_last(s.drop_last()) + match s.last().last {
            Some(v) => v as int,
            None => 0,
        }
    }
}

/// Sum of the volumes of active entries that carry one.
pub open spec fn spec_sum_volume(s: Seq<ExchangeStats>) -> int
    decreases s.len(),
{
    if s.len() == 0 {
        0
    } else {
        spec_sum_volume(s.drop_last()) + if s.last().last is Some && s.last().volume_24h is Some {
            s.last().volume_24h->Some_0 as int
        } else {
            0
        }
    }
}

/// Sum of price times volume over entries that carry both.
pub open spec fn spec_sum_weighted(s: Seq<ExchangeStats>) -> int
    decreases s.len(),
{
    if s.len() == 0 {
        0
    } else {
        spec_sum_weighted(s.drop_last()) + if s.last().last is Some && s.last().volume_24h
            is Some {
            (s.last().last->Some_0 as int) * (s.last().volume_24h->Some_0 as int)
        } else {
            0
        }
    }
}

/// The aggregate as a mathematical function of the per-exchange statistics:
/// simple mean of active last prices, summed volume, and the
/// volume-weighted average price when the total volume is positive.
pub open spec fn spec_aggregate(s: Seq<ExchangeStats>) -> AggregateStats {
    let n = spec_active_count(s);
    if n == 0 {
        AggregateStats { avg_price: None, total_volume_24h: None, vwap: None, exchange_count: 0 }
    } else {
        AggregateStats {
            avg_price: Some(div_trunc(spec_sum_last(s), n as int) as i64),
            total_volume_24h: Some(spec_sum_volume(s) as i64),
            vwap: if spec_sum_volume(s) > 0 {
                Some(div_trunc(spec_sum_weighted(s), spec_sum_volume(s)) as i64)
            } else {
                None
            },
            exchange_count: n as usize,
        }
    }
}

/// Truncated-toward-zero division, computed on magnitudes.
fn div_trunc_i128(a: i128, b: i128) -> (r: i128)
    requires
        b > 0,
        a > i128::MIN,
    ensures
        r == div_trunc(a as int, b as int),
        a >= 0 ==> 0 <= r <= a,
        a < 0 ==> a <= r <= 0,
{
    if a >= 0 {
        let q = (a as u128) / (b as u128);
        proof {
            vstd::arithmetic::div_mod::lemma_div_nonincreasing(a as int, b as int);
        }
        q as i128
    } else {
        let m = (-a) as u128;
        let q = m / (b as u128);
        proof {
            vstd::arithmetic::div_mod::lemma_div_nonincreasing(m as int, b as int);
        }
        -(q as i128)
    }
}

/// Cross-exchange aggregate: mean of active last prices, total volume, and
/// VWAP, exactly as `spec_aggregate` states them.
pub fn calculate_aggregate(stats: &Vec<ExchangeStats>) -> (r: AggregateStats)
    requires
        stats@.len() <= MAX_AGG_SOURCES,
        forall|i: int| 0 <= i < stats@.len() ==> (#[trigger] stats@[i]).wf(),
    ensures
        r == spec_aggregate(stats@),
{
    let n = stats.len();
    let mut count: usize = 0;
    let mut sum_last: i128 = 0;
    let mut sum_vol: i128 = 0;
    let mut sum_weighted: i128 = 0;
    let mut i: usize = 0;
    while i < n
        invariant
            n == stats@.len() <= MAX_AGG_SOURCES,
            0 <= i <= n,
            forall|k: int| 0 <= k < stats@.len() ==> (#[trigger] stats@[k]).wf(),
            count == spec_active_count(stats@.take(i as int)),
            count <= i,
            sum_last == spec_sum_last(stats@.take(i as int)),
            -(count as int) * (VALUE_LIMIT as int) <= sum_last,
            sum_last <= (count as int) * (VALUE_LIMIT as int),
            sum_vol == spec_sum_volume(stats@.take(i as int)),
            0 <= sum_vol,
            sum_vol <= (count as int) * (VALUE_LIMIT as int),
            sum_weighted == spec_sum_weighted(stats@.take(i as int)),
            -((VALUE_LIMIT as int) * sum_vol) <= sum_weighted,
            sum_weighted <= (VALUE_LIMIT as int) * sum_vol,
        decreases n - i,
    {
        proof {
            assert(stats@.take(i + 1).drop_last() =~= stats@.take(i as int));
            assert(stats@.take(i + 1).last() == stats@[i as int]);
        }
        let e = &stats[i];
        if let Some(p) = e.last {
            count = count + 1;
            sum_last = sum_last + p as i128;
            if let Some(v) = e.volume_24h {
                proof {
                    assert(-10_000_000_000_000_000 * (v as int) <= (p as int) * (v as int) <= 10_000_000_000_000_000
                        * (v as int)) by (nonlinear_arith)
                        requires
                            -10_000_000_000_000_000 <= p <= 10_000_000_000_000_000,
                            0 <= v,
                    ;
                }
                let prod = (p as i128) * (v as i128);
                sum_vol = sum_vol + v as i128;
                sum_weighted = sum_weighted + prod;
            }
        }
        i += 1;
    }
    proof {
        assert(stats@.take(n as int) =~= stats@);
    }
    if count == 0 {
        return AggregateStats {
            avg_price: None,
            total_volume_24h: None,
            vwap: None,
            exchange_count: 0,
        };
    }
    proof {
        lemma_div_trunc_bound(sum_last as int, count as int, VALUE_LIMIT as int);
    }
    let avg_wide = div_trunc_i128(sum_last, count as i128);
    let avg = avg_wide as i64;
    let total = sum_vol as i64;
    let vwap: Option<i64> = if sum_vol > 0 {
        proof {
            lemma_div_trunc_bound(sum_weighted as int, sum_vol as int, VALUE_LIMIT as int);
        }
        let vw_wide = div_trunc_i128(sum_weighted, sum_vol);
        Some(vw_wide as i64)
    } else {
        None
    };
    AggregateStats { avg_price: Some(avg), total_volume_24h: Some(total), vwap, exchange_count: count }
}

/// Number of inactive entries: those without a last price.
pub open spec fn spec_inactive_count(s: Seq<ExchangeStats>) -> nat
    decreases s.len(),
{
    if s.len() == 0 {
        0
    } else {
        spec_inactive_count(s.drop_last()) + if s.last().last is None {
            1nat
        } else {
            0nat
        }
    }
}

/// The active count never exceeds the number of entries.
pub proof fn lemma_active_count_le_len(s: Seq<ExchangeStats>)
    ensures
        spec_active_count(s) <= s.len(),
    decreases s.len(),
{
    if s.len() > 0 {
        lemma_active_count_le_len(s.drop_last());
    }
}

/// Activity law: as soon as one source contributes a last price, the
/// aggregate is active — the exchange count is at least one and the average
/// price is present.
pub proof fn lemma_one_active_source(s: Seq<ExchangeStats>, i: int)
    requires
        0 <= i < s.len(),
        s[i].last is Some,
        s.len() <= usize::MAX,
    ensures
        spec_active_count(s) >= 1,
        spec_aggregate(s).exchange_count >= 1,
        spec_aggregate(s).avg_price is Some,
    decreases s.len(),
{
    lemma_active_count_le_len(s);
    if i < s.len() - 1 {
        lemma_active_count_le_len(s.drop_last());
        lemma_one_active_source(s.drop_last(), i);
    }
}

/// VWAP law: with at least one active source, the volume-weighted average
/// price is absent exactly when the summed volume is zero, and otherwise
/// equals the weighted sum divided by the total volume.
pub proof fn lemma_vwap(s: Seq<ExchangeStats>)
    requires
        spec_active_count(s) > 0,
    ensures
        spec_sum_volume(s) == 0 ==> spec_aggregate(s).vwap is None,
        spec_sum_volume(s) > 0 ==> spec_aggregate(s).vwap == Some(
            div_trunc(spec_sum_weighted(s), spec_sum_volume(s)) as i64,
        ),
{
}

/// Partial-tolerance law: sources without a usable last price only shrink
/// the result set; the exchange count is the entry count minus the inactive
/// entries, and the aggregate is defined for every input.
pub proof fn lemma_partial_tolerance(s: Seq<ExchangeStats>)
    ensures
        spec_active_count(s) + spec_inactive_count(s) == s.len(),
    decreases s.len(),
{
    if s.len() > 0 {
        lemma_partial_tolerance(s.drop_last());
    }
}

/// For a positive divisor `b` and `|a| <= c * b`, the truncated quotient has
/// magnitude at most `c`.
proof fn lemma_div_trunc_bound(a: int, b: int, c: int)
    requires
        b > 0,
        c >= 0,
        -(c * b) <= a,
        a <= c * b,
    ensures
        -c <= div_trunc(a, b) <= c,
{
    assert(b * c == c * b) by (nonlinear_arith);
    vstd::arithmetic::div_mod::lemma_div_multiples_vanish(c, b);
    if a >= 0 {
        vstd::arithmetic::div_mod::lemma_div_is_ordered(a, c * b, b);
        vstd::arithmetic::div_mod::lemma_div_pos_is_pos(a, b);
    } else {
        vstd::arithmetic::div_mod::lemma_div_is_ordered(-a, c * b, b);
        vstd::arithmetic::div_mod::lemma_div_pos_is_pos(-a, b);
    }
}

} // verus!
