//! Fixed-resolution OHLCV candles.
//!
//! Every point of the merged pool is assigned to a time bucket: its
//! millisecond timestamp is converted to seconds and floor-divided (toward
//! zero) by the interval length.  Per bucket, points are folded in pool
//! order: the first-encountered point opens the candle and the
//! last-encountered closes it, high and low run across the explicit
//! high/low fields and fall back to the close when the bucket carries
//! none, and the volume is the latest cumulative-volume value.

use vstd::prelude::*;

use crate::stats::PricePoint;
use crate::stats::div_trunc;

verus! {

/// One candle of a time-bucketed series (scaled fixed-point values).
#[derive(Debug, Clone, Copy, PartialEq, Eq, Structural)]
pub struct OhlcvPoint {
    /// Bucket start time, seconds since the epoch.
    pub timestamp: i64,
    /// Last price of the first-encountered point.
    pub open: i64,
    /// Largest explicit high of the bucket, else the close.
    pub high: i64,
    /// Smallest explicit low of the bucket, else the close.
    pub low: i64,
    /// Last price of the last-encountered point.
    pub close: i64,
    /// Latest cumulative-volume value of the bucket.
    pub volume: i64,
}

/// The bucket start of a millisecond timestamp: seconds, truncated toward
/// zero, rounded down (toward zero) to a multiple of the interval.
pub open spec fn spec_bucket_start(ts_ms: i64, interval_secs: i64) -> int
    recommends
        interval_secs > 0,
{
    div_trunc(div_trunc(ts_ms as int, 1000), interval_secs as int) * (interval_secs as int)
}

/// Whether a point carries a timestamp that falls in the given bucket.
pub open spec fn spec_in_bucket(p: PricePoint, key: i64, interval_secs: i64) -> bool {
    p.timestamp_ms matches Some(ts) && spec_bucket_start(ts, interval_secs) == key as int
}

/// The first point of the pool that falls in the bucket.
pub open spec fn spec_first_in_bucket(s: Seq<PricePoint>, key: i64, interval_secs: i64) -> Option<
    PricePoint,
>
    decreases s.len(),
{
    if s.len() == 0 {
        None
    } else {
        let prev = spec_first_in_bucket(s.drop_last(), key, interval_secs);
        if prev is Some {
            prev
        } else if spec_in_bucket(s.last(), key, interval_secs) {
            Some(s.last())
        } else {
            None
        }
    }
}

/// The last point of the pool that falls in the bucket.
pub open spec fn spec_last_in_bucket(s: Seq<PricePoint>, key: i64, interval_secs: i64) -> Option<
    PricePoint,
>
    decreases s.len(),
{
    if s.len() == 0 {
        None
    } else if spec_in_bucket(s.last(), key, interval_secs) {
        Some(s.last())
    } else {
        spec_last_in_bucket(s.drop_last(), key, interval_secs)
    }
}

/// How many points of the pool fall in the bucket.
pub open spec fn spec_bucket_count(s: Seq<PricePoint>, key: i64, interval_secs: i64) -> nat
    decreases s.len(),
{
    if s.len() == 0 {
        0
    } else {
        spec_bucket_count(s.drop_last(), key, interval_secs) + if spec_in_bucket(
            s.last(),
            key,
            interval_secs,
        ) {
            1nat
        } else {
            0nat
        }
    }
}

/// Running maximum of the explicit `high` fields of the bucket's points.
pub open spec fn spec_bucket_high(s: Seq<PricePoint>, key: i64, interval_secs: i64) -> Option<i64>
    decreases s.len(),
{
    if s.len() == 0 {
        None
    } else {
        let prev = spec_bucket_high(s.drop_last(), key, interval_secs);
        if spec_in_bucket(s.last(), key, interval_secs) {
            crate::stats::spec_fold_extreme(prev, s.last().high, true)
        } else {
            prev
        }
    }
}

/// Running minimum of the explicit `low` fields of the bucket's points.
pub open spec fn spec_bucket_low(s: Seq<PricePoint>, key: i64, interval_secs: i64) -> Option<i64>
    decreases s.len(),
{
    if s.len() == 0 {
        None
    } else {
        let prev = spec_bucket_low(s.drop_last(), key, interval_secs);
        if spec_in_bucket(s.last(), key, interval_secs) {
            crate::stats::spec_fold_extreme(prev, s.last().low, false)
        } else {
            prev
        }
    }
}

/// Latest cumulative-volume value among the bucket's points, else 0.
pub open spec fn spec_bucket_volume(s: Seq<PricePoint>, key: i64, interval_secs: i64) -> i64
    decreases s.len(),
{
    if s.len() == 0 {
        0
    } else if spec_in_bucket(s.last(), key, interval_secs) && s.last().quote_volume is Some {
        s.last().quote_volume->Some_0
    } else {
        spec_bucket_volume(s.drop_last(), key, interval_secs)
    }
}

/// The `last` field of a point, with 0 standing in for an absent value.
pub open spec fn spec_last_or_zero(p: Option<PricePoint>) -> i64 {
    match p {
        Some(q) => match q.last {
            Some(v) => v,
            None => 0,
        },
        None => 0,
    }
}

/// The candle of one bucket, folded over the pool in encounter order.
pub open spec fn spec_candle(s: Seq<PricePoint>, key: i64, interval_secs: i64) -> OhlcvPoint {
    let open = spec_last_or_zero(spec_first_in_bucket(s, key, interval_secs));
    let close = spec_last_or_zero(spec_last_in_bucket(s, key, interval_secs));
    let high = match spec_bucket_high(s, key, interval_secs) {
        Some(v) => v,
        None => close,
    };
    let low = match spec_bucket_low(s, key, interval_secs) {
        Some(v) => v,
        None => close,
    };
    OhlcvPoint {
        timestamp: key,
        open,
        high,
        low,
        close,
        volume: spec_bucket_volume(s, key, interval_secs),
    }
}

/// Truncated-toward-zero division on `i64`, as the bucketing uses it.
pub fn div_trunc_i64(a: i64, b: i64) -> (r: i64)
    requires
        b > 0,
    ensures
        r == div_trunc(a as int, b as int),
        a >= 0 ==> 0 <= r <= a,
        a < 0 ==> a <= r <= 0,
{
    if a >= 0 {
        let q = (a as u64) / (b as u64);
        proof {
            vstd::arithmetic::div_mod::lemma_div_nonincreasing(a as int, b as int);
        }
        q as i64
    } else {
        let wide = -(a as i128);
        let q = (wide as u128) / (b as u128);
        proof {
            vstd::arithmetic::div_mod::lemma_div_nonincreasing(wide as int, b as int);
        }
        -(q as i128) as i64
    }
}

/// Rounding toward zero to a multiple of a positive divisor never grows the
/// magnitude: `|div_trunc(a, b) * b| <= |a|`.
proof fn lemma_trunc_multiple_bound(a: int, b: int)
    requires
        b > 0,
    ensures
        a >= 0 ==> 0 <= div_trunc(a, b) * b <= a,
        a < 0 ==> a <= div_trunc(a, b) * b <= 0,
{
    if a >= 0 {
        vstd::arithmetic::div_mod::lemma_fundamental_div_mod(a, b);
        vstd::arithmetic::div_mod::lemma_div_pos_is_pos(a, b);
        assert(b * (a / b) == (a / b) * b) by (nonlinear_arith);
        assert((a / b) * b >= 0) by (nonlinear_arith)
            requires
                a / b >= 0,
                b > 0,
        ;
    } else {
        vstd::arithmetic::div_mod::lemma_fundamental_div_mod(-a, b);
        vstd::arithmetic::div_mod::lemma_div_pos_is_pos(-a, b);
        assert(b * ((-a) / b) == ((-a) / b) * b) by (nonlinear_arith);
        assert(((-a) / b) * b >= 0) by (nonlinear_arith)
            requires
                (-a) / b >= 0,
                b > 0,
        ;
        assert(div_trunc(a, b) * b == -(((-a) / b) * b)) by (nonlinear_arith)
            requires
                div_trunc(a, b) == -((-a) / b),
        ;
    }
}

/// The bucket start of a millisecond timestamp.
pub fn bucket_start_of(ts_ms: i64, interval_secs: i64) -> (r: i64)
    requires
        interval_secs > 0,
    ensures
        r as int == spec_bucket_start(ts_ms, interval_secs),
{
    let secs = div_trunc_i64(ts_ms, 1000);
    let q = div_trunc_i64(secs, interval_secs);
    proof {
        lemma_trunc_multiple_bound(secs as int, interval_secs as int);
    }
    q * interval_secs
}

/// Whether some point of the pool falls in the bucket.
pub open spec fn spec_some_in_bucket(s: Seq<PricePoint>, key: i64, interval_secs: i64) -> bool {
    exists|i: int| 0 <= i < s.len() && spec_in_bucket(s[i], key, interval_secs)
}

/// Whether a bucket key occurs in a key sequence.
pub open spec fn spec_key_present(keys: Seq<i64>, k: int) -> bool {
    exists|j: int| 0 <= j < keys.len() && keys[j] == k
}

/// Whether a candle with the given bucket start occurs in a series.
pub open spec fn spec_candle_present(r: Seq<OhlcvPoint>, k: int) -> bool {
    exists|j: int| 0 <= j < r.len() && r[j].timestamp == k
}

/// Collect the distinct bucket keys of the pool, in ascending order.
fn collect_bucket_keys(points: &Vec<PricePoint>, interval_secs: i64) -> (keys: Vec<i64>)
    requires
        interval_secs > 0,
    ensures
        forall|a: int, b: int| 0 <= a < b < keys@.len() ==> keys@[a] < keys@[b],
        forall|j: int|
            0 <= j < keys@.len() ==> spec_some_in_bucket(points@, #[trigger] keys@[j], interval_secs),
        forall|i: int|
            0 <= i < points@.len() && (#[trigger] points@[i]).timestamp_ms is Some
                ==> spec_key_present(
                keys@,
                spec_bucket_start(points@[i].timestamp_ms->Some_0, interval_secs),
            ),
{
    let n = points.len();
    let mut keys: Vec<i64> = Vec::new();
    let mut i: usize = 0;
    while i < n
        invariant
            interval_secs > 0,
            n == points@.len(),
            0 <= i <= n,
            forall|a: int, b: int| 0 <= a < b < keys@.len() ==> keys@[a] < keys@[b],
            forall|j: int|
                0 <= j < keys@.len() ==> spec_some_in_bucket(
                    points@.take(i as int),
                    #[trigger] keys@[j],
                    interval_secs,
                ),
            forall|k: int|
                0 <= k < i && (#[trigger] points@[k]).timestamp_ms is Some ==> spec_key_present(
                    keys@,
                    spec_bucket_start(points@[k].timestamp_ms->Some_0, interval_secs),
                ),
        decreases n - i,
    {
        let p = points[i];
        if let Some(ts) = p.timestamp_ms {
            let key = bucket_start_of(ts, interval_secs);
            let klen = keys.len();
            let mut pos: usize = 0;
            while pos < klen && keys[pos] < key
                invariant
                    klen == keys@.len(),
                    0 <= pos <= klen,
                    forall|j: int| 0 <= j < pos ==> keys@[j] < key,
                decreases klen - pos,
            {
                pos += 1;
            }
            let already = pos < klen && keys[pos] == key;
            if !already {
                let ghost old_keys = keys@;
                keys.insert(pos, key);
                proof {
                    assert(keys@ =~= old_keys.insert(pos as int, key));
                    assert forall|a: int, b: int| 0 <= a < b < keys@.len() implies keys@[a]
                        < keys@[b] by {
                        assert(forall|j: int|
                            0 <= j < old_keys.len() && j >= pos ==> old_keys[j] > key);
                    }
                    assert forall|j: int| 0 <= j < keys@.len() implies spec_some_in_bucket(
                        points@.take(i + 1),
                        #[trigger] keys@[j],
                        interval_secs,
                    ) by {
                        if j == pos {
                            assert(spec_in_bucket(points@.take(i + 1)[i as int], key, interval_secs));
                        } else {
                            let j0 = if j < pos {
                                j
                            } else {
                                j - 1
                            };
                            assert(keys@[j] == old_keys[j0]);
                            let w = choose|w: int|
                                0 <= w < points@.take(i as int).len() && spec_in_bucket(
                                    points@.take(i as int)[w],
                                    old_keys[j0],
                                    interval_secs,
                                );
                            assert(spec_in_bucket(points@.take(i + 1)[w], keys@[j], interval_secs));
                        }
                    }
                    assert forall|k: int|
                        0 <= k < i + 1 && (#[trigger] points@[k]).timestamp_ms is Some
                        implies spec_key_present(
                        keys@,
                        spec_bucket_start(points@[k].timestamp_ms->Some_0, interval_secs),
                    ) by {
                        if k == i {
                            assert(keys@[pos as int] == key);
                        } else {
                            let b = spec_bucket_start(
                                points@[k].timestamp_ms->Some_0,
                                interval_secs,
                            );
                            let j0 = choose|j0: int| 0 <= j0 < old_keys.len() && old_keys[j0] == b;
                            let j1 = if j0 < pos {
                                j0
                            } else {
                                j0 + 1
                            };
                            assert(keys@[j1] == b);
                        }
                    }
                }
            } else {
                proof {
                    assert forall|j: int| 0 <= j < keys@.len() implies spec_some_in_bucket(
                        points@.take(i + 1),
                        #[trigger] keys@[j],
                        interval_secs,
                    ) by {
                        let w = choose|w: int|
                            0 <= w < points@.take(i as int).len() && spec_in_bucket(
                                points@.take(i as int)[w],
                                keys@[j],
                                interval_secs,
                            );
                        assert(spec_in_bucket(points@.take(i + 1)[w], keys@[j], interval_secs));
                    }
                    assert(keys@[pos as int] == key);
                }
            }
        } else {
            proof {
                assert forall|j: int| 0 <= j < keys@.len() implies spec_some_in_bucket(
                    points@.take(i + 1),
                    #[trigger] keys@[j],
                    interval_secs,
                ) by {
                    let w = choose|w: int|
                        0 <= w < points@.take(i as int).len() && spec_in_bucket(
                            points@.take(i as int)[w],
                            keys@[j],
                            interval_secs,
                        );
                    assert(spec_in_bucket(points@.take(i + 1)[w], keys@[j], interval_secs));
                }
            }
        }
        i += 1;
    }
    proof {
        assert(points@.take(n as int) =~= points@);
    }
    keys
}

/// Fold one bucket's candle over the pool in encounter order.
fn fold_bucket(points: &Vec<PricePoint>, key: i64, interval_secs: i64) -> (r: OhlcvPoint)
    requires
        interval_secs > 0,
    ensures
        r == spec_candle(points@, key, interval_secs),
{
    let n = points.len();
    let mut first: Option<PricePoint> = None;
    let mut lastp: Option<PricePoint> = None;
    let mut high: Option<i64> = None;
    let mut low: Option<i64> = None;
    let mut volume: i64 = 0;
    let mut i: usize = 0;
    while i < n
        invariant
            interval_secs > 0,
            n == points@.len(),
            0 <= i <= n,
            first == spec_first_in_bucket(points@.take(i as int), key, interval_secs),
            lastp == spec_last_in_bucket(points@.take(i as int), key, interval_secs),
            high == spec_bucket_high(points@.take(i as int), key, interval_secs),
            low == spec_bucket_low(points@.take(i as int), key, interval_secs),
            volume == spec_bucket_volume(points@.take(i as int), key, interval_secs),
        decreases n - i,
    {
        let p = points[i];
        proof {
            assert(points@.take(i + 1).drop_last() =~= points@.take(i as int));
            assert(points@.take(i + 1).last() == points@[i as int]);
        }
        let in_bucket = match p.timestamp_ms {
            Some(ts) => bucket_start_of(ts, interval_secs) == key,
            None => false,
        };
        if in_bucket {
            if first.is_none() {
                first = Some(p);
            }
            lastp = Some(p);
            if let Some(h) = p.high {
                high = match high {
                    None => Some(h),
                    Some(a) => if a >= h {
                        Some(a)
                    } else {
                        Some(h)
                    },
                };
            }
            if let Some(l) = p.low {
                low = match low {
                    None => Some(l),
                    Some(a) => if a <= l {
                        Some(a)
                    } else {
                        Some(l)
                    },
                };
            }
            if let Some(v) = p.quote_volume {
                volume = v;
            }
        }
        i += 1;
    }
    proof {
        assert(points@.take(n as int) =~= points@);
    }
    let open = match first {
        Some(q) => match q.last {
            Some(v) => v,
            None => 0,
        },
        None => 0,
    };
    let close = match lastp {
        Some(q) => match q.last {
            Some(v) => v,
            None => 0,
        },
        None => 0,
    };
    let high_v = match high {
        Some(v) => v,
        None => close,
    };
    let low_v = match low {
        Some(v) => v,
        None => close,
    };
    OhlcvPoint { timestamp: key, open, high: high_v, low: low_v, close, volume }
}

/// Bucket the merged pool into a fixed-resolution OHLCV series.
///
/// The series holds exactly one candle per bucket that some point falls in,
/// in ascending bucket order, each folded as `spec_candle` states; a pool
/// without timestamps yields an empty series.
pub fn aggregate_to_ohlcv(points: &Vec<PricePoint>, interval_secs: i64) -> (r: Vec<OhlcvPoint>)
    requires
        interval_secs > 0,
    ensures
        forall|j: int|
            0 <= j < r@.len() ==> (#[trigger] r@[j]) == spec_candle(
                points@,
                r@[j].timestamp,
                interval_secs,
            ),
        forall|j: int|
            0 <= j < r@.len() ==> spec_some_in_bucket(
                points@,
                (#[trigger] r@[j]).timestamp,
                interval_secs,
            ),
        forall|j: int|
            0 <= j < r@.len() ==> ((#[trigger] r@[j]).timestamp as int) % (interval_secs as int)
                == 0,
        forall|a: int, b: int| 0 <= a < b < r@.len() ==> r@[a].timestamp < r@[b].timestamp,
        forall|i: int|
            0 <= i < points@.len() && (#[trigger] points@[i]).timestamp_ms is Some
                ==> spec_candle_present(
                r@,
                spec_bucket_start(points@[i].timestamp_ms->Some_0, interval_secs),
            ),
{
    let keys = collect_bucket_keys(points, interval_secs);
    let m = keys.len();
    let mut out: Vec<OhlcvPoint> = Vec::new();
    let mut j: usize = 0;
    while j < m
        invariant
            interval_secs > 0,
            m == keys@.len(),
            0 <= j <= m,
            out@.len() == j,
            forall|a: int, b: int| 0 <= a < b < keys@.len() ==> keys@[a] < keys@[b],
            forall|x: int|
                0 <= x < keys@.len() ==> spec_some_in_bucket(
                    points@,
                    #[trigger] keys@[x],
                    interval_secs,
                ),
            forall|x: int| 0 <= x < j ==> (#[trigger] out@[x]).timestamp == keys@[x],
            forall|x: int|
                0 <= x < j ==> (#[trigger] out@[x]) == spec_candle(
                    points@,
                    keys@[x],
                    interval_secs,
                ),
        decreases m - j,
    {
        let candle = fold_bucket(points, keys[j], interval_secs);
        out.push(candle);
        j += 1;
    }
    proof {
        assert forall|i: int|
            0 <= i < points@.len() && (#[trigger] points@[i]).timestamp_ms is Some
            implies spec_candle_present(
            out@,
            spec_bucket_start(points@[i].timestamp_ms->Some_0, interval_secs),
        ) by {
            let b = spec_bucket_start(points@[i].timestamp_ms->Some_0, interval_secs);
            let w = choose|w: int| 0 <= w < keys@.len() && keys@[w] == b;
            assert(out@[w].timestamp == b);
        }
        assert forall|x: int|
            0 <= x < out@.len() implies ((#[trigger] out@[x]).timestamp as int) % (
        interval_secs as int) == 0 by {
            lemma_candle_alignment(points@, out@[x].timestamp, interval_secs);
        }
    }
    out
}

/// Bucketing law: a bucket start is a multiple of the interval, and a
/// non-negative timestamp falls within the interval-wide window that starts
/// there.
pub proof fn lemma_bucket_window(ts_ms: i64, interval_secs: i64)
    requires
        interval_secs > 0,
        ts_ms >= 0,
    ensures
        spec_bucket_start(ts_ms, interval_secs) % (interval_secs as int) == 0,
        spec_bucket_start(ts_ms, interval_secs) <= div_trunc(ts_ms as int, 1000),
        div_trunc(ts_ms as int, 1000) < spec_bucket_start(ts_ms, interval_secs) + interval_secs,
{
    let s = div_trunc(ts_ms as int, 1000);
    let itv = interval_secs as int;
    vstd::arithmetic::div_mod::lemma_div_pos_is_pos(ts_ms as int, 1000);
    vstd::arithmetic::div_mod::lemma_mod_multiples_basic(s / itv, itv);
    vstd::arithmetic::div_mod::lemma_fundamental_div_mod(s, itv);
    vstd::arithmetic::div_mod::lemma_mod_bound(s, itv);
    assert(itv * (s / itv) == (s / itv) * itv) by (nonlinear_arith);
}

/// Alignment law: a bucket that holds a point starts on a multiple of the
/// interval.
pub proof fn lemma_candle_alignment(points: Seq<PricePoint>, key: i64, interval_secs: i64)
    requires
        interval_secs > 0,
        spec_some_in_bucket(points, key, interval_secs),
    ensures
        (key as int) % (interval_secs as int) == 0,
{
    let i = choose|i: int| 0 <= i < points.len() && spec_in_bucket(points[i], key, interval_secs);
    let ts = points[i].timestamp_ms->Some_0;
    let q = div_trunc(div_trunc(ts as int, 1000), interval_secs as int);
    vstd::arithmetic::div_mod::lemma_mod_multiples_basic(q, interval_secs as int);
}

/// Non-overlap law: two ascending starts on multiples of the interval are
/// at least one interval apart, so the candles' windows never overlap.
pub proof fn lemma_candles_disjoint(t1: int, t2: int, interval: int)
    requires
        interval > 0,
        t1 < t2,
        t1 % interval == 0,
        t2 % interval == 0,
    ensures
        t1 + interval <= t2,
{
    vstd::arithmetic::div_mod::lemma_fundamental_div_mod(t1, interval);
    vstd::arithmetic::div_mod::lemma_fundamental_div_mod(t2, interval);
    let q1 = t1 / interval;
    let q2 = t2 / interval;
    assert(q1 < q2) by (nonlinear_arith)
        requires
            interval > 0,
            interval * q1 < interval * q2,
    ;
    assert(interval * (q1 + 1) <= interval * q2) by (nonlinear_arith)
        requires
            interval > 0,
            q1 + 1 <= q2,
    ;
    assert(interval * (q1 + 1) == interval * q1 + interval) by (nonlinear_arith);
}

/// No explicit high among the bucket's points leaves the running high absent.
proof fn lemma_bucket_high_none(s: Seq<PricePoint>, key: i64, interval_secs: i64)
    requires
        forall|i: int|
            0 <= i < s.len() && spec_in_bucket(#[trigger] s[i], key, interval_secs) ==> s[i].high
                is None,
    ensures
        spec_bucket_high(s, key, interval_secs) is None,
    decreases s.len(),
{
    if s.len() > 0 {
        lemma_bucket_high_none(s.drop_last(), key, interval_secs);
    }
}

/// No explicit low among the bucket's points leaves the running low absent.
proof fn lemma_bucket_low_none(s: Seq<PricePoint>, key: i64, interval_secs: i64)
    requires
        forall|i: int|
            0 <= i < s.len() && spec_in_bucket(#[trigger] s[i], key, interval_secs) ==> s[i].low
                is None,
    ensures
        spec_bucket_low(s, key, interval_secs) is None,
    decreases s.len(),
{
    if s.len() > 0 {
        lemma_bucket_low_none(s.drop_last(), key, interval_secs);
    }
}

/// Fallback law: a bucket whose points carry no explicit high or low yields
/// a candle with `high == low == close`.
pub proof fn lemma_fallback_high_low(s: Seq<PricePoint>, key: i64, interval_secs: i64)
    requires
        forall|i: int|
            0 <= i < s.len() && spec_in_bucket(#[trigger] s[i], key, interval_secs) ==> s[i].high
                is None && s[i].low is None,
    ensures
        spec_candle(s, key, interval_secs).high == spec_candle(s, key, interval_secs).close,
        spec_candle(s, key, interval_secs).low == spec_candle(s, key, interval_secs).close,
{
    lemma_bucket_high_none(s, key, interval_secs);
    lemma_bucket_low_none(s, key, interval_secs);
}

} // verus!
