//! The cache blob format of the response envelopes.
//!
//! A response is serialized to the cache as an opaque string and read back
//! on a hit.  The format is line-oriented: numbers end with a newline,
//! absent values are a `?` line, and strings are length-prefixed so they
//! may hold anything.  Decoding an encoded response yields the response
//! back exactly — the round-trip law below — so a cache hit reproduces the
//! response that was stored, byte for byte once re-encoded.

use vstd::prelude::*;
use vstd::string::StrSliceExecFns;
use vstd::string::StringExecFns;

use crate::numbers::{digits_len, digits_val, is_digit, digit_val, scan_digits};
use crate::ohlcv::OhlcvPoint;
use crate::service::{TickerStatsResponse, TickerHistoryResponse};
use crate::stats::{ExchangeStats, AggregateStats};
use crate::text::{spec_udigits, digit_char};

verus! {

/// The mathematical image of per-exchange statistics.
pub struct ExchangeStatsView {
    pub exchange: Seq<char>,
    pub last: Option<i64>,
    pub high: Option<i64>,
    pub low: Option<i64>,
    pub volume_24h: Option<i64>,
    pub change_pct: Option<i64>,
    pub data_points: usize,
}

impl View for ExchangeStats {
    type V = ExchangeStatsView;

    open spec fn view(&self) -> ExchangeStatsView {
        ExchangeStatsView {
            exchange: self.exchange@,
            last: self.last,
            high: self.high,
            low: self.low,
            volume_24h: self.volume_24h,
            change_pct: self.change_pct,
            data_points: self.data_points,
        }
    }
}

/// The mathematical image of a stats response.
pub struct StatsResponseView {
    pub token: Seq<char>,
    pub timestamp: Seq<char>,
    pub range: Seq<char>,
    pub exchanges: Seq<ExchangeStatsView>,
    pub aggregate: AggregateStats,
}

impl View for TickerStatsResponse {
    type V = StatsResponseView;

    open spec fn view(&self) -> StatsResponseView {
        StatsResponseView {
            token: self.token@,
            timestamp: self.timestamp@,
            range: self.range@,
            exchanges: self.exchanges@.map_values(|e: ExchangeStats| e@),
            aggregate: self.aggregate,
        }
    }
}

/// The mathematical image of a history response.
pub struct HistoryResponseView {
    pub token: Seq<char>,
    pub range: Seq<char>,
    pub resolution: Seq<char>,
    pub data: Seq<OhlcvPoint>,
}

impl View for TickerHistoryResponse {
    type V = HistoryResponseView;

    open spec fn view(&self) -> HistoryResponseView {
        HistoryResponseView {
            token: self.token@,
            range: self.range@,
            resolution: self.resolution@,
            data: self.data@,
        }
    }
}

/// An unsigned number line: digits then a newline.
pub open spec fn spec_enc_u64(n: nat) -> Seq<char> {
    spec_udigits(n) + seq!['\n']
}

/// A signed number line.
pub open spec fn spec_enc_i64(v: int) -> Seq<char> {
    if v < 0 {
        seq!['-'] + spec_udigits((-v) as nat) + seq!['\n']
    } else {
        spec_enc_u64(v as nat)
    }
}

/// An optional signed number line: `?` for an absent value.
pub open spec fn spec_enc_opt(o: Option<i64>) -> Seq<char> {
    match o {
        None => seq!['?', '\n'],
        Some(v) => spec_enc_i64(v as int),
    }
}

/// A string: its length as a number line, then its characters raw.
pub open spec fn spec_enc_str(s: Seq<char>) -> Seq<char> {
    spec_enc_u64(s.len()) + s
}

/// Read an unsigned number line at `i`.
pub open spec fn spec_dec_u64(s: Seq<char>, i: int) -> Option<(u64, int)> {
    let d = digits_len(s, i);
    if i < 0 || i > s.len() || d == 0 {
        None
    } else {
        let j = i + d;
        if j < s.len() && s[j] == '\n' && digits_val(s, i, j) <= u64::MAX {
            Some((digits_val(s, i, j) as u64, j + 1))
        } else {
            None
        }
    }
}

/// Read a signed number line at `i`.
pub open spec fn spec_dec_i64(s: Seq<char>, i: int) -> Option<(i64, int)> {
    if 0 <= i < s.len() && s[i] == '-' {
        match spec_dec_u64(s, i + 1) {
            Some((m, j)) => if m <= 9223372036854775808 {
                Some(((-(m as int)) as i64, j))
            } else {
                None
            },
            None => None,
        }
    } else {
        match spec_dec_u64(s, i) {
            Some((m, j)) => if m <= 9223372036854775807 {
                Some((m as i64, j))
            } else {
                None
            },
            None => None,
        }
    }
}

/// Read an optional signed number line at `i`.
pub open spec fn spec_dec_opt(s: Seq<char>, i: int) -> Option<(Option<i64>, int)> {
    if 0 <= i < s.len() && s[i] == '?' {
        if i + 1 < s.len() && s[i + 1] == '\n' {
            Some((None, i + 2))
        } else {
            None
        }
    } else {
        match spec_dec_i64(s, i) {
            Some((v, j)) => Some((Some(v), j)),
            None => None,
        }
    }
}

/// Read a length-prefixed string at `i`.
pub open spec fn spec_dec_str(s: Seq<char>, i: int) -> Option<(Seq<char>, int)> {
    match spec_dec_u64(s, i) {
        Some((len, j)) => if j + len <= s.len() {
            Some((s.subrange(j, j + len), j + len))
        } else {
            None
        },
        None => None,
    }
}

/// Every character of a canonical digit string is a digit.
proof fn lemma_udigits_all_digits(n: nat, k: int)
    requires
        0 <= k < spec_udigits(n).len(),
    ensures
        is_digit(spec_udigits(n)[k]),
    decreases n,
{
    if n >= 10 {
        if k < spec_udigits(n / 10).len() {
            lemma_udigits_all_digits(n / 10, k);
        }
    }
}

/// A digit run that is followed by a non-digit has exactly the run's length.
proof fn lemma_digits_len_exact(s: Seq<char>, i: int, k: int)
    requires
        0 <= i,
        i + k < s.len(),
        forall|t: int| 0 <= t < k ==> is_digit(#[trigger] s[i + t]),
        !is_digit(s[i + k]),
        k >= 0,
    ensures
        digits_len(s, i) == k,
    decreases k,
{
    if k == 0 {
    } else {
        assert(is_digit(s[i + 0]));
        assert forall|t: int| 0 <= t < k - 1 implies is_digit(#[trigger] s[i + 1 + t]) by {
            assert(s[i + 1 + t] == s[i + (t + 1)]);
        }
        lemma_digits_len_exact(s, i + 1, k - 1);
    }
}

/// The digit characters decode to their values.
proof fn lemma_digit_char_val(d: int)
    requires
        0 <= d <= 9,
    ensures
        digit_val(digit_char(d)) == d,
{
}

/// The value of an embedded canonical digit string is the number itself.
proof fn lemma_udigits_val(s: Seq<char>, i: int, n: nat)
    requires
        0 <= i,
        i + spec_udigits(n).len() <= s.len(),
        s.subrange(i, i + spec_udigits(n).len()) == spec_udigits(n),
    ensures
        digits_val(s, i, i + spec_udigits(n).len()) == n,
    decreases n,
{
    let u = spec_udigits(n);
    if n < 10 {
        assert(s[i] == u[0]);
        lemma_digit_char_val(n as int);
        assert(digits_val(s, i, i + 1) == digits_val(s, i, i) * 10 + digit_val(s[i]));
    } else {
        let up = spec_udigits(n / 10);
        assert(s.subrange(i, i + up.len() as int) =~= up) by {
            assert(forall|t: int|
                0 <= t < up.len() ==> s.subrange(i, i + u.len() as int)[t] == #[trigger] u[t]);
        }
        lemma_udigits_val(s, i, n / 10);
        assert(s[i + u.len() - 1] == u[u.len() - 1]);
        assert(u[u.len() - 1] == digit_char((n % 10) as int));
        lemma_digit_char_val((n % 10) as int);
        assert(digits_val(s, i, i + u.len() as int) == digits_val(s, i, i + u.len() - 1) * 10
            + digit_val(s[i + u.len() - 1]));
    }
}

/// Reading at an encoded unsigned number line yields the number and the
/// position after it.
proof fn lemma_dec_enc_u64(s: Seq<char>, i: int, n: u64)
    requires
        0 <= i,
        i + spec_enc_u64(n as nat).len() <= s.len(),
        s.subrange(i, i + spec_enc_u64(n as nat).len()) == spec_enc_u64(n as nat),
    ensures
        spec_dec_u64(s, i) == Some((n, i + spec_enc_u64(n as nat).len())),
{
    let u = spec_udigits(n as nat);
    let e = spec_enc_u64(n as nat);
    assert(e.len() == u.len() + 1);
    assert forall|t: int| 0 <= t < u.len() implies is_digit(#[trigger] s[i + t]) by {
        assert(s[i + t] == e[t]);
        assert(e[t] == u[t]);
        lemma_udigits_all_digits(n as nat, t);
    }
    assert(s[i + u.len()] == e[u.len() as int]);
    assert(e[u.len() as int] == '\n');
    assert(!is_digit('\n'));
    lemma_digits_len_exact(s, i, u.len() as int);
    assert(s.subrange(i, i + u.len() as int) =~= u) by {
        assert(forall|t: int| 0 <= t < u.len() ==> s.subrange(i, i + e.len() as int)[t] == #[trigger] e[t]);
    }
    lemma_udigits_val(s, i, n as nat);
}

/// Split an embedded concatenation into its two embedded parts.
proof fn lemma_subrange_concat(s: Seq<char>, i: int, a: Seq<char>, b: Seq<char>)
    requires
        0 <= i,
        i + a.len() + b.len() <= s.len(),
        s.subrange(i, i + a.len() + b.len()) == a + b,
    ensures
        s.subrange(i, i + a.len() as int) == a,
        s.subrange(i + a.len() as int, i + a.len() + b.len()) == b,
{
    let whole = s.subrange(i, i + a.len() + b.len());
    assert(s.subrange(i, i + a.len() as int) =~= a) by {
        assert forall|t: int| 0 <= t < a.len() implies s.subrange(i, i + a.len() as int)[t] == a[t] by {
            assert(whole[t] == (a + b)[t]);
        }
    }
    assert(s.subrange(i + a.len() as int, i + a.len() + b.len()) =~= b) by {
        assert forall|t: int|
            0 <= t < b.len() implies s.subrange(i + a.len() as int, i + a.len() + b.len())[t]
            == b[t] by {
            assert(whole[a.len() + t] == (a + b)[a.len() + t]);
        }
    }
}

/// Reading at an encoded signed number line yields the number back.
proof fn lemma_dec_enc_i64(s: Seq<char>, i: int, v: i64)
    requires
        0 <= i,
        i + spec_enc_i64(v as int).len() <= s.len(),
        s.subrange(i, i + spec_enc_i64(v as int).len()) == spec_enc_i64(v as int),
    ensures
        spec_dec_i64(s, i) == Some((v, i + spec_enc_i64(v as int).len())),
{
    let e = spec_enc_i64(v as int);
    if v >= 0 {
        lemma_dec_enc_u64(s, i, v as u64);
        let u = spec_udigits(v as nat);
        assert(s[i] == e[0]);
        assert(e[0] == u[0]);
        lemma_udigits_all_digits(v as nat, 0);
        assert(is_digit(s[i]));
        assert(s[i] != '-') by {
            if s[i] == '-' {
                assert(s[i] as u32 == 45);
            }
        }
    } else {
        let m = (-(v as int)) as nat;
        let u = spec_udigits(m);
        assert(s[i] == e[0]);
        assert(e[0] == '-');
        assert(e =~= seq!['-'] + (spec_udigits(m) + seq!['\n']));
        lemma_subrange_concat(s, i, seq!['-'], spec_udigits(m) + seq!['\n']);
        assert(spec_enc_u64(m) == spec_udigits(m) + seq!['\n']);
        lemma_dec_enc_u64(s, i + 1, (-(v as int)) as u64);
    }
}

/// Reading at an encoded optional number line yields the option back.
proof fn lemma_dec_enc_opt(s: Seq<char>, i: int, o: Option<i64>)
    requires
        0 <= i,
        i + spec_enc_opt(o).len() <= s.len(),
        s.subrange(i, i + spec_enc_opt(o).len()) == spec_enc_opt(o),
    ensures
        spec_dec_opt(s, i) == Some((o, i + spec_enc_opt(o).len())),
{
    let e = spec_enc_opt(o);
    match o {
        None => {
            assert(s[i] == e[0]);
            assert(s[i + 1] == e[1]);
        },
        Some(v) => {
            lemma_dec_enc_i64(s, i, v);
            assert(s[i] == e[0]);
            assert(s[i] != '?') by {
                if v as int >= 0 {
                    let u = spec_udigits(v as nat);
                    assert(e[0] == u[0]);
                    lemma_udigits_all_digits(v as nat, 0);
                    if s[i] == '?' {
                        assert(s[i] as u32 == 63);
                    }
                } else {
                    assert(e[0] == '-');
                    if s[i] == '?' {
                        assert(s[i] as u32 == 63);
                        assert('-' as u32 == 45);
                    }
                }
            }
        },
    }
}

/// Reading at an encoded string yields the string back.
proof fn lemma_dec_enc_str(s: Seq<char>, i: int, t: Seq<char>)
    requires
        0 <= i,
        t.len() <= u64::MAX,
        i + spec_enc_str(t).len() <= s.len(),
        s.subrange(i, i + spec_enc_str(t).len()) == spec_enc_str(t),
    ensures
        spec_dec_str(s, i) == Some((t, i + spec_enc_str(t).len())),
{
    let h = spec_enc_u64(t.len());
    lemma_subrange_concat(s, i, h, t);
    lemma_dec_enc_u64(s, i, t.len() as u64);
}

/// One encoded per-exchange record: name, five optional values, and the
/// point count.
pub open spec fn spec_enc_exchange(e: ExchangeStatsView) -> Seq<char> {
    spec_enc_str(e.exchange) + spec_enc_opt(e.last) + spec_enc_opt(e.high) + spec_enc_opt(e.low)
        + spec_enc_opt(e.volume_24h) + spec_enc_opt(e.change_pct) + spec_enc_u64(
        e.data_points as nat,
    )
}

/// The encoded per-exchange records, in order.
pub open spec fn spec_enc_exchanges(es: Seq<ExchangeStatsView>) -> Seq<char>
    decreases es.len(),
{
    if es.len() == 0 {
        Seq::empty()
    } else {
        spec_enc_exchanges(es.drop_last()) + spec_enc_exchange(es.last())
    }
}

/// The encoded stats response.
pub open spec fn spec_enc_stats(v: StatsResponseView) -> Seq<char> {
    spec_enc_str(v.token) + spec_enc_str(v.timestamp) + spec_enc_str(v.range) + spec_enc_u64(
        v.exchanges.len(),
    ) + spec_enc_exchanges(v.exchanges) + spec_enc_opt(v.aggregate.avg_price) + spec_enc_opt(
        v.aggregate.total_volume_24h,
    ) + spec_enc_opt(v.aggregate.vwap) + spec_enc_u64(v.aggregate.exchange_count as nat)
}

/// One encoded candle: six signed number lines.
pub open spec fn spec_enc_candle(p: OhlcvPoint) -> Seq<char> {
    spec_enc_i64(p.timestamp as int) + spec_enc_i64(p.open as int) + spec_enc_i64(p.high as int)
        + spec_enc_i64(p.low as int) + spec_enc_i64(p.close as int) + spec_enc_i64(
        p.volume as int,
    )
}

/// The encoded candles, in order.
pub open spec fn spec_enc_candles(ps: Seq<OhlcvPoint>) -> Seq<char>
    decreases ps.len(),
{
    if ps.len() == 0 {
        Seq::empty()
    } else {
        spec_enc_candles(ps.drop_last()) + spec_enc_candle(ps.last())
    }
}

/// The encoded history response.
pub open spec fn spec_enc_history(v: HistoryResponseView) -> Seq<char> {
    spec_enc_str(v.token) + spec_enc_str(v.range) + spec_enc_str(v.resolution) + spec_enc_u64(
        v.data.len(),
    ) + spec_enc_candles(v.data)
}

/// Read one per-exchange record at `i`.
pub open spec fn spec_dec_exchange(s: Seq<char>, i: int) -> Option<(ExchangeStatsView, int)> {
    match spec_dec_str(s, i) {
        None => None,
        Some((exchange, i1)) => match spec_dec_opt(s, i1) {
            None => None,
            Some((last, i2)) => match spec_dec_opt(s, i2) {
                None => None,
                Some((high, i3)) => match spec_dec_opt(s, i3) {
                    None => None,
                    Some((low, i4)) => match spec_dec_opt(s, i4) {
                        None => None,
                        Some((volume_24h, i5)) => match spec_dec_opt(s, i5) {
                            None => None,
                            Some((change_pct, i6)) => match spec_dec_u64(s, i6) {
                                None => None,
                                Some((dp, i7)) => if dp <= usize::MAX {
                                    Some(
                                        (
                                            ExchangeStatsView {
                                                exchange,
                                                last,
                                                high,
                                                low,
                                                volume_24h,
                                                change_pct,
                                                data_points: dp as usize,
                                            },
                                            i7,
                                        ),
                                    )
                                } else {
                                    None
                                },
                            },
                        },
                    },
                },
            },
        },
    }
}

/// Read `count` per-exchange records at `i`.
pub open spec fn spec_dec_exchanges(s: Seq<char>, i: int, count: nat) -> Option<
    (Seq<ExchangeStatsView>, int),
>
    decreases count,
{
    if count == 0 {
        Some((Seq::empty(), i))
    } else {
        match spec_dec_exchange(s, i) {
            None => None,
            Some((e, j)) => match spec_dec_exchanges(s, j, (count - 1) as nat) {
                None => None,
                Some((es, k)) => Some((seq![e] + es, k)),
            },
        }
    }
}

/// Read a stats response at `i`.
pub open spec fn spec_dec_stats(s: Seq<char>, i: int) -> Option<(StatsResponseView, int)> {
    match spec_dec_str(s, i) {
        None => None,
        Some((token, i1)) => match spec_dec_str(s, i1) {
            None => None,
            Some((timestamp, i2)) => match spec_dec_str(s, i2) {
                None => None,
                Some((range, i3)) => match spec_dec_u64(s, i3) {
                    None => None,
                    Some((count, i4)) => match spec_dec_exchanges(s, i4, count as nat) {
                        None => None,
                        Some((exchanges, i5)) => match spec_dec_opt(s, i5) {
                            None => None,
                            Some((avg_price, i6)) => match spec_dec_opt(s, i6) {
                                None => None,
                                Some((total_volume_24h, i7)) => match spec_dec_opt(s, i7) {
                                    None => None,
                                    Some((vwap, i8)) => match spec_dec_u64(s, i8) {
                                        None => None,
                                        Some((ec, i9)) => if ec <= usize::MAX {
                                            Some(
                                                (
                                                    StatsResponseView {
                                                        token,
                                                        timestamp,
                                                        range,
                                                        exchanges,
                                                        aggregate: AggregateStats {
                                                            avg_price,
                                                            total_volume_24h,
                                                            vwap,
                                                            exchange_count: ec as usize,
                                                        },
                                                    },
                                                    i9,
                                                ),
                                            )
                                        } else {
                                            None
                                        },
                                    },
                                },
                            },
                        },
                    },
                },
            },
        },
    }
}

/// A whole cache blob as a stats response: it must be read entirely.
pub open spec fn spec_decode_stats_blob(s: Seq<char>) -> Option<StatsResponseView> {
    match spec_dec_stats(s, 0) {
        None => None,
        Some((v, j)) => if j == s.len() {
            Some(v)
        } else {
            None
        },
    }
}

/// Read one candle at `i`.
pub open spec fn spec_dec_candle(s: Seq<char>, i: int) -> Option<(OhlcvPoint, int)> {
    match spec_dec_i64(s, i) {
        None => None,
        Some((timestamp, i1)) => match spec_dec_i64(s, i1) {
            None => None,
            Some((open, i2)) => match spec_dec_i64(s, i2) {
                None => None,
                Some((high, i3)) => match spec_dec_i64(s, i3) {
                    None => None,
                    Some((low, i4)) => match spec_dec_i64(s, i4) {
                        None => None,
                        Some((close, i5)) => match spec_dec_i64(s, i5) {
                            None => None,
                            Some((volume, i6)) => Some(
                                (OhlcvPoint { timestamp, open, high, low, close, volume }, i6),
                            ),
                        },
                    },
                },
            },
        },
    }
}

/// Read `count` candles at `i`.
pub open spec fn spec_dec_candles(s: Seq<char>, i: int, count: nat) -> Option<
    (Seq<OhlcvPoint>, int),
>
    decreases count,
{
    if count == 0 {
        Some((Seq::empty(), i))
    } else {
        match spec_dec_candle(s, i) {
            None => None,
            Some((p, j)) => match spec_dec_candles(s, j, (count - 1) as nat) {
                None => None,
                Some((ps, k)) => Some((seq![p] + ps, k)),
            },
        }
    }
}

/// Read a history response at `i`.
pub open spec fn spec_dec_history(s: Seq<char>, i: int) -> Option<(HistoryResponseView, int)> {
    match spec_dec_str(s, i) {
        None => None,
        Some((token, i1)) => match spec_dec_str(s, i1) {
            None => None,
            Some((range, i2)) => match spec_dec_str(s, i2) {
                None => None,
                Some((resolution, i3)) => match spec_dec_u64(s, i3) {
                    None => None,
                    Some((count, i4)) => match spec_dec_candles(s, i4, count as nat) {
                        None => None,
                        Some((data, i5)) => Some(
                            (HistoryResponseView { token, range, resolution, data }, i5),
                        ),
                    },
                },
            },
        },
    }
}

/// A whole cache blob as a history response: it must be read entirely.
pub open spec fn spec_decode_history_blob(s: Seq<char>) -> Option<HistoryResponseView> {
    match spec_dec_history(s, 0) {
        None => None,
        Some((v, j)) => if j == s.len() {
            Some(v)
        } else {
            None
        },
    }
}

/// The leading part of an encoded record: name, last, high, low.
pub open spec fn spec_enc_exchange_head(e: ExchangeStatsView) -> Seq<char> {
    spec_enc_str(e.exchange) + spec_enc_opt(e.last) + spec_enc_opt(e.high) + spec_enc_opt(e.low)
}

/// The trailing part of an encoded record: volume, change, point count.
pub open spec fn spec_enc_exchange_tail(e: ExchangeStatsView) -> Seq<char> {
    spec_enc_opt(e.volume_24h) + spec_enc_opt(e.change_pct) + spec_enc_u64(e.data_points as nat)
}

/// Reading at the leading part of an encoded record yields its fields.
#[verifier::rlimit(100)]
proof fn lemma_dec_enc_exchange_head(s: Seq<char>, i: int, e: ExchangeStatsView)
    requires
        0 <= i,
        e.exchange.len() <= u64::MAX,
        i + spec_enc_exchange_head(e).len() <= s.len(),
        s.subrange(i, i + spec_enc_exchange_head(e).len()) == spec_enc_exchange_head(e),
    ensures
        ({
            let i1 = i + spec_enc_str(e.exchange).len() as int;
            let i2 = i1 + spec_enc_opt(e.last).len() as int;
            let i3 = i2 + spec_enc_opt(e.high).len() as int;
            let i4 = i3 + spec_enc_opt(e.low).len() as int;
            &&& spec_dec_str(s, i) == Some((e.exchange, i1))
            &&& spec_dec_opt(s, i1) == Some((e.last, i2))
            &&& spec_dec_opt(s, i2) == Some((e.high, i3))
            &&& spec_dec_opt(s, i3) == Some((e.low, i4))
            &&& i4 == i + spec_enc_exchange_head(e).len()
        }),
{
    let e1 = spec_enc_str(e.exchange);
    let e2 = spec_enc_opt(e.last);
    let e3 = spec_enc_opt(e.high);
    let e4 = spec_enc_opt(e.low);
    let r3 = e3 + e4;
    let r2 = e2 + r3;
    assert(spec_enc_exchange_head(e) =~= e1 + r2);
    lemma_subrange_concat(s, i, e1, r2);
    lemma_dec_enc_str(s, i, e.exchange);
    let i1 = i + e1.len() as int;
    lemma_subrange_concat(s, i1, e2, r3);
    lemma_dec_enc_opt(s, i1, e.last);
    let i2 = i1 + e2.len() as int;
    lemma_subrange_concat(s, i2, e3, e4);
    lemma_dec_enc_opt(s, i2, e.high);
    let i3 = i2 + e3.len() as int;
    lemma_dec_enc_opt(s, i3, e.low);
}

/// Reading at the trailing part of an encoded record yields its fields.
#[verifier::rlimit(100)]
proof fn lemma_dec_enc_exchange_tail(s: Seq<char>, i: int, e: ExchangeStatsView)
    requires
        0 <= i,
        i + spec_enc_exchange_tail(e).len() <= s.len(),
        s.subrange(i, i + spec_enc_exchange_tail(e).len()) == spec_enc_exchange_tail(e),
    ensures
        ({
            let i1 = i + spec_enc_opt(e.volume_24h).len() as int;
            let i2 = i1 + spec_enc_opt(e.change_pct).len() as int;
            let i3 = i2 + spec_enc_u64(e.data_points as nat).len() as int;
            &&& spec_dec_opt(s, i) == Some((e.volume_24h, i1))
            &&& spec_dec_opt(s, i1) == Some((e.change_pct, i2))
            &&& spec_dec_u64(s, i2) == Some((e.data_points as u64, i3))
            &&& i3 == i + spec_enc_exchange_tail(e).len()
        }),
{
    let e5 = spec_enc_opt(e.volume_24h);
    let e6 = spec_enc_opt(e.change_pct);
    let e7 = spec_enc_u64(e.data_points as nat);
    let r6 = e6 + e7;
    assert(spec_enc_exchange_tail(e) =~= e5 + r6);
    lemma_subrange_concat(s, i, e5, r6);
    lemma_dec_enc_opt(s, i, e.volume_24h);
    let i1 = i + e5.len() as int;
    lemma_subrange_concat(s, i1, e6, e7);
    lemma_dec_enc_opt(s, i1, e.change_pct);
    let i2 = i1 + e6.len() as int;
    lemma_dec_enc_u64(s, i2, e.data_points as u64);
}

/// Reading at an encoded per-exchange record yields it back.
#[verifier::rlimit(100)]
proof fn lemma_dec_enc_exchange(s: Seq<char>, i: int, e: ExchangeStatsView)
    requires
        0 <= i,
        e.exchange.len() <= u64::MAX,
        i + spec_enc_exchange(e).len() <= s.len(),
        s.subrange(i, i + spec_enc_exchange(e).len()) == spec_enc_exchange(e),
    ensures
        spec_dec_exchange(s, i) == Some((e, i + spec_enc_exchange(e).len())),
{
    let head = spec_enc_exchange_head(e);
    let tail = spec_enc_exchange_tail(e);
    assert(spec_enc_exchange(e) =~= head + tail);
    lemma_subrange_concat(s, i, head, tail);
    lemma_dec_enc_exchange_head(s, i, e);
    lemma_dec_enc_exchange_tail(s, i + head.len() as int, e);
}

/// The encoded record list starts with its first record.
proof fn lemma_enc_exchanges_first(es: Seq<ExchangeStatsView>)
    requires
        es.len() > 0,
    ensures
        spec_enc_exchanges(es) == spec_enc_exchange(es.first()) + spec_enc_exchanges(
            es.drop_first(),
        ),
    decreases es.len(),
{
    if es.len() == 1 {
        assert(es.drop_last() =~= Seq::<ExchangeStatsView>::empty());
        assert(es.drop_first() =~= Seq::<ExchangeStatsView>::empty());
        assert(es.first() == es.last());
        assert(spec_enc_exchanges(es) =~= spec_enc_exchange(es.first()) + spec_enc_exchanges(
            es.drop_first(),
        ));
    } else {
        lemma_enc_exchanges_first(es.drop_last());
        assert(es.drop_last().first() == es.first());
        assert(es.drop_last().drop_first() =~= es.drop_first().drop_last());
        assert(es.drop_first().last() == es.last());
        assert(spec_enc_exchanges(es.drop_first()) == spec_enc_exchanges(
            es.drop_first().drop_last(),
        ) + spec_enc_exchange(es.drop_first().last()));
        assert(spec_enc_exchanges(es) =~= spec_enc_exchange(es.first()) + spec_enc_exchanges(
            es.drop_first(),
        ));
    }
}

/// Reading at an encoded record list yields the records back.
proof fn lemma_dec_enc_exchanges(s: Seq<char>, i: int, es: Seq<ExchangeStatsView>)
    requires
        0 <= i,
        forall|k: int| 0 <= k < es.len() ==> (#[trigger] es[k]).exchange.len() <= u64::MAX,
        i + spec_enc_exchanges(es).len() <= s.len(),
        s.subrange(i, i + spec_enc_exchanges(es).len()) == spec_enc_exchanges(es),
    ensures
        spec_dec_exchanges(s, i, es.len()) == Some((es, i + spec_enc_exchanges(es).len())),
    decreases es.len(),
{
    if es.len() > 0 {
        lemma_enc_exchanges_first(es);
        let h = spec_enc_exchange(es.first());
        let t = spec_enc_exchanges(es.drop_first());
        lemma_subrange_concat(s, i, h, t);
        lemma_dec_enc_exchange(s, i, es.first());
        assert(forall|k: int|
            0 <= k < es.drop_first().len() ==> (#[trigger] es.drop_first()[k]).exchange.len()
                <= u64::MAX);
        lemma_dec_enc_exchanges(s, i + h.len() as int, es.drop_first());
        assert(seq![es.first()] + es.drop_first() =~= es);
    }
}

/// The leading part of an encoded stats response: the three strings, the
/// record count, and the records.
pub open spec fn spec_enc_stats_head(v: StatsResponseView) -> Seq<char> {
    spec_enc_str(v.token) + spec_enc_str(v.timestamp) + spec_enc_str(v.range) + spec_enc_u64(
        v.exchanges.len(),
    ) + spec_enc_exchanges(v.exchanges)
}

/// The trailing part of an encoded stats response: the aggregate.
pub open spec fn spec_enc_stats_tail(a: AggregateStats) -> Seq<char> {
    spec_enc_opt(a.avg_price) + spec_enc_opt(a.total_volume_24h) + spec_enc_opt(a.vwap)
        + spec_enc_u64(a.exchange_count as nat)
}

/// Reading at the leading part of an encoded stats response yields its
/// fields in turn.
#[verifier::rlimit(100)]
proof fn lemma_dec_enc_stats_head(s: Seq<char>, i: int, v: StatsResponseView)
    requires
        0 <= i,
        v.token.len() <= u64::MAX,
        v.timestamp.len() <= u64::MAX,
        v.range.len() <= u64::MAX,
        v.exchanges.len() <= u64::MAX,
        forall|k: int| 0 <= k < v.exchanges.len() ==> (#[trigger] v.exchanges[k]).exchange.len()
            <= u64::MAX,
        i + spec_enc_stats_head(v).len() <= s.len(),
        s.subrange(i, i + spec_enc_stats_head(v).len()) == spec_enc_stats_head(v),
    ensures
        ({
            let i1 = i + spec_enc_str(v.token).len() as int;
            let i2 = i1 + spec_enc_str(v.timestamp).len() as int;
            let i3 = i2 + spec_enc_str(v.range).len() as int;
            let i4 = i3 + spec_enc_u64(v.exchanges.len()).len() as int;
            let i5 = i4 + spec_enc_exchanges(v.exchanges).len() as int;
            &&& spec_dec_str(s, i) == Some((v.token, i1))
            &&& spec_dec_str(s, i1) == Some((v.timestamp, i2))
            &&& spec_dec_str(s, i2) == Some((v.range, i3))
            &&& spec_dec_u64(s, i3) == Some((v.exchanges.len() as u64, i4))
            &&& spec_dec_exchanges(s, i4, v.exchanges.len()) == Some((v.exchanges, i5))
            &&& i5 == i + spec_enc_stats_head(v).len()
        }),
{
    let e1 = spec_enc_str(v.token);
    let e2 = spec_enc_str(v.timestamp);
    let e3 = spec_enc_str(v.range);
    let e4 = spec_enc_u64(v.exchanges.len());
    let e5 = spec_enc_exchanges(v.exchanges);
    let r4 = e4 + e5;
    let r3 = e3 + r4;
    let r2 = e2 + r3;
    assert(spec_enc_stats_head(v) =~= e1 + r2);
    lemma_subrange_concat(s, i, e1, r2);
    lemma_dec_enc_str(s, i, v.token);
    let i1 = i + e1.len() as int;
    lemma_subrange_concat(s, i1, e2, r3);
    lemma_dec_enc_str(s, i1, v.timestamp);
    let i2 = i1 + e2.len() as int;
    lemma_subrange_concat(s, i2, e3, r4);
    lemma_dec_enc_str(s, i2, v.range);
    let i3 = i2 + e3.len() as int;
    lemma_subrange_concat(s, i3, e4, e5);
    lemma_dec_enc_u64(s, i3, v.exchanges.len() as u64);
    let i4 = i3 + e4.len() as int;
    lemma_dec_enc_exchanges(s, i4, v.exchanges);
}

/// Reading at the trailing part of an encoded stats response yields the
/// aggregate's fields in turn.
#[verifier::rlimit(100)]
proof fn lemma_dec_enc_stats_tail(s: Seq<char>, i: int, a: AggregateStats)
    requires
        0 <= i,
        i + spec_enc_stats_tail(a).len() <= s.len(),
        s.subrange(i, i + spec_enc_stats_tail(a).len()) == spec_enc_stats_tail(a),
    ensures
        ({
            let i1 = i + spec_enc_opt(a.avg_price).len() as int;
            let i2 = i1 + spec_enc_opt(a.total_volume_24h).len() as int;
            let i3 = i2 + spec_enc_opt(a.vwap).len() as int;
            let i4 = i3 + spec_enc_u64(a.exchange_count as nat).len() as int;
            &&& spec_dec_opt(s, i) == Some((a.avg_price, i1))
            &&& spec_dec_opt(s, i1) == Some((a.total_volume_24h, i2))
            &&& spec_dec_opt(s, i2) == Some((a.vwap, i3))
            &&& spec_dec_u64(s, i3) == Some((a.exchange_count as u64, i4))
            &&& i4 == i + spec_enc_stats_tail(a).len()
        }),
{
    let e1 = spec_enc_opt(a.avg_price);
    let e2 = spec_enc_opt(a.total_volume_24h);
    let e3 = spec_enc_opt(a.vwap);
    let e4 = spec_enc_u64(a.exchange_count as nat);
    let r3 = e3 + e4;
    let r2 = e2 + r3;
    assert(spec_enc_stats_tail(a) =~= e1 + r2);
    lemma_subrange_concat(s, i, e1, r2);
    lemma_dec_enc_opt(s, i, a.avg_price);
    let i1 = i + e1.len() as int;
    lemma_subrange_concat(s, i1, e2, r3);
    lemma_dec_enc_opt(s, i1, a.total_volume_24h);
    let i2 = i1 + e2.len() as int;
    lemma_subrange_concat(s, i2, e3, e4);
    lemma_dec_enc_opt(s, i2, a.vwap);
    let i3 = i2 + e3.len() as int;
    lemma_dec_enc_u64(s, i3, a.exchange_count as u64);
}

/// Reading at an encoded stats response yields it back.
#[verifier::rlimit(100)]
proof fn lemma_dec_enc_stats(s: Seq<char>, i: int, v: StatsResponseView)
    requires
        0 <= i,
        v.token.len() <= u64::MAX,
        v.timestamp.len() <= u64::MAX,
        v.range.len() <= u64::MAX,
        v.exchanges.len() <= u64::MAX,
        forall|k: int| 0 <= k < v.exchanges.len() ==> (#[trigger] v.exchanges[k]).exchange.len()
            <= u64::MAX,
        i + spec_enc_stats(v).len() <= s.len(),
        s.subrange(i, i + spec_enc_stats(v).len()) == spec_enc_stats(v),
    ensures
        spec_dec_stats(s, i) == Some((v, i + spec_enc_stats(v).len())),
{
    let head = spec_enc_stats_head(v);
    let tail = spec_enc_stats_tail(v.aggregate);
    assert(spec_enc_stats(v) =~= head + tail);
    lemma_subrange_concat(s, i, head, tail);
    lemma_dec_enc_stats_head(s, i, v);
    lemma_dec_enc_stats_tail(s, i + head.len() as int, v.aggregate);
}

/// Cache round-trip law, stats side: decoding an encoded stats response
/// yields the response back exactly, so a cache hit reproduces what was
/// stored.
pub proof fn lemma_stats_codec_round_trip(v: StatsResponseView)
    requires
        v.token.len() <= u64::MAX,
        v.timestamp.len() <= u64::MAX,
        v.range.len() <= u64::MAX,
        v.exchanges.len() <= u64::MAX,
        forall|k: int| 0 <= k < v.exchanges.len() ==> (#[trigger] v.exchanges[k]).exchange.len()
            <= u64::MAX,
    ensures
        spec_decode_stats_blob(spec_enc_stats(v)) == Some(v),
{
    let s = spec_enc_stats(v);
    assert(s.subrange(0, s.len() as int) =~= s);
    lemma_dec_enc_stats(s, 0, v);
}

/// The leading part of an encoded candle: timestamp, open, high.
pub open spec fn spec_enc_candle_head(p: OhlcvPoint) -> Seq<char> {
    spec_enc_i64(p.timestamp as int) + spec_enc_i64(p.open as int) + spec_enc_i64(p.high as int)
}

/// The trailing part of an encoded candle: low, close, volume.
pub open spec fn spec_enc_candle_tail(p: OhlcvPoint) -> Seq<char> {
    spec_enc_i64(p.low as int) + spec_enc_i64(p.close as int) + spec_enc_i64(p.volume as int)
}

/// Reading at the leading part of an encoded candle yields its fields.
#[verifier::rlimit(100)]
proof fn lemma_dec_enc_candle_head(s: Seq<char>, i: int, p: OhlcvPoint)
    requires
        0 <= i,
        i + spec_enc_candle_head(p).len() <= s.len(),
        s.subrange(i, i + spec_enc_candle_head(p).len()) == spec_enc_candle_head(p),
    ensures
        ({
            let i1 = i + spec_enc_i64(p.timestamp as int).len() as int;
            let i2 = i1 + spec_enc_i64(p.open as int).len() as int;
            let i3 = i2 + spec_enc_i64(p.high as int).len() as int;
            &&& spec_dec_i64(s, i) == Some((p.timestamp, i1))
            &&& spec_dec_i64(s, i1) == Some((p.open, i2))
            &&& spec_dec_i64(s, i2) == Some((p.high, i3))
            &&& i3 == i + spec_enc_candle_head(p).len()
        }),
{
    let e1 = spec_enc_i64(p.timestamp as int);
    let e2 = spec_enc_i64(p.open as int);
    let e3 = spec_enc_i64(p.high as int);
    let r2 = e2 + e3;
    assert(spec_enc_candle_head(p) =~= e1 + r2);
    lemma_subrange_concat(s, i, e1, r2);
    lemma_dec_enc_i64(s, i, p.timestamp);
    let i1 = i + e1.len() as int;
    lemma_subrange_concat(s, i1, e2, e3);
    lemma_dec_enc_i64(s, i1, p.open);
    let i2 = i1 + e2.len() as int;
    lemma_dec_enc_i64(s, i2, p.high);
}

/// Reading at the trailing part of an encoded candle yields its fields.
#[verifier::rlimit(100)]
proof fn lemma_dec_enc_candle_tail(s: Seq<char>, i: int, p: OhlcvPoint)
    requires
        0 <= i,
        i + spec_enc_candle_tail(p).len() <= s.len(),
        s.subrange(i, i + spec_enc_candle_tail(p).len()) == spec_enc_candle_tail(p),
    ensures
        ({
            let i1 = i + spec_enc_i64(p.low as int).len() as int;
            let i2 = i1 + spec_enc_i64(p.close as int).len() as int;
            let i3 = i2 + spec_enc_i64(p.volume as int).len() as int;
            &&& spec_dec_i64(s, i) == Some((p.low, i1))
            &&& spec_dec_i64(s, i1) == Some((p.close, i2))
            &&& spec_dec_i64(s, i2) == Some((p.volume, i3))
            &&& i3 == i + spec_enc_candle_tail(p).len()
        }),
{
    let e1 = spec_enc_i64(p.low as int);
    let e2 = spec_enc_i64(p.close as int);
    let e3 = spec_enc_i64(p.volume as int);
    let r2 = e2 + e3;
    assert(spec_enc_candle_tail(p) =~= e1 + r2);
    lemma_subrange_concat(s, i, e1, r2);
    lemma_dec_enc_i64(s, i, p.low);
    let i1 = i + e1.len() as int;
    lemma_subrange_concat(s, i1, e2, e3);
    lemma_dec_enc_i64(s, i1, p.close);
    let i2 = i1 + e2.len() as int;
    lemma_dec_enc_i64(s, i2, p.volume);
}

/// Reading at an encoded candle yields it back.
#[verifier::rlimit(100)]
proof fn lemma_dec_enc_candle(s: Seq<char>, i: int, p: OhlcvPoint)
    requires
        0 <= i,
        i + spec_enc_candle(p).len() <= s.len(),
        s.subrange(i, i + spec_enc_candle(p).len()) == spec_enc_candle(p),
    ensures
        spec_dec_candle(s, i) == Some((p, i + spec_enc_candle(p).len())),
{
    let head = spec_enc_candle_head(p);
    let tail = spec_enc_candle_tail(p);
    assert(spec_enc_candle(p) =~= head + tail);
    lemma_subrange_concat(s, i, head, tail);
    lemma_dec_enc_candle_head(s, i, p);
    lemma_dec_enc_candle_tail(s, i + head.len() as int, p);
}

/// The encoded candle list starts with its first candle.
proof fn lemma_enc_candles_first(ps: Seq<OhlcvPoint>)
    requires
        ps.len() > 0,
    ensures
        spec_enc_candles(ps) == spec_enc_candle(ps.first()) + spec_enc_candles(ps.drop_first()),
    decreases ps.len(),
{
    if ps.len() == 1 {
        assert(ps.drop_last() =~= Seq::<OhlcvPoint>::empty());
        assert(ps.drop_first() =~= Seq::<OhlcvPoint>::empty());
        assert(ps.first() == ps.last());
        assert(spec_enc_candles(ps) =~= spec_enc_candle(ps.first()) + spec_enc_candles(
            ps.drop_first(),
        ));
    } else {
        lemma_enc_candles_first(ps.drop_last());
        assert(ps.drop_last().first() == ps.first());
        assert(ps.drop_last().drop_first() =~= ps.drop_first().drop_last());
        assert(ps.drop_first().last() == ps.last());
        assert(spec_enc_candles(ps.drop_first()) == spec_enc_candles(ps.drop_first().drop_last())
            + spec_enc_candle(ps.drop_first().last()));
        assert(spec_enc_candles(ps) =~= spec_enc_candle(ps.first()) + spec_enc_candles(
            ps.drop_first(),
        ));
    }
}

/// Reading at an encoded candle list yields the candles back.
proof fn lemma_dec_enc_candles(s: Seq<char>, i: int, ps: Seq<OhlcvPoint>)
    requires
        0 <= i,
        i + spec_enc_candles(ps).len() <= s.len(),
        s.subrange(i, i + spec_enc_candles(ps).len()) == spec_enc_candles(ps),
    ensures
        spec_dec_candles(s, i, ps.len()) == Some((ps, i + spec_enc_candles(ps).len())),
    decreases ps.len(),
{
    if ps.len() > 0 {
        lemma_enc_candles_first(ps);
        let h = spec_enc_candle(ps.first());
        let t = spec_enc_candles(ps.drop_first());
        lemma_subrange_concat(s, i, h, t);
        lemma_dec_enc_candle(s, i, ps.first());
        lemma_dec_enc_candles(s, i + h.len() as int, ps.drop_first());
        assert(seq![ps.first()] + ps.drop_first() =~= ps);
    }
}

/// Reading at an encoded history response yields it back.
proof fn lemma_dec_enc_history(s: Seq<char>, i: int, v: HistoryResponseView)
    requires
        0 <= i,
        v.token.len() <= u64::MAX,
        v.range.len() <= u64::MAX,
        v.resolution.len() <= u64::MAX,
        v.data.len() <= u64::MAX,
        i + spec_enc_history(v).len() <= s.len(),
        s.subrange(i, i + spec_enc_history(v).len()) == spec_enc_history(v),
    ensures
        spec_dec_history(s, i) == Some((v, i + spec_enc_history(v).len())),
{
    let e1 = spec_enc_str(v.token);
    let e2 = spec_enc_str(v.range);
    let e3 = spec_enc_str(v.resolution);
    let e4 = spec_enc_u64(v.data.len());
    let e5 = spec_enc_candles(v.data);
    let r4 = e4 + e5;
    let r3 = e3 + r4;
    let r2 = e2 + r3;
    assert(spec_enc_history(v) =~= e1 + r2);
    lemma_subrange_concat(s, i, e1, r2);
    lemma_dec_enc_str(s, i, v.token);
    let i1 = i + e1.len() as int;
    lemma_subrange_concat(s, i1, e2, r3);
    lemma_dec_enc_str(s, i1, v.range);
    let i2 = i1 + e2.len() as int;
    lemma_subrange_concat(s, i2, e3, r4);
    lemma_dec_enc_str(s, i2, v.resolution);
    let i3 = i2 + e3.len() as int;
    lemma_subrange_concat(s, i3, e4, e5);
    lemma_dec_enc_u64(s, i3, v.data.len() as u64);
    let i4 = i3 + e4.len() as int;
    lemma_dec_enc_candles(s, i4, v.data);
}

/// Cache round-trip law, history side: decoding an encoded history
/// response yields the response back exactly.
pub proof fn lemma_history_codec_round_trip(v: HistoryResponseView)
    requires
        v.token.len() <= u64::MAX,
        v.range.len() <= u64::MAX,
        v.resolution.len() <= u64::MAX,
        v.data.len() <= u64::MAX,
    ensures
        spec_decode_history_blob(spec_enc_history(v)) == Some(v),
{
    let s = spec_enc_history(v);
    assert(s.subrange(0, s.len() as int) =~= s);
    lemma_dec_enc_history(s, 0, v);
}

/// Append an unsigned number line.
fn push_enc_u64(out: &mut String, n: u64)
    ensures
        final(out)@ == old(out)@ + spec_enc_u64(n as nat),
{
    crate::text::push_udigits(out, n);
    crate::text::string_push(out, '\n');
    proof {
        assert(final(out)@ =~= old(out)@ + spec_enc_u64(n as nat));
    }
}

/// Append a signed number line.
fn push_enc_i64(out: &mut String, v: i64)
    ensures
        final(out)@ == old(out)@ + spec_enc_i64(v as int),
{
    if v < 0 {
        crate::text::string_push(out, '-');
        let m = (-(v as i128)) as u64;
        crate::text::push_udigits(out, m);
        crate::text::string_push(out, '\n');
        proof {
            assert(final(out)@ =~= old(out)@ + spec_enc_i64(v as int));
        }
    } else {
        push_enc_u64(out, v as u64);
    }
}

/// Append an optional signed number line.
fn push_enc_opt(out: &mut String, o: Option<i64>)
    ensures
        final(out)@ == old(out)@ + spec_enc_opt(o),
{
    match o {
        None => {
            crate::text::string_push(out, '?');
            crate::text::string_push(out, '\n');
            proof {
                assert(final(out)@ =~= old(out)@ + spec_enc_opt(o));
            }
        },
        Some(v) => {
            push_enc_i64(out, v);
        },
    }
}

/// Append a length-prefixed string.
fn push_enc_str(out: &mut String, t: &str)
    ensures
        final(out)@ == old(out)@ + spec_enc_str(t@),
{
    let n = t.unicode_len();
    push_enc_u64(out, n as u64);
    out.append(t);
    proof {
        assert(final(out)@ =~= old(out)@ + spec_enc_str(t@));
    }
}

/// Read an unsigned number line.
fn dec_u64_at(s: &str, i: usize) -> (r: Option<(u64, usize)>)
    ensures
        match r {
            Some((v, j)) => spec_dec_u64(s@, i as int) == Some((v, j as int)) && i < j <= s@.len(),
            None => spec_dec_u64(s@, i as int) is None,
        },
{
    let n = s.unicode_len();
    if i > n {
        return None;
    }
    let (j, acc) = scan_digits(s, i, 18446744073709551616);
    if j == i {
        return None;
    }
    if !(j < n && s.get_char(j) == '\n') {
        return None;
    }
    match acc {
        None => None,
        Some(v) => Some((v as u64, j + 1)),
    }
}

/// Read a signed number line.
fn dec_i64_at(s: &str, i: usize) -> (r: Option<(i64, usize)>)
    ensures
        match r {
            Some((v, j)) => spec_dec_i64(s@, i as int) == Some((v, j as int)) && i < j <= s@.len(),
            None => spec_dec_i64(s@, i as int) is None,
        },
{
    let n = s.unicode_len();
    if i < n && s.get_char(i) == '-' {
        match dec_u64_at(s, i + 1) {
            Some((m, j)) => if m <= 9223372036854775808 {
                Some(((-(m as i128)) as i64, j))
            } else {
                None
            },
            None => None,
        }
    } else {
        match dec_u64_at(s, i) {
            Some((m, j)) => if m <= 9223372036854775807 {
                Some((m as i64, j))
            } else {
                None
            },
            None => None,
        }
    }
}

/// Read an optional signed number line.
fn dec_opt_at(s: &str, i: usize) -> (r: Option<(Option<i64>, usize)>)
    ensures
        match r {
            Some((v, j)) => spec_dec_opt(s@, i as int) == Some((v, j as int)) && i < j <= s@.len(),
            None => spec_dec_opt(s@, i as int) is None,
        },
{
    let n = s.unicode_len();
    if i < n && s.get_char(i) == '?' {
        if i + 1 < n && s.get_char(i + 1) == '\n' {
            Some((None, i + 2))
        } else {
            None
        }
    } else {
        match dec_i64_at(s, i) {
            Some((v, j)) => Some((Some(v), j)),
            None => None,
        }
    }
}

/// Read a length-prefixed string.
fn dec_str_at(s: &str, i: usize) -> (r: Option<(String, usize)>)
    ensures
        match r {
            Some((t, j)) => spec_dec_str(s@, i as int) matches Some((tv, jv)) && tv == t@ && jv == j
                as int && i < j <= s@.len(),
            None => spec_dec_str(s@, i as int) is None,
        },
{
    let n = s.unicode_len();
    let (len64, j) = match dec_u64_at(s, i) {
        Some(p) => p,
        None => {
            return None;
        },
    };
    if len64 > (n - j) as u64 {
        return None;
    }
    let l = len64 as usize;
    let mut t = String::new();
    let mut k = j;
    while k < j + l
        invariant
            j <= k <= j + l,
            j + l <= n,
            n == s@.len(),
            t@ == s@.subrange(j as int, k as int),
        decreases j + l - k,
    {
        let c = s.get_char(k);
        crate::text::string_push(&mut t, c);
        proof {
            assert(s@.subrange(j as int, k + 1) =~= s@.subrange(j as int, k as int) + seq![
                s@[k as int],
            ]);
        }
        k += 1;
    }
    Some((t, j + l))
}

/// Append one encoded per-exchange record.
fn push_enc_exchange(out: &mut String, e: &ExchangeStats)
    ensures
        final(out)@ == old(out)@ + spec_enc_exchange(e@),
{
    push_enc_str(out, e.exchange.as_str());
    push_enc_opt(out, e.last);
    push_enc_opt(out, e.high);
    push_enc_opt(out, e.low);
    push_enc_opt(out, e.volume_24h);
    push_enc_opt(out, e.change_pct);
    push_enc_u64(out, e.data_points as u64);
    proof {
        assert(final(out)@ =~= old(out)@ + spec_enc_exchange(e@));
    }
}

/// Serialize a stats response for the cache.
pub fn encode_stats_response(r: &TickerStatsResponse) -> (s: String)
    ensures
        s@ == spec_enc_stats(r@),
{
    let ghost evs = r.exchanges@.map_values(|e: ExchangeStats| e@);
    let mut out = String::new();
    push_enc_str(&mut out, r.token.as_str());
    push_enc_str(&mut out, r.timestamp.as_str());
    push_enc_str(&mut out, r.range.as_str());
    push_enc_u64(&mut out, r.exchanges.len() as u64);
    let ghost front = out@;
    let n = r.exchanges.len();
    let mut i: usize = 0;
    while i < n
        invariant
            0 <= i <= n,
            n == r.exchanges@.len(),
            evs == r.exchanges@.map_values(|e: ExchangeStats| e@),
            out@ == front + spec_enc_exchanges(evs.take(i as int)),
        decreases n - i,
    {
        proof {
            assert(evs.take(i + 1).drop_last() =~= evs.take(i as int));
            assert(evs.take(i + 1).last() == evs[i as int]);
            assert(evs[i as int] == r.exchanges@[i as int]@);
        }
        push_enc_exchange(&mut out, &r.exchanges[i]);
        proof {
            assert(out@ =~= front + spec_enc_exchanges(evs.take(i + 1)));
        }
        i += 1;
    }
    proof {
        assert(evs.take(n as int) =~= evs);
    }
    push_enc_opt(&mut out, r.aggregate.avg_price);
    push_enc_opt(&mut out, r.aggregate.total_volume_24h);
    push_enc_opt(&mut out, r.aggregate.vwap);
    push_enc_u64(&mut out, r.aggregate.exchange_count as u64);
    proof {
        assert(out@ =~= spec_enc_stats(r@));
    }
    out
}

/// Read one per-exchange record.
fn dec_exchange_at(s: &str, i: usize) -> (r: Option<(ExchangeStats, usize)>)
    ensures
        match r {
            Some((e, j)) => spec_dec_exchange(s@, i as int) matches Some((ev, jv)) && ev == e@ && jv
                == j as int && i < j <= s@.len(),
            None => spec_dec_exchange(s@, i as int) is None,
        },
{
    let (exchange, i1) = match dec_str_at(s, i) {
        Some(p) => p,
        None => {
            return None;
        },
    };
    let (last, i2) = match dec_opt_at(s, i1) {
        Some(p) => p,
        None => {
            return None;
        },
    };
    let (high, i3) = match dec_opt_at(s, i2) {
        Some(p) => p,
        None => {
            return None;
        },
    };
    let (low, i4) = match dec_opt_at(s, i3) {
        Some(p) => p,
        None => {
            return None;
        },
    };
    let (volume_24h, i5) = match dec_opt_at(s, i4) {
        Some(p) => p,
        None => {
            return None;
        },
    };
    let (change_pct, i6) = match dec_opt_at(s, i5) {
        Some(p) => p,
        None => {
            return None;
        },
    };
    let (dp, i7) = match dec_u64_at(s, i6) {
        Some(p) => p,
        None => {
            return None;
        },
    };
    if dp > usize::MAX as u64 {
        return None;
    }
    Some(
        (
            ExchangeStats {
                exchange,
                last,
                high,
                low,
                volume_24h,
                change_pct,
                data_points: dp as usize,
            },
            i7,
        ),
    )
}

/// Read `count` per-exchange records.
fn dec_exchanges_at(s: &str, i: usize, count: u64) -> (r: Option<(Vec<ExchangeStats>, usize)>)
    requires
        i <= s@.len(),
    ensures
        match r {
            Some((es, j)) => spec_dec_exchanges(s@, i as int, count as nat) matches Some((esv, jv))
                && esv == es@.map_values(|e: ExchangeStats| e@) && jv == j as int && j <= s@.len(),
            None => spec_dec_exchanges(s@, i as int, count as nat) is None,
        },
{
    let mut acc: Vec<ExchangeStats> = Vec::new();
    let mut cur = i;
    let mut k: u64 = 0;
    while k < count
        invariant
            0 <= k <= count,
            i <= cur <= s@.len(),
            ({
                let whole = spec_dec_exchanges(s@, i as int, count as nat);
                let rest = spec_dec_exchanges(s@, cur as int, (count - k) as nat);
                match rest {
                    None => whole is None,
                    Some((tail, jv)) => whole == Some(
                        (acc@.map_values(|e: ExchangeStats| e@) + tail, jv),
                    ),
                }
            }),
        decreases count - k,
    {
        let (e, j) = match dec_exchange_at(s, cur) {
            Some(p) => p,
            None => {
                return None;
            },
        };
        let ghost pre = acc@;
        acc.push(e);
        proof {
            assert(acc@.map_values(|x: ExchangeStats| x@) =~= pre.map_values(
                |x: ExchangeStats| x@,
            ) + seq![e@]);
            let rest2 = spec_dec_exchanges(s@, j as int, (count - k - 1) as nat);
            match rest2 {
                None => {},
                Some((tail2, _)) => {
                    assert(pre.map_values(|x: ExchangeStats| x@) + (seq![e@] + tail2)
                        =~= acc@.map_values(|x: ExchangeStats| x@) + tail2);
                },
            }
        }
        cur = j;
        k += 1;
    }
    Some((acc, cur))
}

/// Deserialize a stats response from a cache blob; nothing on a malformed
/// or incompletely consumed blob.
pub fn decode_stats_response(s: &str) -> (r: Option<TickerStatsResponse>)
    ensures
        match r {
            Some(resp) => spec_decode_stats_blob(s@) == Some(resp@),
            None => spec_decode_stats_blob(s@) is None,
        },
{
    let n = s.unicode_len();
    let (token, i1) = match dec_str_at(s, 0) {
        Some(p) => p,
        None => {
            return None;
        },
    };
    let (timestamp, i2) = match dec_str_at(s, i1) {
        Some(p) => p,
        None => {
            return None;
        },
    };
    let (range, i3) = match dec_str_at(s, i2) {
        Some(p) => p,
        None => {
            return None;
        },
    };
    let (count, i4) = match dec_u64_at(s, i3) {
        Some(p) => p,
        None => {
            return None;
        },
    };
    let (exchanges, i5) = match dec_exchanges_at(s, i4, count) {
        Some(p) => p,
        None => {
            return None;
        },
    };
    let (avg_price, i6) = match dec_opt_at(s, i5) {
        Some(p) => p,
        None => {
            return None;
        },
    };
    let (total_volume_24h, i7) = match dec_opt_at(s, i6) {
        Some(p) => p,
        None => {
            return None;
        },
    };
    let (vwap, i8) = match dec_opt_at(s, i7) {
        Some(p) => p,
        None => {
            return None;
        },
    };
    let (ec, i9) = match dec_u64_at(s, i8) {
        Some(p) => p,
        None => {
            return None;
        },
    };
    if ec > usize::MAX as u64 {
        return None;
    }
    if i9 != n {
        return None;
    }
    Some(
        TickerStatsResponse {
            token,
            timestamp,
            range,
            exchanges,
            aggregate: AggregateStats {
                avg_price,
                total_volume_24h,
                vwap,
                exchange_count: ec as usize,
            },
        },
    )
}

/// Append one encoded candle.
fn push_enc_candle(out: &mut String, p: &OhlcvPoint)
    ensures
        final(out)@ == old(out)@ + spec_enc_candle(*p),
{
    push_enc_i64(out, p.timestamp);
    push_enc_i64(out, p.open);
    push_enc_i64(out, p.high);
    push_enc_i64(out, p.low);
    push_enc_i64(out, p.close);
    push_enc_i64(out, p.volume);
    proof {
        assert(final(out)@ =~= old(out)@ + spec_enc_candle(*p));
    }
}

/// Serialize a history response for the cache.
pub fn encode_history_response(r: &TickerHistoryResponse) -> (s: String)
    ensures
        s@ == spec_enc_history(r@),
{
    let mut out = String::new();
    push_enc_str(&mut out, r.token.as_str());
    push_enc_str(&mut out, r.range.as_str());
    push_enc_str(&mut out, r.resolution.as_str());
    push_enc_u64(&mut out, r.data.len() as u64);
    let ghost front = out@;
    let n = r.data.len();
    let mut i: usize = 0;
    while i < n
        invariant
            0 <= i <= n,
            n == r.data@.len(),
            out@ == front + spec_enc_candles(r.data@.take(i as int)),
        decreases n - i,
    {
        proof {
            assert(r.data@.take(i + 1).drop_last() =~= r.data@.take(i as int));
            assert(r.data@.take(i + 1).last() == r.data@[i as int]);
        }
        push_enc_candle(&mut out, &r.data[i]);
        proof {
            assert(out@ =~= front + spec_enc_candles(r.data@.take(i + 1)));
        }
        i += 1;
    }
    proof {
        assert(r.data@.take(n as int) =~= r.data@);
        assert(out@ =~= spec_enc_history(r@));
    }
    out
}

/// Read one candle.
fn dec_candle_at(s: &str, i: usize) -> (r: Option<(OhlcvPoint, usize)>)
    ensures
        match r {
            Some((p, j)) => spec_dec_candle(s@, i as int) == Some((p, j as int)) && i < j
                <= s@.len(),
            None => spec_dec_candle(s@, i as int) is None,
        },
{
    let (timestamp, i1) = match dec_i64_at(s, i) {
        Some(p) => p,
        None => {
            return None;
        },
    };
    let (open, i2) = match dec_i64_at(s, i1) {
        Some(p) => p,
        None => {
            return None;
        },
    };
    let (high, i3) = match dec_i64_at(s, i2) {
        Some(p) => p,
        None => {
            return None;
        },
    };
    let (low, i4) = match dec_i64_at(s, i3) {
        Some(p) => p,
        None => {
            return None;
        },
    };
    let (close, i5) = match dec_i64_at(s, i4) {
        Some(p) => p,
        None => {
            return None;
        },
    };
    let (volume, i6) = match dec_i64_at(s, i5) {
        Some(p) => p,
        None => {
            return None;
        },
    };
    Some((OhlcvPoint { timestamp, open, high, low, close, volume }, i6))
}

/// Read `count` candles.
fn dec_candles_at(s: &str, i: usize, count: u64) -> (r: Option<(Vec<OhlcvPoint>, usize)>)
    requires
        i <= s@.len(),
    ensures
        match r {
            Some((ps, j)) => spec_dec_candles(s@, i as int, count as nat) == Some(
                (ps@, j as int),
            ) && j <= s@.len(),
            None => spec_dec_candles(s@, i as int, count as nat) is None,
        },
{
    let mut acc: Vec<OhlcvPoint> = Vec::new();
    let mut cur = i;
    let mut k: u64 = 0;
    while k < count
        invariant
            0 <= k <= count,
            i <= cur <= s@.len(),
            ({
                let whole = spec_dec_candles(s@, i as int, count as nat);
                let rest = spec_dec_candles(s@, cur as int, (count - k) as nat);
                match rest {
                    None => whole is None,
                    Some((tail, jv)) => whole == Some((acc@ + tail, jv)),
                }
            }),
        decreases count - k,
    {
        let (p, j) = match dec_candle_at(s, cur) {
            Some(q) => q,
            None => {
                return None;
            },
        };
        let ghost pre = acc@;
        acc.push(p);
        proof {
            let rest2 = spec_dec_candles(s@, j as int, (count - k - 1) as nat);
            match rest2 {
                None => {},
                Some((tail2, _)) => {
                    assert(pre + (seq![p] + tail2) =~= acc@ + tail2);
                },
            }
        }
        cur = j;
        k += 1;
    }
    proof {
        assert(acc@ + Seq::<OhlcvPoint>::empty() =~= acc@);
    }
    Some((acc, cur))
}

/// Deserialize a history response from a cache blob; nothing on a
/// malformed or incompletely consumed blob.
pub fn decode_history_response(s: &str) -> (r: Option<TickerHistoryResponse>)
    ensures
        match r {
            Some(resp) => spec_decode_history_blob(s@) == Some(resp@),
            None => spec_decode_history_blob(s@) is None,
        },
{
    let n = s.unicode_len();
    let (token, i1) = match dec_str_at(s, 0) {
        Some(p) => p,
        None => {
            return None;
        },
    };
    let (range, i2) = match dec_str_at(s, i1) {
        Some(p) => p,
        None => {
            return None;
        },
    };
    let (resolution, i3) = match dec_str_at(s, i2) {
        Some(p) => p,
        None => {
            return None;
        },
    };
    let (count, i4) = match dec_u64_at(s, i3) {
        Some(p) => p,
        None => {
            return None;
        },
    };
    let (data, i5) = match dec_candles_at(s, i4, count) {
        Some(p) => p,
        None => {
            return None;
        },
    };
    if i5 != n {
        return None;
    }
    Some(TickerHistoryResponse { token, range, resolution, data })
}

} // verus!
