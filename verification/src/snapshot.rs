//! Decoding of snapshot payloads.
//!
//! A snapshot arrives as an inline base64 payload of a content entry; the
//! decoded document is JSON with a top-level `data` array whose elements
//! carry `last`, `high`, `low`, `quoteVolume`, `percentage` and `timestamp`
//! fields, any subset of which may be absent.  The payload is decoded here
//! in four steps: newline stripping, base64, UTF-8, and JSON projection;
//! the numeric texts are then parsed by `numbers` into fixed-point values.

use vstd::prelude::*;
use vstd::string::StrSliceExecFns;
use vstd::utf8::{valid_utf8, decode_utf8};

use base64::Engine as _;

use crate::content::ContentEntry;
use crate::numbers::{spec_parse_scaled, spec_parse_i64, parse_scaled_decimal, parse_i64_str};
use crate::stats::{PricePoint, VALUE_LIMIT};
use crate::text::string_push;

verus! {

/// One element of a snapshot's `data` array, each field as the JSON text of
/// its value, absent when the element does not carry it.
#[derive(Debug, Clone, PartialEq, Eq)]
pub struct RawRecord {
    pub last: Option<String>,
    pub high: Option<String>,
    pub low: Option<String>,
    pub quote_volume: Option<String>,
    pub percentage: Option<String>,
    pub timestamp: Option<String>,
}

/// The mathematical image of a raw record.
pub struct RawRecordView {
    pub last: Option<Seq<char>>,
    pub high: Option<Seq<char>>,
    pub low: Option<Seq<char>>,
    pub quote_volume: Option<Seq<char>>,
    pub percentage: Option<Seq<char>>,
    pub timestamp: Option<Seq<char>>,
}

/// View of an optional text.
pub open spec fn spec_opt_chars(o: Option<String>) -> Option<Seq<char>> {
    match o {
        Some(s) => Some(s@),
        None => None,
    }
}

impl View for RawRecord {
    type V = RawRecordView;

    open spec fn view(&self) -> RawRecordView {
        RawRecordView {
            last: spec_opt_chars(self.last),
            high: spec_opt_chars(self.high),
            low: spec_opt_chars(self.low),
            quote_volume: spec_opt_chars(self.quote_volume),
            percentage: spec_opt_chars(self.percentage),
            timestamp: spec_opt_chars(self.timestamp),
        }
    }
}

/// What the standard-alphabet base64 decoder returns: a function of the
/// text alone, absent exactly on texts it rejects.
pub uninterp spec fn b64_bytes_of(s: Seq<char>) -> Option<Seq<u8>>;

/// Relies on base64's `Engine::decode` with the standard alphabet: the
/// result depends on the input text alone.
#[verifier::external_body]
fn base64_decode(s: &str) -> (r: Option<Vec<u8>>)
    ensures
        (match r {
            Some(v) => Some(v@),
            None => None::<Seq<u8>>,
        }) == b64_bytes_of(s@),
{
    base64::engine::general_purpose::STANDARD.decode(s).ok()
}

/// Relies on `String::from_utf8`: succeeds exactly on valid UTF-8 and
/// decodes it.
#[verifier::external_body]
fn utf8_to_string(bytes: Vec<u8>) -> (r: Option<String>)
    ensures
        match r {
            Some(t) => valid_utf8(bytes@) && t@ == decode_utf8(bytes@),
            None => !valid_utf8(bytes@),
        },
{
    String::from_utf8(bytes).ok()
}

/// What the JSON projection of a snapshot document returns: a function of
/// the document text alone; absent when the text is not a JSON document
/// with a `data` array.
pub uninterp spec fn snapshot_records_of(s: Seq<char>) -> Option<Seq<RawRecordView>>;

/// Relies on serde_json (`from_str`, `Value::get`, `Value::as_array`, and
/// `Value`'s `Display`): parses the document, projects the `data` array,
/// and renders each element's fields as their JSON text.
#[verifier::external_body]
fn extract_snapshot_records(s: &str) -> (r: Option<Vec<RawRecord>>)
    ensures
        (match r {
            Some(v) => Some(v@.map_values(|p: RawRecord| p@)),
            None => None::<Seq<RawRecordView>>,
        }) == snapshot_records_of(s@),
{
    let doc: serde_json::Value = serde_json::from_str(s).ok()?;
    let arr = doc.get("data")?.as_array()?;
    Some(
        arr.iter().map(
            |p| RawRecord {
                last: p.get("last").map(|x| x.to_string()),
                high: p.get("high").map(|x| x.to_string()),
                low: p.get("low").map(|x| x.to_string()),
                quote_volume: p.get("quoteVolume").map(|x| x.to_string()),
                percentage: p.get("percentage").map(|x| x.to_string()),
                timestamp: p.get("timestamp").map(|x| x.to_string()),
            },
        ).collect(),
    )
}

/// A text with every newline removed.
pub open spec fn spec_strip_newlines(s: Seq<char>) -> Seq<char>
    decreases s.len(),
{
    if s.len() == 0 {
        Seq::empty()
    } else {
        spec_strip_newlines(s.drop_last()) + if s.last() == '\n' {
            Seq::empty()
        } else {
            seq![s.last()]
        }
    }
}

/// Remove every newline of a text.
pub fn strip_newlines(s: &str) -> (r: String)
    ensures
        r@ == spec_strip_newlines(s@),
{
    let n = s.unicode_len();
    let mut out = String::new();
    let mut i: usize = 0;
    while i < n
        invariant
            0 <= i <= n,
            n == s@.len(),
            out@ == spec_strip_newlines(s@.take(i as int)),
        decreases n - i,
    {
        proof {
            assert(s@.take(i + 1).drop_last() =~= s@.take(i as int));
            assert(s@.take(i + 1).last() == s@[i as int]);
        }
        let c = s.get_char(i);
        if c != '\n' {
            string_push(&mut out, c);
        }
        i += 1;
    }
    proof {
        assert(s@.take(n as int) =~= s@);
    }
    out
}

/// An optional scaled value read from an optional field text.
pub open spec fn spec_scaled_field(o: Option<Seq<char>>) -> Option<i64> {
    match o {
        Some(t) => spec_parse_scaled(t),
        None => None,
    }
}

/// A cumulative volume must be non-negative; a negative one is unusable.
pub open spec fn spec_volume_field(o: Option<Seq<char>>) -> Option<i64> {
    match spec_scaled_field(o) {
        Some(v) => if v >= 0 {
            Some(v)
        } else {
            None
        },
        None => None,
    }
}

/// An optional timestamp read from an optional field text.
pub open spec fn spec_timestamp_field(o: Option<Seq<char>>) -> Option<i64> {
    match o {
        Some(t) => spec_parse_i64(t),
        None => None,
    }
}

/// The parsed point of one raw record.
pub open spec fn spec_point_of(rv: RawRecordView) -> PricePoint {
    PricePoint {
        last: spec_scaled_field(rv.last),
        high: spec_scaled_field(rv.high),
        low: spec_scaled_field(rv.low),
        quote_volume: spec_volume_field(rv.quote_volume),
        percentage: spec_scaled_field(rv.percentage),
        timestamp_ms: spec_timestamp_field(rv.timestamp),
    }
}

/// A parsed scaled value stays within the fixed-point bounds.
proof fn lemma_scaled_field_bounds(o: Option<Seq<char>>)
    ensures
        spec_scaled_field(o) matches Some(v) ==> -VALUE_LIMIT <= v <= VALUE_LIMIT,
{
    if o is Some {
        crate::numbers::lemma_parse_scaled_bounds(o->Some_0);
    }
}

/// Every point a record parses to is well-formed.
pub proof fn lemma_point_of_wf(rv: RawRecordView)
    ensures
        spec_point_of(rv).wf(),
{
    lemma_scaled_field_bounds(rv.last);
    lemma_scaled_field_bounds(rv.high);
    lemma_scaled_field_bounds(rv.low);
    lemma_scaled_field_bounds(rv.quote_volume);
    lemma_scaled_field_bounds(rv.percentage);
}

fn parse_scaled_field(o: &Option<String>) -> (r: Option<i64>)
    ensures
        r == spec_scaled_field(spec_opt_chars(*o)),
{
    match o {
        Some(t) => parse_scaled_decimal(t.as_str()),
        None => None,
    }
}

/// Parse the raw records of a snapshot into fixed-point points.
pub fn records_to_points(recs: &Vec<RawRecord>) -> (r: Vec<PricePoint>)
    ensures
        r@.len() == recs@.len(),
        forall|i: int| 0 <= i < r@.len() ==> r@[i] == spec_point_of((#[trigger] recs@[i])@),
        forall|i: int| 0 <= i < r@.len() ==> (#[trigger] r@[i]).wf(),
{
    let n = recs.len();
    let mut out: Vec<PricePoint> = Vec::new();
    let mut i: usize = 0;
    while i < n
        invariant
            0 <= i <= n,
            n == recs@.len(),
            out@.len() == i,
            forall|k: int| 0 <= k < i ==> out@[k] == spec_point_of((#[trigger] recs@[k])@),
            forall|k: int| 0 <= k < i ==> (#[trigger] out@[k]).wf(),
        decreases n - i,
    {
        let rec = &recs[i];
        let volume = match parse_scaled_field(&rec.quote_volume) {
            Some(v) => if v >= 0 {
                Some(v)
            } else {
                None
            },
            None => None,
        };
        let timestamp_ms = match &rec.timestamp {
            Some(t) => parse_i64_str(t.as_str()),
            None => None,
        };
        let p = PricePoint {
            last: parse_scaled_field(&rec.last),
            high: parse_scaled_field(&rec.high),
            low: parse_scaled_field(&rec.low),
            quote_volume: volume,
            percentage: parse_scaled_field(&rec.percentage),
            timestamp_ms,
        };
        proof {
            lemma_point_of_wf(recs@[i as int]@);
        }
        out.push(p);
        i += 1;
    }
    out
}

/// The points a content entry's inline payload decodes to: absent unless
/// the payload is base64-encoded valid UTF-8 JSON with a `data` array.
pub open spec fn spec_decode_snapshot(
    encoding: Option<Seq<char>>,
    content: Option<Seq<char>>,
) -> Option<Seq<PricePoint>> {
    match (encoding, content) {
        (Some(enc), Some(raw)) => if enc == "base64"@ {
            match b64_bytes_of(spec_strip_newlines(raw)) {
                None => None,
                Some(bytes) => if !valid_utf8(bytes) {
                    None
                } else {
                    match snapshot_records_of(decode_utf8(bytes)) {
                        None => None,
                        Some(rs) => Some(rs.map_values(|rv: RawRecordView| spec_point_of(rv))),
                    }
                },
            }
        } else {
            None
        },
        _ => None,
    }
}

/// Decode a content entry's inline snapshot payload into points.
///
/// Every failure along the way — missing payload, foreign encoding, broken
/// base64, broken UTF-8, or a document without a `data` array — yields
/// nothing; the caller treats the snapshot as unusable and moves on.
pub fn decode_snapshot(entry: &ContentEntry) -> (r: Option<Vec<PricePoint>>)
    ensures
        (match r {
            Some(v) => Some(v@),
            None => None::<Seq<PricePoint>>,
        }) == spec_decode_snapshot(
            spec_opt_chars(entry.encoding),
            spec_opt_chars(entry.content),
        ),
        r matches Some(v) ==> forall|i: int| 0 <= i < v@.len() ==> (#[trigger] v@[i]).wf(),
{
    let (enc, raw) = match (&entry.encoding, &entry.content) {
        (Some(e), Some(c)) => (e, c),
        _ => {
            return None;
        },
    };
    if !crate::text::str_eq(enc.as_str(), "base64") {
        return None;
    }
    let clean = strip_newlines(raw.as_str());
    let bytes = match base64_decode(clean.as_str()) {
        Some(b) => b,
        None => {
            return None;
        },
    };
    let ghost bytes_view = bytes@;
    let text = match utf8_to_string(bytes) {
        Some(t) => t,
        None => {
            return None;
        },
    };
    let recs = match extract_snapshot_records(text.as_str()) {
        Some(rs) => rs,
        None => {
            return None;
        },
    };
    let points = records_to_points(&recs);
    proof {
        let rs_view = snapshot_records_of(decode_utf8(bytes_view))->Some_0;
        assert(points@ =~= rs_view.map_values(|rv: RawRecordView| spec_point_of(rv)));
    }
    Some(points)
}

} // verus!
