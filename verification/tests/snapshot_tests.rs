use base64::Engine as _;
use gatewayapi::content::{ContentEntry, ContentKind};
use gatewayapi::snapshot::decode_snapshot;
use gatewayapi::stats::parse_exchange_stats;

fn entry_with_payload(content: Option<String>, encoding: Option<&str>) -> ContentEntry {
    ContentEntry {
        name: "2024-01-01-raw.json".to_string(),
        path: "data/slow/ascendex/2024/01/2024-01-01-raw.json".to_string(),
        kind: ContentKind::File,
        content,
        encoding: encoding.map(|e| e.to_string()),
        url: String::new(),
        html_url: None,
        download_url: None,
    }
}

fn base64_of(doc: &str) -> String {
    base64::engine::general_purpose::STANDARD.encode(doc.as_bytes())
}

const DOC: &str = "{\"meta\":{\"source\":\"ccxt\"},\"data\":[{\"last\":2.5,\"high\":3.0,\"low\":2.0,\"quoteVolume\":100.5,\"percentage\":-1.25,\"timestamp\":1704103200000},{\"last\":2.75,\"quoteVolume\":200.25,\"timestamp\":1704106800000}]}";

#[test]
fn decode_a_snapshot_payload() {
    let entry = entry_with_payload(Some(base64_of(DOC)), Some("base64"));
    let points = decode_snapshot(&entry).expect("payload should decode");
    assert_eq!(points.len(), 2);
    assert_eq!(points[0].last, Some(2_500_000));
    assert_eq!(points[0].high, Some(3_000_000));
    assert_eq!(points[0].low, Some(2_000_000));
    assert_eq!(points[0].quote_volume, Some(100_500_000));
    assert_eq!(points[0].percentage, Some(-1_250_000));
    assert_eq!(points[0].timestamp_ms, Some(1_704_103_200_000));
    assert_eq!(points[1].last, Some(2_750_000));
    assert_eq!(points[1].high, None);
    assert_eq!(points[1].low, None);
    assert_eq!(points[1].quote_volume, Some(200_250_000));
}

#[test]
fn decode_tolerates_embedded_newlines() {
    // The upstream wraps inline base64 payloads with newlines.
    let raw = base64_of(DOC);
    let wrapped: String = raw
        .chars()
        .enumerate()
        .flat_map(|(i, c)| {
            if i > 0 && i % 20 == 0 {
                vec!['\n', c]
            } else {
                vec![c]
            }
        })
        .collect();
    let entry = entry_with_payload(Some(wrapped), Some("base64"));
    let points = decode_snapshot(&entry).expect("wrapped payload should decode");
    assert_eq!(points.len(), 2);
}

#[test]
fn decode_rejects_broken_payloads() {
    // Not base64 at all.
    let entry = entry_with_payload(Some("!!!not-base64!!!".to_string()), Some("base64"));
    assert!(decode_snapshot(&entry).is_none());
    // A foreign encoding.
    let entry = entry_with_payload(Some(base64_of(DOC)), Some("utf-8"));
    assert!(decode_snapshot(&entry).is_none());
    // No inline payload.
    let entry = entry_with_payload(None, Some("base64"));
    assert!(decode_snapshot(&entry).is_none());
    // Valid base64 of something that is not JSON.
    let entry = entry_with_payload(Some(base64_of("hello")), Some("base64"));
    assert!(decode_snapshot(&entry).is_none());
    // JSON without a data array.
    let entry = entry_with_payload(Some(base64_of("{\"rows\":[]}")), Some("base64"));
    assert!(decode_snapshot(&entry).is_none());
}

#[test]
fn decode_keeps_unusable_fields_absent() {
    let doc = "{\"data\":[{\"last\":\"not-a-number\",\"quoteVolume\":-5.0,\"timestamp\":1.5}]}";
    let entry = entry_with_payload(Some(base64_of(doc)), Some("base64"));
    let points = decode_snapshot(&entry).expect("document should decode");
    assert_eq!(points.len(), 1);
    // A string where a number belongs is unusable.
    assert_eq!(points[0].last, None);
    // A negative cumulative volume is unusable.
    assert_eq!(points[0].quote_volume, None);
    // A fractional timestamp is unusable.
    assert_eq!(points[0].timestamp_ms, None);
}

#[test]
fn decoded_snapshot_feeds_the_stats_fold() {
    let entry = entry_with_payload(Some(base64_of(DOC)), Some("base64"));
    let points = decode_snapshot(&entry).unwrap();
    let stats = parse_exchange_stats("ascendex".to_string(), &points);
    assert_eq!(stats.data_points, 2);
    assert_eq!(stats.last, Some(2_750_000));
    assert_eq!(stats.high, Some(3_000_000));
    assert_eq!(stats.low, Some(2_000_000));
    assert_eq!(stats.volume_24h, Some(200_250_000));
}
