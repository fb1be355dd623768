use kdbx_core::b64::{b64_decode_str, b64_encode_bytes};
use kdbx_core::errors::DatabaseIntegrityError;
use kdbx_core::timestamp::{parse_iso_str, parse_xml_timestamp, timestamp_text, Timestamp};

fn seconds_since_year1(iso: &str) -> i64 {
    let epoch = chrono::NaiveDateTime::parse_from_str("0001-01-01T00:00:00", "%Y-%m-%dT%H:%M:%S")
        .unwrap();
    let t = chrono::NaiveDateTime::parse_from_str(iso, "%Y-%m-%dT%H:%M:%S").unwrap();
    t.and_utc().timestamp() - epoch.and_utc().timestamp()
}

#[test]
fn base64_agrees_with_the_crate() {
    let cases: Vec<Vec<u8>> = vec![
        vec![],
        vec![0],
        vec![1, 2],
        vec![1, 2, 3],
        vec![251, 252, 253, 254],
        b"password".to_vec(),
        (0u8..=255).collect(),
    ];
    for c in cases {
        let ours = b64_encode_bytes(&c);
        assert_eq!(ours, base64::encode(&c));
        assert_eq!(b64_decode_str(&ours).unwrap(), c);
    }
    assert!(b64_decode_str("not base64!").is_none());
    assert!(b64_decode_str("AAA").is_none());
}

#[test]
fn iso_parse_matches_calendar() {
    let s = parse_iso_str("2024-01-02T03:04:05Z").unwrap();
    assert_eq!(s, seconds_since_year1("2024-01-02T03:04:05"));
    // leap day exists in 2024 but not in 2023
    assert!(parse_iso_str("2024-02-29T00:00:00Z").is_some());
    assert!(parse_iso_str("2023-02-29T00:00:00Z").is_none());
    assert!(parse_iso_str("2024-13-01T00:00:00Z").is_none());
    assert!(parse_iso_str("2024-01-02 03:04:05Z").is_none());
    assert_eq!(
        parse_iso_str("1600-12-31T23:59:59Z").unwrap(),
        seconds_since_year1("1600-12-31T23:59:59")
    );
}

#[test]
fn timestamp_roundtrip_and_dialects() {
    let ts = Timestamp { seconds: seconds_since_year1("2024-01-02T03:04:05") };
    let text = timestamp_text(&ts);
    // the encoder emits Base64 of the little-endian second count
    let expected_bytes = ts.seconds.to_le_bytes().to_vec();
    assert_eq!(text, base64::encode(&expected_bytes));
    // the decoder recovers the instant from either dialect
    assert_eq!(parse_xml_timestamp(&text).unwrap(), ts);
    assert_eq!(parse_xml_timestamp("2024-01-02T03:04:05Z").unwrap(), ts);
}

#[test]
fn timestamp_error_variants() {
    // neither a literal nor Base64
    assert_eq!(
        parse_xml_timestamp("neither dialect!").unwrap_err(),
        DatabaseIntegrityError::Base64
    );
    // valid Base64 of fewer than eight bytes
    assert_eq!(
        parse_xml_timestamp(&base64::encode([1u8, 2, 3])).unwrap_err(),
        DatabaseIntegrityError::Timestamp
    );
}
