use keelson::envelope::{
    decode_envelope, enclose, enclose_without_timestamp, nanos_to_timestamp, timestamp_to_nanos,
    uncover, uncover_at, WireTimestamp,
};
use keelson::error::Error;
use prost::Message;

#[test]
fn envelope_test_enclose_uncover() {
    let test_payload = b"test";
    let envelope = enclose(test_payload, None).unwrap();
    let (received_at, enclosed_at, payload) = uncover(&envelope).unwrap();

    assert_eq!(test_payload, payload.as_slice());
    assert!(received_at >= enclosed_at);
}

#[test]
fn test_enclose_with_timestamp() {
    let test_payload = b"test";
    let timestamp = 1234567890_123456789i64;
    let envelope = enclose(test_payload, Some(timestamp)).unwrap();
    let (_, enclosed_at, payload) = uncover(&envelope).unwrap();

    assert_eq!(test_payload, payload.as_slice());
    assert_eq!(enclosed_at, timestamp);
}

#[test]
fn test_nanos_to_timestamp() {
    let nanos = 1234567890_123456789i64;
    let ts = nanos_to_timestamp(nanos);
    assert_eq!(ts.seconds, 1234567890);
    assert_eq!(ts.nanos, 123456789);
}

#[test]
fn test_timestamp_to_nanos() {
    let ts = WireTimestamp { seconds: 1234567890, nanos: 123456789 };
    let nanos = timestamp_to_nanos(&ts);
    assert_eq!(nanos, 1234567890_123456789i64);
}

#[test]
fn test_enclose_negative_timestamp_roundtrip() {
    let test_payload = b"before the epoch";
    let timestamp = -1_500_000_000i64;
    let envelope = enclose(test_payload, Some(timestamp)).unwrap();
    let (_, enclosed_at, payload) = uncover(&envelope).unwrap();
    assert_eq!(enclosed_at, timestamp);
    assert_eq!(test_payload, payload.as_slice());
}

#[test]
fn test_enclose_zero_timestamp_roundtrip() {
    let envelope = enclose(b"x", Some(0)).unwrap();
    let (_, enclosed_at, payload) = uncover(&envelope).unwrap();
    assert_eq!(enclosed_at, 0);
    assert_eq!(payload, b"x".to_vec());
}

#[test]
fn test_enclose_empty_payload_roundtrip() {
    let envelope = enclose(b"", Some(7)).unwrap();
    let (_, enclosed_at, payload) = uncover(&envelope).unwrap();
    assert_eq!(enclosed_at, 7);
    assert!(payload.is_empty());
}

#[test]
fn test_nanos_to_timestamp_negative() {
    let ts = nanos_to_timestamp(-1_500_000_000);
    assert_eq!(ts.seconds, -1);
    assert_eq!(ts.nanos, -500_000_000);
    assert_eq!(timestamp_to_nanos(&ts), -1_500_000_000);
}

#[test]
fn test_nanos_to_timestamp_extremes() {
    for nanos in [i64::MIN, i64::MIN + 1, -1, 0, 1, i64::MAX - 1, i64::MAX] {
        let ts = nanos_to_timestamp(nanos);
        assert_eq!(timestamp_to_nanos(&ts), nanos);
    }
}

#[test]
fn test_uncover_rejects_garbage() {
    let result = uncover(&[0xff, 0x01, 0x02]);
    assert!(matches!(result, Err(Error::EnvelopeDecodeError(_))));
}

#[test]
fn test_uncover_rejects_missing_timestamp() {
    // an envelope holding only a payload field: 0x12 is field 2,
    // length-delimited
    let bytes = [0x12u8, 0x03, b'a', b'b', b'c'];
    let result = uncover(&bytes);
    assert!(matches!(result, Err(Error::InvalidTimestamp)));
}

#[test]
fn test_uncover_at_reports_received_time() {
    let envelope = enclose(b"p", Some(41)).unwrap();
    let (received_at, enclosed_at, payload) = uncover_at(&envelope, 43).unwrap();
    assert_eq!(received_at, 43);
    assert_eq!(enclosed_at, 41);
    assert_eq!(payload, b"p".to_vec());
}

#[test]
fn test_wire_bytes_match_protobuf_timestamp_encoding() {
    for nanos in [1234567890_123456789i64, -987_654_321i64, 1i64] {
        let ts = nanos_to_timestamp(nanos);
        let proto_ts = prost_types::Timestamp { seconds: ts.seconds, nanos: ts.nanos };
        let ts_bytes = proto_ts.encode_to_vec();

        let payload = b"xyz";
        let mut expected: Vec<u8> = Vec::new();
        expected.push(0x0a);
        expected.push(ts_bytes.len() as u8);
        expected.extend_from_slice(&ts_bytes);
        expected.push(0x12);
        expected.push(payload.len() as u8);
        expected.extend_from_slice(payload);

        let envelope = enclose(payload, Some(nanos)).unwrap();
        assert_eq!(envelope, expected);
    }
}

#[test]
fn test_enclose_without_timestamp_roundtrip() {
    let bytes = enclose_without_timestamp(b"abc");
    let env = decode_envelope(&bytes).unwrap();
    assert!(env.enclosed_at.is_none());
    assert_eq!(env.payload, b"abc".to_vec());
    // the timestamp is required by uncover's contract
    assert!(matches!(uncover(&bytes), Err(Error::InvalidTimestamp)));
}

#[test]
fn test_enclose_without_timestamp_empty_payload() {
    let bytes = enclose_without_timestamp(b"");
    assert!(bytes.is_empty());
    let env = decode_envelope(&bytes).unwrap();
    assert!(env.enclosed_at.is_none());
    assert!(env.payload.is_empty());
}
