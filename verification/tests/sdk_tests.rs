use keelson::envelope::{enclose, uncover};
use keelson::keys::{
    construct_pubsub_key, construct_rpc_key, get_subject_from_pubsub_key, parse_pubsub_key,
    parse_rpc_key,
};
use keelson::reflection::{bundled_descriptor_pool, decode_payload_from_type_name};
use keelson::subjects::{get_subject_schema, is_subject_well_known, load_bundled_subjects};
use keelson::wire::WireValue;

#[test]
fn it_works() {
    let result = keelson::add(2, 2);
    assert_eq!(result, 4);
}

#[test]
fn test_sdk_test_construct_pubsub_key() {
    let key = construct_pubsub_key("base_path", "entity_id", "subject", "source_id", None);
    assert_eq!(key, "base_path/@v0/entity_id/pubsub/subject/source_id");
}

#[test]
fn test_sdk_test_construct_rpc_key() {
    let key = construct_rpc_key("base_path", "entity_id", "procedure", "responder_id");
    assert_eq!(key, "base_path/@v0/entity_id/@rpc/procedure/responder_id");
}

#[test]
fn test_sdk_test_parse_pubsub_key() {
    let key = "base_path/@v0/entity_id/pubsub/subject/source_id/sub_id";
    let parsed = parse_pubsub_key(key).unwrap();
    assert_eq!(parsed.base_path, "base_path");
    assert_eq!(parsed.entity_id, "entity_id");
    assert_eq!(parsed.subject, "subject");
    assert_eq!(parsed.source_id, "source_id/sub_id");
}

#[test]
fn test_sdk_test_parse_rpc_key() {
    let key = "base_path/@v0/entity_id/@rpc/procedure/responder_id";
    let parsed = parse_rpc_key(key).unwrap();
    assert_eq!(parsed.base_path, "base_path");
    assert_eq!(parsed.entity_id, "entity_id");
    assert_eq!(parsed.procedure, "procedure");
    assert_eq!(parsed.responder_id, "responder_id");
}

#[test]
fn test_sdk_test_get_subject_from_pubsub_key() {
    let key = "base_path/@v0/entity_id/pubsub/subject/source_id";
    let subject = get_subject_from_pubsub_key(key).unwrap();
    assert_eq!(subject, "subject");
}

#[test]
fn test_sdk_test_enclose_uncover() {
    let test_data = b"test".to_vec();
    let envelope = enclose(&test_data, None).unwrap();
    let (received_at, enclosed_at, payload) = uncover(&envelope).unwrap();

    assert_eq!(test_data, payload);
    assert!(received_at >= enclosed_at);
}

#[test]
fn test_enclose_uncover_actual_payload() {
    // a keelson.TimestampedFloat payload travelling through an envelope
    let seconds: i64 = 1234567890;
    let nanos: i32 = 123456789;
    let value: f64 = 3.14;

    let mut ts: Vec<u8> = Vec::new();
    ts.push(0x08);
    push_varint(&mut ts, seconds as u64);
    ts.push(0x10);
    push_varint(&mut ts, nanos as u64);
    let mut data: Vec<u8> = Vec::new();
    data.push(0x0a);
    data.push(ts.len() as u8);
    data.extend_from_slice(&ts);
    data.push(0x11);
    data.extend_from_slice(&value.to_bits().to_le_bytes());

    let envelope = enclose(&data, None).unwrap();
    let (received_at, enclosed_at, payload) = uncover(&envelope).unwrap();
    assert_eq!(data, payload);

    let pool = bundled_descriptor_pool().unwrap();
    let content = decode_payload_from_type_name(&pool, &payload, "keelson.TimestampedFloat")
        .unwrap();
    match content.get_field_by_name("value") {
        Some(WireValue::Fixed64(bits)) => assert_eq!(f64::from_bits(*bits), value),
        _ => panic!("expected the value field"),
    }
    assert!(received_at >= enclosed_at);
}

fn push_varint(out: &mut Vec<u8>, mut v: u64) {
    while v >= 128 {
        out.push((v % 128 + 128) as u8);
        v /= 128;
    }
    out.push(v as u8);
}

#[test]
fn test_sdk_test_is_subject_well_known() {
    let registry = load_bundled_subjects();
    assert!(is_subject_well_known(&registry, "lever_position_pct"));
    assert!(!is_subject_well_known(&registry, "random_mumbo_jumbo"));
}

#[test]
fn test_sdk_test_get_subject_schema() {
    let registry = load_bundled_subjects();
    assert_eq!(
        get_subject_schema(&registry, "lever_position_pct"),
        Some("keelson.TimestampedFloat".to_string())
    );
    assert_eq!(
        get_subject_schema(&registry, "raw"),
        Some("keelson.TimestampedBytes".to_string())
    );
    assert_eq!(get_subject_schema(&registry, "not_a_subject"), None);
}

#[test]
fn test_sdk_test_decode_payload_from_type_name() {
    let seconds: i64 = 1234567890;
    let nanos: i32 = 123456789;
    let value: f64 = 3.14;

    let mut ts: Vec<u8> = Vec::new();
    ts.push(0x08);
    push_varint(&mut ts, seconds as u64);
    ts.push(0x10);
    push_varint(&mut ts, nanos as u64);
    let mut payload: Vec<u8> = Vec::new();
    payload.push(0x0a);
    payload.push(ts.len() as u8);
    payload.extend_from_slice(&ts);
    payload.push(0x11);
    payload.extend_from_slice(&value.to_bits().to_le_bytes());

    let pool = bundled_descriptor_pool().unwrap();
    let decoded = decode_payload_from_type_name(&pool, &payload, "keelson.TimestampedFloat")
        .unwrap();
    match decoded.get_field_by_name("value") {
        Some(WireValue::Fixed64(bits)) => assert_eq!(f64::from_bits(*bits), value),
        _ => panic!("expected the value field"),
    }
    match decoded.get_field_by_name("timestamp") {
        Some(WireValue::Len(inner)) => assert_eq!(*inner, ts),
        _ => panic!("expected the timestamp field"),
    }
}

#[test]
fn test_ensure_all_well_known_subjects() {
    let registry = load_bundled_subjects();
    let test_subjects = ["lever_position_pct", "raw", "heading_true_north_deg"];

    for subject in &test_subjects {
        assert_eq!(*subject, subject.to_lowercase());
        assert!(
            is_subject_well_known(&registry, subject),
            "Subject '{}' should be well-known",
            subject
        );
        assert!(
            get_subject_schema(&registry, subject).is_some(),
            "Subject '{}' should have a schema",
            subject
        );
    }
}
