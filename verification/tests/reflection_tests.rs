use keelson::error::Error;
use keelson::reflection::{
    bundled_descriptor_pool, decode_payload_from_type_name, get_file_descriptor_set_from_type_name,
    get_message_descriptor_from_type_name, interfaces_descriptor_set, merge_descriptor_sets,
    payloads_descriptor_set, DescriptorPool,
};
use keelson::wire::WireValue;

fn pool() -> DescriptorPool {
    bundled_descriptor_pool().unwrap()
}

fn push_varint(out: &mut Vec<u8>, mut v: u64) {
    while v >= 128 {
        out.push((v % 128 + 128) as u8);
        v /= 128;
    }
    out.push(v as u8);
}

/// The wire encoding of `keelson.TimestampedFloat { timestamp, value }`.
fn encode_timestamped_float(seconds: i64, nanos: i32, value: f64) -> Vec<u8> {
    let mut ts: Vec<u8> = Vec::new();
    if seconds != 0 {
        ts.push(0x08);
        push_varint(&mut ts, seconds as u64);
    }
    if nanos != 0 {
        ts.push(0x10);
        push_varint(&mut ts, (nanos as i64) as u64);
    }
    let mut out: Vec<u8> = Vec::new();
    out.push(0x0a);
    push_varint(&mut out, ts.len() as u64);
    out.extend_from_slice(&ts);
    out.push(0x11);
    out.extend_from_slice(&value.to_bits().to_le_bytes());
    out
}

#[test]
fn test_get_message_descriptor_keelson_type() {
    let descriptor = get_message_descriptor_from_type_name(&pool(), "keelson.TimestampedFloat");
    assert!(descriptor.is_ok());
    let desc = descriptor.unwrap();
    assert_eq!(desc.full_name, "keelson.TimestampedFloat");
}

#[test]
fn test_get_message_descriptor_foxglove_type() {
    let descriptor = get_message_descriptor_from_type_name(&pool(), "foxglove.Color");
    assert!(descriptor.is_ok());
    let desc = descriptor.unwrap();
    assert_eq!(desc.full_name, "foxglove.Color");
}

#[test]
fn test_get_message_descriptor_interface_type() {
    let descriptor = get_message_descriptor_from_type_name(&pool(), "ConfigurableSuccessResponse");
    assert!(descriptor.is_ok());
    let desc = descriptor.unwrap();
    assert_eq!(desc.full_name, "ConfigurableSuccessResponse");
}

#[test]
fn test_get_message_descriptor_unknown_type() {
    let descriptor = get_message_descriptor_from_type_name(&pool(), "unknown.Type");
    assert!(descriptor.is_err());
    match descriptor {
        Err(Error::ReflectionError(msg)) => {
            assert!(msg.contains("Unknown message type"));
        },
        _ => panic!("Expected ReflectionError"),
    }
}

#[test]
fn reflection_test_decode_payload_from_type_name() {
    let encoded = encode_timestamped_float(1234567890, 123456789, 42.5);

    let dynamic_msg = decode_payload_from_type_name(&pool(), &encoded, "keelson.TimestampedFloat");
    assert!(dynamic_msg.is_ok());

    let decoded = dynamic_msg.unwrap();
    assert_eq!(decoded.full_name, "keelson.TimestampedFloat");
}

#[test]
fn test_decoded_fields_carry_the_wire_values() {
    let encoded = encode_timestamped_float(1234567890, 123456789, 42.5);
    let decoded =
        decode_payload_from_type_name(&pool(), &encoded, "keelson.TimestampedFloat").unwrap();

    match decoded.get_field_by_name("value") {
        Some(WireValue::Fixed64(bits)) => {
            assert_eq!(f64::from_bits(*bits), 42.5);
        },
        _ => panic!("expected the value field as a 64-bit wire value"),
    }
    assert!(decoded.get_field_by_name("timestamp").is_some());
    assert!(decoded.get_field_by_name("no_such_field").is_none());
}

#[test]
fn test_decode_rejects_wire_type_mismatch() {
    // field 2 of keelson.TimestampedFloat is a double, but these bytes
    // carry it as a varint
    let bytes = [0x10u8, 0x2a];
    let result = decode_payload_from_type_name(&pool(), &bytes, "keelson.TimestampedFloat");
    assert!(matches!(result, Err(Error::ReflectionError(_))));
}

#[test]
fn test_decode_skips_unknown_field_numbers() {
    // field 9 is not part of foxglove.Color; as a varint it is skipped
    let bytes = [0x48u8, 0x07];
    let decoded = decode_payload_from_type_name(&pool(), &bytes, "foxglove.Color").unwrap();
    assert!(decoded.get_field_by_name("r").is_none());
}

#[test]
fn test_decode_unknown_type_fails() {
    let result = decode_payload_from_type_name(&pool(), &[], "no.Such.Type");
    assert!(matches!(result, Err(Error::ReflectionError(_))));
}

#[test]
fn test_get_file_descriptor_set_keelson_type() {
    let result = get_file_descriptor_set_from_type_name(&pool(), "keelson.TimestampedFloat");
    assert!(result.is_ok());
    assert_eq!(result.unwrap(), "payloads");
}

#[test]
fn test_get_file_descriptor_set_foxglove_type() {
    let result = get_file_descriptor_set_from_type_name(&pool(), "foxglove.Color");
    assert!(result.is_ok());
    assert_eq!(result.unwrap(), "payloads");
}

#[test]
fn test_get_file_descriptor_set_interface_type() {
    let result = get_file_descriptor_set_from_type_name(&pool(), "ConfigurableSuccessResponse");
    assert!(result.is_ok());
    assert_eq!(result.unwrap(), "interfaces");
}

#[test]
fn test_get_file_descriptor_set_unknown_type() {
    let result = get_file_descriptor_set_from_type_name(&pool(), "unknown.Type");
    assert!(result.is_err());
}

#[test]
fn test_merge_rejects_duplicate_type_names() {
    let payloads = payloads_descriptor_set();
    let duplicate = payloads_descriptor_set();
    let result = merge_descriptor_sets(payloads, duplicate);
    assert!(matches!(result, Err(Error::ConfigSourceError(_))));
}

#[test]
fn test_merge_of_bundled_sets_succeeds() {
    let result = merge_descriptor_sets(payloads_descriptor_set(), interfaces_descriptor_set());
    assert!(result.is_ok());
}
