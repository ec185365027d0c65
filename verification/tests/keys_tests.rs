use keelson::error::Error;
use keelson::keys::{
    construct_pubsub_key, construct_rpc_key, get_subject_from_pubsub_key, parse_pubsub_key,
    parse_rpc_key,
};

#[test]
fn keys_test_construct_pubsub_key() {
    let key = construct_pubsub_key("base_path", "entity_id", "subject", "source_id", None);
    assert_eq!(key, "base_path/@v0/entity_id/pubsub/subject/source_id");
}

#[test]
fn test_construct_pubsub_key_with_target() {
    let key = construct_pubsub_key(
        "base_path",
        "entity_id",
        "subject",
        "source_id",
        Some("target"),
    );
    assert_eq!(
        key,
        "base_path/@v0/entity_id/pubsub/subject/source_id/@target/target"
    );
}

#[test]
fn keys_test_construct_rpc_key() {
    let key = construct_rpc_key("base_path", "entity_id", "procedure", "responder_id");
    assert_eq!(key, "base_path/@v0/entity_id/@rpc/procedure/responder_id");
}

#[test]
fn keys_test_parse_pubsub_key() {
    let parsed = parse_pubsub_key("base_path/@v0/entity_id/pubsub/subject/source_id").unwrap();
    assert_eq!(parsed.base_path, "base_path");
    assert_eq!(parsed.entity_id, "entity_id");
    assert_eq!(parsed.subject, "subject");
    assert_eq!(parsed.source_id, "source_id");
}

#[test]
fn test_parse_pubsub_key_with_multi_part_source() {
    let parsed =
        parse_pubsub_key("base_path/@v0/entity_id/pubsub/subject/source_id/sub_id").unwrap();
    assert_eq!(parsed.source_id, "source_id/sub_id");
}

#[test]
fn keys_test_parse_rpc_key() {
    let parsed = parse_rpc_key("base_path/@v0/entity_id/@rpc/procedure/responder_id").unwrap();
    assert_eq!(parsed.base_path, "base_path");
    assert_eq!(parsed.entity_id, "entity_id");
    assert_eq!(parsed.procedure, "procedure");
    assert_eq!(parsed.responder_id, "responder_id");
}

#[test]
fn keys_test_get_subject_from_pubsub_key() {
    let subject =
        get_subject_from_pubsub_key("base_path/@v0/entity_id/pubsub/subject/source_id").unwrap();
    assert_eq!(subject, "subject");
}

#[test]
fn test_parse_invalid_pubsub_key() {
    let result = parse_pubsub_key("invalid/key");
    assert!(result.is_err());
}

#[test]
fn test_parse_invalid_rpc_key() {
    let result = parse_rpc_key("invalid/key");
    assert!(result.is_err());
}

#[test]
fn test_parse_error_names_the_key() {
    match parse_rpc_key("invalid/key") {
        Err(Error::KeyParseError(msg)) => {
            assert!(msg.contains("invalid/key"));
        },
        _ => panic!("expected a key parse error"),
    }
}

#[test]
fn test_parse_rejects_wrong_discriminator() {
    // a pub/sub key is not a request/reply key and the other way round
    assert!(parse_rpc_key("base/@v0/ent/pubsub/subject/source").is_err());
    assert!(parse_pubsub_key("base/@v0/ent/@rpc/proc/responder").is_err());
}

#[test]
fn test_parse_rejects_wrong_version() {
    assert!(parse_pubsub_key("base/@v1/ent/pubsub/subject/source").is_err());
}

#[test]
fn test_rpc_key_roundtrip_with_multi_part_responder() {
    let key = construct_rpc_key("realm", "vessel", "set_rudder", "ctrl/port");
    let parsed = parse_rpc_key(&key).unwrap();
    assert_eq!(parsed.base_path, "realm");
    assert_eq!(parsed.entity_id, "vessel");
    assert_eq!(parsed.procedure, "set_rudder");
    assert_eq!(parsed.responder_id, "ctrl/port");
}

#[test]
fn test_pubsub_key_roundtrip_with_empty_source() {
    let key = construct_pubsub_key("b", "e", "s", "", None);
    assert_eq!(key, "b/@v0/e/pubsub/s/");
    let parsed = parse_pubsub_key(&key).unwrap();
    assert_eq!(parsed.source_id, "");
}
