use keelson::codec::{enclose_from_text, enclose_from_text_at, uncover_to_text};
use keelson::envelope::enclose;
use keelson::error::Error;
use keelson::subjects::load_bundled_subjects;

#[test]
fn test_codec_text_roundtrip() {
    let registry = load_bundled_subjects();
    let key = "test/@v0/entity/pubsub/raw/source";
    let original_text = "Hello, Keelson!";

    let encoded = enclose_from_text(&registry, key, original_text).unwrap();
    let decoded = uncover_to_text(&registry, key, &encoded).unwrap();

    assert_eq!(original_text, decoded);
}

#[test]
fn test_codec_text_roundtrip_at_fixed_instant() {
    let registry = load_bundled_subjects();
    let key = "vessel/@v0/entity/pubsub/raw_string/logger";
    let text = "två skepp — två öden";

    let encoded = enclose_from_text_at(&registry, key, text, 1234567890_123456789).unwrap();
    let decoded = uncover_to_text(&registry, key, &encoded).unwrap();
    assert_eq!(text, decoded);
}

#[test]
fn test_codec_rejects_unknown_subject() {
    let registry = load_bundled_subjects();
    let key = "test/@v0/entity/pubsub/random_mumbo_jumbo/source";
    let result = enclose_from_text(&registry, key, "hello");
    match result {
        Err(Error::UnknownSubject(subject)) => assert_eq!(subject, "random_mumbo_jumbo"),
        _ => panic!("expected an unknown subject error"),
    }
}

#[test]
fn test_codec_rejects_non_text_schema() {
    let registry = load_bundled_subjects();
    let key = "test/@v0/entity/pubsub/lever_position_pct/source";
    let result = enclose_from_text(&registry, key, "hello");
    assert!(matches!(result, Err(Error::ReflectionError(_))));
}

#[test]
fn test_codec_rejects_malformed_key() {
    let registry = load_bundled_subjects();
    let result = enclose_from_text(&registry, "invalid/key", "hello");
    assert!(matches!(result, Err(Error::KeyParseError(_))));
}

#[test]
fn test_codec_rejects_payload_that_is_not_text() {
    let registry = load_bundled_subjects();
    let key = "test/@v0/entity/pubsub/raw/source";
    // a well-formed pair of envelopes whose innermost bytes are not UTF-8
    let inner = enclose(&[0xff, 0xfe], Some(1)).unwrap();
    let outer = enclose(&inner, Some(1)).unwrap();
    let result = uncover_to_text(&registry, key, &outer);
    assert!(matches!(result, Err(Error::ReflectionError(_))));
}
