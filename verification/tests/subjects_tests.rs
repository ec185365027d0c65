use keelson::error::Error;
use keelson::subjects::{
    get_all_subjects, get_subject_schema, is_subject_well_known, load_bundled_subjects,
    load_subjects_from_str, SubjectRegistry,
};

#[test]
fn test_bundled_subjects_loaded() {
    let registry = load_bundled_subjects();
    assert!(is_subject_well_known(&registry, "raw"));
    assert!(is_subject_well_known(&registry, "location_fix"));
    assert!(is_subject_well_known(&registry, "heading_true_north_deg"));
}

#[test]
fn subjects_test_is_subject_well_known() {
    let registry = load_bundled_subjects();
    assert!(is_subject_well_known(&registry, "lever_position_pct"));
    assert!(!is_subject_well_known(&registry, "random_mumbo_jumbo"));
}

#[test]
fn subjects_test_get_subject_schema() {
    let registry = load_bundled_subjects();
    let schema = get_subject_schema(&registry, "lever_position_pct");
    assert_eq!(schema, Some("keelson.TimestampedFloat".to_string()));

    let schema = get_subject_schema(&registry, "raw");
    assert_eq!(schema, Some("keelson.TimestampedBytes".to_string()));

    let schema = get_subject_schema(&registry, "nonexistent");
    assert_eq!(schema, None);
}

#[test]
fn test_load_subjects_from_str() {
    let yaml = "\ntest_subject: test.Type\nanother_subject: another.Type\n";
    let subjects = load_subjects_from_str(yaml).unwrap();
    assert_eq!(
        get_subject_schema(&subjects, "test_subject"),
        Some("test.Type".to_string())
    );
    assert_eq!(
        get_subject_schema(&subjects, "another_subject"),
        Some("another.Type".to_string())
    );
}

#[test]
fn test_get_all_subjects() {
    let registry = load_bundled_subjects();
    let subjects = get_all_subjects(&registry);
    assert!(!subjects.is_empty());
    assert!(subjects.contains_key("raw"));
}

#[test]
fn test_load_subjects_rejects_malformed_yaml() {
    let result = load_subjects_from_str(": : :");
    assert!(matches!(result, Err(Error::ConfigSourceError(_))));
}

#[test]
fn test_load_subjects_rejects_non_mapping_yaml() {
    let result = load_subjects_from_str("- just\n- a\n- sequence\n");
    assert!(result.is_err());
}

#[test]
fn test_merge_later_source_overwrites() {
    let mut registry = load_subjects_from_str("a: first.Type\nb: keep.Type\n").unwrap();
    let overlay = load_subjects_from_str("a: second.Type\nc: new.Type\n").unwrap();
    registry.merge(&overlay);
    assert_eq!(get_subject_schema(&registry, "a"), Some("second.Type".to_string()));
    assert_eq!(get_subject_schema(&registry, "b"), Some("keep.Type".to_string()));
    assert_eq!(get_subject_schema(&registry, "c"), Some("new.Type".to_string()));
}

#[test]
fn test_insert_overwrites_and_extends() {
    let mut registry = SubjectRegistry::new();
    assert!(registry.is_empty());
    registry.insert("depth_m".to_string(), "keelson.TimestampedFloat".to_string());
    registry.insert("depth_m".to_string(), "keelson.TimestampedDouble".to_string());
    assert_eq!(
        registry.get("depth_m"),
        Some("keelson.TimestampedDouble".to_string())
    );
    assert!(!registry.is_empty());
}

#[test]
fn test_snapshot_is_a_copy() {
    let mut registry = SubjectRegistry::new();
    registry.insert("raw".to_string(), "keelson.TimestampedBytes".to_string());
    let snapshot = get_all_subjects(&registry);
    registry.insert("raw".to_string(), "other.Type".to_string());
    assert_eq!(
        snapshot.get("raw"),
        Some("keelson.TimestampedBytes".to_string())
    );
}
