use arka_sdk::types::{default_language, default_true, Severity, ValidationError, ValidationResult};

#[test]
fn test_severity_default() {
    let severity = Severity::default();
    assert_eq!(severity, Severity::Medium);
}

#[test]
fn test_validation_result_success() {
    let result = ValidationResult::success();
    assert!(result.valid);
    assert!(result.errors.is_empty());
    assert!(result.warnings.is_empty());
}

#[test]
fn test_validation_result_failure() {
    let errors = vec![ValidationError {
        field: "email".to_string(),
        message: "Invalid email format".to_string(),
        code: "INVALID_FORMAT".to_string(),
    }];
    let result = ValidationResult::failure(errors);
    assert!(!result.valid);
    assert_eq!(result.errors.len(), 1);
    assert_eq!(result.errors[0].field, "email");
}

#[test]
fn range_flags_default_to_inclusive() {
    assert!(default_true());
}

#[test]
fn expression_language_defaults_to_cel() {
    assert_eq!(default_language(), "cel");
}

#[test]
fn prefixed_short_id_takes_twelve_characters() {
    let id = arka_sdk::text::prefixed_short_id("evt_", "0123abcd-ef45-6789-abcd-0123456789ab");
    assert_eq!(id, "evt_0123abcd-ef4");
}

#[test]
fn short_random_ids_have_prefix_and_differ() {
    let a = arka_sdk::text::short_random_id("x_");
    let b = arka_sdk::text::short_random_id("x_");
    assert!(a.starts_with("x_"));
    assert_eq!(a.len(), 14);
    assert_eq!(&a[10..11], "-");
    assert_ne!(a, b);
}
