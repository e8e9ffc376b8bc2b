use limit_reflection::{GovernanceRules, Submission};

fn create_test_submission(confidence: u64, provenance_count: usize, quality: u64) -> Submission {
    Submission {
        id: "test-001".to_string(),
        content: "Test content".to_string(),
        confidence,
        provenance: (0..provenance_count).map(|i| format!("PubMed-{}", i)).collect(),
        quality_score: quality,
        metadata: Vec::new(),
    }
}

#[test]
fn test_valid_submission() {
    let rules = GovernanceRules::default_rules();
    let submission = create_test_submission(850_000, 3, 900_000);

    let result = rules.validate_submission(&submission);
    assert!(result.valid);
    assert!(result.errors.is_empty());
}

#[test]
fn test_low_confidence_rejection() {
    let rules = GovernanceRules::default_rules();
    let submission = create_test_submission(500_000, 3, 900_000);

    let result = rules.validate_submission(&submission);
    assert!(!result.valid);
    assert!(!result.errors.is_empty());
    assert!(result.errors[0].contains("Confidence"));
}

#[test]
fn test_insufficient_provenance() {
    let rules = GovernanceRules::default_rules();
    let submission = create_test_submission(850_000, 1, 900_000);

    let result = rules.validate_submission(&submission);
    assert!(!result.valid);
    assert!(!result.errors.is_empty());
    assert!(result.errors[0].contains("Provenance"));
}

#[test]
fn test_low_quality_warning() {
    let rules = GovernanceRules::default_rules();
    let submission = create_test_submission(850_000, 3, 600_000);

    let result = rules.validate_submission(&submission);
    assert!(result.valid);
    assert!(!result.warnings.is_empty());
    assert!(result.requires_review);
}

#[test]
fn governance_tests_test_custom_rules() {
    let rules = GovernanceRules {
        min_confidence: 900_000,
        min_provenance_count: 5,
        allowed_sources: vec!["PubMed".to_string()],
        quality_threshold: 950_000,
        review_required: false,
    };

    let submission = create_test_submission(850_000, 3, 900_000);
    let result = rules.validate_submission(&submission);

    assert!(!result.valid);
    assert!(result.errors.len() >= 2); // Both confidence and provenance fail
}

#[test]
fn test_multiple_errors() {
    let rules = GovernanceRules::default_rules();
    let submission = create_test_submission(500_000, 1, 500_000);

    let result = rules.validate_submission(&submission);
    assert!(!result.valid);
    assert!(result.errors.len() >= 2);
    assert!(!result.warnings.is_empty());
}

#[test]
fn submission_messages_are_exact() {
    let rules = GovernanceRules::default_rules();
    let submission = create_test_submission(500_000, 1, 500_000);

    let result = rules.validate_submission(&submission);
    assert_eq!(result.errors, vec![
        "Confidence 0.50 below minimum 0.70".to_string(),
        "Provenance count 1 below minimum 2".to_string(),
    ]);
    assert_eq!(result.warnings, vec![
        "Source PubMed-0 not in allowed list".to_string(),
        "Quality score 0.50 below threshold 0.80".to_string(),
    ]);
    assert!(result.requires_review);
}

#[test]
fn allowed_source_gives_no_warning() {
    let rules = GovernanceRules::default_rules();
    let mut submission = create_test_submission(850_000, 2, 900_000);
    submission.provenance = vec!["PubMed".to_string(), "medRxiv".to_string()];

    let result = rules.validate_submission(&submission);
    assert!(result.valid);
    assert!(result.warnings.is_empty());
    assert!(result.requires_review);
}
