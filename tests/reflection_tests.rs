use limit_reflection::{ReflectionEngine, ReflectionGovernance, ReflectionRules, UNIT};

#[test]
fn test_simple_reflection() {
    let mut engine = ReflectionEngine::new(3);
    let result = engine.reflect_on_query("Test query").unwrap();

    assert!(!result.steps.is_empty());
    assert!(result.final_confidence > 0);
    assert!(result.final_confidence <= UNIT);
}

#[test]
fn test_deep_reflection() {
    let mut engine = ReflectionEngine::new(2);
    let result = engine.deep_reflect("Complex test query").unwrap();

    assert!(!result.layers.is_empty());
    assert!(result.final_depth <= 2);
}

#[test]
fn test_insights_generation() {
    let mut engine = ReflectionEngine::new(3);
    let _ = engine.reflect_on_query("Query 1");
    let _ = engine.reflect_on_query("Query 2");

    let insights = engine.get_insights();
    assert!(insights.total_steps >= 2);
}

#[test]
fn test_error_recording() {
    let mut engine = ReflectionEngine::new(3);
    engine.record_error("TestError".to_string());
    engine.record_error("TestError".to_string());

    let insights = engine.get_insights();
    assert!(insights.total_errors >= 2);
}

#[test]
fn test_governance_validation() {
    let governance = ReflectionGovernance::default_rules();
    let mut engine = ReflectionEngine::new(3);

    // Perform some reflections
    let _ = engine.reflect_on_query("Test");

    let model = &engine.model;
    let validation = governance.validate_reflection(model);

    assert!(validation.valid || !validation.errors.is_empty());
}

#[test]
fn test_quality_check() {
    let governance = ReflectionGovernance::default_rules();
    let mut engine = ReflectionEngine::new(3);

    let _ = engine.reflect_on_query("Quality test");

    let model = &engine.model;
    let quality = governance.check_quality(model);

    assert!(quality.overall_quality >= 0);
    assert!(quality.overall_quality <= UNIT as i128);
}

#[test]
fn reflection_tests_test_custom_rules() {
    let rules = ReflectionRules {
        min_average_confidence: 900_000,
        max_error_rate: 100_000,
        min_reasoning_steps: 5,
        min_suggestion_priority: 800_000,
        min_quality_score: 850_000,
    };

    let governance = ReflectionGovernance::new(rules);
    let mut engine = ReflectionEngine::new(3);

    let _ = engine.reflect_on_query("Test");

    let model = &engine.model;
    let validation = governance.validate_reflection(model);

    // With strict rules, validation might fail
    assert!(validation.valid || !validation.warnings.is_empty());
}
