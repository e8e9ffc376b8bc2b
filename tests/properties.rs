use limit_reflection::engine::DEEP_STOP_CONFIDENCE;
use limit_reflection::fixed::{exp_neg_fixed, log2_fixed, push_decimal, push_decimal_2, LOG_ONE};
use limit_reflection::quantum::sample_confidence_of;
use limit_reflection::sampler::{normalize, sample_with_draws, select_index};
use limit_reflection::text::{count_chars, count_words};
use limit_reflection::{
    BioGraphLoader, QuantumReflector, QuantumSampler, ReasoningStep, ReflectionEngine,
    ReflectionGovernance, ReflectionModel, SamplerError, SamplingResult, StepType, Suggestion,
    SuggestionType, UNIT,
};

fn step_with(confidence: u64) -> ReasoningStep {
    ReasoningStep::new(StepType::Reasoning, "in".to_string(), "out".to_string(), confidence)
}

#[test]
fn sample_never_returns_more_than_requested() {
    let sampler = QuantumSampler::new(500_000, 1000);
    let probabilities = [100_000u64, 100_000];
    let samples = sampler.sample(&probabilities);
    assert!(samples.len() <= 1000);
    assert!(samples.iter().all(|&s| s < 2));
    // Four fifths of the mass is missing, so most draws select nothing.
    assert!(samples.len() < 500);
}

#[test]
fn sample_frequencies_follow_probabilities() {
    let sampler = QuantumSampler::new(500_000, 20_000);
    let probabilities = [250_000u64, 750_000];
    let samples = sampler.sample(&probabilities);
    assert_eq!(samples.len(), 20_000);
    let ones = samples.iter().filter(|&&s| s == 1).count() as f64 / 20_000.0;
    assert!((ones - 0.75).abs() < 0.03, "fraction of category 1: {}", ones);
}

#[test]
fn select_index_takes_first_reaching_category() {
    let p = [500_000u64, 500_000];
    assert_eq!(select_index(&p, 0), Some(0));
    assert_eq!(select_index(&p, 500_000), Some(0));
    assert_eq!(select_index(&p, 500_001), Some(1));
    assert_eq!(select_index(&[100_000u64], 200_000), None);
    assert_eq!(select_index(&[], 0), None);
}

#[test]
fn sample_with_draws_skips_draws_beyond_mass() {
    let p = [200_000u64, 300_000];
    let draws = [100_000u64, 400_000, 900_000, 200_000];
    assert_eq!(sample_with_draws(&p, &draws), vec![0, 1, 0]);
}

#[test]
fn walk_step_rejects_mismatched_dimensions() {
    let sampler = QuantumSampler::new(500_000, 10);
    let state = [500_000u64, 500_000];
    let short = vec![vec![UNIT, 0]];
    assert_eq!(sampler.quantum_walk_step(&state, &short), Err(SamplerError::InvalidParameter));
    let ragged = vec![vec![UNIT, 0], vec![UNIT]];
    assert_eq!(sampler.quantum_walk_step(&state, &ragged), Err(SamplerError::InvalidParameter));
    let not_square = vec![vec![UNIT, 0, 0], vec![0, UNIT, 0]];
    assert_eq!(sampler.quantum_walk_step(&state, &not_square), Err(SamplerError::InvalidParameter));
}

#[test]
fn walk_step_accepts_entries_above_one_unit() {
    let sampler = QuantumSampler::new(500_000, 10);
    let one = vec![vec![UNIT]];
    assert_eq!(sampler.quantum_walk_step(&[2_000_000], &one).unwrap(), vec![UNIT]);
    assert_eq!(sampler.quantum_walk_step(&[3_000_000], &one).unwrap(), vec![UNIT]);
    assert_eq!(sampler.quantum_walk_step(&[1_500_000], &one).unwrap(), vec![UNIT]);
    let matrix = vec![vec![2 * UNIT, 0], vec![UNIT, 3 * UNIT]];
    // Raw inflows 2*1 + 1*1 = 3 and 3*1 = 3 of a total 6.
    assert_eq!(sampler.quantum_walk_step(&[UNIT, UNIT], &matrix).unwrap(), vec![500_000, 500_000]);
    assert_eq!(sampler.quantum_walk_step(&[], &Vec::new()).unwrap(), Vec::<u64>::new());
}

#[test]
fn walk_step_keeps_length_and_mass() {
    let sampler = QuantumSampler::new(500_000, 10);
    let state = [200_000u64, 300_000, 500_000];
    let matrix = vec![
        vec![500_000, 500_000, 0],
        vec![0, 500_000, 500_000],
        vec![300_000, 300_000, 400_000],
    ];
    let next = sampler.quantum_walk_step(&state, &matrix).unwrap();
    assert_eq!(next.len(), 3);
    let sum: u64 = next.iter().sum();
    assert!(sum <= UNIT && sum + 3 > UNIT);
    // Raw inflows 0.25, 0.4, 0.35 of a total 1.
    assert_eq!(next, vec![250_000, 400_000, 350_000]);
}

#[test]
fn walk_step_keeps_uniform_state_under_doubly_stochastic_matrix() {
    let sampler = QuantumSampler::new(500_000, 10);
    let state = [500_000u64, 500_000];
    let matrix = vec![vec![300_000, 700_000], vec![700_000, 300_000]];
    assert_eq!(sampler.quantum_walk_step(&state, &matrix).unwrap(), vec![500_000, 500_000]);
}

#[test]
fn walk_step_leaves_zero_state_at_zero() {
    let sampler = QuantumSampler::new(500_000, 10);
    let state = [0u64, 0];
    let matrix = vec![vec![UNIT, 0], vec![0, UNIT]];
    assert_eq!(sampler.quantum_walk_step(&state, &matrix).unwrap(), vec![0, 0]);
}

#[test]
fn normalize_rounds_down_within_one_millionth_per_entry() {
    assert_eq!(normalize(&[1, 1, 1]), vec![333_333, 333_333, 333_333]);
    assert_eq!(normalize(&[3, 1]), vec![750_000, 250_000]);
    assert_eq!(normalize(&[0, 0]), vec![0, 0]);
}

#[test]
fn log2_fixed_values() {
    assert_eq!(log2_fixed(1), 0);
    assert_eq!(log2_fixed(2), LOG_ONE);
    assert_eq!(log2_fixed(8), 3 * LOG_ONE);
    assert_eq!(log2_fixed(3), 103_872);
    assert_eq!(log2_fixed(1000), 653_117);
}

#[test]
fn confidence_from_sample_entropy() {
    assert_eq!(sample_confidence_of(&[0; 100], 3), UNIT);
    assert_eq!(sample_confidence_of(&[0, 1, 2, 0, 1, 2], 3), 0);
    let mut half = vec![0usize; 50];
    half.extend(vec![1usize; 50]);
    assert_eq!(sample_confidence_of(&half, 3), 369_070);
    assert_eq!(sample_confidence_of(&[], 3), 0);
    assert_eq!(sample_confidence_of(&[0, 0], 1), 0);
}

#[test]
fn feature_probabilities_of_short_text() {
    let reflector = QuantumReflector::new();
    assert_eq!(reflector.compute_probabilities("hi"), vec![6_666, 16_666, 166_666]);
    let long = "word ".repeat(30);
    assert_eq!(reflector.compute_probabilities(&long), vec![333_333, 333_333, 166_666]);
}

#[test]
fn reflect_with_draws_is_exact() {
    let reflector = QuantumReflector::new();
    let step = reflector.reflect_with_draws("hi", &[0; 100]);
    assert_eq!(step.step_type, StepType::Validation);
    assert_eq!(step.confidence, UNIT);
    assert_eq!(step.output, "Quantum reflection: sampled 100 states, confidence: 1.00");
    let none = reflector.reflect_with_draws("hi", &[900_000; 10]);
    assert_eq!(none.confidence, 0);
    assert_eq!(none.output, "Quantum reflection: sampled 0 states, confidence: 0.00");
}

#[test]
fn reflect_on_hi_gives_three_steps() {
    let mut engine = ReflectionEngine::new(3);
    let result = engine.reflect_on_query("hi").unwrap();
    assert_eq!(result.steps.len(), 3);
    assert_eq!(result.steps[0].step_type, StepType::Query);
    assert_eq!(result.steps[0].confidence, 994_000);
    assert_eq!(result.steps[0].output, "Query complexity: 0.02 (words: 1)");
    assert_eq!(result.steps[1].step_type, StepType::Validation);
    assert_eq!(result.steps[2].step_type, StepType::Reasoning);
    assert_eq!(result.steps[2].input, "2 previous steps");
    assert_eq!(
        result.steps[2].confidence,
        (result.steps[0].confidence + result.steps[1].confidence) / 2
    );
    assert_eq!(result.final_confidence, result.steps[2].confidence);
    assert_eq!(engine.model.reasoning_trace.len(), 3);
    assert_eq!(engine.model.confidence_history.len(), 3);
    assert_eq!(result.insights.total_steps, 3);
}

#[test]
fn reflect_with_draws_pass_is_exact() {
    let mut engine = ReflectionEngine::new(3);
    let result = engine.reflect_on_query_with_draws("hi", &[0; 100]).unwrap();
    assert_eq!(result.steps[1].confidence, UNIT);
    assert_eq!(result.final_confidence, 997_000);
    assert_eq!(result.steps[2].output, "Meta-reasoning: Analyzed 2 steps, average confidence: 1.00");
    assert_eq!(engine.model.confidence_history, vec![994_000, UNIT, 997_000]);
}

#[test]
fn deep_reflect_stops_early_or_at_depth() {
    for _ in 0..20 {
        let mut engine = ReflectionEngine::new(3);
        let result = engine.deep_reflect("Complex test query").unwrap();
        let n = result.layers.len();
        assert!(n >= 1 && n <= 3);
        assert_eq!(result.final_depth, n);
        for layer in &result.layers[..n - 1] {
            assert!(layer.final_confidence <= DEEP_STOP_CONFIDENCE);
        }
        if n < 3 {
            assert!(result.layers[n - 1].final_confidence > DEEP_STOP_CONFIDENCE);
        }
        assert_eq!(result.layers[0].steps[0].input, "Complex test query");
        for i in 1..n {
            let expected = format!(
                "Reflect on: confidence={:.2}, steps=3",
                (result.layers[i - 1].final_confidence as f64) / 1_000_000.0
            );
            assert_eq!(result.layers[i].steps[0].input, expected);
        }
        assert_eq!(engine.model.reasoning_trace.len(), 3 * n);
    }
}

#[test]
fn deep_reflect_with_zero_depth_makes_no_pass() {
    let mut engine = ReflectionEngine::new(0);
    let result = engine.deep_reflect("anything").unwrap();
    assert!(result.layers.is_empty());
    assert_eq!(result.final_depth, 0);
}

#[test]
fn history_tracks_trace() {
    let mut model = ReflectionModel::new();
    for c in [100_000u64, 200_000, 300_000, 400_000] {
        model.add_step(step_with(c));
        assert_eq!(model.confidence_history.len(), model.reasoning_trace.len());
    }
    assert_eq!(model.confidence_history, vec![100_000, 200_000, 300_000, 400_000]);
}

#[test]
fn low_recent_confidence_gives_suggestion() {
    let mut model = ReflectionModel::new();
    for c in [900_000u64, 500_000, 400_000, 300_000] {
        model.add_step(step_with(c));
    }
    model.generate_suggestions();
    assert_eq!(model.improvement_suggestions.len(), 1);
    let s = &model.improvement_suggestions[0];
    assert_eq!(s.suggestion_type, SuggestionType::IncreaseConfidence);
    assert_eq!(s.priority, 800_000);
    assert_eq!(s.description, "Recent confidence scores are low. Consider additional validation.");
}

#[test]
fn recent_average_at_mark_gives_no_suggestion() {
    let mut model = ReflectionModel::new();
    for c in [100_000u64, 600_000, 600_000, 600_000] {
        model.add_step(step_with(c));
    }
    model.generate_suggestions();
    assert!(model.improvement_suggestions.is_empty());
    let mut short = ReflectionModel::new();
    short.add_step(step_with(0));
    short.add_step(step_with(0));
    short.generate_suggestions();
    assert!(short.improvement_suggestions.is_empty());
}

#[test]
fn recurring_errors_give_suggestions_in_order() {
    let mut model = ReflectionModel::new();
    for _ in 0..4 {
        model.record_error("Timeout".to_string());
    }
    for _ in 0..3 {
        model.record_error("Parse".to_string());
    }
    for _ in 0..5 {
        model.record_error("Lookup".to_string());
    }
    model.generate_suggestions();
    let found: Vec<(SuggestionType, String, u64)> = model
        .improvement_suggestions
        .iter()
        .map(|s| (s.suggestion_type, s.description.clone(), s.priority))
        .collect();
    assert_eq!(found, vec![
        (SuggestionType::FixRecurringError, "Recurring error: Timeout. Occurred 4 times.".to_string(), 900_000),
        (SuggestionType::FixRecurringError, "Recurring error: Lookup. Occurred 5 times.".to_string(), 900_000),
    ]);
    assert_eq!(model.error_patterns.len(), 3);
    assert_eq!(model.error_patterns[1], ("Parse".to_string(), 3));
}

#[test]
fn empty_model_insights_are_zero() {
    let model = ReflectionModel::new();
    let insights = model.get_insights();
    assert_eq!(insights.total_steps, 0);
    assert_eq!(insights.average_confidence, 0);
    assert_eq!(insights.total_errors, 0);
    assert_eq!(insights.unique_error_types, 0);
    assert_eq!(insights.suggestions_count, 0);
}

#[test]
fn engine_error_recording_counts_one_label() {
    let mut engine = ReflectionEngine::new(3);
    engine.record_error("TestError".to_string());
    engine.record_error("TestError".to_string());
    let insights = engine.get_insights();
    assert_eq!(insights.total_errors, 2);
    assert_eq!(insights.unique_error_types, 1);
    assert_eq!(insights.total_steps, 0);
}

#[test]
fn insights_aggregate_model() {
    let mut model = ReflectionModel::new();
    model.add_step(step_with(500_000));
    model.add_step(step_with(800_000));
    model.record_error("A".to_string());
    model.record_error("B".to_string());
    model.record_error("A".to_string());
    let insights = model.get_insights();
    assert_eq!(insights.total_steps, 2);
    assert_eq!(insights.average_confidence, 650_000);
    assert_eq!(insights.total_errors, 3);
    assert_eq!(insights.unique_error_types, 2);
}

#[test]
fn quality_of_empty_model() {
    let governance = ReflectionGovernance::default_rules();
    let report = governance.check_quality(&ReflectionModel::new());
    assert_eq!(report.confidence_score, 0);
    assert_eq!(report.error_score, UNIT as i128);
    assert_eq!(report.completeness_score, 0);
    assert_eq!(report.overall_quality, 333_333);
    assert!(!report.meets_standards);
}

#[test]
fn quality_error_score_goes_negative() {
    let governance = ReflectionGovernance::default_rules();
    let mut model = ReflectionModel::new();
    for _ in 0..3 {
        model.record_error("E".to_string());
    }
    let report = governance.check_quality(&model);
    assert_eq!(report.error_score, -2 * UNIT as i128);
    assert_eq!(report.overall_quality, -666_666);
}

#[test]
fn quality_of_confident_complete_model() {
    let governance = ReflectionGovernance::default_rules();
    let mut model = ReflectionModel::new();
    for _ in 0..3 {
        model.add_step(step_with(UNIT));
    }
    let report = governance.check_quality(&model);
    assert_eq!(report.confidence_score, UNIT);
    assert_eq!(report.error_score, UNIT as i128);
    assert_eq!(report.completeness_score, UNIT);
    assert_eq!(report.overall_quality, UNIT as i128);
    assert!(report.meets_standards);
}

#[test]
fn validation_of_empty_model() {
    let governance = ReflectionGovernance::default_rules();
    let validation = governance.validate_reflection(&ReflectionModel::new());
    assert!(!validation.valid);
    assert_eq!(validation.errors, vec!["Average confidence 0.00 below minimum 0.70".to_string()]);
    assert_eq!(validation.warnings, vec!["Reasoning steps 0 below minimum 3".to_string()]);
    assert!(validation.requires_review);
}

#[test]
fn validation_warns_on_error_rate() {
    let governance = ReflectionGovernance::default_rules();
    let mut model = ReflectionModel::new();
    for _ in 0..3 {
        model.add_step(step_with(UNIT));
    }
    model.record_error("E".to_string());
    let validation = governance.validate_reflection(&model);
    assert!(validation.valid);
    assert!(validation.errors.is_empty());
    assert_eq!(validation.warnings, vec!["Error rate 0.33 exceeds maximum 0.20".to_string()]);
    assert!(validation.requires_review);
}

#[test]
fn validation_review_for_middling_confidence() {
    let governance = ReflectionGovernance::default_rules();
    let mut model = ReflectionModel::new();
    for _ in 0..3 {
        model.add_step(step_with(690_000));
    }
    let validation = governance.validate_reflection(&model);
    assert!(!validation.valid);
    assert!(validation.warnings.is_empty());
    assert!(validation.requires_review);
    let mut good = ReflectionModel::new();
    for _ in 0..3 {
        good.add_step(step_with(800_000));
    }
    let clean = governance.validate_reflection(&good);
    assert!(clean.valid && clean.errors.is_empty() && clean.warnings.is_empty());
    assert!(!clean.requires_review);
}

#[test]
fn approve_keeps_priority_at_or_above_minimum() {
    let governance = ReflectionGovernance::default_rules();
    let make = |priority: u64| Suggestion {
        id: priority as u128,
        suggestion_type: SuggestionType::ImproveReasoning,
        description: format!("p{}", priority),
        priority,
    };
    let approved = governance.approve_suggestions(&[make(500_000), make(600_000), make(900_000)]);
    assert_eq!(approved.len(), 2);
    assert_eq!(approved[0].suggestion.priority, 600_000);
    assert_eq!(approved[1].suggestion.description, "p900000");
    assert!(approved.iter().all(|a| a.approved && a.reason == "Meets priority threshold"));
}

#[test]
fn engine_suggestions_are_copies() {
    let mut engine = ReflectionEngine::new(3);
    for _ in 0..4 {
        engine.record_error("E".to_string());
    }
    let _ = engine.reflect_on_query("hello there");
    let suggestions = engine.get_suggestions();
    assert_eq!(suggestions.len(), engine.model.improvement_suggestions.len());
    assert!(suggestions.iter().any(|s| s.suggestion_type == SuggestionType::FixRecurringError));
}

#[test]
fn steps_get_distinct_ids_and_a_timestamp() {
    let a = step_with(1);
    let b = step_with(1);
    assert_ne!(a.id, b.id);
    assert!(a.timestamp.contains('T'));
    assert!(a.metadata.is_empty());
}

#[test]
fn words_and_characters() {
    assert_eq!(count_words("  a  b\tc\n"), 3);
    assert_eq!(count_words(""), 0);
    assert_eq!(count_words("one\u{3000}two"), 2);
    assert_eq!(count_chars("héllo"), 5);
}

#[test]
fn decimal_text() {
    let mut s = String::new();
    push_decimal(&mut s, 1204);
    s.push(' ');
    push_decimal_2(&mut s, 994_000);
    s.push(' ');
    push_decimal_2(&mut s, 1_234_567);
    assert_eq!(s, "1204 0.99 1.23");
}

#[test]
fn loader_counts_batches() {
    let mut loader = BioGraphLoader::new();
    loader.record_nodes(4);
    loader.record_nodes(2);
    loader.record_edges(7);
    let stats = loader.stats();
    assert_eq!(stats.nodes_loaded, 6);
    assert_eq!(stats.edges_loaded, 7);
    assert_eq!(BioGraphLoader::default().stats().nodes_loaded, 0);
}

#[test]
fn anneal_is_softmax_over_temperature() {
    let sampler = QuantumSampler::new(500_000, 10);
    let out = sampler.anneal(&[100_000, 200_000, 700_000]).unwrap();
    assert_eq!(out, vec![180_455, 220_409, 599_135]);
    let sum: u64 = out.iter().sum();
    assert!(sum <= UNIT && sum + 3 > UNIT);
    assert_eq!(sampler.anneal(&[0, 0]).unwrap(), vec![500_000, 500_000]);
    let unit = QuantumSampler::new(UNIT, 10);
    assert_eq!(unit.anneal(&[UNIT, 0]).unwrap(), vec![731_058, 268_941]);
    assert_eq!(sampler.anneal(&[]).unwrap(), Vec::<u64>::new());
}

#[test]
fn anneal_refuses_zero_temperature() {
    let sampler = QuantumSampler::new(0, 10);
    assert_eq!(sampler.anneal(&[UNIT]), Err(SamplerError::InvalidParameter));
    let mut reflector = QuantumReflector::new();
    assert_eq!(reflector.anneal_reflection(&[300_000, 700_000]).unwrap().len(), 2);
    reflector.sampler.temperature = 0;
    assert_eq!(reflector.anneal_reflection(&[UNIT]), Err(SamplerError::InvalidParameter));
}

#[test]
fn anneal_sums_to_one_for_many_vectors() {
    let sampler = QuantumSampler::new(250_000, 10);
    for n in 1..20u64 {
        let p: Vec<u64> = (0..n).map(|i| (i * 7_919 * 13) % UNIT).collect();
        let out = sampler.anneal(&p).unwrap();
        assert_eq!(out.len(), p.len());
        let sum: u64 = out.iter().sum();
        assert!(sum <= UNIT && sum + n > UNIT, "n = {}, sum = {}", n, sum);
    }
}

#[test]
fn exponential_values() {
    assert_eq!(exp_neg_fixed(0), UNIT);
    assert_eq!(exp_neg_fixed(1_000_000), 367_879);
    assert_eq!(exp_neg_fixed(500_000), 606_531);
    assert_eq!(exp_neg_fixed(2_000_000), 135_334);
    assert_eq!(exp_neg_fixed(30_000_000), 0);
    assert_eq!(exp_neg_fixed(u128::MAX), 0);
}

#[test]
fn sampling_result_entropy() {
    let half = SamplingResult::new(vec![0, 1], vec![500_000, 500_000]);
    assert!((half.entropy as i128 - UNIT as i128).abs() <= 20, "entropy {}", half.entropy);
    assert_eq!(half.samples, vec![0, 1]);
    let certain = SamplingResult::new(vec![], vec![UNIT, 0]);
    assert_eq!(certain.entropy, 0);
    assert_eq!(SamplingResult::compute_entropy(&[]), 0);
}
