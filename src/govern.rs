//! Governance of a reasoning model: fixed thresholds give a validity
//! verdict, a quality report and the suggestions that may be surfaced.
use vstd::prelude::*;
use vstd::string::*;
use crate::fixed::{UNIT, decimal, decimal_2, push_decimal, push_decimal_2};
use crate::model::{ReflectionModel, Suggestion, SuggestionType, mean, error_total};

verus! {

/// A mean confidence below this always calls for review.
pub const REVIEW_CONFIDENCE: u64 = 700_000;

/// Thresholds of governance, fractions in fixed point.
#[derive(Debug, Clone, Copy, PartialEq, Eq, Structural)]
pub struct ReflectionRules {
    pub min_average_confidence: u64,
    pub max_error_rate: u64,
    pub min_reasoning_steps: usize,
    pub min_suggestion_priority: u64,
    pub min_quality_score: u64,
}

impl Default for ReflectionRules {
    fn default() -> (r: Self)
        ensures
            r.min_average_confidence == 700_000,
            r.max_error_rate == 200_000,
            r.min_reasoning_steps == 3,
            r.min_suggestion_priority == 600_000,
            r.min_quality_score == 750_000,
    {
        ReflectionRules {
            min_average_confidence: 700_000,
            max_error_rate: 200_000,
            min_reasoning_steps: 3,
            min_suggestion_priority: 600_000,
            min_quality_score: 750_000,
        }
    }
}

/// Verdict of `validate_reflection`.
#[derive(Debug, Clone)]
pub struct ReflectionValidation {
    pub valid: bool,
    pub errors: Vec<String>,
    pub warnings: Vec<String>,
    pub requires_review: bool,
}

/// A suggestion that passed the priority threshold, with the reason.
#[derive(Debug, Clone)]
pub struct ApprovedSuggestion {
    pub suggestion: Suggestion,
    pub approved: bool,
    pub reason: String,
}

/// Quality figures of a model, in fixed point. The error score is signed: it
/// falls below zero where errors outnumber steps.
#[derive(Debug, Clone, Copy, PartialEq, Eq, Structural)]
pub struct QualityReport {
    pub overall_quality: i128,
    pub confidence_score: u64,
    pub error_score: i128,
    pub completeness_score: u64,
    pub meets_standards: bool,
}

/// The mean confidence is below the rule's minimum.
pub open spec fn confidence_too_low(rules: ReflectionRules, m: ReflectionModel) -> bool {
    mean(m.confidence_history@) < rules.min_average_confidence
}

/// Errors per step exceed the rule's maximum (compared exactly).
pub open spec fn error_rate_too_high(rules: ReflectionRules, m: ReflectionModel) -> bool {
    let steps = m.reasoning_trace@.len();
    steps > 0 && error_total(m.error_patterns@) * UNIT > rules.max_error_rate * steps
}

/// Errors per step in fixed point, rounded down; zero without steps.
pub open spec fn error_rate(m: ReflectionModel) -> nat {
    let steps = m.reasoning_trace@.len();
    if steps == 0 {
        0
    } else {
        error_total(m.error_patterns@) * (UNIT as nat) / steps
    }
}

/// The trace is shorter than the rule's minimum.
pub open spec fn too_few_steps(rules: ReflectionRules, m: ReflectionModel) -> bool {
    m.reasoning_trace@.len() < rules.min_reasoning_steps
}

/// Text of the low confidence error.
pub open spec fn low_confidence_message(average: nat, minimum: nat) -> Seq<char> {
    "Average confidence "@ + decimal_2(average) + " below minimum "@ + decimal_2(minimum)
}

/// Text of the error rate warning.
pub open spec fn error_rate_message(rate: nat, maximum: nat) -> Seq<char> {
    "Error rate "@ + decimal_2(rate) + " exceeds maximum "@ + decimal_2(maximum)
}

/// Text of the step count warning.
pub open spec fn few_steps_message(steps: nat, minimum: nat) -> Seq<char> {
    "Reasoning steps "@ + decimal(steps) + " below minimum "@ + decimal(minimum)
}

/// The warnings that the rules give for a model, in order.
pub open spec fn warnings_for(rules: ReflectionRules, m: ReflectionModel) -> Seq<Seq<char>> {
    let rate: Seq<Seq<char>> = if error_rate_too_high(rules, m) {
        seq![error_rate_message(error_rate(m), rules.max_error_rate as nat)]
    } else {
        seq![]
    };
    let steps: Seq<Seq<char>> = if too_few_steps(rules, m) {
        seq![
            few_steps_message(
                m.reasoning_trace@.len(),
                rules.min_reasoning_steps as nat,
            ),
        ]
    } else {
        seq![]
    };
    rate + steps
}

/// Suggestions among the first `k` whose priority reaches `minimum`, in order.
pub open spec fn approved_summaries(s: Seq<Suggestion>, minimum: u64, k: int) -> Seq<
    (SuggestionType, Seq<char>, u64),
>
    decreases k,
{
    if k <= 0 {
        seq![]
    } else {
        let prev = approved_summaries(s, minimum, k - 1);
        if s[k - 1].priority >= minimum {
            prev.push(s[k - 1].summary())
        } else {
            prev
        }
    }
}

/// The error score: one unit less errors per step plus one, the ratio
/// rounded down.
pub open spec fn error_score_of(errors: nat, steps: nat) -> int {
    UNIT - errors * (UNIT as nat) / (steps + 1)
}

/// The completeness score: steps over the minimum, capped at one unit; one
/// unit where the minimum is zero.
pub open spec fn completeness_of(steps: nat, minimum: nat) -> nat {
    if minimum == 0 || steps >= minimum {
        UNIT as nat
    } else {
        steps * (UNIT as nat) / minimum
    }
}

/// Mean of three scores, rounded toward zero.
pub open spec fn mean_of_three(sum: int) -> int {
    if sum >= 0 {
        sum / 3
    } else {
        -((-sum) / 3)
    }
}

/// The quality report that the rules give for a model.
pub open spec fn quality_of(rules: ReflectionRules, m: ReflectionModel) -> QualityReport {
    let confidence = mean(m.confidence_history@);
    let errors = error_score_of(error_total(m.error_patterns@), m.reasoning_trace@.len());
    let completeness = completeness_of(
        m.reasoning_trace@.len(),
        rules.min_reasoning_steps as nat,
    );
    let sum = confidence + errors + completeness;
    QualityReport {
        overall_quality: mean_of_three(sum) as i128,
        confidence_score: confidence as u64,
        error_score: errors as i128,
        completeness_score: completeness as u64,
        meets_standards: sum >= 3 * rules.min_quality_score,
    }
}

/// Governance with a fixed rule set.
pub struct ReflectionGovernance {
    pub rules: ReflectionRules,
}

impl ReflectionGovernance {
    pub fn new(rules: ReflectionRules) -> (r: Self)
        ensures
            r.rules == rules,
    {
        ReflectionGovernance { rules }
    }

    /// Governance with the default rules.
    pub fn default_rules() -> (r: Self)
        ensures
            r.rules.min_average_confidence == 700_000,
            r.rules.max_error_rate == 200_000,
            r.rules.min_reasoning_steps == 3,
            r.rules.min_suggestion_priority == 600_000,
            r.rules.min_quality_score == 750_000,
    {
        ReflectionGovernance { rules: ReflectionRules::default() }
    }

    /// Checks a model against the rules: an error where the mean confidence
    /// is below the minimum; warnings where errors per step exceed the maximum
    /// and where the trace is shorter than the minimum. Review is required on
    /// any warning or a mean confidence below the review mark.
    pub fn validate_reflection(&self, model: &ReflectionModel) -> (r: ReflectionValidation)
        requires
            model.wf(),
        ensures
            r.valid == !confidence_too_low(self.rules, *model),
            r.errors@.len() == if confidence_too_low(self.rules, *model) {
                1int
            } else {
                0int
            },
            confidence_too_low(self.rules, *model) ==> r.errors@[0]@ == low_confidence_message(
                mean(model.confidence_history@),
                self.rules.min_average_confidence as nat,
            ),
            r.warnings@.len() == warnings_for(self.rules, *model).len(),
            forall|i: int|
                0 <= i < r.warnings@.len() ==> (#[trigger] r.warnings@[i])@ == warnings_for(
                    self.rules,
                    *model,
                )[i],
            r.requires_review == (warnings_for(self.rules, *model).len() > 0 || mean(
                model.confidence_history@,
            ) < REVIEW_CONFIDENCE),
    {
        let insights = model.get_insights();
        proof {
            crate::model::lemma_mean_bound(model.confidence_history@);
        }
        let average = insights.average_confidence;
        let mut errors: Vec<String> = Vec::new();
        if average < self.rules.min_average_confidence {
            let mut message = String::from_str("Average confidence ");
            push_decimal_2(&mut message, average as u128);
            message.append(" below minimum ");
            push_decimal_2(&mut message, self.rules.min_average_confidence as u128);
            errors.push(message);
        }
        let steps = model.reasoning_trace.len();
        let total_errors = insights.total_errors;
        assert(total_errors == error_total(model.error_patterns@));
        let mut warnings: Vec<String> = Vec::new();
        assert(self.rules.max_error_rate * steps <= u64::MAX * usize::MAX) by (nonlinear_arith)
            requires
                self.rules.max_error_rate <= u64::MAX,
                steps <= usize::MAX,
        ;
        if steps > 0 && total_errors as u128 * UNIT as u128 > self.rules.max_error_rate as u128
            * steps as u128 {
            let rate = total_errors as u128 * UNIT as u128 / steps as u128;
            let mut message = String::from_str("Error rate ");
            push_decimal_2(&mut message, rate as u128);
            message.append(" exceeds maximum ");
            push_decimal_2(&mut message, self.rules.max_error_rate as u128);
            warnings.push(message);
        }
        if steps < self.rules.min_reasoning_steps {
            let mut message = String::from_str("Reasoning steps ");
            push_decimal(&mut message, steps as u128);
            message.append(" below minimum ");
            push_decimal(&mut message, self.rules.min_reasoning_steps as u128);
            warnings.push(message);
        }
        assert(warnings@.len() == warnings_for(self.rules, *model).len());
        let requires_review = warnings.len() > 0 || average < REVIEW_CONFIDENCE;
        ReflectionValidation { valid: errors.len() == 0, errors, warnings, requires_review }
    }

    /// The suggestions whose priority reaches the rule's minimum, in order,
    /// each approved with the same reason.
    pub fn approve_suggestions(&self, suggestions: &[Suggestion]) -> (r: Vec<ApprovedSuggestion>)
        ensures
            r@.len() == approved_summaries(
                suggestions@,
                self.rules.min_suggestion_priority,
                suggestions@.len() as int,
            ).len(),
            forall|i: int|
                0 <= i < r@.len() ==> (#[trigger] r@[i]).suggestion.summary() == approved_summaries(
                    suggestions@,
                    self.rules.min_suggestion_priority,
                    suggestions@.len() as int,
                )[i] && r@[i].approved && r@[i].reason@ == "Meets priority threshold"@,
    {
        let minimum = self.rules.min_suggestion_priority;
        let mut out: Vec<ApprovedSuggestion> = Vec::new();
        let mut i: usize = 0;
        while i < suggestions.len()
            invariant
                i <= suggestions@.len(),
                minimum == self.rules.min_suggestion_priority,
                out@.len() == approved_summaries(suggestions@, minimum, i as int).len(),
                forall|j: int|
                    0 <= j < out@.len() ==> (#[trigger] out@[j]).suggestion.summary()
                        == approved_summaries(suggestions@, minimum, i as int)[j] && out@[j].approved
                        && out@[j].reason@ == "Meets priority threshold"@,
            decreases suggestions@.len() - i,
        {
            if suggestions[i].priority >= minimum {
                out.push(
                    ApprovedSuggestion {
                        suggestion: suggestions[i].copy(),
                        approved: true,
                        reason: String::from_str("Meets priority threshold"),
                    },
                );
            }
            i = i + 1;
        }
        out
    }

    /// Quality figures of a model: mean confidence, error score,
    /// completeness, their mean, and whether that mean reaches the rule's
    /// minimum (compared exactly).
    pub fn check_quality(&self, model: &ReflectionModel) -> (r: QualityReport)
        requires
            model.wf(),
        ensures
            r == quality_of(self.rules, *model),
    {
        let insights = model.get_insights();
        proof {
            crate::model::lemma_mean_bound(model.confidence_history@);
        }
        let confidence = insights.average_confidence;
        let steps = model.reasoning_trace.len();
        let total_errors = insights.total_errors;
        let quotient = total_errors as u128 * UNIT as u128 / (steps as u128 + 1);
        assert(quotient <= total_errors * UNIT) by (nonlinear_arith)
            requires
                quotient == (total_errors * UNIT) as int / (steps + 1),
                steps >= 0,
        ;
        let ratio = quotient as i128;
        let error_score: i128 = UNIT as i128 - ratio;
        let minimum = self.rules.min_reasoning_steps;
        let completeness: u64 = if minimum == 0 || steps >= minimum {
            UNIT
        } else {
            let q = steps as u128 * UNIT as u128 / minimum as u128;
            assert(q <= UNIT) by (nonlinear_arith)
                requires
                    q == (steps * UNIT) as int / (minimum as int),
                    steps < minimum,
            ;
            q as u64
        };
        let sum: i128 = confidence as i128 + error_score + completeness as i128;
        let overall: i128 = if sum >= 0 {
            sum / 3
        } else {
            -((-sum) / 3)
        };
        assert(confidence == mean(model.confidence_history@));
        assert(error_score == error_score_of(error_total(model.error_patterns@), model.reasoning_trace@.len()));
        assert(completeness == completeness_of(model.reasoning_trace@.len(), self.rules.min_reasoning_steps as nat));
        QualityReport {
            overall_quality: overall,
            confidence_score: confidence,
            error_score,
            completeness_score: completeness,
            meets_standards: sum >= 3 * self.rules.min_quality_score as i128,
        }
    }
}

} // verus!
