//! The reflection engine: one pass of complexity analysis, sampling
//! reflection and meta-reasoning written into the model, and bounded deep
//! reflection that feeds each pass's summary into the next.
use vstd::prelude::*;
use vstd::string::*;
use crate::fixed::{UNIT, decimal, decimal_2, push_decimal, push_decimal_2};
use crate::model::{ReflectionModel, ReasoningStep, StepType, Suggestion, MetaCognitiveInsights,
    suggestion_plan, error_total};
use crate::quantum::{QuantumReflector, feature_probabilities, sample_confidence, reflection_text,
    FEATURE_COUNT};
use crate::sampler::{SamplerError, selections};
use crate::text::{word_count, count_words};

verus! {

/// A final confidence above this ends deep reflection.
pub const DEEP_STOP_CONFIDENCE: u64 = 900_000;

/// Complexity of a query of `words` words: words over 50, capped at one unit.
pub open spec fn complexity_score(words: nat) -> nat {
    if words >= 50 {
        UNIT as nat
    } else {
        words * 20000
    }
}

/// Confidence of the complexity step: one unit less 0.3 times the complexity.
pub open spec fn complexity_confidence(words: nat) -> nat {
    (UNIT - 3 * complexity_score(words) / 10) as nat
}

/// Output text of the complexity step.
pub open spec fn complexity_text(words: nat) -> Seq<char> {
    "Query complexity: "@ + decimal_2(complexity_score(words)) + " (words: "@ + decimal(words)
        + ")"@
}

/// Input text of the meta-reasoning step.
pub open spec fn meta_input_text(count: nat) -> Seq<char> {
    decimal(count) + " previous steps"@
}

/// Output text of the meta-reasoning step.
pub open spec fn meta_output_text(count: nat, average: nat) -> Seq<char> {
    "Meta-reasoning: Analyzed "@ + decimal(count) + " steps, average confidence: "@ + decimal_2(
        average,
    )
}

/// The query that deep reflection feeds into the next layer.
pub open spec fn deep_query_text(confidence: nat, steps: nat) -> Seq<char> {
    "Reflect on: confidence="@ + decimal_2(confidence) + ", steps="@ + decimal(steps)
}

/// Outcome of one reflection pass; confidences are in fixed point.
#[derive(Debug, Clone)]
pub struct ReflectionResult {
    pub steps: Vec<ReasoningStep>,
    pub final_confidence: u64,
    pub insights: MetaCognitiveInsights,
}

/// Outcome of deep reflection: the passes made, in order.
#[derive(Debug, Clone)]
pub struct DeepReflectionResult {
    pub layers: Vec<ReflectionResult>,
    pub final_depth: usize,
}

/// A pass made on `query` whose sampling step came out as `quantum`, written
/// from `before` into `after`.
pub open spec fn pass_done(
    before: ReflectionModel,
    after: ReflectionModel,
    query: Seq<char>,
    quantum: ReasoningStep,
    res: ReflectionResult,
) -> bool {
    let words = word_count(query);
    let c0 = complexity_confidence(words);
    let c1 = quantum.confidence as nat;
    let c2 = (c0 + c1) / 2;
    let n = before.reasoning_trace@.len();
    &&& res.steps@.len() == 3
    &&& res.steps@[0].summary() == (
        StepType::Query,
        query,
        complexity_text(words),
        c0 as u64,
    )
    &&& res.steps@[1].summary() == quantum.summary()
    &&& res.steps@[2].summary() == (
        StepType::Reasoning,
        meta_input_text(2),
        meta_output_text(2, c2),
        c2 as u64,
    )
    &&& res.final_confidence == c2
    &&& after.wf()
    &&& after.id == before.id
    &&& after.error_patterns@ == before.error_patterns@
    &&& after.reasoning_trace@.len() == n + 3
    &&& after.reasoning_trace@.subrange(0, n as int) == before.reasoning_trace@
    &&& forall|i: int|
        0 <= i < 3 ==> (#[trigger] after.reasoning_trace@[n + i]).summary()
            == res.steps@[i].summary()
    &&& after.confidence_history@ == before.confidence_history@ + seq![
        c0 as u64,
        c1 as u64,
        c2 as u64,
    ]
    &&& after.improvement_suggestions@.len() == suggestion_plan(
        after.confidence_history@,
        after.error_patterns@,
    ).len()
    &&& forall|i: int|
        0 <= i < after.improvement_suggestions@.len() ==> (
        #[trigger] after.improvement_suggestions@[i]).summary() == suggestion_plan(
            after.confidence_history@,
            after.error_patterns@,
        )[i]
    &&& res.insights == after.insights_spec()
}

/// A sampling step on `query` whose confidence and output come from the
/// feature vector of `query` sampled by `num_samples` draws below one unit.
pub open spec fn sampled_from_query(query: Seq<char>, step: ReasoningStep, num_samples: nat) -> bool {
    exists|d: Seq<u64>|
        d.len() == num_samples && (forall|k: int| 0 <= k < d.len() ==> #[trigger] d[k] < UNIT)
            && step.confidence == sample_confidence(
            selections(feature_probabilities(query), d),
            FEATURE_COUNT as nat,
        ) && step.output@ == reflection_text(
            selections(feature_probabilities(query), d).len(),
            step.confidence as nat,
        )
}

/// The three steps of a pass on `query` and its final confidence.
pub open spec fn pass_result(query: Seq<char>, res: ReflectionResult) -> bool {
    let words = word_count(query);
    let c0 = complexity_confidence(words);
    let c1 = res.steps@[1].confidence as nat;
    let c2 = (c0 + c1) / 2;
    &&& res.steps@.len() == 3
    &&& res.steps@[0].summary() == (
        StepType::Query,
        query,
        complexity_text(words),
        c0 as u64,
    )
    &&& res.steps@[1].step_type == StepType::Validation
    &&& res.steps@[1].input@ == query
    &&& c1 <= UNIT
    &&& res.steps@[2].summary() == (
        StepType::Reasoning,
        meta_input_text(2),
        meta_output_text(2, c2),
        c2 as u64,
    )
    &&& res.final_confidence == c2
}

/// The reasoning engine: a model, a reflector and a depth for deep
/// reflection.
pub struct ReflectionEngine {
    pub model: ReflectionModel,
    pub quantum_reflector: QuantumReflector,
    pub reflection_depth: usize,
}

impl ReflectionEngine {
    /// An engine with an empty model and the default reflector.
    pub fn new(reflection_depth: usize) -> (r: Self)
        ensures
            r.model.wf(),
            r.model.reasoning_trace@.len() == 0,
            r.model.error_patterns@.len() == 0,
            r.model.improvement_suggestions@.len() == 0,
            r.quantum_reflector.sampler.num_samples == crate::quantum::REFLECTOR_SAMPLES,
            r.reflection_depth == reflection_depth,
    {
        ReflectionEngine {
            model: ReflectionModel::new(),
            quantum_reflector: QuantumReflector::new(),
            reflection_depth,
        }
    }

    /// The complexity step for `query`.
    pub fn analyze_complexity(&self, query: &str) -> (r: ReasoningStep)
        ensures
            r.summary() == (
                StepType::Query,
                query@,
                complexity_text(word_count(query@)),
                complexity_confidence(word_count(query@)) as u64,
            ),
    {
        let words = count_words(query);
        let complexity: u64 = if words >= 50 {
            UNIT
        } else {
            words as u64 * 20000
        };
        let mut output = String::from_str("Query complexity: ");
        push_decimal_2(&mut output, complexity as u128);
        output.append(" (words: ");
        push_decimal(&mut output, words as u128);
        output.append(")");
        ReasoningStep::new(
            StepType::Query,
            String::from_str(query),
            output,
            UNIT - 3 * complexity / 10,
        )
    }

    /// The meta-reasoning step over the two steps before it: their mean
    /// confidence, rounded down.
    pub fn meta_reason(&self, first: &ReasoningStep, second: &ReasoningStep) -> (r: ReasoningStep)
        ensures
            r.summary() == (
                StepType::Reasoning,
                meta_input_text(2),
                meta_output_text(2, (first.confidence + second.confidence) as nat / 2),
                ((first.confidence + second.confidence) as nat / 2) as u64,
            ),
    {
        let average = ((first.confidence as u128 + second.confidence as u128) / 2) as u64;
        let mut input = String::new();
        push_decimal(&mut input, 2 as u128);
        input.append(" previous steps");
        let mut output = String::from_str("Meta-reasoning: Analyzed ");
        push_decimal(&mut output, 2 as u128);
        output.append(" steps, average confidence: ");
        push_decimal_2(&mut output, average as u128);
        ReasoningStep::new(StepType::Reasoning, input, output, average)
    }

    fn finish_pass(&mut self, query: &str, quantum_step: ReasoningStep) -> (res: ReflectionResult)
        requires
            old(self).model.wf(),
            quantum_step.confidence <= UNIT,
        ensures
            pass_done(old(self).model, final(self).model, query@, quantum_step, res),
            final(self).quantum_reflector == old(self).quantum_reflector,
            final(self).reflection_depth == old(self).reflection_depth,
    {
        let ghost quantum = quantum_step;
        let complexity_step = self.analyze_complexity(query);
        let meta_step = self.meta_reason(&complexity_step, &quantum_step);
        let final_confidence = meta_step.confidence;
        let ghost n = self.model.reasoning_trace@.len();
        self.model.add_step(complexity_step.copy());
        self.model.add_step(quantum_step.copy());
        self.model.add_step(meta_step.copy());
        let ghost history = self.model.confidence_history@;
        self.model.generate_suggestions();
        let mut steps: Vec<ReasoningStep> = Vec::new();
        steps.push(complexity_step);
        steps.push(quantum_step);
        steps.push(meta_step);
        let insights = self.model.get_insights();
        let res = ReflectionResult { steps, final_confidence, insights };
        assert(self.model.reasoning_trace@.subrange(0, n as int) =~= old(self).model.reasoning_trace@);
        assert(history =~= old(self).model.confidence_history@ + seq![
            res.steps@[0].confidence,
            res.steps@[1].confidence,
            res.steps@[2].confidence,
        ]);
        res
    }

    /// One reflection pass on `query`, sampling with the given draws: the
    /// complexity, sampling and meta-reasoning steps are appended to the
    /// model and the suggestions rebuilt.
    pub fn reflect_on_query_with_draws(&mut self, query: &str, draws: &[u64]) -> (r: Result<
        ReflectionResult,
        SamplerError,
    >)
        requires
            old(self).model.wf(),
        ensures
            r matches Ok(res) && res.steps@[1].step_type == StepType::Validation
                && res.steps@[1].input@ == query@ && res.steps@[1].confidence == sample_confidence(
                selections(feature_probabilities(query@), draws@),
                FEATURE_COUNT as nat,
            ) && pass_done(old(self).model, final(self).model, query@, res.steps@[1], res),
            final(self).quantum_reflector == old(self).quantum_reflector,
            final(self).reflection_depth == old(self).reflection_depth,
    {
        let quantum_step = self.quantum_reflector.reflect_with_draws(query, draws);
        Ok(self.finish_pass(query, quantum_step))
    }

    /// One reflection pass on `query`: the complexity, sampling and
    /// meta-reasoning steps are appended to the model and the suggestions
    /// rebuilt. The sampling step's confidence depends on the draws and
    /// stays within one unit.
    pub fn reflect_on_query(&mut self, query: &str) -> (r: Result<ReflectionResult, SamplerError>)
        requires
            old(self).model.wf(),
        ensures
            r matches Ok(res) && pass_result(query@, res) && sampled_from_query(
                query@,
                res.steps@[1],
                old(self).quantum_reflector.sampler.num_samples as nat,
            ) && pass_done(old(self).model, final(self).model, query@, res.steps@[1], res),
            final(self).quantum_reflector == old(self).quantum_reflector,
            final(self).reflection_depth == old(self).reflection_depth,
    {
        let quantum_step = self.quantum_reflector.reflect(query);
        Ok(self.finish_pass(query, quantum_step))
    }

    /// Up to `reflection_depth` passes: the first on `query`, each later one
    /// on a text that states the previous pass's final confidence and step
    /// count. Stops after the first pass whose final confidence exceeds the
    /// stop mark.
    pub fn deep_reflect(&mut self, query: &str) -> (r: Result<DeepReflectionResult, SamplerError>)
        requires
            old(self).model.wf(),
        ensures
            final(self).model.wf(),
            final(self).reflection_depth == old(self).reflection_depth,
            r matches Ok(res) && {
                let layers = res.layers@;
                &&& res.final_depth == layers.len()
                &&& layers.len() <= old(self).reflection_depth
                &&& old(self).reflection_depth > 0 ==> layers.len() >= 1
                &&& forall|i: int|
                    0 <= i < layers.len() - 1 ==> (#[trigger] layers[i]).final_confidence
                        <= DEEP_STOP_CONFIDENCE
                &&& layers.len() < old(self).reflection_depth ==> layers[layers.len()
                    - 1].final_confidence > DEEP_STOP_CONFIDENCE
                &&& forall|i: int| 0 <= i < layers.len() ==> (#[trigger] layers[i]).steps@.len() == 3
                &&& layers.len() > 0 ==> layers[0].steps@[0].input@ == query@
                &&& forall|i: int|
                    0 < i < layers.len() ==> (#[trigger] layers[i]).steps@[0].input@
                        == deep_query_text(layers[i - 1].final_confidence as nat, 3)
                &&& final(self).model.reasoning_trace@.len() == old(self).model.reasoning_trace@.len()
                    + 3 * layers.len()
                &&& final(self).model.error_patterns@ == old(self).model.error_patterns@
                &&& forall|i: int|
                    0 <= i < layers.len() ==> pass_result(
                        (#[trigger] layers[i]).steps@[0].input@,
                        layers[i],
                    )
                &&& final(self).model.reasoning_trace@.subrange(
                    0,
                    old(self).model.reasoning_trace@.len() as int,
                ) == old(self).model.reasoning_trace@
                &&& forall|i: int, k: int|
                    0 <= i < layers.len() && 0 <= k < 3 ==> final(self).model.reasoning_trace@[old(
                        self,
                    ).model.reasoning_trace@.len() + 3 * i + k].summary() == (
                    #[trigger] layers[i].steps@[k]).summary()
            },
    {
        let ghost n0 = self.model.reasoning_trace@.len() as int;
        let mut layers: Vec<ReflectionResult> = Vec::new();
        let mut current = String::from_str(query);
        let depth = self.reflection_depth;
        let mut d: usize = 0;
        let mut stop = false;
        while d < depth && !stop
            invariant
                d <= depth,
                stop ==> d > 0 && layers@[d - 1].final_confidence > DEEP_STOP_CONFIDENCE,
                depth == self.reflection_depth,
                depth == old(self).reflection_depth,
                layers@.len() == d,
                self.model.wf(),
                self.model.error_patterns@ == old(self).model.error_patterns@,
                self.model.reasoning_trace@.len() == old(self).model.reasoning_trace@.len() + 3 * d,
                forall|i: int| 0 <= i < d - 1 ==> (#[trigger] layers@[i]).final_confidence
                    <= DEEP_STOP_CONFIDENCE,
                !stop ==> forall|i: int| 0 <= i < d ==> (#[trigger] layers@[i]).final_confidence
                    <= DEEP_STOP_CONFIDENCE,
                forall|i: int| 0 <= i < d ==> (#[trigger] layers@[i]).steps@.len() == 3,
                n0 == old(self).model.reasoning_trace@.len(),
                forall|i: int|
                    0 <= i < d ==> pass_result((#[trigger] layers@[i]).steps@[0].input@, layers@[i]),
                self.model.reasoning_trace@.subrange(0, n0) == old(self).model.reasoning_trace@,
                forall|i: int, k: int|
                    0 <= i < d && 0 <= k < 3 ==> self.model.reasoning_trace@[n0 + 3 * i + k].summary()
                        == (#[trigger] layers@[i].steps@[k]).summary(),
                d == 0 ==> current@ == query@,
                d > 0 ==> layers@[0].steps@[0].input@ == query@,
                d > 0 ==> current@ == deep_query_text(layers@[d - 1].final_confidence as nat, 3),
                forall|i: int|
                    0 < i < d ==> (#[trigger] layers@[i]).steps@[0].input@
                        == deep_query_text(layers@[i - 1].final_confidence as nat, 3),
            decreases depth - d,
        {
            let ghost before = self.model.reasoning_trace@;
            let result = match self.reflect_on_query(current.as_str()) {
                Ok(result) => result,
                Err(e) => {
                    return Err(e);
                },
            };
            proof {
                let after = self.model.reasoning_trace@;
                let m = before.len() as int;
                assert forall|j: int| 0 <= j < m implies after[j] == before[j] by {
                    assert(after.subrange(0, m)[j] == after[j]);
                }
                assert(after.subrange(0, n0) =~= old(self).model.reasoning_trace@) by {
                    assert forall|j: int| 0 <= j < n0 implies after.subrange(0, n0)[j]
                        == old(self).model.reasoning_trace@[j] by {
                        assert(before.subrange(0, n0)[j] == before[j]);
                    }
                }
                assert forall|i: int, k: int|
                    0 <= i < d && 0 <= k < 3 implies after[n0 + 3 * i + k].summary()
                        == (#[trigger] layers@[i].steps@[k]).summary() by {
                    assert(before[n0 + 3 * i + k] == after[n0 + 3 * i + k]);
                }
            }
            let confidence = result.final_confidence;
            let mut next = String::from_str("Reflect on: confidence=");
            push_decimal_2(&mut next, confidence as u128);
            next.append(", steps=");
            push_decimal(&mut next, result.steps.len() as u128);
            layers.push(result);
            current = next;
            d = d + 1;
            stop = confidence > DEEP_STOP_CONFIDENCE;
        }
        let final_depth = layers.len();
        Ok(DeepReflectionResult { layers, final_depth })
    }

    /// Figures of the model.
    pub fn get_insights(&self) -> (r: MetaCognitiveInsights)
        requires
            self.model.wf(),
        ensures
            r == self.model.insights_spec(),
    {
        self.model.get_insights()
    }

    /// Counts one more occurrence of `error_type` in the model.
    pub fn record_error(&mut self, error_type: String)
        requires
            old(self).model.wf(),
            error_total(old(self).model.error_patterns@) < usize::MAX,
        ensures
            final(self).model.wf(),
            error_total(final(self).model.error_patterns@) == error_total(
                old(self).model.error_patterns@,
            ) + 1,
            final(self).model.reasoning_trace@ == old(self).model.reasoning_trace@,
            final(self).model.confidence_history@ == old(self).model.confidence_history@,
            final(self).model.improvement_suggestions@ == old(self).model.improvement_suggestions@,
            final(self).model.id == old(self).model.id,
            (exists|i: int|
                0 <= i < old(self).model.error_patterns@.len() && (#[trigger] old(
                    self,
                ).model.error_patterns@[i]).0@ == error_type@) ==> (exists|i: int|
                0 <= i < old(self).model.error_patterns@.len() && (#[trigger] old(
                    self,
                ).model.error_patterns@[i]).0@ == error_type@ && final(self).model.error_patterns@
                    == old(self).model.error_patterns@.update(
                    i,
                    (
                        old(self).model.error_patterns@[i].0,
                        (old(self).model.error_patterns@[i].1 + 1) as usize,
                    ),
                )),
            (forall|i: int|
                0 <= i < old(self).model.error_patterns@.len() ==> (#[trigger] old(
                    self,
                ).model.error_patterns@[i]).0@ != error_type@) ==> final(self).model.error_patterns@
                == old(self).model.error_patterns@.push((error_type, 1usize)),
            final(self).quantum_reflector == old(self).quantum_reflector,
            final(self).reflection_depth == old(self).reflection_depth,
    {
        self.model.record_error(error_type);
    }

    /// Copies of the model's current suggestions.
    pub fn get_suggestions(&self) -> (r: Vec<Suggestion>)
        ensures
            r@.len() == self.model.improvement_suggestions@.len(),
            forall|i: int|
                0 <= i < r@.len() ==> (#[trigger] r@[i]).summary()
                    == self.model.improvement_suggestions@[i].summary(),
    {
        let mut out: Vec<Suggestion> = Vec::new();
        let mut i: usize = 0;
        while i < self.model.improvement_suggestions.len()
            invariant
                i <= self.model.improvement_suggestions@.len(),
                out@.len() == i,
                forall|j: int|
                    0 <= j < i ==> (#[trigger] out@[j]).summary()
                        == self.model.improvement_suggestions@[j].summary(),
            decreases self.model.improvement_suggestions@.len() - i,
        {
            out.push(self.model.improvement_suggestions[i].copy());
            i = i + 1;
        }
        out
    }
}

} // verus!
