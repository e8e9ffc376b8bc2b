//! The reasoning model: an append-only trace of reasoning steps, the
//! confidence history kept in lock-step with it, per-label error counters,
//! and the suggestions derived from them.
use vstd::prelude::*;
use vstd::string::*;
use crate::fixed::{decimal, push_decimal};
use crate::sampler::unit_sum;

verus! {

/// The kind of a reasoning step.
#[derive(Debug, Clone, Copy, PartialEq, Eq, Structural)]
pub enum StepType {
    Query,
    Retrieval,
    Reasoning,
    Validation,
    Synthesis,
}

/// The kind of an improvement suggestion.
#[derive(Debug, Clone, Copy, PartialEq, Eq, Structural)]
pub enum SuggestionType {
    IncreaseConfidence,
    FixRecurringError,
    OptimizeRetrieval,
    ImproveReasoning,
    EnhanceValidation,
}

/// Relies on `uuid::Uuid::new_v4`: a fresh random identifier, taken as its
/// 128-bit value.
#[verifier::external_body]
pub(crate) fn fresh_id() -> u128 {
    uuid::Uuid::new_v4().as_u128()
}

/// Relies on `chrono::Utc::now` and `DateTime::to_rfc3339`: the current time
/// as RFC 3339 text.
#[verifier::external_body]
fn now_rfc3339() -> String {
    chrono::Utc::now().to_rfc3339()
}

/// One observation in the reasoning trace; its confidence is in fixed point.
#[derive(Debug, Clone)]
pub struct ReasoningStep {
    pub id: u128,
    pub timestamp: String,
    pub step_type: StepType,
    pub input: String,
    pub output: String,
    pub confidence: u64,
    pub metadata: Vec<(String, String)>,
}

impl ReasoningStep {
    /// What a step says, leaving out its identifier, time and metadata.
    pub open spec fn summary(&self) -> (StepType, Seq<char>, Seq<char>, u64) {
        (self.step_type, self.input@, self.output@, self.confidence)
    }

    /// A copy of the step.
    pub fn copy(&self) -> (r: Self)
        ensures
            r.summary() == self.summary(),
            r.id == self.id,
            r.timestamp@ == self.timestamp@,
    {
        ReasoningStep {
            id: self.id,
            timestamp: self.timestamp.clone(),
            step_type: self.step_type,
            input: self.input.clone(),
            output: self.output.clone(),
            confidence: self.confidence,
            metadata: self.metadata.clone(),
        }
    }

    /// A step with a fresh identifier, the current time and no metadata.
    pub fn new(step_type: StepType, input: String, output: String, confidence: u64) -> (r: Self)
        ensures
            r.step_type == step_type,
            r.input@ == input@,
            r.output@ == output@,
            r.confidence == confidence,
            r.metadata@.len() == 0,
    {
        ReasoningStep {
            id: fresh_id(),
            timestamp: now_rfc3339(),
            step_type,
            input,
            output,
            confidence,
            metadata: Vec::new(),
        }
    }
}

/// An advisory output; its priority is in fixed point.
#[derive(Debug, Clone)]
pub struct Suggestion {
    pub id: u128,
    pub suggestion_type: SuggestionType,
    pub description: String,
    pub priority: u64,
}

impl Suggestion {
    /// A copy of the suggestion.
    pub fn copy(&self) -> (r: Self)
        ensures
            r.summary() == self.summary(),
            r.id == self.id,
    {
        Suggestion {
            id: self.id,
            suggestion_type: self.suggestion_type,
            description: self.description.clone(),
            priority: self.priority,
        }
    }

    /// What a suggestion says, leaving out its identifier.
    pub open spec fn summary(&self) -> (SuggestionType, Seq<char>, u64) {
        (self.suggestion_type, self.description@, self.priority)
    }
}

/// Aggregate figures of a reasoning model; the average is in fixed point.
#[derive(Debug, Clone, Copy, PartialEq, Eq, Structural)]
pub struct MetaCognitiveInsights {
    pub total_steps: usize,
    pub average_confidence: u64,
    pub total_errors: usize,
    pub unique_error_types: usize,
    pub suggestions_count: usize,
}

/// Priority of the suggestion to raise confidence.
pub const LOW_CONFIDENCE_PRIORITY: u64 = 800_000;

/// Priority of a suggestion to fix a recurring error.
pub const RECURRING_ERROR_PRIORITY: u64 = 900_000;

/// The recent average below which confidence counts as low.
pub const LOW_CONFIDENCE_AVERAGE: u64 = 600_000;

/// How often an error may occur before it counts as recurring.
pub const RECURRING_ERROR_LIMIT: usize = 3;

/// Mean of fixed-point values, rounded down; zero for none.
pub open spec fn mean(v: Seq<u64>) -> nat {
    if v.len() == 0 {
        0
    } else {
        unit_sum(v, v.len() as int) / v.len()
    }
}

/// Sum of the first `k` error counters.
pub open spec fn error_sum(e: Seq<(String, usize)>, k: int) -> nat
    decreases k,
{
    if k <= 0 {
        0
    } else {
        error_sum(e, k - 1) + e[k - 1].1 as nat
    }
}

/// Total error occurrences.
pub open spec fn error_total(e: Seq<(String, usize)>) -> nat {
    error_sum(e, e.len() as int)
}

/// The three most recent confidences average below the low mark.
pub open spec fn recent_confidence_low(h: Seq<u64>) -> bool {
    h.len() >= 3 && h[h.len() - 1] + h[h.len() - 2] + h[h.len() - 3] < 3
        * LOW_CONFIDENCE_AVERAGE
}

/// Text of the suggestion to raise confidence.
pub open spec fn low_confidence_text() -> Seq<char> {
    "Recent confidence scores are low. Consider additional validation."@
}

/// Text of the suggestion for an error `label` seen `count` times.
pub open spec fn recurring_text(label: Seq<char>, count: nat) -> Seq<char> {
    "Recurring error: "@ + label + ". Occurred "@ + decimal(count) + " times."@
}

/// Suggestions for the recurring errors among the first `k` counters, in
/// counter order.
pub open spec fn recurring_suggestions(e: Seq<(String, usize)>, k: int) -> Seq<
    (SuggestionType, Seq<char>, u64),
>
    decreases k,
{
    if k <= 0 {
        seq![]
    } else {
        let prev = recurring_suggestions(e, k - 1);
        let (label, count) = e[k - 1];
        if count > RECURRING_ERROR_LIMIT {
            prev.push(
                (
                    SuggestionType::FixRecurringError,
                    recurring_text(label@, count as nat),
                    RECURRING_ERROR_PRIORITY,
                ),
            )
        } else {
            prev
        }
    }
}

/// The suggestions that a history and error counters call for: one to raise
/// confidence where it is recently low, then one per recurring error.
pub open spec fn suggestion_plan(h: Seq<u64>, e: Seq<(String, usize)>) -> Seq<
    (SuggestionType, Seq<char>, u64),
> {
    let first: Seq<(SuggestionType, Seq<char>, u64)> = if recent_confidence_low(h) {
        seq![
            (
                SuggestionType::IncreaseConfidence,
                low_confidence_text(),
                LOW_CONFIDENCE_PRIORITY,
            ),
        ]
    } else {
        seq![]
    };
    first + recurring_suggestions(e, e.len() as int)
}


proof fn lemma_error_sum_prefix_eq(a: Seq<(String, usize)>, b: Seq<(String, usize)>, k: int)
    requires
        0 <= k <= a.len(),
        k <= b.len(),
        forall|j: int| 0 <= j < k ==> #[trigger] a[j] == b[j],
    ensures
        error_sum(a, k) == error_sum(b, k),
    decreases k,
{
    if k > 0 {
        lemma_error_sum_prefix_eq(a, b, k - 1);
    }
}

proof fn lemma_error_sum_elem(e: Seq<(String, usize)>, i: int, k: int)
    requires
        0 <= i < k <= e.len(),
    ensures
        e[i].1 <= error_sum(e, k),
    decreases k,
{
    if i < k - 1 {
        lemma_error_sum_elem(e, i, k - 1);
    }
}

proof fn lemma_error_sum_update(e: Seq<(String, usize)>, i: int, k: int)
    requires
        0 <= i < e.len(),
        e[i].1 < usize::MAX,
        0 <= k <= e.len(),
    ensures
        error_sum(e.update(i, (e[i].0, (e[i].1 + 1) as usize)), k) == error_sum(e, k) + (if i < k {
            1int
        } else {
            0int
        }),
    decreases k,
{
    if k > 0 {
        lemma_error_sum_update(e, i, k - 1);
    }
}


proof fn lemma_error_sum_monotone(e: Seq<(String, usize)>, i: int, k: int)
    requires
        0 <= i <= k <= e.len(),
    ensures
        error_sum(e, i) <= error_sum(e, k),
    decreases k,
{
    if i < k {
        lemma_error_sum_monotone(e, i, k - 1);
    }
}

proof fn lemma_unit_sum_bound(v: Seq<u64>, k: int)
    requires
        0 <= k <= v.len(),
    ensures
        unit_sum(v, k) <= k * 0xffff_ffff_ffff_ffff,
    decreases k,
{
    if k > 0 {
        lemma_unit_sum_bound(v, k - 1);
    }
}

/// The mean of fixed-point values fits a `u64`.
pub proof fn lemma_mean_bound(v: Seq<u64>)
    ensures
        mean(v) <= u64::MAX,
{
    if v.len() > 0 {
        lemma_unit_sum_bound(v, v.len() as int);
        let n = v.len() as int;
        let s = unit_sum(v, n);
        assert((s as int) / n <= 0xffff_ffff_ffff_ffff) by (nonlinear_arith)
            requires
                s <= n * 0xffff_ffff_ffff_ffff,
                n > 0,
                s >= 0,
        ;
    }
}


proof fn lemma_recurring_kind(e: Seq<(String, usize)>, k: int)
    ensures
        forall|i: int|
            0 <= i < recurring_suggestions(e, k).len() ==> (#[trigger] recurring_suggestions(
                e,
                k,
            )[i]).0 == SuggestionType::FixRecurringError,
    decreases k,
{
    if k > 0 {
        lemma_recurring_kind(e, k - 1);
    }
}

/// Rebuilt suggestions hold one to raise confidence exactly when the three
/// most recent confidences average below the low mark, and then it comes
/// first.
pub proof fn lemma_increase_confidence_iff(h: Seq<u64>, e: Seq<(String, usize)>)
    ensures
        (exists|i: int|
            0 <= i < suggestion_plan(h, e).len() && (#[trigger] suggestion_plan(h, e)[i]).0
                == SuggestionType::IncreaseConfidence) <==> recent_confidence_low(h),
        recent_confidence_low(h) ==> suggestion_plan(h, e)[0].0
            == SuggestionType::IncreaseConfidence,
{
    lemma_recurring_kind(e, e.len() as int);
    let plan = suggestion_plan(h, e);
    let rec = recurring_suggestions(e, e.len() as int);
    if recent_confidence_low(h) {
        assert(plan[0].0 == SuggestionType::IncreaseConfidence);
    } else {
        assert(plan =~= rec);
    }
}

/// Mutable aggregate state of a reflection session.
#[derive(Debug, Clone)]
pub struct ReflectionModel {
    pub id: u128,
    pub reasoning_trace: Vec<ReasoningStep>,
    pub confidence_history: Vec<u64>,
    /// Error labels with their counts, in order of first occurrence.
    pub error_patterns: Vec<(String, usize)>,
    pub improvement_suggestions: Vec<Suggestion>,
}

impl Default for ReflectionModel {
    fn default() -> (r: Self)
        ensures
            r.wf(),
            r.reasoning_trace@.len() == 0,
            r.error_patterns@.len() == 0,
            r.improvement_suggestions@.len() == 0,
    {
        ReflectionModel::new()
    }
}

impl ReflectionModel {
    /// The history holds the confidence of each step of the trace, in order;
    /// error labels are distinct, each counted at least once, and their total
    /// fits a `usize`.
    pub open spec fn wf(&self) -> bool {
        &&& self.confidence_history@.len() == self.reasoning_trace@.len()
        &&& forall|i: int|
            0 <= i < self.confidence_history@.len() ==> #[trigger] self.confidence_history@[i]
                == self.reasoning_trace@[i].confidence
        &&& forall|i: int, j: int|
            0 <= i < j < self.error_patterns@.len() ==> (#[trigger] self.error_patterns@[i]).0@
                != (#[trigger] self.error_patterns@[j]).0@
        &&& forall|i: int|
            0 <= i < self.error_patterns@.len() ==> (#[trigger] self.error_patterns@[i]).1 >= 1
        &&& error_total(self.error_patterns@) <= usize::MAX
    }

    /// The insights that the model's state gives.
    pub open spec fn insights_spec(&self) -> MetaCognitiveInsights {
        MetaCognitiveInsights {
            total_steps: self.reasoning_trace@.len() as usize,
            average_confidence: mean(self.confidence_history@) as u64,
            total_errors: error_total(self.error_patterns@) as usize,
            unique_error_types: self.error_patterns@.len() as usize,
            suggestions_count: self.improvement_suggestions@.len() as usize,
        }
    }

    /// An empty model with a fresh identifier.
    pub fn new() -> (r: Self)
        ensures
            r.wf(),
            r.reasoning_trace@.len() == 0,
            r.confidence_history@.len() == 0,
            r.error_patterns@.len() == 0,
            r.improvement_suggestions@.len() == 0,
            r.insights_spec() == (MetaCognitiveInsights {
                total_steps: 0,
                average_confidence: 0,
                total_errors: 0,
                unique_error_types: 0,
                suggestions_count: 0,
            }),
    {
        let r = ReflectionModel {
            id: fresh_id(),
            reasoning_trace: Vec::new(),
            confidence_history: Vec::new(),
            error_patterns: Vec::new(),
            improvement_suggestions: Vec::new(),
        };
        assert(error_total(r.error_patterns@) == 0);
        r
    }

    /// Appends a step to the trace and its confidence to the history.
    pub fn add_step(&mut self, step: ReasoningStep)
        requires
            old(self).wf(),
        ensures
            final(self).wf(),
            final(self).reasoning_trace@ == old(self).reasoning_trace@.push(step),
            final(self).confidence_history@ == old(self).confidence_history@.push(step.confidence),
            final(self).error_patterns@ == old(self).error_patterns@,
            final(self).improvement_suggestions@ == old(self).improvement_suggestions@,
            final(self).id == old(self).id,
    {
        self.confidence_history.push(step.confidence);
        self.reasoning_trace.push(step);
    }

    /// Counts one more occurrence of `error_type`: its counter goes up by
    /// one, or a new counter of one is appended for a label not seen before.
    pub fn record_error(&mut self, error_type: String)
        requires
            old(self).wf(),
            error_total(old(self).error_patterns@) < usize::MAX,
        ensures
            final(self).wf(),
            final(self).reasoning_trace@ == old(self).reasoning_trace@,
            final(self).confidence_history@ == old(self).confidence_history@,
            final(self).improvement_suggestions@ == old(self).improvement_suggestions@,
            final(self).id == old(self).id,
            error_total(final(self).error_patterns@) == error_total(old(self).error_patterns@) + 1,
            (exists|i: int|
                0 <= i < old(self).error_patterns@.len() && (#[trigger] old(self).error_patterns@[i]).0@
                    == error_type@) ==> (exists|i: int|
                0 <= i < old(self).error_patterns@.len() && (#[trigger] old(
                    self,
                ).error_patterns@[i]).0@ == error_type@ && final(self).error_patterns@ == old(
                    self,
                ).error_patterns@.update(
                    i,
                    (old(self).error_patterns@[i].0, (old(self).error_patterns@[i].1 + 1) as usize),
                )),
            (forall|i: int|
                0 <= i < old(self).error_patterns@.len() ==> (#[trigger] old(self).error_patterns@[i]).0@
                    != error_type@) ==> final(self).error_patterns@ == old(self).error_patterns@.push(
                (error_type, 1usize),
            ),
    {
        let ghost e0 = self.error_patterns@;
        let mut i: usize = 0;
        while i < self.error_patterns.len()
            invariant
                i <= self.error_patterns@.len(),
                self.error_patterns@ == e0,
                e0 == old(self).error_patterns@,
                *self == *old(self),
                self.wf(),
                error_total(e0) < usize::MAX,
                forall|j: int| 0 <= j < i ==> (#[trigger] e0[j]).0@ != error_type@,
            decreases self.error_patterns@.len() - i,
        {
            if self.error_patterns[i].0 == error_type {
                let ghost e1 = e0.update(
                    i as int,
                    (e0[i as int].0, (e0[i as int].1 + 1) as usize),
                );
                proof {
                    lemma_error_sum_elem(e0, i as int, e0.len() as int);
                    lemma_error_sum_update(e0, i as int, e0.len() as int);
                }
                let (label, count) = self.error_patterns.remove(i);
                self.error_patterns.insert(i, (label, count + 1));
                assert(self.error_patterns@ =~= e1);
                return;
            }
            i = i + 1;
        }
        self.error_patterns.push((error_type, 1));
        proof {
            let e1 = self.error_patterns@;
            assert(e1.drop_last() =~= e0);
            lemma_error_sum_prefix_eq(e0, e1, e0.len() as int);
        }
    }

    /// Rebuilds the suggestions from scratch: one to raise confidence where
    /// the three most recent confidences average below the low mark, then one
    /// for each error label counted more than the recurring limit, in counter
    /// order.
    pub fn generate_suggestions(&mut self)
        requires
            old(self).wf(),
        ensures
            final(self).wf(),
            final(self).reasoning_trace@ == old(self).reasoning_trace@,
            final(self).confidence_history@ == old(self).confidence_history@,
            final(self).error_patterns@ == old(self).error_patterns@,
            final(self).id == old(self).id,
            final(self).improvement_suggestions@.len() == suggestion_plan(
                old(self).confidence_history@,
                old(self).error_patterns@,
            ).len(),
            forall|i: int|
                0 <= i < final(self).improvement_suggestions@.len() ==> (#[trigger] final(self).improvement_suggestions@[i]).summary() == suggestion_plan(
                    old(self).confidence_history@,
                    old(self).error_patterns@,
                )[i],
    {
        let ghost h = self.confidence_history@;
        let ghost e = self.error_patterns@;
        self.improvement_suggestions = Vec::new();
        let n = self.confidence_history.len();
        if n >= 3 {
            let recent: u128 = self.confidence_history[n - 1] as u128
                + self.confidence_history[n - 2] as u128 + self.confidence_history[n - 3] as u128;
            if recent < 3 * LOW_CONFIDENCE_AVERAGE as u128 {
                let description = String::from_str(
                    "Recent confidence scores are low. Consider additional validation.",
                );
                self.improvement_suggestions.push(
                    Suggestion {
                        id: fresh_id(),
                        suggestion_type: SuggestionType::IncreaseConfidence,
                        description,
                        priority: LOW_CONFIDENCE_PRIORITY,
                    },
                );
            }
        }
        let ghost first = self.improvement_suggestions@.len() as int;
        assert(first == suggestion_plan(h, e).len() - recurring_suggestions(e, e.len() as int).len());
        let mut i: usize = 0;
        while i < self.error_patterns.len()
            invariant
                i <= e.len(),
                self.error_patterns@ == e,
                self.confidence_history@ == h,
                self.reasoning_trace@ == old(self).reasoning_trace@,
                self.id == old(self).id,
                e == old(self).error_patterns@,
                h == old(self).confidence_history@,
                old(self).wf(),
                0 <= first <= 1,
                first == 1 <==> recent_confidence_low(h),
                self.improvement_suggestions@.len() == first + recurring_suggestions(e, i as int).len(),
                forall|j: int|
                    0 <= j < first ==> (#[trigger] self.improvement_suggestions@[j]).summary()
                        == suggestion_plan(h, e)[j],
                forall|j: int|
                    0 <= j < recurring_suggestions(e, i as int).len() ==> (
                    #[trigger] self.improvement_suggestions@[first + j]).summary()
                        == recurring_suggestions(e, i as int)[j],
            decreases e.len() - i,
        {
            let count = self.error_patterns[i].1;
            if count > RECURRING_ERROR_LIMIT {
                let mut description = String::from_str("Recurring error: ");
                description.append(self.error_patterns[i].0.as_str());
                description.append(". Occurred ");
                push_decimal(&mut description, count as u128);
                description.append(" times.");
                assert(description@ == recurring_text(e[i as int].0@, count as nat));
                self.improvement_suggestions.push(
                    Suggestion {
                        id: fresh_id(),
                        suggestion_type: SuggestionType::FixRecurringError,
                        description,
                        priority: RECURRING_ERROR_PRIORITY,
                    },
                );
            }
            i = i + 1;
        }
        proof {
            let plan = suggestion_plan(h, e);
            let rec = recurring_suggestions(e, e.len() as int);
            assert forall|j: int| 0 <= j < self.improvement_suggestions@.len() implies (
            #[trigger] self.improvement_suggestions@[j]).summary() == plan[j] by {
                if j >= first {
                    assert(self.improvement_suggestions@[first + (j - first)].summary() == rec[j
                        - first]);
                }
            }
        }
    }

    /// Figures of the current state: steps, mean confidence (zero for none),
    /// total and distinct errors, and current suggestions.
    pub fn get_insights(&self) -> (r: MetaCognitiveInsights)
        requires
            self.wf(),
        ensures
            r == self.insights_spec(),
    {
        let n = self.confidence_history.len();
        let mut sum: u128 = 0;
        let mut i: usize = 0;
        while i < n
            invariant
                i <= n,
                n == self.confidence_history@.len(),
                sum == unit_sum(self.confidence_history@, i as int),
                sum <= i * 0xffff_ffff_ffff_ffff,
            decreases n - i,
        {
            sum = sum + self.confidence_history[i] as u128;
            i = i + 1;
        }
        let average: u64 = if n == 0 {
            0
        } else {
            proof {
                lemma_mean_bound(self.confidence_history@);
            }
            (sum / n as u128) as u64
        };
        let mut errors: usize = 0;
        let mut k: usize = 0;
        while k < self.error_patterns.len()
            invariant
                k <= self.error_patterns@.len(),
                self.wf(),
                errors == error_sum(self.error_patterns@, k as int),
            decreases self.error_patterns@.len() - k,
        {
            proof {
                lemma_error_sum_monotone(self.error_patterns@, k as int + 1, self.error_patterns@.len() as int);
            }
            errors = errors + self.error_patterns[k].1;
            k = k + 1;
        }
        MetaCognitiveInsights {
            total_steps: self.reasoning_trace.len(),
            average_confidence: average,
            total_errors: errors,
            unique_error_types: self.error_patterns.len(),
            suggestions_count: self.improvement_suggestions.len(),
        }
    }
}

} // verus!
