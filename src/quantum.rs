//! The reflector: a probability vector from textual features, sampling, and
//! a confidence from the entropy of what was sampled.
use vstd::prelude::*;
use vstd::string::*;
use crate::fixed::{UNIT, LOG_ONE, decimal, decimal_2, push_decimal, push_decimal_2, log2_scaled,
    log2_fixed, lemma_log2_scaled_bounds};
use crate::sampler::{QuantumSampler, SamplerError, selections, sample_with_draws, annealed};
use crate::model::{ReasoningStep, StepType};
use crate::text::{word_count, count_words, count_chars};

verus! {

/// Temperature of the reflector's sampler: one half.
pub const REFLECTOR_TEMPERATURE: u64 = 500_000;

/// Draws per reflection.
pub const REFLECTOR_SAMPLES: usize = 100;

/// Number of categories of the feature vector.
pub const FEATURE_COUNT: usize = 3;

/// Length feature: the character count over 100, capped at one unit.
pub open spec fn length_feature(chars: nat) -> nat {
    if chars >= 100 {
        UNIT as nat
    } else {
        chars * 10000
    }
}

/// Word feature: the word count over 20, capped at one unit.
pub open spec fn word_feature(words: nat) -> nat {
    if words >= 20 {
        UNIT as nat
    } else {
        words * 50000
    }
}

/// The feature vector of a text: length feature, word feature and a baseline
/// of one half, each divided by the number of features (rounded down). The
/// entries sum to at most five sixths of a unit, so a draw may select none.
pub open spec fn feature_probabilities(s: Seq<char>) -> Seq<u64> {
    seq![
        (length_feature(s.len()) / 3) as u64,
        (word_feature(word_count(s)) / 3) as u64,
        (UNIT / 2 / 3) as u64,
    ]
}

/// How often `c` occurs in `s`.
pub open spec fn occurrences(s: Seq<usize>, c: int) -> nat
    decreases s.len(),
{
    if s.len() == 0 {
        0
    } else {
        occurrences(s.drop_last(), c) + if s.last() == c {
            1nat
        } else {
            0nat
        }
    }
}

/// How many entries of `s` are below `j`.
pub open spec fn count_below(s: Seq<usize>, j: int) -> nat
    decreases s.len(),
{
    if s.len() == 0 {
        0
    } else {
        count_below(s.drop_last(), j) + if s.last() < j {
            1nat
        } else {
            0nat
        }
    }
}

/// Occurrences of the categories below `j`, summed.
pub open spec fn occurrence_sum(s: Seq<usize>, j: int) -> nat
    decreases j,
{
    if j <= 0 {
        0
    } else {
        occurrence_sum(s, j - 1) + occurrences(s, j - 1)
    }
}

/// `x * log2(x)`, scaled, for a count `x`; zero for zero.
pub open spec fn count_log(x: nat) -> nat {
    if x == 0 {
        0
    } else {
        x * log2_scaled(x)
    }
}

/// `count_log` of the occurrences of the categories below `j`, summed.
pub open spec fn count_log_sum(s: Seq<usize>, j: int) -> nat
    decreases j,
{
    if j <= 0 {
        0
    } else {
        count_log_sum(s, j - 1) + count_log(occurrences(s, j - 1))
    }
}

/// `T` times the entropy (scaled) of the observed distribution over `k`
/// categories of `T` samples: the sum over categories of
/// `count * (log2(T) - log2(count))`, taken as zero if rounding made it
/// negative. Samples outside the categories count in `T` only.
pub open spec fn scaled_entropy_mass(s: Seq<usize>, k: int) -> nat {
    let a = occurrence_sum(s, k) * log2_scaled(s.len());
    let b = count_log_sum(s, k);
    if a >= b {
        (a - b) as nat
    } else {
        0
    }
}

/// Confidence from samples over `k` categories: one unit less the entropy
/// over the maximal entropy `log2(k)`, the ratio capped at one unit. No
/// samples, or fewer than two categories, give zero.
pub open spec fn sample_confidence(s: Seq<usize>, k: nat) -> nat {
    if s.len() == 0 || k <= 1 {
        0
    } else {
        let ratio = (UNIT * scaled_entropy_mass(s, k as int)) as int / ((s.len() * log2_scaled(k)) as int);
        if ratio >= UNIT {
            0
        } else {
            (UNIT - ratio) as nat
        }
    }
}

/// Output text of a reflection step.
pub open spec fn reflection_text(samples: nat, confidence: nat) -> Seq<char> {
    "Quantum reflection: sampled "@ + decimal(samples) + " states, confidence: "@ + decimal_2(
        confidence,
    )
}

proof fn lemma_below_step(s: Seq<usize>, j: int)
    ensures
        count_below(s, j + 1) == count_below(s, j) + occurrences(s, j),
    decreases s.len(),
{
    if s.len() > 0 {
        lemma_below_step(s.drop_last(), j);
    }
}

proof fn lemma_below_le_len(s: Seq<usize>, j: int)
    ensures
        count_below(s, j) <= s.len(),
    decreases s.len(),
{
    if s.len() > 0 {
        lemma_below_le_len(s.drop_last(), j);
    }
}

proof fn lemma_below_zero(s: Seq<usize>)
    ensures
        count_below(s, 0) == 0,
    decreases s.len(),
{
    if s.len() > 0 {
        lemma_below_zero(s.drop_last());
    }
}

proof fn lemma_occurrence_sum(s: Seq<usize>, j: int)
    requires
        j >= 0,
    ensures
        occurrence_sum(s, j) == count_below(s, j),
        occurrence_sum(s, j) <= s.len(),
    decreases j,
{
    if j > 0 {
        lemma_occurrence_sum(s, j - 1);
        lemma_below_step(s, j - 1);
    } else {
        lemma_below_zero(s);
    }
    lemma_below_le_len(s, j);
}

proof fn lemma_count_log_sum_bound(s: Seq<usize>, j: int)
    requires
        j >= 0,
        s.len() <= u64::MAX,
    ensures
        count_log_sum(s, j) <= 65 * LOG_ONE * occurrence_sum(s, j),
    decreases j,
{
    if j > 0 {
        lemma_count_log_sum_bound(s, j - 1);
        let x = occurrences(s, j - 1);
        lemma_occurrence_sum(s, j);
        if x > 0 {
            lemma_log2_scaled_bounds(x);
            assert(x * log2_scaled(x) <= 65 * LOG_ONE * x) by (nonlinear_arith)
                requires
                    log2_scaled(x) < 65 * LOG_ONE,
            ;
        }
        assert(65 * LOG_ONE * occurrence_sum(s, j - 1) + 65 * LOG_ONE * x == 65 * LOG_ONE
            * occurrence_sum(s, j)) by (nonlinear_arith)
            requires
                occurrence_sum(s, j) == occurrence_sum(s, j - 1) + x,
        ;
    }
}

proof fn lemma_occurrences_push(s: Seq<usize>, x: usize, c: int)
    ensures
        occurrences(s.push(x), c) == occurrences(s, c) + if x == c {
            1nat
        } else {
            0nat
        },
{
    assert(s.push(x).drop_last() =~= s);
}

/// Confidence from samples over `num_categories` categories, by the
/// entropy of the observed distribution.
pub fn sample_confidence_of(samples: &[usize], num_categories: usize) -> (r: u64)
    ensures
        r == sample_confidence(samples@, num_categories as nat),
        r <= UNIT,
{
    let t = samples.len();
    if t == 0 || num_categories <= 1 {
        return 0;
    }
    let mut counts: Vec<usize> = Vec::new();
    let mut c: usize = 0;
    while c < num_categories
        invariant
            c <= num_categories,
            counts@.len() == c,
            forall|j: int| 0 <= j < c ==> #[trigger] counts@[j] == 0,
        decreases num_categories - c,
    {
        counts.push(0);
        c = c + 1;
    }
    let mut i: usize = 0;
    while i < t
        invariant
            i <= t,
            t == samples@.len(),
            counts@.len() == num_categories,
            forall|j: int|
                0 <= j < num_categories ==> #[trigger] counts@[j] == occurrences(
                    samples@.subrange(0, i as int),
                    j,
                ),
            forall|j: int| 0 <= j < num_categories ==> #[trigger] counts@[j] <= i,
        decreases t - i,
    {
        let ghost before = samples@.subrange(0, i as int);
        assert(samples@.subrange(0, i + 1) =~= before.push(samples@[i as int]));
        proof {
            assert forall|j: int| 0 <= j < num_categories implies #[trigger] occurrences(
                samples@.subrange(0, i + 1),
                j,
            ) == occurrences(before, j) + if samples@[i as int] == j {
                1nat
            } else {
                0nat
            } by {
                lemma_occurrences_push(before, samples@[i as int], j);
            }
        }
        let s = samples[i];
        if s < num_categories {
            let v = counts[s];
            counts.set(s, v + 1);
        }
        i = i + 1;
    }
    assert(samples@.subrange(0, t as int) =~= samples@);
    let lg_t = log2_fixed(t as u64) as u128;
    let mut counted: u128 = 0;
    let mut mass: u128 = 0;
    let mut k: usize = 0;
    while k < num_categories
        invariant
            k <= num_categories,
            t == samples@.len(),
            t > 0,
            counts@.len() == num_categories,
            forall|j: int| 0 <= j < num_categories ==> #[trigger] counts@[j] == occurrences(samples@, j),
            counted == occurrence_sum(samples@, k as int),
            mass == count_log_sum(samples@, k as int),
        decreases num_categories - k,
    {
        proof {
            lemma_occurrence_sum(samples@, k + 1);
            lemma_count_log_sum_bound(samples@, k + 1);
            assert(65 * LOG_ONE * occurrence_sum(samples@, k + 1) <= 65 * LOG_ONE * 0x1_0000_0000_0000_0000)
                by (nonlinear_arith)
                requires
                    occurrence_sum(samples@, k + 1) <= t,
                    t <= u64::MAX,
            ;
        }
        let x = counts[k];
        counted = counted + x as u128;
        if x > 0 {
            let lg = log2_fixed(x as u64) as u128;
            assert(x * lg == count_log(x as nat));
            mass = mass + x as u128 * lg;
        }
        k = k + 1;
    }
    proof {
        lemma_occurrence_sum(samples@, num_categories as int);
        lemma_log2_scaled_bounds(t as nat);
        lemma_log2_scaled_bounds(num_categories as nat);
        assert(counted * lg_t <= 0x1_0000_0000_0000_0000 * (65 * LOG_ONE)) by (nonlinear_arith)
            requires
                counted <= t,
                t <= u64::MAX,
                lg_t < 65 * LOG_ONE,
        ;
    }
    let a = counted * lg_t;
    let entropy_mass: u128 = if a >= mass {
        a - mass
    } else {
        0
    };
    let lg_k = log2_fixed(num_categories as u64) as u128;
    assert(t * lg_k <= 0x1_0000_0000_0000_0000 * (65 * LOG_ONE)) by (nonlinear_arith)
        requires
            t <= u64::MAX,
            lg_k < 65 * LOG_ONE,
    ;
    let denominator = t as u128 * lg_k;
    assert(denominator > 0) by (nonlinear_arith)
        requires
            t > 0,
            lg_k >= LOG_ONE,
            denominator == t * lg_k,
    ;
    assert(UNIT * entropy_mass <= UNIT * (0x1_0000_0000_0000_0000 * (65 * LOG_ONE))) by (
    nonlinear_arith)
        requires
            entropy_mass <= a,
            a <= 0x1_0000_0000_0000_0000 * (65 * LOG_ONE),
    ;
    let ratio = UNIT as u128 * entropy_mass / denominator;
    if ratio >= UNIT as u128 {
        0
    } else {
        (UNIT as u128 - ratio) as u64
    }
}

/// A reflector: samples the feature vector of a text and turns the spread
/// of the samples into a confidence.
pub struct QuantumReflector {
    pub sampler: QuantumSampler,
}

impl Default for QuantumReflector {
    fn default() -> (r: Self)
        ensures
            r.sampler.temperature == REFLECTOR_TEMPERATURE,
            r.sampler.num_samples == REFLECTOR_SAMPLES,
    {
        QuantumReflector::new()
    }
}

impl QuantumReflector {
    /// A reflector at temperature one half drawing 100 samples.
    pub fn new() -> (r: Self)
        ensures
            r.sampler.temperature == REFLECTOR_TEMPERATURE,
            r.sampler.num_samples == REFLECTOR_SAMPLES,
    {
        QuantumReflector { sampler: QuantumSampler::new(REFLECTOR_TEMPERATURE, REFLECTOR_SAMPLES) }
    }

    /// The feature vector of `input`.
    pub fn compute_probabilities(&self, input: &str) -> (r: Vec<u64>)
        ensures
            r@ == feature_probabilities(input@),
    {
        let chars = count_chars(input);
        let words = count_words(input);
        let length: u64 = if chars >= 100 {
            UNIT
        } else {
            chars as u64 * 10000
        };
        let wordy: u64 = if words >= 20 {
            UNIT
        } else {
            words as u64 * 50000
        };
        let r = vec![length / 3, wordy / 3, UNIT / 2 / 3];
        assert(r@ =~= feature_probabilities(input@));
        r
    }

    /// Confidence from `samples` over the categories of `probabilities`.
    pub fn compute_confidence(&self, samples: &[usize], probabilities: &[u64]) -> (r: u64)
        ensures
            r == sample_confidence(samples@, probabilities@.len()),
            r <= UNIT,
    {
        sample_confidence_of(samples, probabilities.len())
    }

    /// The validation step for `input` given the sampler's draws: the
    /// categories the draws select from the feature vector, and the
    /// confidence their entropy gives.
    pub fn reflect_with_draws(&self, input: &str, draws: &[u64]) -> (r: ReasoningStep)
        ensures
            r.step_type == StepType::Validation,
            r.input@ == input@,
            r.confidence == sample_confidence(
                selections(feature_probabilities(input@), draws@),
                FEATURE_COUNT as nat,
            ),
            r.output@ == reflection_text(
                selections(feature_probabilities(input@), draws@).len(),
                r.confidence as nat,
            ),
            r.confidence <= UNIT,
    {
        let probabilities = self.compute_probabilities(input);
        let samples = sample_with_draws(probabilities.as_slice(), draws);
        let confidence = self.compute_confidence(samples.as_slice(), probabilities.as_slice());
        self.make_step(input, samples.len(), confidence)
    }

    /// Samples the feature vector of `input` and returns the validation step
    /// with the confidence of what was sampled.
    pub fn reflect(&self, input: &str) -> (r: ReasoningStep)
        ensures
            r.step_type == StepType::Validation,
            r.input@ == input@,
            r.confidence <= UNIT,
            exists|d: Seq<u64>|
                d.len() == self.sampler.num_samples && (forall|k: int|
                    0 <= k < d.len() ==> #[trigger] d[k] < UNIT) && r.confidence
                    == sample_confidence(
                    selections(feature_probabilities(input@), d),
                    FEATURE_COUNT as nat,
                ) && r.output@ == reflection_text(
                    selections(feature_probabilities(input@), d).len(),
                    r.confidence as nat,
                ),
    {
        let probabilities = self.compute_probabilities(input);
        let samples = self.sampler.sample(probabilities.as_slice());
        let confidence = self.compute_confidence(samples.as_slice(), probabilities.as_slice());
        self.make_step(input, samples.len(), confidence)
    }

    /// Anneals `probabilities` at the reflector's temperature.
    pub fn anneal_reflection(&self, probabilities: &[u64]) -> (r: Result<Vec<u64>, SamplerError>)
        ensures
            self.sampler.temperature == 0 ==> r == Err::<Vec<u64>, SamplerError>(
                SamplerError::InvalidParameter,
            ),
            self.sampler.temperature > 0 ==> (r matches Ok(v) && v@ == annealed(
                probabilities@,
                self.sampler.temperature,
            )),
    {
        self.sampler.anneal(probabilities)
    }

    fn make_step(&self, input: &str, count: usize, confidence: u64) -> (r: ReasoningStep)
        ensures
            r.step_type == StepType::Validation,
            r.input@ == input@,
            r.confidence == confidence,
            r.output@ == reflection_text(count as nat, confidence as nat),
    {
        let mut output = String::from_str("Quantum reflection: sampled ");
        push_decimal(&mut output, count as u128);
        output.append(" states, confidence: ");
        push_decimal_2(&mut output, confidence as u128);
        ReasoningStep::new(StepType::Validation, String::from_str(input), output, confidence)
    }
}

} // verus!
