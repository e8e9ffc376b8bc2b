//! Governance of submissions to the open hub: thresholds on confidence,
//! provenance and quality, and a list of trusted sources.
use vstd::prelude::*;
use vstd::string::*;
use crate::fixed::{decimal, decimal_2, push_decimal, push_decimal_2};

verus! {

/// Rules for submissions; confidence and quality are in fixed point.
#[derive(Debug, Clone)]
pub struct GovernanceRules {
    pub min_confidence: u64,
    pub min_provenance_count: usize,
    pub allowed_sources: Vec<String>,
    pub quality_threshold: u64,
    pub review_required: bool,
}

/// A submission to the hub; confidence and quality are in fixed point.
#[derive(Debug, Clone)]
pub struct Submission {
    pub id: String,
    pub content: String,
    pub confidence: u64,
    pub provenance: Vec<String>,
    pub quality_score: u64,
    pub metadata: Vec<(String, String)>,
}

/// Verdict on a submission.
#[derive(Debug, Clone)]
pub struct ValidationResult {
    pub valid: bool,
    pub errors: Vec<String>,
    pub warnings: Vec<String>,
    pub requires_review: bool,
}

/// Whether `source` is among `allowed`.
pub open spec fn source_allowed(allowed: Seq<String>, source: Seq<char>) -> bool {
    exists|i: int| 0 <= i < allowed.len() && (#[trigger] allowed[i])@ == source
}

/// The source warnings for the first `k` provenance entries, in order.
pub open spec fn source_warnings(allowed: Seq<String>, provenance: Seq<String>, k: int) -> Seq<
    Seq<char>,
>
    decreases k,
{
    if k <= 0 {
        seq![]
    } else {
        let prev = source_warnings(allowed, provenance, k - 1);
        if source_allowed(allowed, provenance[k - 1]@) {
            prev
        } else {
            prev.push("Source "@ + provenance[k - 1]@ + " not in allowed list"@)
        }
    }
}

/// The errors that the rules give for a submission, in order.
pub open spec fn submission_errors(rules: GovernanceRules, s: Submission) -> Seq<Seq<char>> {
    let confidence: Seq<Seq<char>> = if s.confidence < rules.min_confidence {
        seq![
            "Confidence "@ + decimal_2(s.confidence as nat) + " below minimum "@ + decimal_2(
                rules.min_confidence as nat,
            ),
        ]
    } else {
        seq![]
    };
    let provenance: Seq<Seq<char>> = if s.provenance@.len() < rules.min_provenance_count {
        seq![
            "Provenance count "@ + decimal(s.provenance@.len()) + " below minimum "@ + decimal(
                rules.min_provenance_count as nat,
            ),
        ]
    } else {
        seq![]
    };
    confidence + provenance
}

/// The warnings that the rules give for a submission, in order.
pub open spec fn submission_warnings(rules: GovernanceRules, s: Submission) -> Seq<Seq<char>> {
    let quality: Seq<Seq<char>> = if s.quality_score < rules.quality_threshold {
        seq![
            "Quality score "@ + decimal_2(s.quality_score as nat) + " below threshold "@
                + decimal_2(rules.quality_threshold as nat),
        ]
    } else {
        seq![]
    };
    source_warnings(rules.allowed_sources@, s.provenance@, s.provenance@.len() as int) + quality
}

/// Whether `source` is among `allowed`.
pub fn is_allowed_source(allowed: &Vec<String>, source: &String) -> (r: bool)
    ensures
        r == source_allowed(allowed@, source@),
{
    let mut i: usize = 0;
    while i < allowed.len()
        invariant
            i <= allowed@.len(),
            forall|j: int| 0 <= j < i ==> (#[trigger] allowed@[j])@ != source@,
        decreases allowed@.len() - i,
    {
        if allowed[i] == *source {
            return true;
        }
        i = i + 1;
    }
    false
}

impl GovernanceRules {
    /// Minimum confidence 0.7, at least two provenance entries, sources
    /// PubMed, bioRxiv and medRxiv, quality threshold 0.8, review required.
    pub fn default_rules() -> (r: Self)
        ensures
            r.min_confidence == 700_000,
            r.min_provenance_count == 2,
            r.allowed_sources@.len() == 3,
            r.allowed_sources@[0]@ == "PubMed"@,
            r.allowed_sources@[1]@ == "bioRxiv"@,
            r.allowed_sources@[2]@ == "medRxiv"@,
            r.quality_threshold == 800_000,
            r.review_required,
    {
        let mut allowed_sources: Vec<String> = Vec::new();
        allowed_sources.push(String::from_str("PubMed"));
        allowed_sources.push(String::from_str("bioRxiv"));
        allowed_sources.push(String::from_str("medRxiv"));
        GovernanceRules {
            min_confidence: 700_000,
            min_provenance_count: 2,
            allowed_sources,
            quality_threshold: 800_000,
            review_required: true,
        }
    }

    /// Checks a submission: errors for low confidence and too little
    /// provenance; warnings for each source not allowed and for low quality.
    /// Review is required where the rules always ask for it or on any warning.
    pub fn validate_submission(&self, submission: &Submission) -> (r: ValidationResult)
        ensures
            r.errors@.len() == submission_errors(*self, *submission).len(),
            forall|i: int|
                0 <= i < r.errors@.len() ==> (#[trigger] r.errors@[i])@ == submission_errors(
                    *self,
                    *submission,
                )[i],
            r.warnings@.len() == submission_warnings(*self, *submission).len(),
            forall|i: int|
                0 <= i < r.warnings@.len() ==> (#[trigger] r.warnings@[i])@ == submission_warnings(
                    *self,
                    *submission,
                )[i],
            r.valid == (submission_errors(*self, *submission).len() == 0),
            r.requires_review == (self.review_required || submission_warnings(
                *self,
                *submission,
            ).len() > 0),
    {
        let mut errors: Vec<String> = Vec::new();
        if submission.confidence < self.min_confidence {
            let mut message = String::from_str("Confidence ");
            push_decimal_2(&mut message, submission.confidence as u128);
            message.append(" below minimum ");
            push_decimal_2(&mut message, self.min_confidence as u128);
            errors.push(message);
        }
        let count = submission.provenance.len();
        if count < self.min_provenance_count {
            let mut message = String::from_str("Provenance count ");
            push_decimal(&mut message, count as u128);
            message.append(" below minimum ");
            push_decimal(&mut message, self.min_provenance_count as u128);
            errors.push(message);
        }
        let ghost expected_errors = submission_errors(*self, *submission);
        assert(errors@.len() == expected_errors.len());
        let mut warnings: Vec<String> = Vec::new();
        let mut i: usize = 0;
        while i < count
            invariant
                i <= count,
                count == submission.provenance@.len(),
                warnings@.len() == source_warnings(
                    self.allowed_sources@,
                    submission.provenance@,
                    i as int,
                ).len(),
                forall|j: int|
                    0 <= j < warnings@.len() ==> (#[trigger] warnings@[j])@ == source_warnings(
                        self.allowed_sources@,
                        submission.provenance@,
                        i as int,
                    )[j],
            decreases count - i,
        {
            let source = &submission.provenance[i];
            if !is_allowed_source(&self.allowed_sources, source) {
                let mut message = String::from_str("Source ");
                message.append(source.as_str());
                message.append(" not in allowed list");
                warnings.push(message);
            }
            i = i + 1;
        }
        let mut quality: Vec<String> = Vec::new();
        if submission.quality_score < self.quality_threshold {
            let mut message = String::from_str("Quality score ");
            push_decimal_2(&mut message, submission.quality_score as u128);
            message.append(" below threshold ");
            push_decimal_2(&mut message, self.quality_threshold as u128);
            quality.push(message);
        }
        warnings.append(&mut quality);
        let requires_review = self.review_required || warnings.len() > 0;
        ValidationResult { valid: errors.len() == 0, errors, warnings, requires_review }
    }
}

} // verus!
