//! A reflection engine: it scores a query with a cheap textual analysis and a
//! sampling step, keeps a trace of reasoning steps with derived aggregates,
//! refines its confidence over bounded repeated passes, and checks the trace
//! against governance thresholds.
//!
//! Fractions (probabilities, confidences, priorities, thresholds) are
//! fixed-point `u64` values counted in millionths; see `fixed::UNIT`.
use vstd::prelude::*;

pub mod fixed;
pub mod sampler;
pub mod model;
pub mod text;
pub mod quantum;
pub mod engine;
pub mod govern;
pub mod loader;
pub mod hub;

pub use fixed::UNIT;
pub use sampler::{QuantumSampler, SamplerError, SamplingResult};
pub use model::{ReflectionModel, ReasoningStep, StepType, Suggestion, SuggestionType,
    MetaCognitiveInsights};
pub use quantum::QuantumReflector;
pub use engine::{ReflectionEngine, ReflectionResult, DeepReflectionResult};
pub use govern::{ReflectionGovernance, ReflectionRules, ReflectionValidation, ApprovedSuggestion,
    QualityReport};
pub use loader::{BioGraphLoader, LoaderStats, BioCorpusDoc};
pub use hub::{GovernanceRules, Submission, ValidationResult};

verus! {

} // verus!
