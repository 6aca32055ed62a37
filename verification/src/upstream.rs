//! The estimator worker's contract: its metadata, the request sent for one
//! plan and the response it returns.

use vstd::prelude::*;

use crate::approximation::ApproximationMetadata;
use crate::canonical::EstimatorContext;
use crate::domain::{
    Attack, EstimatorProblem, ExactDecimal, NormalizedMetric, ReductionCostModel,
    ReductionShapeModel, ResolvedAnalysisSettings,
};
use crate::text::text_equals;

verus! {

/// Version of the worker request schema.
pub const WORKER_SCHEMA_VERSION: u32 = 2;

/// What the worker reports about itself. The support matrix and the
/// dependency graph are kept as JSON text.
#[derive(Debug)]
pub struct Metadata {
    pub adapter_schema_version: u64,
    pub dependency_graph_version: u64,
    pub estimator_commit: String,
    pub sage_version: String,
    pub adapter_version: String,
    pub worker_image: String,
    pub platform: String,
    pub support_matrix: String,
    pub dependency_graph: String,
    pub adaptive_attacks: Vec<Attack>,
    pub slow_attack_applicability_rule_version: u32,
    pub approximation: ApproximationMetadata,
}

/// The estimator context that a worker with this metadata stands for.
pub open spec fn context_of(m: Metadata) -> (Seq<char>, Seq<char>, Seq<char>, Seq<char>) {
    (m.estimator_commit@, m.sage_version@, m.adapter_version@, m.worker_image@)
}

pub open spec fn context_fields(c: EstimatorContext) -> (Seq<char>, Seq<char>, Seq<char>, Seq<char>) {
    (c.estimator_commit@, c.sage_version@, c.adapter_version@, c.worker_image@)
}

impl Metadata {
    /// The estimator context: commit, Sage version, adapter version and image.
    pub fn context(&self) -> (r: EstimatorContext)
        ensures
            context_fields(r) == context_of(*self),
    {
        EstimatorContext {
            estimator_commit: self.estimator_commit.clone(),
            sage_version: self.sage_version.clone(),
            adapter_version: self.adapter_version.clone(),
            worker_image: self.worker_image.clone(),
        }
    }

    /// Whether a response came from the worker this metadata describes.
    pub fn matches_provenance(&self, provenance: &WorkerProvenance) -> (r: bool)
        ensures
            r == (context_of(*self) == provenance_fields(*provenance)),
    {
        text_equals(provenance.estimator_commit.as_str(), self.estimator_commit.as_str())
            && text_equals(provenance.sage_version.as_str(), self.sage_version.as_str())
            && text_equals(provenance.adapter_version.as_str(), self.adapter_version.as_str())
            && text_equals(provenance.worker_image.as_str(), self.worker_image.as_str())
    }
}

#[derive(Clone, Copy, Debug, PartialEq, Eq, Structural)]
pub struct WorkerModels {
    pub cost_model: ReductionCostModel,
    pub shape_model: ReductionShapeModel,
}

/// One estimator plan: the problem, the reduction models and the attacks to
/// run within a time limit.
#[derive(Debug)]
pub struct WorkerRequest {
    pub schema_version: u32,
    pub problem: EstimatorProblem,
    pub models: WorkerModels,
    pub target_attacks: Vec<Attack>,
    pub timeout_seconds: u64,
}

impl WorkerRequest {
    pub fn new(
        problem: EstimatorProblem,
        analysis: &ResolvedAnalysisSettings,
        target_attacks: Vec<Attack>,
        timeout_seconds: u64,
    ) -> (r: Self)
        ensures
            r.schema_version == WORKER_SCHEMA_VERSION,
            r.problem == problem,
            r.models == (WorkerModels {
                cost_model: analysis.cost_model,
                shape_model: analysis.shape_model,
            }),
            r.target_attacks@ == target_attacks@,
            r.timeout_seconds == timeout_seconds,
    {
        WorkerRequest {
            schema_version: WORKER_SCHEMA_VERSION,
            problem,
            models: WorkerModels { cost_model: analysis.cost_model, shape_model: analysis.shape_model },
            target_attacks,
            timeout_seconds,
        }
    }
}

#[derive(Debug)]
pub struct WorkerProvenance {
    pub estimator_commit: String,
    pub sage_version: String,
    pub adapter_version: String,
    pub worker_image: String,
}

pub open spec fn provenance_fields(p: WorkerProvenance) -> (Seq<char>, Seq<char>, Seq<char>, Seq<char>) {
    (p.estimator_commit@, p.sage_version@, p.adapter_version@, p.worker_image@)
}

/// Whether a result answers a requested attack or supports another one.
#[derive(Clone, Copy, Debug, PartialEq, Eq, Structural)]
pub enum ResultRole {
    Target,
    Support,
}

/// What the worker found for one attack. A raw result is JSON text.
#[derive(Debug)]
pub enum WorkerOutcome {
    Computed { security_bits: ExactDecimal, metrics: Vec<(String, NormalizedMetric)> },
    NoFiniteEstimate { code: String, reason: String, raw_result: Option<String> },
    Unsupported { code: String, reason: String },
    Failed { code: String, message: String, retryable: bool },
}

#[derive(Debug)]
pub struct WorkerAttackExecution {
    pub attack: Attack,
    pub role: ResultRole,
    pub outcome: WorkerOutcome,
}

#[derive(Debug)]
pub struct WorkerResponse {
    pub results: Vec<WorkerAttackExecution>,
    pub duration_ms: u64,
    pub provenance: WorkerProvenance,
}

} // verus!
