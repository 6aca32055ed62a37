//! Public documents: parameter sets, security reports and estimate requests.

use vstd::prelude::*;

use crate::domain::{
    AnalysisModel, AnalysisSettings, Attack, AttackOutcome, ExactDecimal, Problem,
    ResolvedAnalysisSettings, clone_strings,
};

verus! {

#[derive(Debug, PartialEq)]
pub struct ParameterCase {
    pub id: String,
    pub name: String,
    pub description: Option<String>,
    pub tags: Vec<String>,
    pub problem: Problem,
    pub analysis: AnalysisSettings,
}

/// Equal cases; tag lists are compared by their elements.
pub open spec fn same_case(a: ParameterCase, b: ParameterCase) -> bool {
    &&& a.id == b.id
    &&& a.name == b.name
    &&& a.description == b.description
    &&& a.tags@ == b.tags@
    &&& a.problem == b.problem
    &&& a.analysis == b.analysis
}

impl Clone for ParameterCase {
    fn clone(&self) -> (r: Self)
        ensures
            same_case(r, *self),
    {
        ParameterCase {
            id: self.id.clone(),
            name: self.name.clone(),
            description: match &self.description {
                Some(d) => Some(d.clone()),
                None => None,
            },
            tags: clone_strings(&self.tags),
            problem: self.problem.clone(),
            analysis: self.analysis,
        }
    }
}

#[derive(Clone, Debug, PartialEq)]
pub struct ParameterSetFile {
    pub format: String,
    pub version: u32,
    pub id: String,
    pub name: String,
    pub description: Option<String>,
    pub tags: Vec<String>,
    pub cases: Vec<ParameterCase>,
}

#[derive(Clone, Debug, PartialEq)]
pub struct SecuritySummary {
    pub security_bits: Option<ExactDecimal>,
    pub best_attack: Option<Attack>,
    pub complete: bool,
    pub fast_estimate: bool,
    pub warnings: Vec<String>,
}

#[derive(Clone, Debug, PartialEq)]
pub struct AttackResult {
    pub attack: Attack,
    pub cached: bool,
    pub outcome: AttackOutcome,
}

#[derive(Clone, Debug, PartialEq)]
pub struct Provenance {
    pub estimator_commit: String,
    pub sage_version: String,
    pub adapter_version: String,
    pub worker_image: String,
    pub analysis_model: AnalysisModel,
    pub resolved_analysis: ResolvedAnalysisSettings,
    pub created_at: String,
}

#[derive(Clone, Debug, PartialEq)]
pub struct SecurityReportEntry {
    pub case: ParameterCase,
    pub request_hash: String,
    pub provenance: Provenance,
    pub summary: SecuritySummary,
    pub attacks: Vec<AttackResult>,
}

#[derive(Clone, Debug, PartialEq)]
pub struct SecurityReportFile {
    pub format: String,
    pub version: u32,
    pub id: String,
    pub name: String,
    pub parameter_set_id: Option<String>,
    pub reports: Vec<SecurityReportEntry>,
}

#[derive(Clone, Copy, Debug, PartialEq, Eq, Structural)]
pub enum EstimateMode {
    Rough,
    Normal,
}

impl Default for EstimateMode {
    fn default() -> (r: Self)
        ensures
            r == EstimateMode::Normal,
    {
        EstimateMode::Normal
    }
}

/// When slow attacks may be skipped: a lowest fast estimate of at least
/// `required_security_bits + stop_margin_bits` makes them unnecessary, unless
/// they are forced.
#[derive(Clone, Debug, PartialEq)]
pub struct SlowAttackPolicy {
    pub required_security_bits: ExactDecimal,
    pub stop_margin_bits: ExactDecimal,
    pub forced_attacks: Vec<Attack>,
}

impl SlowAttackPolicy {
    /// Whether the attack was explicitly forced.
    pub fn forces(&self, attack: Attack) -> (r: bool)
        ensures
            r == self.forced_attacks@.contains(attack),
    {
        let mut i: usize = 0;
        while i < self.forced_attacks.len()
            invariant
                i <= self.forced_attacks.len(),
                forall|j: int| 0 <= j < i ==> self.forced_attacks@[j] != attack,
            decreases self.forced_attacks.len() - i,
        {
            if self.forced_attacks[i] == attack {
                return true;
            }
            i = i + 1;
        }
        false
    }
}

#[derive(Clone, Debug, PartialEq)]
pub struct EstimateRequest {
    pub name: Option<String>,
    pub parameter_set_id: Option<String>,
    pub cases: Vec<ParameterCase>,
    pub mode: EstimateMode,
    pub timeout_seconds: u64,
    pub slow_attack_policy: Option<SlowAttackPolicy>,
}

/// The public error body: a machine-readable code, a message, the offending
/// path when there is one, a request id and details as JSON text by key.
#[derive(Clone, Debug, PartialEq)]
pub struct ErrorEnvelope {
    pub code: String,
    pub message: String,
    pub path: Option<String>,
    pub request_id: String,
    pub details: Vec<(String, String)>,
}

/// Default run timeout of an estimate request, in seconds.
pub fn default_timeout_seconds() -> (r: u64)
    ensures
        r == 3600,
{
    3600
}

} // verus!
