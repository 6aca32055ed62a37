//! Display text of problems, outcomes, reports and batches.

use vstd::prelude::*;

use crate::domain::{
    attack_name, AttackOutcome, ErrorDistribution, ExactDecimal, ntru_structure_name, Problem,
    SampleCount, SecretDistribution, sis_norm_name,
};
use crate::formats::{AttackResult, EstimateRequest, ParameterCase, SecurityReportEntry};
use crate::numbers::{decimal_compare, decimal_order, rounded_two_places, round_two_places};
use crate::service::{state_kind, is_terminal, BatchSnapshot, JobSnapshot};
use crate::text::{nat_decimal, u64_decimal, chars_of, push_char, string_from_chars};
use crate::error::ServiceError;
use crate::domain::Attack;

verus! {

/// Security bits as shown: rounded to two fraction digits.
pub fn format_security_bits(value: &ExactDecimal) -> (r: String)
    ensures
        r@ == rounded_two_places(value@),
{
    round_two_places(value.as_str())
}

pub open spec fn sample_count_text(samples: SampleCount) -> Seq<char> {
    match samples {
        SampleCount::Finite { count } => nat_decimal(count as nat),
        SampleCount::Unlimited => "unlimited"@,
    }
}

pub fn sample_count(samples: &SampleCount) -> (r: String)
    ensures
        r@ == sample_count_text(*samples),
{
    match samples {
        SampleCount::Finite { count } => u64_decimal(*count),
        SampleCount::Unlimited => String::from_str("unlimited"),
    }
}

pub open spec fn secret_text(d: SecretDistribution) -> Seq<char> {
    match d {
        SecretDistribution::UniformBinary => "secret: uniform binary"@,
        SecretDistribution::UniformTernary => "secret: uniform ternary"@,
        SecretDistribution::SparseTernary {} => "secret: sparse ternary (P(-1)=1/4, P(0)=1/2, P(1)=1/4)"@,
        SecretDistribution::FixedWeightBinary { hamming_weight } => "secret: fixed-weight binary (weight="@
            + nat_decimal(hamming_weight as nat) + ")"@,
        SecretDistribution::FixedWeightTernary { positive_weight, negative_weight } =>
            "secret: fixed-weight ternary (+1="@ + nat_decimal(positive_weight as nat) + ", -1="@
            + nat_decimal(negative_weight as nat) + ")"@,
        SecretDistribution::DiscreteGaussian { standard_deviation } => "secret: discrete Gaussian (σ="@
            + standard_deviation@ + ")"@,
        SecretDistribution::CenteredBinomial { eta } => "secret: centered binomial (η="@ + nat_decimal(
            eta as nat,
        ) + ")"@,
        SecretDistribution::UniformInteger { lower, upper } => "secret: bounded integer ["@ + lower@
            + ".."@ + upper@ + "]"@,
    }
}

pub fn secret_distribution(d: &SecretDistribution) -> (r: String)
    ensures
        r@ == secret_text(*d),
{
    match d {
        SecretDistribution::UniformBinary => String::from_str("secret: uniform binary"),
        SecretDistribution::UniformTernary => String::from_str("secret: uniform ternary"),
        SecretDistribution::SparseTernary {} => String::from_str(
            "secret: sparse ternary (P(-1)=1/4, P(0)=1/2, P(1)=1/4)",
        ),
        SecretDistribution::FixedWeightBinary { hamming_weight } => {
            let mut r = String::from_str("secret: fixed-weight binary (weight=");
            r.append(u64_decimal(*hamming_weight).as_str());
            r.append(")");
            r
        },
        SecretDistribution::FixedWeightTernary { positive_weight, negative_weight } => {
            let mut r = String::from_str("secret: fixed-weight ternary (+1=");
            r.append(u64_decimal(*positive_weight).as_str());
            r.append(", -1=");
            r.append(u64_decimal(*negative_weight).as_str());
            r.append(")");
            r
        },
        SecretDistribution::DiscreteGaussian { standard_deviation } => {
            let mut r = String::from_str("secret: discrete Gaussian (σ=");
            r.append(standard_deviation.as_str());
            r.append(")");
            r
        },
        SecretDistribution::CenteredBinomial { eta } => {
            let mut r = String::from_str("secret: centered binomial (η=");
            r.append(u64_decimal(*eta).as_str());
            r.append(")");
            r
        },
        SecretDistribution::UniformInteger { lower, upper } => {
            let mut r = String::from_str("secret: bounded integer [");
            r.append(lower.as_str());
            r.append("..");
            r.append(upper.as_str());
            r.append("]");
            r
        },
    }
}

pub open spec fn error_text(d: ErrorDistribution) -> Seq<char> {
    match d {
        ErrorDistribution::DiscreteGaussian { standard_deviation } => "error: discrete Gaussian (σ="@
            + standard_deviation@ + ")"@,
        ErrorDistribution::CenteredBinomial { eta } => "error: centered binomial (η="@ + nat_decimal(
            eta as nat,
        ) + ")"@,
        ErrorDistribution::UniformInteger { lower, upper } => "error: bounded integer ["@ + lower@
            + ".."@ + upper@ + "]"@,
    }
}

pub fn error_distribution(d: &ErrorDistribution) -> (r: String)
    ensures
        r@ == error_text(*d),
{
    match d {
        ErrorDistribution::DiscreteGaussian { standard_deviation } => {
            let mut r = String::from_str("error: discrete Gaussian (σ=");
            r.append(standard_deviation.as_str());
            r.append(")");
            r
        },
        ErrorDistribution::CenteredBinomial { eta } => {
            let mut r = String::from_str("error: centered binomial (η=");
            r.append(u64_decimal(*eta).as_str());
            r.append(")");
            r
        },
        ErrorDistribution::UniformInteger { lower, upper } => {
            let mut r = String::from_str("error: bounded integer [");
            r.append(lower.as_str());
            r.append("..");
            r.append(upper.as_str());
            r.append("]");
            r
        },
    }
}

/// A problem as three display lines: its parameters, its secret and its
/// error.
#[derive(Clone, Debug)]
pub struct UiProblem {
    pub primary: String,
    pub secret: String,
    pub error: String,
}

impl UiProblem {
    pub fn unknown() -> (r: Self)
        ensures
            r.primary@ == "参数快照不可用"@,
            r.secret@.len() == 0,
            r.error@.len() == 0,
    {
        UiProblem {
            primary: String::from_str("参数快照不可用"),
            secret: String::new(),
            error: String::new(),
        }
    }
}

pub open spec fn primary_text(problem: Problem) -> Seq<char> {
    match problem {
        Problem::Lwe(p) => "LWE · n="@ + nat_decimal(p.dimension as nat) + " · q="@ + p.modulus@
            + " · samples="@ + sample_count_text(p.samples),
        Problem::Rlwe(p) => "RLWE · N="@ + nat_decimal(p.negacyclic_ring.polynomial_degree as nat)
            + " · q="@ + p.negacyclic_ring.ciphertext_modulus@ + " · ring samples="@
            + sample_count_text(p.samples),
        Problem::Glwe(p) => "GLWE · k="@ + nat_decimal(p.dimension as nat) + " · N="@ + nat_decimal(
            p.negacyclic_ring.polynomial_degree as nat,
        ) + " · q="@ + p.negacyclic_ring.ciphertext_modulus@ + " · ring samples="@
            + sample_count_text(p.samples),
        Problem::Ntru(p) => "NTRU · n="@ + nat_decimal(p.dimension as nat) + " · q="@ + p.modulus@
            + " · structure="@ + ntru_structure_name(p.structure),
        Problem::Sis(p) => "SIS · n="@ + nat_decimal(p.dimension as nat) + " · q="@ + p.modulus@
            + " · columns="@ + nat_decimal(p.columns as nat) + " · bound="@ + p.length_bound@
            + " · norm="@ + sis_norm_name(p.norm),
    }
}

pub open spec fn problem_secret_text(problem: Problem) -> Seq<char> {
    match problem {
        Problem::Lwe(p) => secret_text(p.secret),
        Problem::Rlwe(p) => secret_text(p.secret),
        Problem::Glwe(p) => secret_text(p.secret),
        Problem::Ntru(p) => secret_text(p.secret),
        Problem::Sis(_) => Seq::empty(),
    }
}

pub open spec fn problem_error_text(problem: Problem) -> Seq<char> {
    match problem {
        Problem::Lwe(p) => error_text(p.error),
        Problem::Rlwe(p) => error_text(p.error),
        Problem::Glwe(p) => error_text(p.error),
        Problem::Ntru(p) => error_text(p.error),
        Problem::Sis(_) => Seq::empty(),
    }
}

/// The display lines of a problem.
pub open spec fn is_ui_problem(v: UiProblem, problem: Problem) -> bool {
    &&& v.primary@ == primary_text(problem)
    &&& v.secret@ == problem_secret_text(problem)
    &&& v.error@ == problem_error_text(problem)
}

pub fn problem_view(problem: &Problem) -> (r: UiProblem)
    ensures
        is_ui_problem(r, *problem),
{
    match problem {
        Problem::Lwe(p) => {
            let mut primary = String::from_str("LWE · n=");
            primary.append(u64_decimal(p.dimension).as_str());
            primary.append(" · q=");
            primary.append(p.modulus.as_str());
            primary.append(" · samples=");
            primary.append(sample_count(&p.samples).as_str());
            UiProblem {
                primary,
                secret: secret_distribution(&p.secret),
                error: error_distribution(&p.error),
            }
        },
        Problem::Rlwe(p) => {
            let mut primary = String::from_str("RLWE · N=");
            primary.append(u64_decimal(p.negacyclic_ring.polynomial_degree).as_str());
            primary.append(" · q=");
            primary.append(p.negacyclic_ring.ciphertext_modulus.as_str());
            primary.append(" · ring samples=");
            primary.append(sample_count(&p.samples).as_str());
            UiProblem {
                primary,
                secret: secret_distribution(&p.secret),
                error: error_distribution(&p.error),
            }
        },
        Problem::Glwe(p) => {
            let mut primary = String::from_str("GLWE · k=");
            primary.append(u64_decimal(p.dimension).as_str());
            primary.append(" · N=");
            primary.append(u64_decimal(p.negacyclic_ring.polynomial_degree).as_str());
            primary.append(" · q=");
            primary.append(p.negacyclic_ring.ciphertext_modulus.as_str());
            primary.append(" · ring samples=");
            primary.append(sample_count(&p.samples).as_str());
            UiProblem {
                primary,
                secret: secret_distribution(&p.secret),
                error: error_distribution(&p.error),
            }
        },
        Problem::Ntru(p) => {
            let mut primary = String::from_str("NTRU · n=");
            primary.append(u64_decimal(p.dimension).as_str());
            primary.append(" · q=");
            primary.append(p.modulus.as_str());
            primary.append(" · structure=");
            primary.append(p.structure.name());
            UiProblem {
                primary,
                secret: secret_distribution(&p.secret),
                error: error_distribution(&p.error),
            }
        },
        Problem::Sis(p) => {
            let mut primary = String::from_str("SIS · n=");
            primary.append(u64_decimal(p.dimension).as_str());
            primary.append(" · q=");
            primary.append(p.modulus.as_str());
            primary.append(" · columns=");
            primary.append(u64_decimal(p.columns).as_str());
            primary.append(" · bound=");
            primary.append(p.length_bound.as_str());
            primary.append(" · norm=");
            primary.append(p.norm.name());
            UiProblem { primary, secret: String::new(), error: String::new() }
        },
    }
}

pub open spec fn outcome_kind_name(outcome: AttackOutcome) -> Seq<char> {
    match outcome {
        AttackOutcome::Computed { .. } => "computed"@,
        AttackOutcome::Approximate { .. } => "approximate"@,
        AttackOutcome::NoFiniteEstimate { .. } => "no_finite_estimate"@,
        AttackOutcome::Timeout { .. } => "timeout"@,
        AttackOutcome::Unsupported { .. } => "unsupported"@,
        AttackOutcome::Failed { .. } => "failed"@,
        AttackOutcome::PolicySkipped { .. } => "policy_skipped"@,
        AttackOutcome::Skipped { .. } => "skipped"@,
    }
}

pub fn outcome_name(outcome: &AttackOutcome) -> (r: &'static str)
    ensures
        r@ == outcome_kind_name(*outcome),
{
    match outcome {
        AttackOutcome::Computed { .. } => "computed",
        AttackOutcome::Approximate { .. } => "approximate",
        AttackOutcome::NoFiniteEstimate { .. } => "no_finite_estimate",
        AttackOutcome::Timeout { .. } => "timeout",
        AttackOutcome::Unsupported { .. } => "unsupported",
        AttackOutcome::Failed { .. } => "failed",
        AttackOutcome::PolicySkipped { .. } => "policy_skipped",
        AttackOutcome::Skipped { .. } => "skipped",
    }
}

pub open spec fn outcome_security_text(outcome: AttackOutcome) -> Seq<char> {
    match outcome {
        AttackOutcome::Computed { security_bits, .. } => rounded_two_places(security_bits@),
        AttackOutcome::Approximate { security_bits, .. } => rounded_two_places(security_bits@),
        AttackOutcome::NoFiniteEstimate { .. } => "∞"@,
        _ => "—"@,
    }
}

pub fn outcome_security(outcome: &AttackOutcome) -> (r: String)
    ensures
        r@ == outcome_security_text(*outcome),
{
    match outcome {
        AttackOutcome::Computed { security_bits, .. } => format_security_bits(security_bits),
        AttackOutcome::Approximate { security_bits, .. } => format_security_bits(security_bits),
        AttackOutcome::NoFiniteEstimate { .. } => String::from_str("∞"),
        _ => String::from_str("—"),
    }
}

pub open spec fn bool_text(b: bool) -> Seq<char> {
    if b {
        "true"@
    } else {
        "false"@
    }
}

pub open spec fn outcome_detail_text(outcome: AttackOutcome) -> Seq<char> {
    match outcome {
        AttackOutcome::Computed { .. } => "computed"@,
        AttackOutcome::Approximate { provenance, .. } => "approximate · "@ + provenance.model_id@
            + " v"@ + nat_decimal(provenance.model_version as nat) + " · "@ + provenance.platform@
            + " · holdout MAE "@ + provenance.holdout_mean_absolute_error_bits@ + " bit · p95 "@
            + provenance.holdout_p95_absolute_error_bits@ + " bit · max overestimate "@
            + provenance.holdout_max_overestimate_bits@ + " bit · safety margin "@
            + provenance.safety_margin_bits@ + " bit"@,
        AttackOutcome::NoFiniteEstimate { code, reason, .. } => "no finite estimate · "@ + code@
            + ": "@ + reason@,
        AttackOutcome::Timeout { timeout_seconds } => "timeout after "@ + nat_decimal(
            timeout_seconds as nat,
        ) + "s"@,
        AttackOutcome::Unsupported { code, reason } => "unsupported · "@ + code@ + ": "@ + reason@,
        AttackOutcome::Failed { code, message, retryable } => "failed · "@ + code@ + ": "@
            + message@ + " · retryable="@ + bool_text(retryable),
        AttackOutcome::PolicySkipped { code, reason, applicability_rule_version } =>
            "policy skipped · applicability rules v"@ + nat_decimal(
            applicability_rule_version as nat,
        ) + " · "@ + code@ + ": "@ + reason@,
        AttackOutcome::Skipped { reason } => "skipped · "@ + reason@,
    }
}

fn bool_string(b: bool) -> (r: &'static str)
    ensures
        r@ == bool_text(b),
{
    if b {
        "true"
    } else {
        "false"
    }
}

pub fn outcome_detail(outcome: &AttackOutcome) -> (r: String)
    ensures
        r@ == outcome_detail_text(*outcome),
{
    match outcome {
        AttackOutcome::Computed { .. } => String::from_str("computed"),
        AttackOutcome::Approximate { provenance, .. } => {
            let mut r = String::from_str("approximate · ");
            r.append(provenance.model_id.as_str());
            r.append(" v");
            r.append(u64_decimal(provenance.model_version as u64).as_str());
            r.append(" · ");
            r.append(provenance.platform.as_str());
            r.append(" · holdout MAE ");
            r.append(provenance.holdout_mean_absolute_error_bits.as_str());
            r.append(" bit · p95 ");
            r.append(provenance.holdout_p95_absolute_error_bits.as_str());
            r.append(" bit · max overestimate ");
            r.append(provenance.holdout_max_overestimate_bits.as_str());
            r.append(" bit · safety margin ");
            r.append(provenance.safety_margin_bits.as_str());
            r.append(" bit");
            r
        },
        AttackOutcome::NoFiniteEstimate { code, reason, .. } => {
            let mut r = String::from_str("no finite estimate · ");
            r.append(code.as_str());
            r.append(": ");
            r.append(reason.as_str());
            r
        },
        AttackOutcome::Timeout { timeout_seconds } => {
            let mut r = String::from_str("timeout after ");
            r.append(u64_decimal(*timeout_seconds).as_str());
            r.append("s");
            r
        },
        AttackOutcome::Unsupported { code, reason } => {
            let mut r = String::from_str("unsupported · ");
            r.append(code.as_str());
            r.append(": ");
            r.append(reason.as_str());
            r
        },
        AttackOutcome::Failed { code, message, retryable } => {
            let mut r = String::from_str("failed · ");
            r.append(code.as_str());
            r.append(": ");
            r.append(message.as_str());
            r.append(" · retryable=");
            r.append(bool_string(*retryable));
            r
        },
        AttackOutcome::PolicySkipped { code, reason, applicability_rule_version } => {
            let mut r = String::from_str("policy skipped · applicability rules v");
            r.append(u64_decimal(*applicability_rule_version as u64).as_str());
            r.append(" · ");
            r.append(code.as_str());
            r.append(": ");
            r.append(reason.as_str());
            r
        },
        AttackOutcome::Skipped { reason } => {
            let mut r = String::from_str("skipped · ");
            r.append(reason.as_str());
            r
        },
    }
}

/// The raw estimator result of an outcome without a finite estimate, as kept.
pub open spec fn outcome_audit_text(outcome: AttackOutcome) -> Seq<char> {
    match outcome {
        AttackOutcome::NoFiniteEstimate { raw_result: Some(raw), .. } => raw@,
        _ => Seq::empty(),
    }
}

pub fn outcome_audit(outcome: &AttackOutcome) -> (r: String)
    ensures
        r@ == outcome_audit_text(*outcome),
{
    match outcome {
        AttackOutcome::NoFiniteEstimate { raw_result: Some(raw), .. } => raw.clone(),
        _ => String::new(),
    }
}

/// One attack of a report, as shown.
pub struct UiAttack {
    pub name: String,
    pub outcome: String,
    pub security: String,
    pub detail: String,
    pub audit: String,
    pub cached: bool,
}

/// The display of one attack result.
pub open spec fn is_ui_attack(a: UiAttack, result: AttackResult) -> bool {
    &&& a.name@ == attack_name(result.attack)
    &&& a.outcome@ == outcome_kind_name(result.outcome)
    &&& a.security@ == outcome_security_text(result.outcome)
    &&& a.detail@ == outcome_detail_text(result.outcome)
    &&& a.audit@ == outcome_audit_text(result.outcome)
    &&& a.cached == result.cached
}

impl UiAttack {
    pub fn new(result: &AttackResult) -> (r: Self)
        ensures
            is_ui_attack(r, *result),
    {
        UiAttack {
            name: String::from_str(result.attack.name()),
            outcome: String::from_str(outcome_name(&result.outcome)),
            security: outcome_security(&result.outcome),
            detail: outcome_detail(&result.outcome),
            audit: outcome_audit(&result.outcome),
            cached: result.cached,
        }
    }
}

pub open spec fn bits_text_or_dash(bits: Option<ExactDecimal>) -> Seq<char> {
    match bits {
        Some(b) => rounded_two_places(b@),
        None => "—"@,
    }
}

/// Some result is a calibrated approximation.
pub open spec fn has_approximation(s: Seq<AttackResult>) -> bool {
    exists|i: int| 0 <= i < s.len() && #[trigger] s[i].outcome is Approximate
}

fn any_approximation(ordered: &Vec<AttackResult>) -> (r: bool)
    ensures
        r == has_approximation(ordered@),
{
    let mut i: usize = 0;
    while i < ordered.len()
        invariant
            i <= ordered.len(),
            forall|j: int| 0 <= j < i ==> !(#[trigger] ordered@[j].outcome is Approximate),
        decreases ordered.len() - i,
    {
        if let AttackOutcome::Approximate { .. } = &ordered[i].outcome {
            return true;
        }
        i = i + 1;
    }
    false
}

/// One case of a report, as shown.
pub struct UiReport {
    pub case_id: String,
    pub case_name: String,
    pub security: String,
    pub complete: bool,
    pub fast_estimate: bool,
    /// Whether some attack's estimate is a calibrated approximation.
    pub approximate: bool,
    pub parameters: UiProblem,
    pub attacks: Vec<UiAttack>,
}

impl UiReport {
    pub fn new(entry: &SecurityReportEntry) -> (r: Self)
        ensures
            r.case_id@ == entry.case.id@,
            r.case_name@ == entry.case.name@,
            r.security@ == bits_text_or_dash(entry.summary.security_bits),
            r.complete == entry.summary.complete,
            r.fast_estimate == entry.summary.fast_estimate,
            r.approximate == has_approximation(entry.attacks@),
            is_ui_problem(r.parameters, entry.case.problem),
            r.attacks@.len() == entry.attacks@.len(),
            forall|i: int|
                0 <= i < r.attacks@.len() ==> is_ui_attack(#[trigger] r.attacks@[i], entry.attacks@[i]),
    {
        let security = match &entry.summary.security_bits {
            Some(bits) => format_security_bits(bits),
            None => String::from_str("—"),
        };
        let mut attacks: Vec<UiAttack> = Vec::new();
        let mut i: usize = 0;
        while i < entry.attacks.len()
            invariant
                i <= entry.attacks.len(),
                attacks@.len() == i,
                forall|k: int| 0 <= k < i ==> is_ui_attack(#[trigger] attacks@[k], entry.attacks@[k]),
            decreases entry.attacks.len() - i,
        {
            attacks.push(UiAttack::new(&entry.attacks[i]));
            i = i + 1;
        }
        UiReport {
            case_id: entry.case.id.clone(),
            case_name: entry.case.name.clone(),
            security,
            complete: entry.summary.complete,
            fast_estimate: entry.summary.fast_estimate,
            approximate: any_approximation(&entry.attacks),
            parameters: problem_view(&entry.case.problem),
            attacks,
        }
    }
}

/// One job of a batch, as shown.
pub struct UiJob {
    pub id: String,
    pub case_id: String,
    pub state: String,
    pub attempts: u32,
    pub case_name: String,
    pub parameters: UiProblem,
}

impl UiJob {
    pub fn new(value: JobSnapshot, case: Option<&ParameterCase>) -> (r: Self)
        ensures
            r.id == value.job_id,
            r.case_id == value.case_id,
            r.state@ == state_kind(value.state),
            r.attempts == value.attempts,
            r.case_name@ == match case {
                Some(c) => c.name@,
                None => "Unknown case"@,
            },
            match case {
                Some(c) => is_ui_problem(r.parameters, c.problem),
                None => r.parameters.primary@ == "参数快照不可用"@ && r.parameters.secret@.len() == 0
                    && r.parameters.error@.len() == 0,
            },
    {
        let state = String::from_str(value.state.kind());
        let (case_name, parameters) = match case {
            Some(c) => (c.name.clone(), problem_view(&c.problem)),
            None => (String::from_str("Unknown case"), UiProblem::unknown()),
        };
        UiJob {
            id: value.job_id,
            case_id: value.case_id,
            state,
            attempts: value.attempts,
            case_name,
            parameters,
        }
    }
}

/// The lowest of the present security levels of some entries; among equal
/// values the first one.
pub open spec fn lowest_entry_bits(entries: Seq<SecurityReportEntry>) -> Option<ExactDecimal>
    decreases entries.len(),
{
    if entries.len() == 0 {
        None
    } else {
        let rest = lowest_entry_bits(entries.drop_first());
        match entries[0].summary.security_bits {
            None => rest,
            Some(b) => match rest {
                None => Some(b),
                Some(m) => if decimal_order(m@, b@) < 0 {
                    Some(m)
                } else {
                    Some(b)
                },
            },
        }
    }
}

fn lowest_bits(entries: &Vec<SecurityReportEntry>) -> (r: Option<&ExactDecimal>)
    ensures
        r matches Some(b) ==> lowest_entry_bits(entries@) == Some(*b),
        r is None ==> lowest_entry_bits(entries@) is None,
{
    let mut best: Option<&ExactDecimal> = None;
    let mut i: usize = entries.len();
    while i > 0
        invariant
            i <= entries.len(),
            best matches Some(b) ==> lowest_entry_bits(entries@.skip(i as int)) == Some(*b),
            best is None ==> lowest_entry_bits(entries@.skip(i as int)) is None,
        decreases i,
    {
        i = i - 1;
        assert(entries@.skip(i as int).drop_first() =~= entries@.skip(i + 1));
        match &entries[i].summary.security_bits {
            None => {},
            Some(b) => {
                best = match best {
                    None => Some(b),
                    Some(m) => if decimal_compare(m.as_str(), b.as_str()) < 0 {
                        Some(m)
                    } else {
                        Some(b)
                    },
                };
            },
        }
    }
    assert(entries@.skip(0) =~= entries@);
    best
}

/// A batch row: its state, revision, cases and lowest security level.
pub struct UiBatch {
    pub id: String,
    pub state: String,
    pub revision: u64,
    pub updated_at: String,
    pub terminal: bool,
    pub report_count: usize,
    pub security: String,
    pub case_summary: String,
}

pub open spec fn batch_lowest_bits(value: BatchSnapshot) -> Option<ExactDecimal> {
    match value.report {
        Some(report) => lowest_entry_bits(report.reports@),
        None => None,
    }
}

impl UiBatch {
    pub fn new(value: BatchSnapshot, request: &EstimateRequest) -> (r: Self)
        ensures
            r.id == value.batch_id,
            r.state@ == state_kind(value.state),
            r.revision == value.revision,
            r.updated_at == value.updated_at,
            r.terminal == is_terminal(value.state),
            r.report_count == request.cases.len(),
            r.security@ == bits_text_or_dash(batch_lowest_bits(value)),
            r.case_summary@ == case_summary_text(request.cases@),
    {
        let security = match &value.report {
            Some(report) => match lowest_bits(&report.reports) {
                Some(bits) => format_security_bits(bits),
                None => String::from_str("—"),
            },
            None => String::from_str("—"),
        };
        let state = String::from_str(value.state.kind());
        let terminal = value.state.terminal();
        UiBatch {
            id: value.batch_id,
            state,
            revision: value.revision,
            updated_at: value.updated_at,
            terminal,
            report_count: request.cases.len(),
            security,
            case_summary: batch_case_summary(&request.cases),
        }
    }
}

pub open spec fn case_summary_text(cases: Seq<ParameterCase>) -> Seq<char> {
    if cases.len() == 0 {
        "没有 case"@
    } else if cases.len() == 1 {
        cases[0].name@ + " · "@ + primary_text(cases[0].problem)
    } else {
        cases[0].name@ + " · "@ + primary_text(cases[0].problem) + " · 另有 "@ + nat_decimal(
            (cases.len() - 1) as nat,
        ) + " 个 case"@
    }
}

pub fn batch_case_summary(cases: &Vec<ParameterCase>) -> (r: String)
    ensures
        r@ == case_summary_text(cases@),
{
    if cases.len() == 0 {
        return String::from_str("没有 case");
    }
    let first = &cases[0];
    let view = problem_view(&first.problem);
    let mut r = first.name.clone();
    r.append(" · ");
    r.append(view.primary.as_str());
    if cases.len() > 1 {
        r.append(" · 另有 ");
        r.append(u64_decimal((cases.len() - 1) as u64).as_str());
        r.append(" 个 case");
    }
    r
}

pub open spec fn id_separator(c: char) -> bool {
    c == ',' || c == '\n' || c == '\r' || c == ' '
}

/// The non-empty pieces of `s[i..]` between separators, continuing a piece
/// `current` and after the pieces `done`.
pub open spec fn split_from(s: Seq<char>, i: int, current: Seq<char>, done: Seq<Seq<char>>) -> Seq<
    Seq<char>,
>
    decreases s.len() - i,
{
    if i < 0 || i >= s.len() {
        if current.len() > 0 {
            done.push(current)
        } else {
            done
        }
    } else if id_separator(s[i]) {
        split_from(
            s,
            i + 1,
            Seq::empty(),
            if current.len() > 0 {
                done.push(current)
            } else {
                done
            },
        )
    } else {
        split_from(s, i + 1, current.push(s[i]), done)
    }
}

/// The ids in a list separated by commas, line breaks or spaces.
pub open spec fn id_list(s: Seq<char>) -> Seq<Seq<char>> {
    split_from(s, 0, Seq::empty(), Seq::empty())
}

pub fn split_ids(value: &str) -> (r: Vec<String>)
    ensures
        r@.len() == id_list(value@).len(),
        forall|i: int| 0 <= i < r@.len() ==> (#[trigger] r@[i])@ == id_list(value@)[i],
{
    let chars = chars_of(value);
    let mut done: Vec<String> = Vec::new();
    let mut current: Vec<char> = Vec::new();
    let ghost mut done_view: Seq<Seq<char>> = Seq::empty();
    let mut i: usize = 0;
    while i < chars.len()
        invariant
            i <= chars.len(),
            chars@ == value@,
            done@.len() == done_view.len(),
            forall|k: int| 0 <= k < done@.len() ==> (#[trigger] done@[k])@ == done_view[k],
            id_list(value@) == split_from(chars@, i as int, current@, done_view),
        decreases chars.len() - i,
    {
        let c = chars[i];
        if c == ',' || c == '\n' || c == '\r' || c == ' ' {
            if current.len() > 0 {
                let piece = string_from_chars(&current);
                done.push(piece);
                proof {
                    done_view = done_view.push(current@);
                }
                current = Vec::new();
            } else {
                current = Vec::new();
                assert(current@ =~= Seq::<char>::empty());
            }
        } else {
            current.push(c);
        }
        i = i + 1;
    }
    if current.len() > 0 {
        let piece = string_from_chars(&current);
        done.push(piece);
        proof {
            done_view = done_view.push(current@);
        }
    }
    done
}

/// The selected ids; none selected is a bad request.
pub fn required_ids(value: &str) -> (r: Result<Vec<String>, ServiceError>)
    ensures
        r is Ok <==> id_list(value@).len() > 0,
        r matches Ok(ids) ==> ids@.len() == id_list(value@).len() && forall|i: int|
            0 <= i < ids@.len() ==> (#[trigger] ids@[i])@ == id_list(value@)[i],
        r matches Err(e) ==> e matches ServiceError::BadRequest(m) && m@ == "select at least one batch"@,
{
    let ids = split_ids(value);
    if ids.len() == 0 {
        Err(ServiceError::BadRequest(String::from_str("select at least one batch")))
    } else {
        Ok(ids)
    }
}

} // verus!
