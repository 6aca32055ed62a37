//! Semantic validation of problems, parameter sets, reports and requests.

use vstd::prelude::*;

use crate::domain::{
    AnalysisSettings, ErrorDistribution, ExactDecimal, NegacyclicRing, PositiveInteger, Problem,
    ReductionModel, SampleCount, SecretDistribution, SignedInteger,
};
use crate::numbers::{decimal_numerator, digits_value, integer_compare, integer_value, natural_compare, sign_of};
use crate::text::{blank, chars_of, indexed, indexed_text, is_blank, push_char, text_equals};
use crate::formats::{EstimateMode, EstimateRequest, ParameterCase, ParameterSetFile, SecurityReportEntry, SecurityReportFile, SlowAttackPolicy, AttackResult};
use crate::domain::{Attack, AttackOutcome, attacks_for_problem, lwe_like, problem_attacks};
use crate::numbers::decimal_compare;

verus! {

/// A rejected input: where it was found and why.
#[derive(Debug, PartialEq, Eq)]
pub struct ValidationError {
    pub path: String,
    pub message: String,
}

impl Clone for ValidationError {
    fn clone(&self) -> (r: Self)
        ensures
            r == *self,
    {
        ValidationError { path: self.path.clone(), message: self.message.clone() }
    }
}

/// `error` sits at `path` with `message`.
pub open spec fn error_is(error: ValidationError, path: Seq<char>, message: Seq<char>) -> bool {
    error.path@ == path && error.message@ == message
}

impl ValidationError {
    pub fn new(path: &str, message: &str) -> (r: Self)
        ensures
            error_is(r, path@, message@),
    {
        ValidationError { path: String::from_str(path), message: String::from_str(message) }
    }

    /// Moves the error under `prefix`: `prefix.path`, or `prefix` alone
    /// when the path is empty.
    pub fn prepend(self, prefix: &str) -> (r: Self)
        ensures
            r.message == self.message,
            r.path@ == prefixed_path(prefix@, self.path@),
    {
        let mut path = String::from_str(prefix);
        if self.path.as_str().unicode_len() != 0 {
            push_char(&mut path, '.');
            path.append(self.path.as_str());
        }
        ValidationError { path, message: self.message }
    }
}

pub open spec fn prefixed_path(prefix: Seq<char>, path: Seq<char>) -> Seq<char> {
    if path.len() == 0 {
        prefix
    } else {
        prefix + seq!['.'] + path
    }
}

/// What a validator finds: nothing, or a path and a message.
pub type Issue = Option<(Seq<char>, Seq<char>)>;

pub open spec fn issue(path: Seq<char>, message: Seq<char>) -> Issue {
    Some((path, message))
}

/// The first of two checks that finds something.
pub open spec fn first_issue(a: Issue, b: Issue) -> Issue {
    if a is Some {
        a
    } else {
        b
    }
}

pub open spec fn prefixed(prefix: Seq<char>, found: Issue) -> Issue {
    match found {
        Some((path, message)) => Some((prefixed_path(prefix, path), message)),
        None => None,
    }
}

/// `r` is what a validator returns for `found`.
pub open spec fn reports(r: Result<(), ValidationError>, found: Issue) -> bool {
    match found {
        None => r is Ok,
        Some((path, message)) => r matches Err(e) && error_is(e, path, message),
    }
}

pub trait Validate {
    fn validate(&self) -> Result<(), ValidationError>;
}

pub open spec fn identifier_char(c: char) -> bool {
    ('a' <= c && c <= 'z') || ('A' <= c && c <= 'Z') || ('0' <= c && c <= '9') || c == '-' || c
        == '_' || c == '.'
}

/// 1 to 128 ASCII letters, digits, '.', '_' or '-'.
pub open spec fn valid_identifier(s: Seq<char>) -> bool {
    &&& 1 <= s.len() <= 128
    &&& forall|i: int| 0 <= i < s.len() ==> #[trigger] identifier_char(s[i])
}

pub open spec fn identifier_issue(value: Seq<char>, path: Seq<char>) -> Issue {
    if valid_identifier(value) {
        None
    } else {
        issue(path, "identifier must be 1..=128 ASCII letters, digits, '.', '_' or '-'"@)
    }
}

fn validate_identifier(value: &str, path: &str) -> (r: Result<(), ValidationError>)
    ensures
        reports(r, identifier_issue(value@, path@)),
{
    let chars = chars_of(value);
    let mut ok = chars.len() >= 1 && chars.len() <= 128;
    let mut i: usize = 0;
    while i < chars.len()
        invariant
            i <= chars.len(),
            chars@ == value@,
            ok == (1 <= chars.len() <= 128 && forall|j: int|
                0 <= j < i ==> #[trigger] identifier_char(chars@[j])),
        decreases chars.len() - i,
    {
        let c = chars[i];
        let allowed = ('a' <= c && c <= 'z') || ('A' <= c && c <= 'Z') || ('0' <= c && c <= '9')
            || c == '-' || c == '_' || c == '.';
        proof {
            if !allowed {
                assert(!identifier_char(chars@[i as int]));
            }
            if ok && allowed {
                assert forall|j: int| 0 <= j < i + 1 implies #[trigger] identifier_char(
                    chars@[j],
                ) by {
                    if j == i {
                        assert(identifier_char(chars@[j]));
                    }
                }
            }
        }
        ok = ok && allowed;
        i = i + 1;
    }
    if !ok {
        return Err(
            ValidationError::new(
                path,
                "identifier must be 1..=128 ASCII letters, digits, '.', '_' or '-'",
            ),
        );
    }
    Ok(())
}

pub open spec fn positive_issue(value: u64, path: Seq<char>) -> Issue {
    if value == 0 {
        issue(path, "value must be greater than zero"@)
    } else {
        None
    }
}

fn validate_positive_dimension(value: u64, path: &str) -> (r: Result<(), ValidationError>)
    ensures
        reports(r, positive_issue(value, path@)),
{
    if value == 0 {
        return Err(ValidationError::new(path, "value must be greater than zero"));
    }
    Ok(())
}

pub open spec fn modulus_issue(modulus: PositiveInteger, path: Seq<char>) -> Issue {
    if digits_value(modulus@) <= 1 {
        issue(path, "modulus must be greater than one"@)
    } else {
        None
    }
}

fn validate_modulus(modulus: &PositiveInteger, path: &str) -> (r: Result<(), ValidationError>)
    ensures
        reports(r, modulus_issue(*modulus, path@)),
{
    let text = modulus.as_str();
    proof {
        lemma_one_literal();
    }
    if natural_compare(text, "1") <= 0 {
        return Err(ValidationError::new(path, "modulus must be greater than one"));
    }
    Ok(())
}

proof fn lemma_one_literal()
    ensures
        crate::numbers::is_natural_literal("1"@),
        digits_value("1"@) == 1,
{
    reveal_strlit("1");
    let s = "1"@;
    assert(s[0] == '1');
    assert(crate::text::is_digit(s[0]));
    assert(s.drop_last().len() == 0);
    assert(digits_value(s.drop_last()) == 0);
    assert(s.last() == '1');
}

pub open spec fn samples_issue(samples: SampleCount, path: Seq<char>) -> Issue {
    if samples == (SampleCount::Finite { count: 0 }) {
        issue(path, "finite sample count must be greater than zero"@)
    } else {
        None
    }
}

fn validate_samples(samples: &SampleCount, path: &str) -> (r: Result<(), ValidationError>)
    ensures
        reports(r, samples_issue(*samples, path@)),
{
    if let SampleCount::Finite { count } = samples {
        if *count == 0 {
            return Err(ValidationError::new(path, "finite sample count must be greater than zero"));
        }
    }
    Ok(())
}

pub open spec fn decimal_positive(value: ExactDecimal) -> bool {
    decimal_numerator(value@) > 0
}

pub open spec fn bounds_reversed(lower: SignedInteger, upper: SignedInteger) -> bool {
    integer_value(lower@) > integer_value(upper@)
}

fn reversed_bounds(lower: &SignedInteger, upper: &SignedInteger) -> (r: bool)
    ensures
        r == bounds_reversed(*lower, *upper),
{
    integer_compare(lower.as_str(), upper.as_str()) > 0
}

pub open spec fn secret_issue(
    distribution: SecretDistribution,
    logical_length: u64,
    path: Seq<char>,
) -> Issue {
    match distribution {
        SecretDistribution::FixedWeightBinary { hamming_weight } => if hamming_weight
            > logical_length {
            issue(path, "fixed binary weight exceeds secret length"@)
        } else {
            None
        },
        SecretDistribution::FixedWeightTernary { positive_weight, negative_weight } => if positive_weight
            + negative_weight > logical_length {
            issue(path, "fixed ternary weights exceed secret length"@)
        } else {
            None
        },
        SecretDistribution::DiscreteGaussian { standard_deviation } => if !decimal_positive(
            standard_deviation,
        ) {
            issue(path, "Gaussian standard deviation must be positive"@)
        } else {
            None
        },
        SecretDistribution::CenteredBinomial { eta } => if eta == 0 {
            issue(path, "centered binomial eta must be positive"@)
        } else {
            None
        },
        SecretDistribution::UniformInteger { lower, upper } => if bounds_reversed(lower, upper) {
            issue(path, "uniform lower bound exceeds upper bound"@)
        } else {
            None
        },
        _ => None,
    }
}

fn validate_secret(distribution: &SecretDistribution, logical_length: u64, path: &str) -> (r:
    Result<(), ValidationError>)
    ensures
        reports(r, secret_issue(*distribution, logical_length, path@)),
{
    match distribution {
        SecretDistribution::FixedWeightBinary { hamming_weight } => {
            if *hamming_weight > logical_length {
                return Err(ValidationError::new(path, "fixed binary weight exceeds secret length"));
            }
        },
        SecretDistribution::FixedWeightTernary { positive_weight, negative_weight } => {
            let exceeds = match positive_weight.checked_add(*negative_weight) {
                Some(weight) => weight > logical_length,
                None => true,
            };
            if exceeds {
                return Err(ValidationError::new(path, "fixed ternary weights exceed secret length"));
            }
        },
        SecretDistribution::DiscreteGaussian { standard_deviation } => {
            if !standard_deviation.is_positive() {
                return Err(
                    ValidationError::new(path, "Gaussian standard deviation must be positive"),
                );
            }
        },
        SecretDistribution::CenteredBinomial { eta } => {
            if *eta == 0 {
                return Err(ValidationError::new(path, "centered binomial eta must be positive"));
            }
        },
        SecretDistribution::UniformInteger { lower, upper } => {
            if reversed_bounds(lower, upper) {
                return Err(ValidationError::new(path, "uniform lower bound exceeds upper bound"));
            }
        },
        _ => {},
    }
    Ok(())
}

pub open spec fn error_distribution_issue(distribution: ErrorDistribution, path: Seq<char>) -> Issue {
    match distribution {
        ErrorDistribution::DiscreteGaussian { standard_deviation } => if !decimal_positive(
            standard_deviation,
        ) {
            issue(path, "Gaussian standard deviation must be positive"@)
        } else {
            None
        },
        ErrorDistribution::CenteredBinomial { eta } => if eta == 0 {
            issue(path, "centered binomial eta must be positive"@)
        } else {
            None
        },
        ErrorDistribution::UniformInteger { lower, upper } => if bounds_reversed(lower, upper) {
            issue(path, "uniform lower bound exceeds upper bound"@)
        } else {
            None
        },
    }
}

fn validate_error(distribution: &ErrorDistribution, path: &str) -> (r: Result<(), ValidationError>)
    ensures
        reports(r, error_distribution_issue(*distribution, path@)),
{
    match distribution {
        ErrorDistribution::DiscreteGaussian { standard_deviation } => {
            if !standard_deviation.is_positive() {
                return Err(
                    ValidationError::new(path, "Gaussian standard deviation must be positive"),
                );
            }
        },
        ErrorDistribution::CenteredBinomial { eta } => {
            if *eta == 0 {
                return Err(ValidationError::new(path, "centered binomial eta must be positive"));
            }
        },
        ErrorDistribution::UniformInteger { lower, upper } => {
            if reversed_bounds(lower, upper) {
                return Err(ValidationError::new(path, "uniform lower bound exceeds upper bound"));
            }
        },
    }
    Ok(())
}

/// `n` is a power of two (and so not zero).
pub open spec fn power_of_two(n: nat) -> bool
    decreases n,
{
    if n == 1 {
        true
    } else if n == 0 || n % 2 == 1 {
        false
    } else {
        power_of_two(n / 2)
    }
}

/// Rust's `u64::is_power_of_two`.
pub fn is_power_of_two(n: u64) -> (r: bool)
    ensures
        r == power_of_two(n as nat),
{
    if n == 0 {
        return false;
    }
    let mut m: u64 = n;
    while m % 2 == 0
        invariant
            m > 0,
            power_of_two(n as nat) == power_of_two(m as nat),
        decreases m,
    {
        m = m / 2;
    }
    m == 1
}

pub open spec fn ring_issue(ring: NegacyclicRing) -> Issue {
    if !power_of_two(ring.polynomial_degree as nat) {
        issue(
            "problem.negacyclic_ring.polynomial_degree"@,
            "v1 negacyclic polynomial degree must be a non-zero power of two"@,
        )
    } else {
        modulus_issue(ring.ciphertext_modulus, "problem.negacyclic_ring.ciphertext_modulus"@)
    }
}

fn validate_ring(ring: &NegacyclicRing) -> (r: Result<(), ValidationError>)
    ensures
        reports(r, ring_issue(*ring)),
{
    if ring.polynomial_degree == 0 || !is_power_of_two(ring.polynomial_degree) {
        return Err(
            ValidationError::new(
                "problem.negacyclic_ring.polynomial_degree",
                "v1 negacyclic polynomial degree must be a non-zero power of two",
            ),
        );
    }
    validate_modulus(&ring.ciphertext_modulus, "problem.negacyclic_ring.ciphertext_modulus")
}

/// The first semantic defect of a problem.
pub open spec fn problem_issue(problem: Problem) -> Issue {
    match problem {
        Problem::Lwe(p) => first_issue(
            positive_issue(p.dimension, "problem.dimension"@),
            first_issue(
                modulus_issue(p.modulus, "problem.modulus"@),
                first_issue(
                    samples_issue(p.samples, "problem.samples"@),
                    first_issue(
                        secret_issue(p.secret, p.dimension, "problem.secret"@),
                        error_distribution_issue(p.error, "problem.error"@),
                    ),
                ),
            ),
        ),
        Problem::Rlwe(p) => first_issue(
            ring_issue(p.negacyclic_ring),
            first_issue(
                samples_issue(p.samples, "problem.samples"@),
                first_issue(
                    secret_issue(p.secret, p.negacyclic_ring.polynomial_degree, "problem.secret"@),
                    error_distribution_issue(p.error, "problem.error"@),
                ),
            ),
        ),
        Problem::Glwe(p) => first_issue(
            ring_issue(p.negacyclic_ring),
            first_issue(
                positive_issue(p.dimension, "problem.dimension"@),
                first_issue(
                    samples_issue(p.samples, "problem.samples"@),
                    if p.dimension * p.negacyclic_ring.polynomial_degree > u64::MAX {
                        issue("problem"@, "GLWE secret length overflows u64"@)
                    } else {
                        first_issue(
                            secret_issue(
                                p.secret,
                                (p.dimension * p.negacyclic_ring.polynomial_degree) as u64,
                                "problem.secret"@,
                            ),
                            error_distribution_issue(p.error, "problem.error"@),
                        )
                    },
                ),
            ),
        ),
        Problem::Ntru(p) => first_issue(
            positive_issue(p.dimension, "problem.dimension"@),
            first_issue(
                modulus_issue(p.modulus, "problem.modulus"@),
                first_issue(
                    secret_issue(p.secret, p.dimension, "problem.secret"@),
                    error_distribution_issue(p.error, "problem.error"@),
                ),
            ),
        ),
        Problem::Sis(p) => first_issue(
            positive_issue(p.dimension, "problem.dimension"@),
            first_issue(
                positive_issue(p.columns, "problem.columns"@),
                first_issue(
                    modulus_issue(p.modulus, "problem.modulus"@),
                    if !decimal_positive(p.length_bound) {
                        issue("problem.length_bound"@, "SIS length bound must be positive"@)
                    } else {
                        None
                    },
                ),
            ),
        ),
    }
}

fn validate_problem(problem: &Problem) -> (r: Result<(), ValidationError>)
    ensures
        reports(r, problem_issue(*problem)),
{
    match problem {
        Problem::Lwe(p) => {
            validate_positive_dimension(p.dimension, "problem.dimension")?;
            validate_modulus(&p.modulus, "problem.modulus")?;
            validate_samples(&p.samples, "problem.samples")?;
            validate_secret(&p.secret, p.dimension, "problem.secret")?;
            validate_error(&p.error, "problem.error")
        },
        Problem::Rlwe(p) => {
            validate_ring(&p.negacyclic_ring)?;
            validate_samples(&p.samples, "problem.samples")?;
            validate_secret(&p.secret, p.negacyclic_ring.polynomial_degree, "problem.secret")?;
            validate_error(&p.error, "problem.error")
        },
        Problem::Glwe(p) => {
            validate_ring(&p.negacyclic_ring)?;
            validate_positive_dimension(p.dimension, "problem.dimension")?;
            validate_samples(&p.samples, "problem.samples")?;
            let secret_length = match p.dimension.checked_mul(p.negacyclic_ring.polynomial_degree) {
                Some(length) => length,
                None => {
                    return Err(ValidationError::new("problem", "GLWE secret length overflows u64"));
                },
            };
            validate_secret(&p.secret, secret_length, "problem.secret")?;
            validate_error(&p.error, "problem.error")
        },
        Problem::Ntru(p) => {
            validate_positive_dimension(p.dimension, "problem.dimension")?;
            validate_modulus(&p.modulus, "problem.modulus")?;
            validate_secret(&p.secret, p.dimension, "problem.secret")?;
            validate_error(&p.error, "problem.error")
        },
        Problem::Sis(p) => {
            validate_positive_dimension(p.dimension, "problem.dimension")?;
            validate_positive_dimension(p.columns, "problem.columns")?;
            validate_modulus(&p.modulus, "problem.modulus")?;
            if !p.length_bound.is_positive() {
                return Err(
                    ValidationError::new("problem.length_bound", "SIS length bound must be positive"),
                );
            }
            Ok(())
        },
    }
}

pub open spec fn analysis_issue(problem: Problem, settings: AnalysisSettings) -> Issue {
    match problem {
        Problem::Rlwe(_) | Problem::Glwe(_) => if settings.reduction_model != Some(
            ReductionModel::CoefficientEmbeddingV1,
        ) {
            issue("analysis.reduction_model"@, "RLWE/GLWE requires coefficient_embedding_v1"@)
        } else {
            None
        },
        _ => if settings.reduction_model is Some {
            issue(
                "analysis.reduction_model"@,
                "direct LWE/NTRU/SIS problems must not specify a reduction model"@,
            )
        } else {
            None
        },
    }
}

fn validate_analysis(problem: &Problem, settings: &AnalysisSettings) -> (r: Result<(), ValidationError>)
    ensures
        reports(r, analysis_issue(*problem, *settings)),
{
    match problem {
        Problem::Rlwe(_) | Problem::Glwe(_) => {
            if settings.reduction_model != Some(ReductionModel::CoefficientEmbeddingV1) {
                return Err(
                    ValidationError::new(
                        "analysis.reduction_model",
                        "RLWE/GLWE requires coefficient_embedding_v1",
                    ),
                );
            }
        },
        _ => {
            if settings.reduction_model.is_some() {
                return Err(
                    ValidationError::new(
                        "analysis.reduction_model",
                        "direct LWE/NTRU/SIS problems must not specify a reduction model",
                    ),
                );
            }
        },
    }
    Ok(())
}


pub open spec fn name_issue(name: Seq<char>) -> Issue {
    if is_blank(name) {
        issue("name"@, "name must not be empty"@)
    } else {
        None
    }
}

/// The first semantic defect of a case with the given id, name, problem and
/// analysis settings.
pub open spec fn case_parts_issue(
    id: Seq<char>,
    name: Seq<char>,
    problem: Problem,
    analysis: AnalysisSettings,
) -> Issue {
    first_issue(
        identifier_issue(id, "id"@),
        first_issue(name_issue(name), first_issue(problem_issue(problem), analysis_issue(problem, analysis))),
    )
}

/// The first semantic defect of a parameter case.
pub open spec fn case_issue(case: ParameterCase) -> Issue {
    case_parts_issue(case.id@, case.name@, case.problem, case.analysis)
}

impl Validate for ParameterCase {
    fn validate(&self) -> (r: Result<(), ValidationError>)
        ensures
            reports(r, case_issue(*self)),
    {
        validate_identifier(self.id.as_str(), "id")?;
        if blank(self.name.as_str()) {
            return Err(ValidationError::new("name", "name must not be empty"));
        }
        validate_problem(&self.problem)?;
        validate_analysis(&self.problem, &self.analysis)?;
        Ok(())
    }
}

pub open spec fn duplicates_earlier_id(cases: Seq<ParameterCase>, i: int) -> bool {
    exists|j: int| 0 <= j < i && #[trigger] cases[j].id@ == cases[i].id@
}

/// The first defect among `cases[i..]`: a defect of a case, or an id that
/// an earlier case already has.
pub open spec fn case_list_issue(cases: Seq<ParameterCase>, i: int, duplicate: Seq<char>) -> Issue
    decreases cases.len() - i,
{
    if i < 0 || i >= cases.len() {
        None
    } else if prefixed(indexed("cases"@, i as nat), case_issue(cases[i])) is Some {
        prefixed(indexed("cases"@, i as nat), case_issue(cases[i]))
    } else if duplicates_earlier_id(cases, i) {
        issue(indexed("cases"@, i as nat) + ".id"@, duplicate)
    } else {
        case_list_issue(cases, i + 1, duplicate)
    }
}

fn validate_case_list(cases: &Vec<ParameterCase>, duplicate: &str) -> (r: Result<
    (),
    ValidationError,
>)
    ensures
        reports(r, case_list_issue(cases@, 0, duplicate@)),
{
    let mut i: usize = 0;
    while i < cases.len()
        invariant
            i <= cases.len(),
            case_list_issue(cases@, 0, duplicate@) == case_list_issue(cases@, i as int, duplicate@),
        decreases cases.len() - i,
    {
        let prefix = indexed_text("cases", i);
        match cases[i].validate() {
            Ok(()) => {},
            Err(error) => {
                return Err(error.prepend(prefix.as_str()));
            },
        }
        let mut j: usize = 0;
        while j < i
            invariant
                j <= i < cases.len(),
                forall|k: int| 0 <= k < j ==> cases@[k].id@ != cases@[i as int].id@,
                case_issue(cases@[i as int]) is None,
                prefix@ == indexed("cases"@, i as nat),
                case_list_issue(cases@, 0, duplicate@) == case_list_issue(cases@, i as int, duplicate@),
            decreases i - j,
        {
            if text_equals(cases[j].id.as_str(), cases[i].id.as_str()) {
                let mut path = prefix;
                path.append(".id");
                assert(cases@[j as int].id@ == cases@[i as int].id@);
                assert(duplicates_earlier_id(cases@, i as int));
                assert(case_issue(cases@[i as int]) is None);
                assert(path@ == indexed("cases"@, i as nat) + ".id"@);
                return Err(ValidationError { path, message: String::from_str(duplicate) });
            }
            j = j + 1;
        }
        i = i + 1;
    }
    Ok(())
}

pub open spec fn parameter_set_issue(file: ParameterSetFile) -> Issue {
    if file.format@ != "lattice-security/parameter-set"@ {
        issue("format"@, "unsupported parameter-set format"@)
    } else if file.version != 1 {
        issue("version"@, "unsupported parameter-set major version"@)
    } else if identifier_issue(file.id@, "id"@) is Some {
        identifier_issue(file.id@, "id"@)
    } else if is_blank(file.name@) {
        issue("name"@, "name must not be empty"@)
    } else if file.cases.len() == 0 {
        issue("cases"@, "parameter set must contain at least one case"@)
    } else if file.cases.len() > 500 {
        issue("cases"@, "parameter set exceeds the 500 case limit"@)
    } else {
        case_list_issue(file.cases@, 0, "case id must be unique within its parameter set"@)
    }
}

impl Validate for ParameterSetFile {
    fn validate(&self) -> (r: Result<(), ValidationError>)
        ensures
            reports(r, parameter_set_issue(*self)),
    {
        if !text_equals(self.format.as_str(), "lattice-security/parameter-set") {
            return Err(ValidationError::new("format", "unsupported parameter-set format"));
        }
        if self.version != 1 {
            return Err(ValidationError::new("version", "unsupported parameter-set major version"));
        }
        validate_identifier(self.id.as_str(), "id")?;
        if blank(self.name.as_str()) {
            return Err(ValidationError::new("name", "name must not be empty"));
        }
        if self.cases.len() == 0 {
            return Err(ValidationError::new("cases", "parameter set must contain at least one case"));
        }
        if self.cases.len() > 500 {
            return Err(ValidationError::new("cases", "parameter set exceeds the 500 case limit"));
        }
        validate_case_list(&self.cases, "case id must be unique within its parameter set")
    }
}


/// Outcomes that count toward a complete report: computed, no finite
/// estimate, or excluded by a reviewed policy.
pub open spec fn settled(outcome: AttackOutcome) -> bool {
    outcome is Computed || outcome is NoFiniteEstimate || outcome is PolicySkipped
}

fn is_settled(outcome: &AttackOutcome) -> (r: bool)
    ensures
        r == settled(*outcome),
{
    match outcome {
        AttackOutcome::Computed { .. } | AttackOutcome::NoFiniteEstimate { .. }
        | AttackOutcome::PolicySkipped { .. } => true,
        _ => false,
    }
}

pub open spec fn has_result_for(results: Seq<AttackResult>, attack: Attack) -> bool {
    exists|j: int| 0 <= j < results.len() && #[trigger] results[j].attack == attack
}

/// Every attack of the fixed set has exactly one settled result.
pub open spec fn covers_attack_set(expected: Seq<Attack>, results: Seq<AttackResult>) -> bool {
    &&& results.len() == expected.len()
    &&& forall|k: int| 0 <= k < expected.len() ==> has_result_for(results, #[trigger] expected[k])
    &&& forall|j: int| 0 <= j < results.len() ==> settled(#[trigger] results[j].outcome)
}

fn result_for(results: &Vec<AttackResult>, attack: Attack) -> (r: bool)
    ensures
        r == has_result_for(results@, attack),
{
    let mut j: usize = 0;
    while j < results.len()
        invariant
            j <= results.len(),
            forall|k: int| 0 <= k < j ==> results@[k].attack != attack,
        decreases results.len() - j,
    {
        if results[j].attack == attack {
            return true;
        }
        j = j + 1;
    }
    false
}

fn covers(expected: &Vec<Attack>, results: &Vec<AttackResult>) -> (r: bool)
    ensures
        r == covers_attack_set(expected@, results@),
{
    if results.len() != expected.len() {
        return false;
    }
    let mut k: usize = 0;
    while k < expected.len()
        invariant
            k <= expected.len(),
            forall|m: int| 0 <= m < k ==> has_result_for(results@, #[trigger] expected@[m]),
        decreases expected.len() - k,
    {
        if !result_for(results, expected[k]) {
            return false;
        }
        k = k + 1;
    }
    let mut j: usize = 0;
    while j < results.len()
        invariant
            j <= results.len(),
            forall|m: int| 0 <= m < j ==> settled(#[trigger] results@[m].outcome),
        decreases results.len() - j,
    {
        if !is_settled(&results[j].outcome) {
            return false;
        }
        j = j + 1;
    }
    true
}

pub open spec fn entry_issue(entry: SecurityReportEntry, index: nat) -> Issue {
    let here = indexed("reports"@, index);
    let complete = covers_attack_set(problem_attacks(entry.case.problem), entry.attacks@);
    if case_issue(entry.case) is Some {
        prefixed(here + ".case"@, case_issue(entry.case))
    } else if entry.summary.complete != complete {
        issue(
            here + ".summary.complete"@,
            "complete must match full computed coverage of the fixed attack set"@,
        )
    } else if entry.summary.fast_estimate && entry.summary.complete {
        issue(here + ".summary.fast_estimate"@, "a fast estimate cannot be marked complete"@)
    } else {
        None
    }
}

pub open spec fn entry_list_issue(entries: Seq<SecurityReportEntry>, i: int) -> Issue
    decreases entries.len() - i,
{
    if i < 0 || i >= entries.len() {
        None
    } else if entry_issue(entries[i], i as nat) is Some {
        entry_issue(entries[i], i as nat)
    } else {
        entry_list_issue(entries, i + 1)
    }
}

pub open spec fn report_issue(file: SecurityReportFile) -> Issue {
    if file.format@ != "lattice-security/security-report"@ {
        issue("format"@, "unsupported security-report format"@)
    } else if file.version != 1 {
        issue("version"@, "unsupported security-report major version"@)
    } else if identifier_issue(file.id@, "id"@) is Some {
        identifier_issue(file.id@, "id"@)
    } else if file.reports.len() == 0 {
        issue("reports"@, "security report must contain at least one entry"@)
    } else {
        entry_list_issue(file.reports@, 0)
    }
}

fn validate_entry(entry: &SecurityReportEntry, index: usize) -> (r: Result<(), ValidationError>)
    ensures
        reports(r, entry_issue(*entry, index as nat)),
{
    let here = indexed_text("reports", index);
    match entry.case.validate() {
        Ok(()) => {},
        Err(error) => {
            let mut prefix = here;
            prefix.append(".case");
            return Err(error.prepend(prefix.as_str()));
        },
    }
    let expected = attacks_for_problem(&entry.case.problem);
    let complete = covers(&expected, &entry.attacks);
    if entry.summary.complete != complete {
        let mut path = here;
        path.append(".summary.complete");
        return Err(
            ValidationError {
                path,
                message: String::from_str(
                    "complete must match full computed coverage of the fixed attack set",
                ),
            },
        );
    }
    if entry.summary.fast_estimate && entry.summary.complete {
        let mut path = here;
        path.append(".summary.fast_estimate");
        return Err(
            ValidationError {
                path,
                message: String::from_str("a fast estimate cannot be marked complete"),
            },
        );
    }
    Ok(())
}

impl Validate for SecurityReportFile {
    fn validate(&self) -> (r: Result<(), ValidationError>)
        ensures
            reports(r, report_issue(*self)),
    {
        if !text_equals(self.format.as_str(), "lattice-security/security-report") {
            return Err(ValidationError::new("format", "unsupported security-report format"));
        }
        if self.version != 1 {
            return Err(ValidationError::new("version", "unsupported security-report major version"));
        }
        validate_identifier(self.id.as_str(), "id")?;
        if self.reports.len() == 0 {
            return Err(
                ValidationError::new("reports", "security report must contain at least one entry"),
            );
        }
        let mut i: usize = 0;
        while i < self.reports.len()
            invariant
                i <= self.reports.len(),
                report_issue(*self) == entry_list_issue(self.reports@, i as int),
            decreases self.reports.len() - i,
        {
            validate_entry(&self.reports[i], i)?;
            i = i + 1;
        }
        Ok(())
    }
}

pub open spec fn decimal_negative(value: ExactDecimal) -> bool {
    decimal_numerator(value@) < 0
}

pub open spec fn slow_attack(attack: Attack) -> bool {
    attack == Attack::AroraGb || attack == Attack::Bkw
}

/// The first defect among `forced[i..]`: an attack that is not an adaptive
/// slow attack, or one already forced.
pub open spec fn forced_list_issue(forced: Seq<Attack>, i: int) -> Issue
    decreases forced.len() - i,
{
    if i < 0 || i >= forced.len() {
        None
    } else if !slow_attack(forced[i]) {
        issue(
            indexed("slow_attack_policy.forced_attacks"@, i as nat),
            "only arora_gb and bkw can be forced"@,
        )
    } else if forced.take(i).contains(forced[i]) {
        issue(
            indexed("slow_attack_policy.forced_attacks"@, i as nat),
            "forced slow attacks must be unique"@,
        )
    } else {
        forced_list_issue(forced, i + 1)
    }
}

pub open spec fn policy_issue(policy: SlowAttackPolicy) -> Issue {
    if !decimal_positive(policy.required_security_bits) {
        issue(
            "slow_attack_policy.required_security_bits"@,
            "required security must be positive"@,
        )
    } else if decimal_negative(policy.stop_margin_bits) {
        issue("slow_attack_policy.stop_margin_bits"@, "stop margin must not be negative"@)
    } else {
        forced_list_issue(policy.forced_attacks@, 0)
    }
}

fn validate_policy(policy: &SlowAttackPolicy) -> (r: Result<(), ValidationError>)
    ensures
        reports(r, policy_issue(*policy)),
{
    if !policy.required_security_bits.is_positive() {
        return Err(
            ValidationError::new(
                "slow_attack_policy.required_security_bits",
                "required security must be positive",
            ),
        );
    }
    let margin = policy.stop_margin_bits.as_str();
    proof {
        crate::domain::lemma_zero_literal();
        assert(crate::numbers::pow10(0) == 1);
        assert(crate::numbers::decimal_numerator("0"@) * crate::numbers::pow10(
            crate::numbers::decimal_scale(margin@),
        ) == 0);
    }
    if decimal_compare(margin, "0") < 0 {
        return Err(
            ValidationError::new(
                "slow_attack_policy.stop_margin_bits",
                "stop margin must not be negative",
            ),
        );
    }
    let forced = &policy.forced_attacks;
    let mut i: usize = 0;
    while i < forced.len()
        invariant
            i <= forced.len(),
            policy_issue(*policy) == forced_list_issue(forced@, i as int),
        decreases forced.len() - i,
    {
        let attack = forced[i];
        if !(attack == Attack::AroraGb || attack == Attack::Bkw) {
            let path = indexed_text("slow_attack_policy.forced_attacks", i);
            return Err(
                ValidationError {
                    path,
                    message: String::from_str("only arora_gb and bkw can be forced"),
                },
            );
        }
        let mut j: usize = 0;
        while j < i
            invariant
                j <= i < forced.len(),
                forall|k: int| 0 <= k < j ==> forced@[k] != forced@[i as int],
                attack == forced@[i as int],
                slow_attack(forced@[i as int]),
                policy_issue(*policy) == forced_list_issue(forced@, i as int),
            decreases i - j,
        {
            if forced[j] == attack {
                assert(forced@.take(i as int)[j as int] == forced@[i as int]);
                let path = indexed_text("slow_attack_policy.forced_attacks", i);
                return Err(
                    ValidationError {
                        path,
                        message: String::from_str("forced slow attacks must be unique"),
                    },
                );
            }
            j = j + 1;
        }
        assert(!forced@.take(i as int).contains(forced@[i as int]));
        i = i + 1;
    }
    Ok(())
}

pub open spec fn needs_slow_policy(request: EstimateRequest) -> bool {
    request.mode == EstimateMode::Normal && exists|i: int|
        0 <= i < request.cases.len() && lwe_like(#[trigger] request.cases@[i].problem)
}

pub open spec fn request_issue(request: EstimateRequest) -> Issue {
    if request.cases.len() == 0 || request.cases.len() > 500 {
        issue("cases"@, "estimate request must contain 1..=500 cases"@)
    } else if request.timeout_seconds < 1 || request.timeout_seconds > 7200 {
        issue("timeout_seconds"@, "timeout must be in 1..=7200 seconds"@)
    } else if needs_slow_policy(request) && request.slow_attack_policy is None {
        issue(
            "slow_attack_policy"@,
            "LWE/RLWE/GLWE estimates require an explicit slow-attack policy"@,
        )
    } else if request.slow_attack_policy is Some && policy_issue(
        request.slow_attack_policy.unwrap(),
    ) is Some {
        policy_issue(request.slow_attack_policy.unwrap())
    } else {
        case_list_issue(request.cases@, 0, "case id must be unique within an estimate request"@)
    }
}

impl Validate for EstimateRequest {
    fn validate(&self) -> (r: Result<(), ValidationError>)
        ensures
            reports(r, request_issue(*self)),
    {
        if self.cases.len() == 0 || self.cases.len() > 500 {
            return Err(ValidationError::new("cases", "estimate request must contain 1..=500 cases"));
        }
        if self.timeout_seconds < 1 || self.timeout_seconds > 7200 {
            return Err(
                ValidationError::new("timeout_seconds", "timeout must be in 1..=7200 seconds"),
            );
        }
        let mut any_slow = false;
        let mut i: usize = 0;
        while i < self.cases.len()
            invariant
                i <= self.cases.len(),
                any_slow == exists|k: int| 0 <= k < i && lwe_like(#[trigger] self.cases@[k].problem),
            decreases self.cases.len() - i,
        {
            let slow = match &self.cases[i].problem {
                crate::domain::Problem::Lwe(_) | crate::domain::Problem::Rlwe(_)
                | crate::domain::Problem::Glwe(_) => true,
                _ => false,
            };
            proof {
                if slow {
                    assert(lwe_like(self.cases@[i as int].problem));
                }
            }
            any_slow = any_slow || slow;
            i = i + 1;
        }
        let normal = match self.mode {
            EstimateMode::Normal => true,
            EstimateMode::Rough => false,
        };
        if normal && any_slow && self.slow_attack_policy.is_none() {
            return Err(
                ValidationError::new(
                    "slow_attack_policy",
                    "LWE/RLWE/GLWE estimates require an explicit slow-attack policy",
                ),
            );
        }
        if let Some(policy) = &self.slow_attack_policy {
            validate_policy(policy)?;
        }
        validate_case_list(&self.cases, "case id must be unique within an estimate request")
    }
}

} // verus!
