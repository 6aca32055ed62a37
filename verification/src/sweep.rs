//! Parameter sweeps: the cases a base case and up to four value axes expand
//! to, in order, the first axis varying slowest.

use vstd::prelude::*;

use crate::domain::{
    clone_strings, lwe_like, ErrorDistribution, ExactDecimal, PositiveInteger, Problem,
    SampleCount,
};
use crate::error::ServiceError;
use crate::formats::{EstimateMode, EstimateRequest, ParameterCase, SlowAttackPolicy};
use crate::service::BatchSnapshot;
use crate::text::{nat_decimal, text_equals, u64_decimal};
use crate::numbers::{digits_value, lemma_concat_value, lemma_nat_decimal, lemma_zeros_value};
use crate::approximation::lower_hex_char;
use crate::validation::{
    case_issue, case_parts_issue, error_is, policy_issue, request_issue, Validate,
};

verus! {

/// Most cases one sweep may expand to.
pub const MAX_SWEEP_CASES: usize = 10000;

/// Most cases one batch of a sweep holds.
pub const SWEEP_BATCH_CASES: usize = 500;

/// Values one parameter of the base case takes in turn.
#[derive(Debug)]
pub enum SweepAxis {
    Dimension { values: Vec<u64> },
    Modulus { values: Vec<PositiveInteger> },
    ErrorStandardDeviation { values: Vec<ExactDecimal> },
    SampleCount { values: Vec<u64> },
}

#[derive(Debug)]
pub struct SweepRequest {
    pub base_case: ParameterCase,
    pub axes: Vec<SweepAxis>,
    pub timeout_seconds: u64,
    pub slow_attack_policy: Option<SlowAttackPolicy>,
}

#[derive(Debug)]
pub struct SweepResponse {
    pub sweep_id: String,
    pub case_count: usize,
    pub batch_ids: Vec<String>,
    pub batches: Vec<BatchSnapshot>,
}

pub open spec fn axis_kind(axis: SweepAxis) -> Seq<char> {
    match axis {
        SweepAxis::Dimension { .. } => "dimension"@,
        SweepAxis::Modulus { .. } => "modulus"@,
        SweepAxis::ErrorStandardDeviation { .. } => "error_standard_deviation"@,
        SweepAxis::SampleCount { .. } => "sample_count"@,
    }
}

pub open spec fn axis_len(axis: SweepAxis) -> nat {
    match axis {
        SweepAxis::Dimension { values } => values@.len(),
        SweepAxis::Modulus { values } => values@.len(),
        SweepAxis::ErrorStandardDeviation { values } => values@.len(),
        SweepAxis::SampleCount { values } => values@.len(),
    }
}

fn axis_kind_len(axis: &SweepAxis) -> (r: (&'static str, usize))
    ensures
        r.0@ == axis_kind(*axis),
        r.1 == axis_len(*axis),
{
    match axis {
        SweepAxis::Dimension { values } => ("dimension", values.len()),
        SweepAxis::Modulus { values } => ("modulus", values.len()),
        SweepAxis::ErrorStandardDeviation { values } => ("error_standard_deviation", values.len()),
        SweepAxis::SampleCount { values } => ("sample_count", values.len()),
    }
}

/// Whether an earlier axis has the same kind as `axes[k]`.
pub open spec fn repeats_kind(axes: Seq<SweepAxis>, k: int) -> bool {
    exists|j: int| 0 <= j < k && axis_kind(#[trigger] axes[j]) == axis_kind(axes[k])
}

/// The first defect among the axes from `k` on, given the number of cases
/// the earlier axes give: a repeated kind, an axis without values, or too
/// many cases.
pub open spec fn axes_issue_from(axes: Seq<SweepAxis>, k: int, total: int) -> Option<Seq<char>>
    decreases axes.len() - k,
{
    if k < 0 || k >= axes.len() {
        None
    } else if repeats_kind(axes, k) {
        Some("sweep axis '"@ + axis_kind(axes[k]) + "' appears more than once"@)
    } else if axis_len(axes[k]) == 0 {
        Some("sweep axis '"@ + axis_kind(axes[k]) + "' has no values"@)
    } else if total * axis_len(axes[k]) > MAX_SWEEP_CASES {
        Some("sweep exceeds the 10000 case limit"@)
    } else {
        axes_issue_from(axes, k + 1, total * axis_len(axes[k]))
    }
}

/// The first defect of a sweep's axes.
pub open spec fn axes_issue(axes: Seq<SweepAxis>) -> Option<Seq<char>> {
    if axes.len() == 0 || axes.len() > 4 {
        Some("sweep requires 1..=4 axes"@)
    } else {
        axes_issue_from(axes, 0, 1)
    }
}

/// Number of cases the axes give.
pub open spec fn axes_product(axes: Seq<SweepAxis>) -> int
    decreases axes.len(),
{
    if axes.len() == 0 {
        1
    } else {
        axes_product(axes.drop_last()) * axis_len(axes.last())
    }
}

pub open spec fn incompatible_text(axis: Seq<char>, problem: Seq<char>) -> Seq<char> {
    "sweep axis '"@ + axis + "' is not valid for "@ + problem
}

pub open spec fn error_of(p: Problem) -> Option<ErrorDistribution> {
    match p {
        Problem::Lwe(q) => Some(q.error),
        Problem::Rlwe(q) => Some(q.error),
        Problem::Glwe(q) => Some(q.error),
        Problem::Ntru(q) => Some(q.error),
        Problem::Sis(_) => None,
    }
}

/// Why an axis cannot vary a problem: it lacks the parameter, or the error
/// to vary is not a discrete Gaussian.
pub open spec fn axis_problem_issue(p: Problem, axis: SweepAxis) -> Option<Seq<char>> {
    match axis {
        SweepAxis::Dimension { .. } => if p is Rlwe {
            Some(incompatible_text("dimension"@, "rlwe"@))
        } else {
            None
        },
        SweepAxis::Modulus { .. } => None,
        SweepAxis::ErrorStandardDeviation { .. } => if p is Sis {
            Some(incompatible_text("error_standard_deviation"@, "sis"@))
        } else if error_of(p) matches Some(ErrorDistribution::DiscreteGaussian { .. }) {
            None
        } else {
            Some("error_standard_deviation requires a discrete_gaussian base error"@)
        },
        SweepAxis::SampleCount { .. } => if p is Ntru {
            Some(incompatible_text("sample_count"@, "ntru"@))
        } else if p is Sis {
            Some(incompatible_text("sample_count"@, "sis"@))
        } else {
            None
        },
    }
}

/// The first axis, in order, that cannot vary the problem.
pub open spec fn first_axis_issue(p: Problem, axes: Seq<SweepAxis>) -> Option<Seq<char>>
    decreases axes.len(),
{
    if axes.len() == 0 {
        None
    } else if first_axis_issue(p, axes.drop_last()) is Some {
        first_axis_issue(p, axes.drop_last())
    } else {
        axis_problem_issue(p, axes.last())
    }
}

/// The problem with the parameter of an axis set to its `v`-th value.
pub open spec fn applied(p: Problem, axis: SweepAxis, v: int) -> Problem {
    match axis {
        SweepAxis::Dimension { values } => match p {
            Problem::Lwe(q) => Problem::Lwe(crate::domain::LweProblem { dimension: values@[v], ..q }),
            Problem::Glwe(q) => Problem::Glwe(crate::domain::GlweProblem { dimension: values@[v], ..q }),
            Problem::Ntru(q) => Problem::Ntru(crate::domain::NtruProblem { dimension: values@[v], ..q }),
            Problem::Sis(q) => Problem::Sis(crate::domain::SisProblem { dimension: values@[v], ..q }),
            Problem::Rlwe(_) => p,
        },
        SweepAxis::Modulus { values } => match p {
            Problem::Lwe(q) => Problem::Lwe(crate::domain::LweProblem { modulus: values@[v], ..q }),
            Problem::Rlwe(q) => Problem::Rlwe(
                crate::domain::RlweProblem {
                    negacyclic_ring: crate::domain::NegacyclicRing {
                        ciphertext_modulus: values@[v],
                        ..q.negacyclic_ring
                    },
                    ..q
                },
            ),
            Problem::Glwe(q) => Problem::Glwe(
                crate::domain::GlweProblem {
                    negacyclic_ring: crate::domain::NegacyclicRing {
                        ciphertext_modulus: values@[v],
                        ..q.negacyclic_ring
                    },
                    ..q
                },
            ),
            Problem::Ntru(q) => Problem::Ntru(crate::domain::NtruProblem { modulus: values@[v], ..q }),
            Problem::Sis(q) => Problem::Sis(crate::domain::SisProblem { modulus: values@[v], ..q }),
        },
        SweepAxis::ErrorStandardDeviation { values } => {
            let e = ErrorDistribution::DiscreteGaussian { standard_deviation: values@[v] };
            match p {
                Problem::Lwe(q) => Problem::Lwe(crate::domain::LweProblem { error: e, ..q }),
                Problem::Rlwe(q) => Problem::Rlwe(crate::domain::RlweProblem { error: e, ..q }),
                Problem::Glwe(q) => Problem::Glwe(crate::domain::GlweProblem { error: e, ..q }),
                Problem::Ntru(q) => Problem::Ntru(crate::domain::NtruProblem { error: e, ..q }),
                Problem::Sis(_) => p,
            }
        },
        SweepAxis::SampleCount { values } => {
            let s = SampleCount::Finite { count: values@[v] };
            match p {
                Problem::Lwe(q) => Problem::Lwe(crate::domain::LweProblem { samples: s, ..q }),
                Problem::Rlwe(q) => Problem::Rlwe(crate::domain::RlweProblem { samples: s, ..q }),
                Problem::Glwe(q) => Problem::Glwe(crate::domain::GlweProblem { samples: s, ..q }),
                _ => p,
            }
        },
    }
}

/// The problem with each value of an axis in turn.
pub open spec fn variants(p: Problem, axis: SweepAxis) -> Seq<Problem> {
    Seq::new(axis_len(axis), |v: int| applied(p, axis, v))
}

/// Each problem with each value of an axis, problem by problem.
pub open spec fn layer(ps: Seq<Problem>, axis: SweepAxis) -> Seq<Problem>
    decreases ps.len(),
{
    if ps.len() == 0 {
        Seq::empty()
    } else {
        layer(ps.drop_last(), axis) + variants(ps.last(), axis)
    }
}

/// The problems of a sweep: every combination of axis values, the first
/// axis varying slowest.
pub open spec fn grid(p: Problem, axes: Seq<SweepAxis>) -> Seq<Problem>
    decreases axes.len(),
{
    if axes.len() == 0 {
        seq![p]
    } else {
        layer(grid(p, axes.drop_last()), axes.last())
    }
}

/// Setting an error standard deviation `v` makes the problem's error the
/// discrete Gaussian of deviation `v` and leaves its other parameters as
/// they were, for every problem kind that has an error.
pub proof fn lemma_error_axis_sets_error(p: Problem, values: Vec<ExactDecimal>, v: int)
    requires
        0 <= v < values@.len(),
        !(p is Sis),
    ensures
        ({
            let e = ErrorDistribution::DiscreteGaussian { standard_deviation: values@[v] };
            let r = applied(p, SweepAxis::ErrorStandardDeviation { values }, v);
            &&& error_of(r) == Some(e)
            &&& match (p, r) {
                (Problem::Lwe(a), Problem::Lwe(b)) => b.dimension == a.dimension && b.modulus
                    == a.modulus && b.samples == a.samples && b.secret == a.secret,
                (Problem::Rlwe(a), Problem::Rlwe(b)) => b.negacyclic_ring == a.negacyclic_ring
                    && b.samples == a.samples && b.secret == a.secret,
                (Problem::Glwe(a), Problem::Glwe(b)) => b.negacyclic_ring == a.negacyclic_ring
                    && b.dimension == a.dimension && b.samples == a.samples && b.secret == a.secret,
                (Problem::Ntru(a), Problem::Ntru(b)) => b.dimension == a.dimension && b.modulus
                    == a.modulus && b.secret == a.secret && b.structure == a.structure,
                _ => false,
            }
        }),
{
}

/// A sweep over the error standard deviation alone gives one case per
/// value, in order, whose error is the discrete Gaussian of that deviation.
pub proof fn lemma_error_sweep_cases(
    request: SweepRequest,
    cases: Seq<ParameterCase>,
    values: Vec<ExactDecimal>,
)
    requires
        sweep_outcome(request, Ok(cases)),
        request.axes@.len() == 1,
        request.axes@[0] == (SweepAxis::ErrorStandardDeviation { values }),
    ensures
        cases.len() == values@.len(),
        forall|i: int|
            0 <= i < cases.len() ==> error_of((#[trigger] cases[i]).problem) == Some(
                ErrorDistribution::DiscreteGaussian { standard_deviation: values@[i] },
            ),
{
    let base = request.base_case;
    let axes = request.axes@;
    let axis = axes[0];
    assert(axes.drop_last() =~= Seq::<SweepAxis>::empty());
    assert(first_axis_issue(base.problem, axes) == axis_problem_issue(base.problem, axis));
    let ps = grid(base.problem, axes);
    assert(grid(base.problem, axes.drop_last()) == seq![base.problem]);
    assert(seq![base.problem].drop_last() =~= Seq::<Problem>::empty());
    assert(seq![base.problem].last() == base.problem);
    assert(layer(Seq::<Problem>::empty(), axis) == Seq::<Problem>::empty());
    assert(layer(seq![base.problem], axis) == Seq::<Problem>::empty() + variants(base.problem, axis));
    assert(layer(seq![base.problem], axis) =~= variants(base.problem, axis));
    assert(ps == variants(base.problem, axis));
    assert forall|i: int| 0 <= i < cases.len() implies error_of((#[trigger] cases[i]).problem) == Some(
        ErrorDistribution::DiscreteGaussian { standard_deviation: values@[i] },
    ) by {
        assert(is_generated_case(cases[i], base, ps, i));
        lemma_error_axis_sets_error(base.problem, values, i);
    }
}

/// A number written with at least five digits.
pub open spec fn padded5(digits: Seq<char>) -> Seq<char> {
    if digits.len() >= 5 {
        digits
    } else {
        Seq::new((5 - digits.len()) as nat, |i: int| '0') + digits
    }
}

/// The id of the `n`-th generated case, counting from one.
pub open spec fn sweep_case_id(base_id: Seq<char>, n: nat) -> Seq<char> {
    base_id + "-s"@ + padded5(nat_decimal(n))
}

/// Zero padding keeps the value of a digit string.
proof fn lemma_padded5_value(digits: Seq<char>)
    ensures
        digits_value(padded5(digits)) == digits_value(digits),
{
    if digits.len() < 5 {
        let zeros = Seq::new((5 - digits.len()) as nat, |i: int| '0');
        lemma_zeros_value(zeros);
        lemma_concat_value(zeros, digits);
    }
}

/// Generated case ids are distinct: the `m`-th and the `n`-th id differ
/// whenever `m` and `n` do.
pub proof fn lemma_sweep_ids_distinct(base_id: Seq<char>, m: nat, n: nat)
    requires
        m != n,
    ensures
        sweep_case_id(base_id, m) != sweep_case_id(base_id, n),
{
    let prefix = base_id + "-s"@;
    let a = padded5(nat_decimal(m));
    let b = padded5(nat_decimal(n));
    if sweep_case_id(base_id, m) == sweep_case_id(base_id, n) {
        assert((prefix + a).skip(prefix.len() as int) =~= a);
        assert((prefix + b).skip(prefix.len() as int) =~= b);
        assert(a == b);
        lemma_padded5_value(nat_decimal(m));
        lemma_padded5_value(nat_decimal(n));
        lemma_nat_decimal(m);
        lemma_nat_decimal(n);
    }
}

/// The name of the `n`-th generated case, counting from one.
pub open spec fn sweep_case_name(base_name: Seq<char>, n: nat) -> Seq<char> {
    base_name + " · sweep "@ + nat_decimal(n)
}

/// The tags of generated cases: the base tags, with `sweep` added once.
pub open spec fn sweep_tags(tags: Seq<Seq<char>>) -> Seq<Seq<char>> {
    if tags.contains("sweep"@) {
        tags
    } else {
        tags.push("sweep"@)
    }
}

pub open spec fn tag_texts(tags: Seq<String>) -> Seq<Seq<char>> {
    tags.map_values(|t: String| t@)
}

/// The semantic defect of the `i`-th generated case, if any.
pub open spec fn generated_issue(base: ParameterCase, ps: Seq<Problem>, i: int) -> crate::validation::Issue {
    case_parts_issue(
        sweep_case_id(base.id@, (i + 1) as nat),
        sweep_case_name(base.name@, (i + 1) as nat),
        ps[i],
        base.analysis,
    )
}

/// Every generated case before `n` is sound.
pub open spec fn generated_sound(base: ParameterCase, ps: Seq<Problem>, n: int) -> bool {
    forall|i: int| 0 <= i < n ==> (#[trigger] generated_issue(base, ps, i)) is None
}

/// The message of a generated case's defect.
pub open spec fn generated_message(i: int, path: Seq<char>, message: Seq<char>) -> Seq<char> {
    "generated case "@ + nat_decimal(i as nat) + " is invalid at "@ + path + ": "@ + message
}

/// The `i`-th generated case is the first one with a defect, and `r`
/// reports it.
pub open spec fn first_defect(
    base: ParameterCase,
    ps: Seq<Problem>,
    i: int,
    r: Result<Seq<ParameterCase>, ServiceError>,
) -> bool {
    &&& generated_sound(base, ps, i)
    &&& generated_issue(base, ps, i) is Some
    &&& r matches Err(e) && e matches ServiceError::BadRequest(m) && {
        let found = generated_issue(base, ps, i)->0;
        m@ == generated_message(i, found.0, found.1)
    }
}

/// The defect an estimate request for the first generated case would have.
pub open spec fn probe_issue(
    first: Problem,
    timeout_seconds: u64,
    policy: Option<SlowAttackPolicy>,
) -> crate::validation::Issue {
    if timeout_seconds < 1 || timeout_seconds > 7200 {
        crate::validation::issue("timeout_seconds"@, "timeout must be in 1..=7200 seconds"@)
    } else if lwe_like(first) && policy is None {
        crate::validation::issue(
            "slow_attack_policy"@,
            "LWE/RLWE/GLWE estimates require an explicit slow-attack policy"@,
        )
    } else if policy matches Some(p) && policy_issue(p) is Some {
        policy_issue(policy->0)
    } else {
        None
    }
}

/// The `i`-th case of a sweep: the base case with the `i`-th problem, its
/// own id and name and the sweep tag.
pub open spec fn is_generated_case(c: ParameterCase, base: ParameterCase, ps: Seq<Problem>, i: int) -> bool {
    &&& c.id@ == sweep_case_id(base.id@, (i + 1) as nat)
    &&& c.name@ == sweep_case_name(base.name@, (i + 1) as nat)
    &&& c.description == base.description
    &&& tag_texts(c.tags@) == sweep_tags(tag_texts(base.tags@))
    &&& c.problem == ps[i]
    &&& c.analysis == base.analysis
}

/// The cases of an expanded sweep have pairwise distinct ids.
pub proof fn lemma_expanded_ids_distinct(request: SweepRequest, cases: Seq<ParameterCase>, i: int, j: int)
    requires
        sweep_outcome(request, Ok(cases)),
        0 <= i < j < cases.len(),
    ensures
        cases[i].id@ != cases[j].id@,
{
    let base = request.base_case;
    let ps = grid(base.problem, request.axes@);
    if !generated_sound(base, ps, ps.len() as int) {
        let k = choose|k: int| 0 <= k < ps.len() && #[trigger] first_defect(base, ps, k, Ok(cases));
        assert(first_defect(base, ps, k, Ok(cases)));
    }
    assert(is_generated_case(cases[i], base, ps, i));
    assert(is_generated_case(cases[j], base, ps, j));
    lemma_sweep_ids_distinct(base.id@, (i + 1) as nat, (j + 1) as nat);
}

/// What expanding a sweep gives: the base case's defect, the axes' defect,
/// an axis that cannot vary the problem, a generated case's defect or the
/// defect of an estimate request for them, in that order; else the cases.
pub open spec fn sweep_outcome(request: SweepRequest, r: Result<Seq<ParameterCase>, ServiceError>) -> bool {
    let base = request.base_case;
    let ps = grid(base.problem, request.axes@);
    if case_issue(base) is Some {
        let found = case_issue(base)->0;
        r matches Err(e) && e matches ServiceError::Invalid(v) && error_is(v, found.0, found.1)
    } else if axes_issue(request.axes@) is Some {
        r matches Err(e) && e matches ServiceError::BadRequest(m) && m@ == axes_issue(
            request.axes@,
        )->0
    } else if first_axis_issue(base.problem, request.axes@) is Some {
        r matches Err(e) && e matches ServiceError::BadRequest(m) && m@ == first_axis_issue(
            base.problem,
            request.axes@,
        )->0
    } else if !generated_sound(base, ps, ps.len() as int) {
        exists|i: int| 0 <= i < ps.len() && #[trigger] first_defect(base, ps, i, r)
    } else if probe_issue(ps[0], request.timeout_seconds, request.slow_attack_policy) is Some {
        let found = probe_issue(ps[0], request.timeout_seconds, request.slow_attack_policy)->0;
        r matches Err(e) && e matches ServiceError::Invalid(v) && error_is(v, found.0, found.1)
    } else {
        r matches Ok(cases) && cases.len() == ps.len() && forall|i: int|
            0 <= i < cases.len() ==> is_generated_case(#[trigger] cases[i], base, ps, i)
    }
}

fn incompatible(axis: &str, problem: &str) -> (r: ServiceError)
    ensures
        r matches ServiceError::BadRequest(m) && m@ == incompatible_text(axis@, problem@),
{
    let mut m = String::from_str("sweep axis '");
    m.append(axis);
    m.append("' is not valid for ");
    m.append(problem);
    ServiceError::BadRequest(m)
}

fn gaussian_required() -> (r: ServiceError)
    ensures
        r matches ServiceError::BadRequest(m) && m@
            == "error_standard_deviation requires a discrete_gaussian base error"@,
{
    ServiceError::BadRequest(
        String::from_str("error_standard_deviation requires a discrete_gaussian base error"),
    )
}

/// The parameters of a case a sweep does not vary.
pub open spec fn same_besides_problem(a: ParameterCase, b: ParameterCase) -> bool {
    &&& a.id == b.id
    &&& a.name == b.name
    &&& a.description == b.description
    &&& a.tags == b.tags
    &&& a.analysis == b.analysis
}

/// Sets a case's parameter to an axis value.
fn apply_axis(case: &mut ParameterCase, axis: &SweepAxis, value_index: usize) -> (r: Result<
    (),
    ServiceError,
>)
    requires
        value_index < axis_len(*axis),
    ensures
        match axis_problem_issue(old(case).problem, *axis) {
            Some(m) => r matches Err(e) && e matches ServiceError::BadRequest(t) && t@ == m && *final(case) == *old(case),
            None => r is Ok && final(case).problem == applied(old(case).problem, *axis, value_index as int)
                && same_besides_problem(*final(case), *old(case)),
        },
{
    match axis {
        SweepAxis::Dimension { values } => {
            let value = values[value_index];
            match &mut case.problem {
                Problem::Lwe(problem) => problem.dimension = value,
                Problem::Glwe(problem) => problem.dimension = value,
                Problem::Ntru(problem) => problem.dimension = value,
                Problem::Sis(problem) => problem.dimension = value,
                Problem::Rlwe(_) => {
                    return Err(incompatible("dimension", "rlwe"));
                },
            }
        },
        SweepAxis::Modulus { values } => {
            let value = values[value_index].clone();
            match &mut case.problem {
                Problem::Lwe(problem) => problem.modulus = value,
                Problem::Rlwe(problem) => problem.negacyclic_ring.ciphertext_modulus = value,
                Problem::Glwe(problem) => problem.negacyclic_ring.ciphertext_modulus = value,
                Problem::Ntru(problem) => problem.modulus = value,
                Problem::Sis(problem) => problem.modulus = value,
            }
        },
        SweepAxis::ErrorStandardDeviation { values } => {
            let value = values[value_index].clone();
            match &mut case.problem {
                Problem::Lwe(problem) => {
                    if !matches!(problem.error, ErrorDistribution::DiscreteGaussian { .. }) {
                        return Err(gaussian_required());
                    }
                    problem.error = ErrorDistribution::DiscreteGaussian { standard_deviation: value };
                },
                Problem::Rlwe(problem) => {
                    if !matches!(problem.error, ErrorDistribution::DiscreteGaussian { .. }) {
                        return Err(gaussian_required());
                    }
                    problem.error = ErrorDistribution::DiscreteGaussian { standard_deviation: value };
                },
                Problem::Glwe(problem) => {
                    if !matches!(problem.error, ErrorDistribution::DiscreteGaussian { .. }) {
                        return Err(gaussian_required());
                    }
                    problem.error = ErrorDistribution::DiscreteGaussian { standard_deviation: value };
                },
                Problem::Ntru(problem) => {
                    if !matches!(problem.error, ErrorDistribution::DiscreteGaussian { .. }) {
                        return Err(gaussian_required());
                    }
                    problem.error = ErrorDistribution::DiscreteGaussian { standard_deviation: value };
                },
                Problem::Sis(_) => {
                    return Err(incompatible("error_standard_deviation", "sis"));
                },
            }
        },
        SweepAxis::SampleCount { values } => {
            let samples = SampleCount::Finite { count: values[value_index] };
            match &mut case.problem {
                Problem::Lwe(problem) => problem.samples = samples,
                Problem::Rlwe(problem) => problem.samples = samples,
                Problem::Glwe(problem) => problem.samples = samples,
                Problem::Ntru(_) => {
                    return Err(incompatible("sample_count", "ntru"));
                },
                Problem::Sis(_) => {
                    return Err(incompatible("sample_count", "sis"));
                },
            }
        },
    }
    Ok(())
}

proof fn lemma_axis_kinds_distinct()
    ensures
        "dimension"@ != "modulus"@,
        "dimension"@ != "error_standard_deviation"@,
        "dimension"@ != "sample_count"@,
        "modulus"@ != "error_standard_deviation"@,
        "modulus"@ != "sample_count"@,
        "error_standard_deviation"@ != "sample_count"@,
{
    reveal_strlit("dimension");
    reveal_strlit("modulus");
    reveal_strlit("error_standard_deviation");
    reveal_strlit("sample_count");
    assert("dimension"@.len() == 9);
    assert("modulus"@.len() == 7);
    assert("error_standard_deviation"@.len() == 24);
    assert("sample_count"@.len() == 12);
}

fn same_kind(a: &SweepAxis, b: &SweepAxis) -> (r: bool)
    ensures
        r == (axis_kind(*a) == axis_kind(*b)),
{
    proof {
        lemma_axis_kinds_distinct();
    }
    match (a, b) {
        (SweepAxis::Dimension { .. }, SweepAxis::Dimension { .. }) => true,
        (SweepAxis::Modulus { .. }, SweepAxis::Modulus { .. }) => true,
        (SweepAxis::ErrorStandardDeviation { .. }, SweepAxis::ErrorStandardDeviation { .. }) => true,
        (SweepAxis::SampleCount { .. }, SweepAxis::SampleCount { .. }) => true,
        _ => false,
    }
}

fn axis_message(prefix: &str, kind: &str, suffix: &str) -> (r: ServiceError)
    ensures
        r matches ServiceError::BadRequest(m) && m@ == prefix@ + kind@ + suffix@,
{
    let mut m = String::from_str(prefix);
    m.append(kind);
    m.append(suffix);
    ServiceError::BadRequest(m)
}

/// Checks the axes and returns the number of cases they give.
fn check_axes(axes: &Vec<SweepAxis>) -> (r: Result<usize, ServiceError>)
    ensures
        r is Ok <==> axes_issue(axes@) is None,
        r matches Ok(total) ==> total == axes_product(axes@) && 1 <= total <= MAX_SWEEP_CASES,
        r matches Err(e) ==> e matches ServiceError::BadRequest(m) && axes_issue(axes@) == Some(m@),
{
    if axes.len() == 0 || axes.len() > 4 {
        return Err(ServiceError::BadRequest(String::from_str("sweep requires 1..=4 axes")));
    }
    let mut total: usize = 1;
    let mut k: usize = 0;
    while k < axes.len()
        invariant
            k <= axes.len(),
            1 <= axes.len() <= 4,
            1 <= total <= MAX_SWEEP_CASES,
            total == axes_product(axes@.take(k as int)),
            axes_issue(axes@) == axes_issue_from(axes@, k as int, total as int),
        decreases axes.len() - k,
    {
        let (kind, len) = axis_kind_len(&axes[k]);
        let mut j: usize = 0;
        while j < k
            invariant
                j <= k < axes.len(),
                kind@ == axis_kind(axes@[k as int]),
                axes_issue(axes@) == axes_issue_from(axes@, k as int, total as int),
                forall|i: int| 0 <= i < j ==> axis_kind(#[trigger] axes@[i]) != axis_kind(axes@[k as int]),
            decreases k - j,
        {
            if same_kind(&axes[j], &axes[k]) {
                assert(repeats_kind(axes@, k as int));
                return Err(axis_message("sweep axis '", kind, "' appears more than once"));
            }
            j = j + 1;
        }
        assert(!repeats_kind(axes@, k as int));
        if len == 0 {
            return Err(axis_message("sweep axis '", kind, "' has no values"));
        }
        if len > MAX_SWEEP_CASES {
            assert(total * len > MAX_SWEEP_CASES) by (nonlinear_arith)
                requires
                    total >= 1,
                    len > MAX_SWEEP_CASES,
            ;
            return Err(ServiceError::BadRequest(String::from_str("sweep exceeds the 10000 case limit")));
        }
        assert(total * len <= 100000000) by (nonlinear_arith)
            requires
                total <= MAX_SWEEP_CASES,
                len <= MAX_SWEEP_CASES,
        ;
        let next = total * len;
        if next > MAX_SWEEP_CASES {
            return Err(ServiceError::BadRequest(String::from_str("sweep exceeds the 10000 case limit")));
        }
        assert(axes@.take(k + 1).drop_last() =~= axes@.take(k as int));
        assert(next >= 1) by (nonlinear_arith)
            requires
                total >= 1,
                len >= 1,
                next == total * len,
        ;
        total = next;
        k = k + 1;
    }
    assert(axes@.take(axes.len() as int) =~= axes@);
    Ok(total)
}

fn check_axis_problem(p: &Problem, axis: &SweepAxis) -> (r: Result<(), ServiceError>)
    ensures
        r is Ok <==> axis_problem_issue(*p, *axis) is None,
        r matches Err(e) ==> e matches ServiceError::BadRequest(m) && axis_problem_issue(*p, *axis)
            == Some(m@),
{
    match axis {
        SweepAxis::Dimension { .. } => match p {
            Problem::Rlwe(_) => Err(incompatible("dimension", "rlwe")),
            _ => Ok(()),
        },
        SweepAxis::Modulus { .. } => Ok(()),
        SweepAxis::ErrorStandardDeviation { .. } => {
            let error = match p {
                Problem::Lwe(q) => &q.error,
                Problem::Rlwe(q) => &q.error,
                Problem::Glwe(q) => &q.error,
                Problem::Ntru(q) => &q.error,
                Problem::Sis(_) => {
                    return Err(incompatible("error_standard_deviation", "sis"));
                },
            };
            if matches!(error, ErrorDistribution::DiscreteGaussian { .. }) {
                Ok(())
            } else {
                Err(gaussian_required())
            }
        },
        SweepAxis::SampleCount { .. } => match p {
            Problem::Ntru(_) => Err(incompatible("sample_count", "ntru")),
            Problem::Sis(_) => Err(incompatible("sample_count", "sis")),
            _ => Ok(()),
        },
    }
}

/// Checks, axis by axis, that each axis can vary the problem.
fn check_axis_problems(p: &Problem, axes: &Vec<SweepAxis>) -> (r: Result<(), ServiceError>)
    ensures
        r is Ok <==> first_axis_issue(*p, axes@) is None,
        r matches Err(e) ==> e matches ServiceError::BadRequest(m) && first_axis_issue(*p, axes@)
            == Some(m@),
{
    let mut k: usize = 0;
    while k < axes.len()
        invariant
            k <= axes.len(),
            first_axis_issue(*p, axes@.take(k as int)) is None,
        decreases axes.len() - k,
    {
        assert(axes@.take(k + 1).drop_last() =~= axes@.take(k as int));
        match check_axis_problem(p, &axes[k]) {
            Ok(()) => {},
            Err(e) => {
                proof {
                    lemma_first_issue_prefix(*p, axes@, k as int + 1);
                }
                return Err(e);
            },
        }
        k = k + 1;
    }
    assert(axes@.take(axes.len() as int) =~= axes@);
    Ok(())
}

/// An axis issue in a prefix is the issue of the whole list.
proof fn lemma_first_issue_prefix(p: Problem, axes: Seq<SweepAxis>, n: int)
    requires
        0 <= n <= axes.len(),
        first_axis_issue(p, axes.take(n)) is Some,
    ensures
        first_axis_issue(p, axes) == first_axis_issue(p, axes.take(n)),
    decreases axes.len() - n,
{
    if n < axes.len() {
        assert(axes.take(n + 1).drop_last() =~= axes.take(n));
        lemma_first_issue_prefix(p, axes, n + 1);
    } else {
        assert(axes.take(n) =~= axes);
    }
}

// ---- generation ----

pub open spec fn problems_of(cases: Seq<ParameterCase>) -> Seq<Problem> {
    cases.map_values(|c: ParameterCase| c.problem)
}

/// A case that carries the base case's id, name, description, tags and
/// analysis settings.
pub open spec fn like_base(c: ParameterCase, base: ParameterCase) -> bool {
    &&& c.id == base.id
    &&& c.name == base.name
    &&& c.description == base.description
    &&& c.tags@ == base.tags@
    &&& c.analysis == base.analysis
}

/// Problems of the same kind whose errors, where they have one, are both
/// discrete Gaussians or both not.
pub open spec fn same_shape(a: Problem, b: Problem) -> bool {
    &&& (a is Lwe <==> b is Lwe)
    &&& (a is Rlwe <==> b is Rlwe)
    &&& (a is Glwe <==> b is Glwe)
    &&& (a is Ntru <==> b is Ntru)
    &&& (a is Sis <==> b is Sis)
    &&& (error_of(a) matches Some(ErrorDistribution::DiscreteGaussian { .. })) == (error_of(
        b,
    ) matches Some(ErrorDistribution::DiscreteGaussian { .. }))
}

proof fn lemma_shape_keeps_issue(a: Problem, b: Problem, axis: SweepAxis)
    requires
        same_shape(a, b),
    ensures
        axis_problem_issue(a, axis) == axis_problem_issue(b, axis),
{
}

proof fn lemma_applied_keeps_shape(p: Problem, axis: SweepAxis, v: int)
    requires
        axis_problem_issue(p, axis) is None,
    ensures
        same_shape(applied(p, axis, v), p),
{
}

proof fn lemma_no_issue_at(p: Problem, axes: Seq<SweepAxis>, k: int)
    requires
        first_axis_issue(p, axes) is None,
        0 <= k < axes.len(),
    ensures
        axis_problem_issue(p, axes[k]) is None,
    decreases axes.len(),
{
    if k < axes.len() - 1 {
        lemma_no_issue_at(p, axes.drop_last(), k);
    }
}

/// The cases of a sweep before they get their own ids and names.
fn generate(base: &ParameterCase, axes: &Vec<SweepAxis>) -> (r: Vec<ParameterCase>)
    requires
        first_axis_issue(base.problem, axes@) is None,
    ensures
        problems_of(r@) == grid(base.problem, axes@),
        forall|i: int| 0 <= i < r@.len() ==> like_base(#[trigger] r@[i], *base),
{
    let mut cases: Vec<ParameterCase> = Vec::new();
    cases.push(base.clone());
    assert(problems_of(cases@) =~= grid(base.problem, axes@.take(0)));
    let mut k: usize = 0;
    while k < axes.len()
        invariant
            k <= axes.len(),
            first_axis_issue(base.problem, axes@) is None,
            problems_of(cases@) == grid(base.problem, axes@.take(k as int)),
            forall|i: int|
                0 <= i < cases@.len() ==> like_base(#[trigger] cases@[i], *base) && same_shape(
                    cases@[i].problem,
                    base.problem,
                ),
        decreases axes.len() - k,
    {
        let axis = &axes[k];
        proof {
            lemma_no_issue_at(base.problem, axes@, k as int);
        }
        let (_, len) = axis_kind_len(axis);
        let mut next: Vec<ParameterCase> = Vec::new();
        let mut i: usize = 0;
        while i < cases.len()
            invariant
                i <= cases.len(),
                *axis == axes@[k as int],
                len == axis_len(*axis),
                axis_problem_issue(base.problem, *axis) is None,
                problems_of(next@) == layer(problems_of(cases@).take(i as int), *axis),
                forall|j: int|
                    0 <= j < next@.len() ==> like_base(#[trigger] next@[j], *base) && same_shape(
                        next@[j].problem,
                        base.problem,
                    ),
                forall|j: int|
                    0 <= j < cases@.len() ==> like_base(#[trigger] cases@[j], *base) && same_shape(
                        cases@[j].problem,
                        base.problem,
                    ),
            decreases cases.len() - i,
        {
            let ghost before = problems_of(next@);
            let mut v: usize = 0;
            while v < len
                invariant
                    i < cases.len(),
                    v <= len,
                    *axis == axes@[k as int],
                    len == axis_len(*axis),
                    axis_problem_issue(base.problem, *axis) is None,
                    like_base(cases@[i as int], *base),
                    same_shape(cases@[i as int].problem, base.problem),
                    problems_of(next@) == before + variants(cases@[i as int].problem, *axis).take(
                        v as int,
                    ),
                    forall|j: int|
                        0 <= j < next@.len() ==> like_base(#[trigger] next@[j], *base) && same_shape(
                            next@[j].problem,
                            base.problem,
                        ),
                decreases len - v,
            {
                let mut generated = cases[i].clone();
                proof {
                    lemma_shape_keeps_issue(generated.problem, base.problem, *axis);
                    lemma_applied_keeps_shape(generated.problem, *axis, v as int);
                }
                let ghost source = generated.problem;
                match apply_axis(&mut generated, axis, v) {
                    Ok(()) => {},
                    Err(_) => {
                        proof {
                            assert(false);
                        }
                    },
                }
                let ghost prior = problems_of(next@);
                next.push(generated);
                assert(problems_of(next@) =~= prior.push(applied(source, *axis, v as int)));
                assert(variants(cases@[i as int].problem, *axis).take(v + 1) =~= variants(
                    cases@[i as int].problem,
                    *axis,
                ).take(v as int).push(applied(source, *axis, v as int)));
                v = v + 1;
            }
            assert(variants(cases@[i as int].problem, *axis).take(len as int) =~= variants(
                cases@[i as int].problem,
                *axis,
            ));
            assert(problems_of(cases@).take(i + 1).drop_last() =~= problems_of(cases@).take(i as int));
            i = i + 1;
        }
        assert(problems_of(cases@).take(cases@.len() as int) =~= problems_of(cases@));
        assert(axes@.take(k + 1).drop_last() =~= axes@.take(k as int));
        cases = next;
        k = k + 1;
    }
    assert(axes@.take(axes.len() as int) =~= axes@);
    cases
}

// ---- ids, names and tags ----

fn sweep_id_text(base_id: &str, n: u64) -> (r: String)
    ensures
        r@ == sweep_case_id(base_id@, n as nat),
{
    let digits = u64_decimal(n);
    let mut r = String::from_str(base_id);
    r.append("-s");
    let ghost before = r@;
    let mut pad: usize = digits.as_str().unicode_len();
    assert(r@ =~= before + Seq::new((pad - digits@.len()) as nat, |i: int| '0'));
    while pad < 5
        invariant
            digits@ == nat_decimal(n as nat),
            digits@.len() <= pad,
            pad <= 5 || pad == digits@.len(),
            r@ == before + Seq::new((pad - digits@.len()) as nat, |i: int| '0'),
        decreases 5 - pad,
    {
        let ghost prior = r@;
        crate::text::push_char(&mut r, '0');
        assert(r@ =~= before + Seq::new((pad + 1 - digits@.len()) as nat, |i: int| '0'));
        pad = pad + 1;
    }
    r.append(digits.as_str());
    assert(r@ =~= sweep_case_id(base_id@, n as nat));
    r
}

fn sweep_name_text(base_name: &str, n: u64) -> (r: String)
    ensures
        r@ == sweep_case_name(base_name@, n as nat),
{
    let mut r = String::from_str(base_name);
    r.append(" · sweep ");
    let digits = u64_decimal(n);
    r.append(digits.as_str());
    r
}

fn sweep_tag_list(tags: &Vec<String>) -> (r: Vec<String>)
    ensures
        tag_texts(r@) == sweep_tags(tag_texts(tags@)),
{
    let mut found = false;
    let mut i: usize = 0;
    while i < tags.len()
        invariant
            i <= tags.len(),
            found == exists|j: int| 0 <= j < i && (#[trigger] tags@[j])@ == "sweep"@,
        decreases tags.len() - i,
    {
        if text_equals(tags[i].as_str(), "sweep") {
            found = true;
        }
        i = i + 1;
    }
    proof {
        if found {
            let j = choose|j: int| 0 <= j < tags@.len() && (#[trigger] tags@[j])@ == "sweep"@;
            assert(tag_texts(tags@)[j] == "sweep"@);
        } else {
            assert forall|j: int| 0 <= j < tag_texts(tags@).len() implies tag_texts(tags@)[j] != "sweep"@ by {
                assert(tags@[j]@ != "sweep"@);
            }
        }
    }
    let mut r = clone_strings(tags);
    if !found {
        let ghost prior = r@;
        r.push(String::from_str("sweep"));
        assert(tag_texts(r@) =~= tag_texts(prior).push("sweep"@));
    }
    r
}

fn generated_error(index: usize, path: &str, message: &str) -> (r: ServiceError)
    ensures
        r matches ServiceError::BadRequest(m) && m@ == generated_message(index as int, path@, message@),
{
    let mut m = String::from_str("generated case ");
    let digits = u64_decimal(index as u64);
    m.append(digits.as_str());
    m.append(" is invalid at ");
    m.append(path);
    m.append(": ");
    m.append(message);
    ServiceError::BadRequest(m)
}

pub open spec fn cases_view(r: Result<Vec<ParameterCase>, ServiceError>) -> Result<
    Seq<ParameterCase>,
    ServiceError,
> {
    match r {
        Ok(cases) => Ok(cases@),
        Err(e) => Err(e),
    }
}

/// All generated cases, named in order.
pub open spec fn named_all(
    base: ParameterCase,
    ps: Seq<Problem>,
    r: Result<Seq<ParameterCase>, ServiceError>,
) -> bool {
    r matches Ok(cases) && cases.len() == ps.len() && forall|i: int|
        0 <= i < cases.len() ==> is_generated_case(#[trigger] cases[i], base, ps, i)
}

/// Gives each generated case its id, name and tags, in order, and checks it.
fn name_cases(base: &ParameterCase, generated: &Vec<ParameterCase>) -> (r: Result<Vec<ParameterCase>, ServiceError>)
    requires
        generated@.len() <= MAX_SWEEP_CASES,
        forall|i: int| 0 <= i < generated@.len() ==> like_base(#[trigger] generated@[i], *base),
    ensures
        generated_sound(*base, problems_of(generated@), generated@.len() as int) ==> named_all(
            *base,
            problems_of(generated@),
            cases_view(r),
        ),
        !generated_sound(*base, problems_of(generated@), generated@.len() as int) ==> exists|i: int|
            0 <= i < generated@.len() && #[trigger] first_defect(
                *base,
                problems_of(generated@),
                i,
                cases_view(r),
            ),
{
    let ghost ps = problems_of(generated@);
    let tags = sweep_tag_list(&base.tags);
    let mut cases: Vec<ParameterCase> = Vec::new();
    let mut index: usize = 0;
    while index < generated.len()
        invariant
            index <= generated.len() <= MAX_SWEEP_CASES,
            ps == problems_of(generated@),
            tag_texts(tags@) == sweep_tags(tag_texts(base.tags@)),
            cases@.len() == index,
            generated_sound(*base, ps, index as int),
            forall|i: int| 0 <= i < cases@.len() ==> is_generated_case(#[trigger] cases@[i], *base, ps, i),
        decreases generated.len() - index,
    {
        let n = (index + 1) as u64;
        let case = ParameterCase {
            id: sweep_id_text(base.id.as_str(), n),
            name: sweep_name_text(base.name.as_str(), n),
            description: match &base.description {
                Some(d) => Some(d.clone()),
                None => None,
            },
            tags: clone_strings(&tags),
            problem: generated[index].problem.clone(),
            analysis: base.analysis,
        };
        assert(case.problem == ps[index as int]);
        assert(tag_texts(case.tags@) =~= tag_texts(tags@));
        match case.validate() {
            Ok(()) => {},
            Err(v) => {
                let e = generated_error(index, v.path.as_str(), v.message.as_str());
                proof {
                    assert(generated_issue(*base, ps, index as int) == case_issue(case));
                    assert(first_defect(
                        *base,
                        ps,
                        index as int,
                        Err::<Seq<ParameterCase>, ServiceError>(e),
                    ));
                }
                return Err(e);
            },
        }
        assert(generated_issue(*base, ps, index as int) is None);
        cases.push(case);
        index = index + 1;
    }
    Ok(cases)
}

fn copy_attacks(v: &Vec<crate::domain::Attack>) -> (r: Vec<crate::domain::Attack>)
    ensures
        r@ == v@,
{
    let mut r: Vec<crate::domain::Attack> = Vec::new();
    let mut i: usize = 0;
    while i < v.len()
        invariant
            i <= v.len(),
            r@ == v@.take(i as int),
        decreases v.len() - i,
    {
        r.push(v[i]);
        assert(r@ =~= v@.take(i + 1));
        i = i + 1;
    }
    assert(v@.take(v.len() as int) =~= v@);
    r
}

fn copy_policy(policy: &Option<SlowAttackPolicy>) -> (r: Option<SlowAttackPolicy>)
    ensures
        r is Some <==> policy is Some,
        r matches Some(q) ==> q.required_security_bits == policy->0.required_security_bits
            && q.stop_margin_bits == policy->0.stop_margin_bits && q.forced_attacks@
            == policy->0.forced_attacks@,
{
    match policy {
        Some(p) => Some(
            SlowAttackPolicy {
                required_security_bits: p.required_security_bits.clone(),
                stop_margin_bits: p.stop_margin_bits.clone(),
                forced_attacks: copy_attacks(&p.forced_attacks),
            },
        ),
        None => None,
    }
}

/// Equal slow-attack policies, their attack lists compared by elements.
pub open spec fn same_policy(a: Option<SlowAttackPolicy>, b: Option<SlowAttackPolicy>) -> bool {
    match (a, b) {
        (Some(p), Some(q)) => p.required_security_bits == q.required_security_bits
            && p.stop_margin_bits == q.stop_margin_bits && p.forced_attacks@ == q.forced_attacks@,
        (None, None) => true,
        _ => false,
    }
}

/// The `k`-th run of at most 500 consecutive cases.
pub open spec fn sweep_chunk(cases: Seq<ParameterCase>, k: int) -> Seq<ParameterCase> {
    let start = k * 500;
    let end = if start + 500 < cases.len() {
        start + 500
    } else {
        cases.len() as int
    };
    cases.subrange(start, end)
}

/// The estimate requests a sweep's cases are queued in: consecutive runs
/// of at most 500 cases, in order, each in normal mode with the sweep's
/// timeout and slow-attack policy.
pub fn sweep_requests(request: &SweepRequest, cases: Vec<ParameterCase>) -> (r: Vec<EstimateRequest>)
    ensures
        r@.len() == (cases@.len() + 499) / 500,
        forall|k: int|
            0 <= k < r@.len() ==> {
                &&& (#[trigger] r@[k]).cases@ == sweep_chunk(cases@, k)
                &&& r@[k].mode == EstimateMode::Normal
                &&& r@[k].timeout_seconds == request.timeout_seconds
                &&& same_policy(r@[k].slow_attack_policy, request.slow_attack_policy)
                &&& r@[k].name is None
                &&& r@[k].parameter_set_id is None
            },
{
    let ghost all = cases@;
    let total = cases.len();
    let mut rest = cases;
    let mut r: Vec<EstimateRequest> = Vec::new();
    let mut consumed: usize = 0;
    while rest.len() > 0
        invariant
            total == all.len(),
            consumed <= total,
            rest@ == all.subrange(consumed as int, total as int),
            consumed < total ==> consumed == r@.len() * 500,
            r@.len() > 0 ==> (r@.len() - 1) * 500 < consumed && consumed <= r@.len() * 500,
            r@.len() == 0 ==> consumed == 0,
            forall|k: int|
                0 <= k < r@.len() ==> {
                    &&& (#[trigger] r@[k]).cases@ == sweep_chunk(all, k)
                    &&& r@[k].mode == EstimateMode::Normal
                    &&& r@[k].timeout_seconds == request.timeout_seconds
                    &&& same_policy(r@[k].slow_attack_policy, request.slow_attack_policy)
                    &&& r@[k].name is None
                    &&& r@[k].parameter_set_id is None
                },
        decreases rest.len(),
    {
        let take = if rest.len() < SWEEP_BATCH_CASES {
            rest.len()
        } else {
            SWEEP_BATCH_CASES
        };
        let tail = rest.split_off(take);
        let ghost k = r@.len() as int;
        assert(rest@ == sweep_chunk(all, k)) by {
            assert(all.subrange(consumed as int, total as int).subrange(0, take as int) =~= all.subrange(
                consumed as int,
                consumed + take,
            ));
        }
        let policy = copy_policy(&request.slow_attack_policy);
        r.push(
            EstimateRequest {
                name: None,
                parameter_set_id: None,
                cases: rest,
                mode: EstimateMode::Normal,
                timeout_seconds: request.timeout_seconds,
                slow_attack_policy: policy,
            },
        );
        consumed = consumed + take;
        rest = tail;
        assert(rest@ =~= all.subrange(consumed as int, total as int));
    }
    assert(consumed == total);
    r
}

/// Checks an estimate request for the first generated case, as a request of
/// the sweep would be checked.
fn check_probe(
    first: &ParameterCase,
    timeout_seconds: u64,
    policy: &Option<SlowAttackPolicy>,
) -> (r: Result<(), ServiceError>)
    requires
        case_issue(*first) is None,
    ensures
        match probe_issue(first.problem, timeout_seconds, *policy) {
            None => r is Ok,
            Some(found) => r matches Err(e) && e matches ServiceError::Invalid(v) && error_is(
                v,
                found.0,
                found.1,
            ),
        },
{
    let mut cases: Vec<ParameterCase> = Vec::new();
    cases.push(first.clone());
    let probe = EstimateRequest {
        name: None,
        parameter_set_id: None,
        cases,
        mode: EstimateMode::Normal,
        timeout_seconds,
        slow_attack_policy: copy_policy(policy),
    };
    proof {
        reveal_with_fuel(crate::validation::case_list_issue, 2);
        let c = probe.cases@[0];
        assert(case_issue(c) == case_issue(*first));
        assert(crate::validation::needs_slow_policy(probe) == lwe_like(first.problem)) by {
            if lwe_like(first.problem) {
                assert(lwe_like(probe.cases@[0].problem));
            }
        }
        assert(request_issue(probe) == probe_issue(first.problem, timeout_seconds, *policy));
    }
    match probe.validate() {
        Ok(()) => Ok(()),
        Err(v) => Err(ServiceError::Invalid(v)),
    }
}

/// Expands a sweep into its cases: every combination of the axis values
/// applied to the base case, the first axis varying slowest, each with its
/// own id, name and the sweep tag.
pub fn expand(request: &SweepRequest) -> (r: Result<Vec<ParameterCase>, ServiceError>)
    ensures
        sweep_outcome(
            *request,
            cases_view(r),
        ),
{
    match request.base_case.validate() {
        Ok(()) => {},
        Err(v) => {
            return Err(ServiceError::Invalid(v));
        },
    }
    let total = match check_axes(&request.axes) {
        Ok(total) => total,
        Err(e) => {
            return Err(e);
        },
    };
    match check_axis_problems(&request.base_case.problem, &request.axes) {
        Ok(()) => {},
        Err(e) => {
            return Err(e);
        },
    }
    let generated = generate(&request.base_case, &request.axes);
    proof {
        lemma_grid_len(request.base_case.problem, request.axes@);
    }
    let cases = match name_cases(&request.base_case, &generated) {
        Ok(cases) => cases,
        Err(e) => {
            return Err(e);
        },
    };
    let ghost ps = grid(request.base_case.problem, request.axes@);
    assert(is_generated_case(cases@[0], request.base_case, ps, 0));
    assert(case_issue(cases@[0]) == generated_issue(request.base_case, ps, 0));
    match check_probe(&cases[0], request.timeout_seconds, &request.slow_attack_policy) {
        Ok(()) => {},
        Err(e) => {
            return Err(e);
        },
    }
    Ok(cases)
}

/// A sweep has as many cases as the product of its axis lengths.
pub proof fn lemma_grid_len(p: Problem, axes: Seq<SweepAxis>)
    ensures
        grid(p, axes).len() == axes_product(axes),
    decreases axes.len(),
{
    if axes.len() > 0 {
        lemma_grid_len(p, axes.drop_last());
        lemma_layer_len(grid(p, axes.drop_last()), axes.last());
    }
}

proof fn lemma_layer_len(ps: Seq<Problem>, axis: SweepAxis)
    ensures
        layer(ps, axis).len() == ps.len() * axis_len(axis),
    decreases ps.len(),
{
    if ps.len() > 0 {
        lemma_layer_len(ps.drop_last(), axis);
        assert(layer(ps, axis).len() == (ps.len() - 1) * axis_len(axis) + axis_len(axis));
        assert((ps.len() - 1) * axis_len(axis) + axis_len(axis) == ps.len() * axis_len(axis)) by (nonlinear_arith);
    }
}

/// The text of a version-4 UUID: 36 characters, hyphens after the 8th,
/// 12th, 16th and 20th hexadecimal digit, lower-case hexadecimal digits
/// elsewhere, version digit `4` and variant digit one of `8`, `9`, `a`, `b`.
pub open spec fn is_v4_uuid_text(s: Seq<char>) -> bool {
    &&& s.len() == 36
    &&& forall|i: int|
        0 <= i < 36 ==> if i == 8 || i == 13 || i == 18 || i == 23 {
            #[trigger] s[i] == '-'
        } else {
            lower_hex_char(s[i])
        }
    &&& s[14] == '4'
    &&& s[19] == '8' || s[19] == '9' || s[19] == 'a' || s[19] == 'b'
}

/// A fresh random id: `uuid::Uuid::new_v4`, in its hyphenated lower-case
/// text form (`Display`, which writes `LowerHex` of the hyphenated form).
/// Claimed: the text is a version-4 UUID of RFC 4122 variant, as `new_v4`
/// masks in the version and variant bits. Nothing is claimed of which id
/// comes back.
#[verifier::external_body]
fn new_sweep_id() -> (r: String)
    ensures
        is_v4_uuid_text(r@),
{
    uuid::Uuid::new_v4().to_string()
}

fn batch_ids_of(batches: &Vec<BatchSnapshot>) -> (r: Vec<String>)
    ensures
        r@.len() == batches@.len(),
        forall|i: int| 0 <= i < r@.len() ==> (#[trigger] r@[i])@ == batches@[i].batch_id@,
{
    let mut r: Vec<String> = Vec::new();
    let mut i: usize = 0;
    while i < batches.len()
        invariant
            i <= batches.len(),
            r@.len() == i,
            forall|j: int| 0 <= j < i ==> (#[trigger] r@[j])@ == batches@[j].batch_id@,
        decreases batches.len() - i,
    {
        r.push(batches[i].batch_id.clone());
        i = i + 1;
    }
    r
}

/// The answer to a sweep: a fresh id, the number of cases and the batches
/// they were queued in, with their ids in order.
pub fn response(batches: Vec<BatchSnapshot>, case_count: usize) -> (r: SweepResponse)
    ensures
        is_v4_uuid_text(r.sweep_id@),
        r.case_count == case_count,
        r.batch_ids@.len() == batches@.len(),
        forall|i: int| 0 <= i < r.batch_ids@.len() ==> (#[trigger] r.batch_ids@[i])@ == batches@[i].batch_id@,
        r.batches@ == batches@,
{
    let batch_ids = batch_ids_of(&batches);
    SweepResponse { sweep_id: new_sweep_id(), case_count, batch_ids, batches }
}

} // verus!
