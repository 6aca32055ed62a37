//! Versioned, deterministic applicability rules for the expensive adaptive
//! LWE attacks (Arora-GB and BKW).

use vstd::prelude::*;

use crate::domain::{Attack, ErrorDistribution, EstimatorProblem, LweProblem, SampleCount, SignedInteger};
use crate::numbers::{
    decimal_compare, decimal_numerator, decimal_order, decimal_scale, digits_value, int_decimal,
    integer_compare, integer_sum, integer_value, is_integer_literal, lemma_int_decimal,
    lemma_nat_decimal, lemma_rule_literals, natural_compare, pow10, starts_negative,
    unsigned_text,
};
use crate::text::{nat_decimal, push_char, u64_decimal};

verus! {

/// Version of the reviewed slow-attack applicability rules.
pub const SLOW_ATTACK_APPLICABILITY_RULE_VERSION: u32 = 1;

#[derive(Clone, Copy, Debug, PartialEq, Eq, Structural)]
pub enum ApplicabilityLevel {
    Applicable,
    Borderline,
    Inapplicable,
}

#[derive(Debug, PartialEq, Eq)]
pub struct SlowAttackApplicability {
    pub level: ApplicabilityLevel,
    pub code: String,
    pub reason: String,
}

impl Clone for SlowAttackApplicability {
    fn clone(&self) -> (r: Self)
        ensures
            r == *self,
    {
        SlowAttackApplicability {
            level: self.level,
            code: self.code.clone(),
            reason: self.reason.clone(),
        }
    }
}

/// A decision: level, code and reason.
pub type Verdict = (ApplicabilityLevel, Seq<char>, Seq<char>);

pub open spec fn verdict_of(a: SlowAttackApplicability) -> Verdict {
    (a.level, a.code@, a.reason@)
}

impl SlowAttackApplicability {
    fn applicable(code: &str, reason: String) -> (r: Self)
        ensures
            verdict_of(r) == (ApplicabilityLevel::Applicable, code@, reason@),
    {
        SlowAttackApplicability {
            level: ApplicabilityLevel::Applicable,
            code: String::from_str(code),
            reason,
        }
    }

    fn borderline(code: &str, reason: String) -> (r: Self)
        ensures
            verdict_of(r) == (ApplicabilityLevel::Borderline, code@, reason@),
    {
        SlowAttackApplicability {
            level: ApplicabilityLevel::Borderline,
            code: String::from_str(code),
            reason,
        }
    }

    fn inapplicable(code: &str, reason: String) -> (r: Self)
        ensures
            verdict_of(r) == (ApplicabilityLevel::Inapplicable, code@, reason@),
    {
        SlowAttackApplicability {
            level: ApplicabilityLevel::Inapplicable,
            code: String::from_str(code),
            reason,
        }
    }
}

/// `value(s) <= bound` for a plain decimal `s`.
pub open spec fn decimal_at_most(s: Seq<char>, bound: nat) -> bool {
    decimal_numerator(s) <= bound * pow10(decimal_scale(s))
}

/// Number of values a bounded error can take.
pub open spec fn error_width(error: ErrorDistribution) -> int {
    match error {
        ErrorDistribution::CenteredBinomial { eta } => 2 * eta + 1,
        ErrorDistribution::UniformInteger { lower, upper } => integer_value(upper@) - integer_value(
            lower@,
        ) + 1,
        ErrorDistribution::DiscreteGaussian { .. } => 0,
    }
}

pub open spec fn finite_count(samples: SampleCount) -> nat {
    match samples {
        SampleCount::Finite { count } => count as nat,
        SampleCount::Unlimited => 0,
    }
}

/// A finite sample count of at most `n^2`.
pub open spec fn sample_starved(problem: LweProblem) -> bool {
    problem.samples is Finite && finite_count(problem.samples) <= problem.dimension
        * problem.dimension
}

/// The reviewed Arora-GB domain: sample-rich instances with small Gaussian
/// or small bounded error.
pub open spec fn arora_gb_verdict(problem: LweProblem) -> Verdict {
    let n = problem.dimension;
    if sample_starved(problem) {
        (
            ApplicabilityLevel::Inapplicable,
            "arora_sample_starved"@,
            "finite sample count m="@ + nat_decimal(finite_count(problem.samples))
                + " is not greater than n^2; Arora-GB is outside the reviewed sample-rich domain"@,
        )
    } else {
        match problem.error {
            ErrorDistribution::DiscreteGaussian { standard_deviation } => {
                let sigma = standard_deviation@;
                if n <= 256 && decimal_at_most(sigma, 2) {
                    (
                        ApplicabilityLevel::Applicable,
                        "arora_small_gaussian"@,
                        "Gaussian-like error has n="@ + nat_decimal(n as nat) + " and sigma="@
                            + sigma + " inside the reviewed small-instance domain"@,
                    )
                } else if n <= 128 && decimal_at_most(sigma, 4) {
                    (
                        ApplicabilityLevel::Borderline,
                        "arora_gaussian_borderline"@,
                        "Gaussian-like error has n="@ + nat_decimal(n as nat) + " and sigma="@
                            + sigma + " inside the conservative borderline domain"@,
                    )
                } else {
                    (
                        ApplicabilityLevel::Inapplicable,
                        "arora_gaussian_outside_domain"@,
                        "Gaussian-like error has n="@ + nat_decimal(n as nat) + " and sigma="@
                            + sigma + ", outside the reviewed small-error Arora-GB domain"@,
                    )
                }
            },
            error => {
                let width = error_width(error);
                if width <= 11 {
                    (
                        ApplicabilityLevel::Applicable,
                        "arora_small_bounded_error"@,
                        "bounded error support width D="@ + int_decimal(width)
                            + " is inside the reviewed Arora-GB run domain"@,
                    )
                } else if width <= 13 && n <= 512 {
                    (
                        ApplicabilityLevel::Borderline,
                        "arora_bounded_borderline"@,
                        "bounded error support width D="@ + int_decimal(width) + " and n="@
                            + nat_decimal(n as nat)
                            + " are inside the conservative borderline domain"@,
                    )
                } else {
                    (
                        ApplicabilityLevel::Inapplicable,
                        "arora_bounded_outside_domain"@,
                        "bounded error support width D="@ + int_decimal(width) + " and n="@
                            + nat_decimal(n as nat) + " are outside the reviewed Arora-GB domain"@,
                    )
                }
            },
        }
    }
}

/// The reviewed BKW domain: very small moduli, small moduli with unlimited
/// samples, and a borderline band of small dimension and modulus.
pub open spec fn bkw_verdict(problem: LweProblem) -> Verdict {
    let n = problem.dimension;
    let q = problem.modulus@;
    if digits_value(q) <= 4 {
        (
            ApplicabilityLevel::Applicable,
            "bkw_very_small_modulus"@,
            "q="@ + q + " is inside the reviewed LPN-like BKW domain"@,
        )
    } else if digits_value(q) <= 16 && problem.samples == SampleCount::Unlimited {
        (
            ApplicabilityLevel::Applicable,
            "bkw_small_modulus_unlimited_samples"@,
            "q="@ + q + " with unlimited samples is inside the reviewed small-modulus BKW domain"@,
        )
    } else if n <= 128 && digits_value(q) <= 512 {
        (
            ApplicabilityLevel::Borderline,
            "bkw_small_parameter_borderline"@,
            "n="@ + nat_decimal(n as nat) + " and q="@ + q
                + " are inside the conservative BKW borderline domain"@,
        )
    } else {
        (
            ApplicabilityLevel::Inapplicable,
            "bkw_outside_small_modulus_domain"@,
            "n="@ + nat_decimal(n as nat) + " and q="@ + q
                + " are outside the reviewed small-modulus/LPN-like BKW domain"@,
        )
    }
}

/// The rule for an attack on a problem, where one exists: only Arora-GB and
/// BKW on direct LWE instances have rules.
pub open spec fn applicability_rule(problem: EstimatorProblem, attack: Attack) -> Option<Verdict> {
    match problem {
        EstimatorProblem::Lwe(p) => if attack == Attack::AroraGb {
            Some(arora_gb_verdict(p))
        } else if attack == Attack::Bkw {
            Some(bkw_verdict(p))
        } else {
            None
        },
        _ => None,
    }
}

/// Classifies a slow attack before deciding whether the estimator needs to
/// run it.
pub fn slow_attack_applicability(problem: &EstimatorProblem, attack: Attack) -> (r: Option<
    SlowAttackApplicability,
>)
    ensures
        r is Some <==> applicability_rule(*problem, attack) is Some,
        r matches Some(a) ==> Some(verdict_of(a)) == applicability_rule(*problem, attack),
{
    match problem {
        EstimatorProblem::Lwe(p) => match attack {
            Attack::AroraGb => Some(arora_gb_applicability(p)),
            Attack::Bkw => Some(bkw_applicability(p)),
            _ => None,
        },
        _ => None,
    }
}

/// BKW on an LWE instance with a finite sample count and a modulus above 4 is
/// never planned as applicable: the small-modulus code is given only with
/// unlimited samples, and with `n > 128` or `q > 512` such an instance is
/// outside BKW's domain.
pub proof fn lemma_bkw_finite_samples(p: LweProblem, a: SlowAttackApplicability)
    requires
        Some(verdict_of(a)) == applicability_rule(EstimatorProblem::Lwe(p), Attack::Bkw),
    ensures
        a.code@ == "bkw_small_modulus_unlimited_samples"@ ==> p.samples == SampleCount::Unlimited,
        p.samples is Finite && digits_value(p.modulus@) > 4 ==> a.level != ApplicabilityLevel::Applicable,
        p.samples is Finite && digits_value(p.modulus@) > 4 && (p.dimension > 128 || digits_value(
            p.modulus@,
        ) > 512) ==> a.level == ApplicabilityLevel::Inapplicable && a.code@
            == "bkw_outside_small_modulus_domain"@,
        digits_value(p.modulus@) <= 4 <==> a.code@ == "bkw_very_small_modulus"@,
        digits_value(p.modulus@) <= 4 ==> a.level == ApplicabilityLevel::Applicable,
        p.samples == SampleCount::Unlimited && 4 < digits_value(p.modulus@) <= 16 ==> a.level
            == ApplicabilityLevel::Applicable && a.code@ == "bkw_small_modulus_unlimited_samples"@,
        a.level == ApplicabilityLevel::Borderline ==> p.dimension <= 128 && 4 < digits_value(
            p.modulus@,
        ) <= 512,
        a.level == ApplicabilityLevel::Applicable ==> digits_value(p.modulus@) <= 16,
{
    reveal_strlit("bkw_small_modulus_unlimited_samples");
    reveal_strlit("bkw_very_small_modulus");
    reveal_strlit("bkw_small_parameter_borderline");
    reveal_strlit("bkw_outside_small_modulus_domain");
    assert("bkw_very_small_modulus"@[4] != "bkw_small_modulus_unlimited_samples"@[4]);
    assert("bkw_small_parameter_borderline"@[10] != "bkw_small_modulus_unlimited_samples"@[10]);
    assert("bkw_outside_small_modulus_domain"@[4] != "bkw_small_modulus_unlimited_samples"@[4]);
}

fn text3(a: &str, b: &str, c: &str) -> (r: String)
    ensures
        r@ == a@ + b@ + c@,
{
    let mut r = String::from_str(a);
    r.append(b);
    r.append(c);
    r
}

fn text5(a: &str, b: &str, c: &str, d: &str, e: &str) -> (r: String)
    ensures
        r@ == a@ + b@ + c@ + d@ + e@,
{
    let mut r = String::from_str(a);
    r.append(b);
    r.append(c);
    r.append(d);
    r.append(e);
    r
}

/// The integer literal of the opposite value.
fn negated(value: &str) -> (r: String)
    requires
        is_integer_literal(value@),
    ensures
        is_integer_literal(r@),
        integer_value(r@) == -integer_value(value@),
{
    let chars = crate::text::chars_of(value);
    let mut out: Vec<char> = Vec::new();
    if chars[0] == '-' {
        let mut i: usize = 1;
        while i < chars.len()
            invariant
                1 <= i <= chars.len(),
                out@ == chars@.subrange(1, i as int),
            decreases chars.len() - i,
        {
            out.push(chars[i]);
            assert(chars@.subrange(1, i + 1) =~= chars@.subrange(1, i as int).push(chars@[i as int]));
            i = i + 1;
        }
        proof {
            assert(out@ =~= unsigned_text(value@));
            assert(crate::text::is_digit(out@[0]));
            assert(unsigned_text(out@) == out@);
        }
    } else {
        out.push('-');
        let mut i: usize = 0;
        while i < chars.len()
            invariant
                i <= chars.len(),
                out@ == seq!['-'] + chars@.subrange(0, i as int),
            decreases chars.len() - i,
        {
            out.push(chars[i]);
            assert(chars@.subrange(0, i + 1) =~= chars@.subrange(0, i as int).push(chars@[i as int]));
            i = i + 1;
        }
        proof {
            assert(chars@.subrange(0, chars.len() as int) =~= chars@);
            assert(out@.drop_first() =~= value@);
            assert(unsigned_text(value@) == value@);
        }
    }
    crate::text::string_from_chars(&out)
}

/// Width of a bounded error as base-10 text.
fn bounded_error_width(error: &ErrorDistribution) -> (r: String)
    requires
        !(error is DiscreteGaussian),
    ensures
        r@ == int_decimal(error_width(*error)),
        is_integer_literal(r@),
        integer_value(r@) == error_width(*error),
{
    proof {
        lemma_rule_literals();
        lemma_nat_decimal(1);
    }
    match error {
        ErrorDistribution::CenteredBinomial { eta } => {
            let e = u64_decimal(*eta);
            proof {
                lemma_nat_decimal(*eta as nat);
            }
            let doubled = integer_sum(e.as_str(), e.as_str());
            proof {
                lemma_int_decimal(2 * *eta);
            }
            let width = integer_sum(doubled.as_str(), "1");
            proof {
                lemma_int_decimal(2 * *eta + 1);
            }
            width
        },
        ErrorDistribution::UniformInteger { lower, upper } => {
            let low = lower.as_str();
            let high = upper.as_str();
            let negative_low = negated(low);
            let difference = integer_sum(high, negative_low.as_str());
            proof {
                lemma_int_decimal(integer_value(high@) - integer_value(low@));
            }
            let width = integer_sum(difference.as_str(), "1");
            proof {
                lemma_int_decimal(integer_value(high@) - integer_value(low@) + 1);
            }
            width
        },
        ErrorDistribution::DiscreteGaussian { .. } => {
            let r = String::new();
            assert(false);
            r
        },
    }
}

fn decimal_at_most_literal(value: &str, bound: &str, b: Ghost<nat>) -> (r: bool)
    requires
        crate::numbers::is_plain_decimal(value@),
        bound@ == nat_decimal(b@),
    ensures
        r == decimal_at_most(value@, b@),
{
    proof {
        lemma_nat_decimal(b@);
        assert(pow10(0) == 1);
    }
    decimal_compare(value, bound) <= 0
}

fn arora_gb_applicability(problem: &LweProblem) -> (r: SlowAttackApplicability)
    ensures
        verdict_of(r) == arora_gb_verdict(*problem),
{
    let n = problem.dimension;
    proof {
        lemma_rule_literals();
    }
    if let SampleCount::Finite { count } = problem.samples {
        let starved = match n.checked_mul(n) {
            Some(limit) => count <= limit,
            None => true,
        };
        if starved {
            let m = u64_decimal(count);
            return SlowAttackApplicability::inapplicable(
                "arora_sample_starved",
                text3(
                    "finite sample count m=",
                    m.as_str(),
                    " is not greater than n^2; Arora-GB is outside the reviewed sample-rich domain",
                ),
            );
        }
    }
    let dimension = u64_decimal(n);
    match &problem.error {
        ErrorDistribution::DiscreteGaussian { standard_deviation } => {
            let sigma = standard_deviation.as_str();
            if n <= 256 && decimal_at_most_literal(sigma, "2", Ghost(2)) {
                return SlowAttackApplicability::applicable(
                    "arora_small_gaussian",
                    text5(
                        "Gaussian-like error has n=",
                        dimension.as_str(),
                        " and sigma=",
                        sigma,
                        " inside the reviewed small-instance domain",
                    ),
                );
            }
            if n <= 128 && decimal_at_most_literal(sigma, "4", Ghost(4)) {
                return SlowAttackApplicability::borderline(
                    "arora_gaussian_borderline",
                    text5(
                        "Gaussian-like error has n=",
                        dimension.as_str(),
                        " and sigma=",
                        sigma,
                        " inside the conservative borderline domain",
                    ),
                );
            }
            SlowAttackApplicability::inapplicable(
                "arora_gaussian_outside_domain",
                text5(
                    "Gaussian-like error has n=",
                    dimension.as_str(),
                    " and sigma=",
                    sigma,
                    ", outside the reviewed small-error Arora-GB domain",
                ),
            )
        },
        error => {
            let width = bounded_error_width(error);
            proof {
                lemma_nat_decimal(11);
                lemma_nat_decimal(13);
            }
            if integer_compare(width.as_str(), "11") <= 0 {
                return SlowAttackApplicability::applicable(
                    "arora_small_bounded_error",
                    text3(
                        "bounded error support width D=",
                        width.as_str(),
                        " is inside the reviewed Arora-GB run domain",
                    ),
                );
            }
            if integer_compare(width.as_str(), "13") <= 0 && n <= 512 {
                let mut reason = text3(
                    "bounded error support width D=",
                    width.as_str(),
                    " and n=",
                );
                reason.append(dimension.as_str());
                reason.append(" are inside the conservative borderline domain");
                return SlowAttackApplicability::borderline("arora_bounded_borderline", reason);
            }
            let mut reason = text3("bounded error support width D=", width.as_str(), " and n=");
            reason.append(dimension.as_str());
            reason.append(" are outside the reviewed Arora-GB domain");
            SlowAttackApplicability::inapplicable("arora_bounded_outside_domain", reason)
        },
    }
}

fn bkw_applicability(problem: &LweProblem) -> (r: SlowAttackApplicability)
    ensures
        verdict_of(r) == bkw_verdict(*problem),
{
    let q = problem.modulus.as_str();
    proof {
        lemma_rule_literals();
        lemma_nat_decimal(4);
        lemma_nat_decimal(16);
        lemma_nat_decimal(512);
    }
    if natural_compare(q, "4") <= 0 {
        return SlowAttackApplicability::applicable(
            "bkw_very_small_modulus",
            text3("q=", q, " is inside the reviewed LPN-like BKW domain"),
        );
    }
    let unlimited = match problem.samples {
        SampleCount::Unlimited => true,
        SampleCount::Finite { .. } => false,
    };
    if natural_compare(q, "16") <= 0 && unlimited {
        return SlowAttackApplicability::applicable(
            "bkw_small_modulus_unlimited_samples",
            text3("q=", q, " with unlimited samples is inside the reviewed small-modulus BKW domain"),
        );
    }
    let dimension = u64_decimal(problem.dimension);
    if problem.dimension <= 128 && natural_compare(q, "512") <= 0 {
        return SlowAttackApplicability::borderline(
            "bkw_small_parameter_borderline",
            text5(
                "n=",
                dimension.as_str(),
                " and q=",
                q,
                " are inside the conservative BKW borderline domain",
            ),
        );
    }
    SlowAttackApplicability::inapplicable(
        "bkw_outside_small_modulus_domain",
        text5(
            "n=",
            dimension.as_str(),
            " and q=",
            q,
            " are outside the reviewed small-modulus/LPN-like BKW domain",
        ),
    )
}

} // verus!
