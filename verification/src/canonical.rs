//! Canonical JSON text of cache identities (object keys in byte order,
//! no insignificant whitespace) and the stable SHA-256 identity built on it.

use vstd::prelude::*;

use crate::domain::{
    same_model, attack_name, AnalysisModel, Attack, ErrorDistribution, EstimatorProblem, LweProblem, NtruProblem, SisProblem,
    ntru_structure_name, ReductionCostModel, ReductionModel, ReductionShapeModel,
    ResolvedAnalysisSettings, SampleCount, SecretDistribution, SecurityModel, sis_norm_name,
    is_coefficient_embedding, NegacyclicRing,
};
use crate::text::{chars_of, nat_decimal, push_char, u64_decimal};

use sha2::{Digest, Sha256};

verus! {

#[derive(Debug, PartialEq, Eq)]
pub struct EstimatorContext {
    pub estimator_commit: String,
    pub sage_version: String,
    pub adapter_version: String,
    pub worker_image: String,
}

impl Clone for EstimatorContext {
    fn clone(&self) -> (r: Self)
        ensures
            r == *self,
    {
        EstimatorContext {
            estimator_commit: self.estimator_commit.clone(),
            sage_version: self.sage_version.clone(),
            adapter_version: self.adapter_version.clone(),
            worker_image: self.worker_image.clone(),
        }
    }
}

/// Everything that decides one attack's estimate: the estimator problem,
/// the analysis model, the resolved settings, the attack and the estimator.
#[derive(Debug, PartialEq)]
pub struct AttackCacheIdentity {
    pub canonicalization_version: u32,
    pub estimator_problem: EstimatorProblem,
    pub analysis_model: AnalysisModel,
    pub resolved_analysis: ResolvedAnalysisSettings,
    pub attack: Attack,
    pub estimator_context: EstimatorContext,
}

impl AttackCacheIdentity {
    pub fn new(
        estimator_problem: EstimatorProblem,
        analysis_model: AnalysisModel,
        resolved_analysis: ResolvedAnalysisSettings,
        attack: Attack,
        estimator_context: EstimatorContext,
    ) -> (r: Self)
        ensures
            r.canonicalization_version == crate::CANONICALIZATION_VERSION,
            r.estimator_problem == estimator_problem,
            r.analysis_model == analysis_model,
            r.resolved_analysis == resolved_analysis,
            r.attack == attack,
            r.estimator_context == estimator_context,
    {
        AttackCacheIdentity {
            canonicalization_version: crate::CANONICALIZATION_VERSION,
            estimator_problem,
            analysis_model,
            resolved_analysis,
            attack,
            estimator_context,
        }
    }

    /// The stable hash of the identity's canonical JSON.
    pub fn hash(&self) -> (r: String)
        ensures
            r@ == stable_hash_of(identity_json(*self)),
    {
        let mut text = String::new();
        write_identity(&mut text, self);
        stable_hash(text.as_str())
    }
}

/// Hexadecimal digit (lower case) of a value below 16.
pub open spec fn hex_digit(d: nat) -> char {
    if d < 10 {
        crate::text::digit_char(d)
    } else if d == 10 {
        'a'
    } else if d == 11 {
        'b'
    } else if d == 12 {
        'c'
    } else if d == 13 {
        'd'
    } else if d == 14 {
        'e'
    } else {
        'f'
    }
}

/// Lower-case hexadecimal text of bytes, two digits each.
pub open spec fn hex_lower(bytes: Seq<u8>) -> Seq<char>
    decreases bytes.len(),
{
    if bytes.len() == 0 {
        Seq::empty()
    } else {
        hex_lower(bytes.drop_last()) + seq![
            hex_digit((bytes.last() / 16) as nat),
            hex_digit((bytes.last() % 16) as nat),
        ]
    }
}

/// What SHA-256 gives for some bytes.
pub uninterp spec fn sha256_digest(data: Seq<u8>) -> Seq<u8>;

/// `sha256:` followed by the hexadecimal SHA-256 of the UTF-8 text.
pub open spec fn stable_hash_of(text: Seq<char>) -> Seq<char> {
    "sha256:"@ + hex_lower(sha256_digest(vstd::utf8::encode_utf8(text)))
}

/// SHA-256 of a byte string with `sha2::Sha256::digest`. Claimed: the result
/// is `sha256_digest` of the input and has 32 bytes.
#[verifier::external_body]
fn sha256(data: &[u8]) -> (r: Vec<u8>)
    ensures
        r@ == sha256_digest(data@),
        r@.len() == 32,
{
    Sha256::digest(data).to_vec()
}

fn hex_char(d: u8) -> (c: char)
    requires
        d < 16,
    ensures
        c == hex_digit(d as nat),
{
    if d < 10 {
        if d == 0 {
            '0'
        } else if d == 1 {
            '1'
        } else if d == 2 {
            '2'
        } else if d == 3 {
            '3'
        } else if d == 4 {
            '4'
        } else if d == 5 {
            '5'
        } else if d == 6 {
            '6'
        } else if d == 7 {
            '7'
        } else if d == 8 {
            '8'
        } else {
            '9'
        }
    } else if d == 10 {
        'a'
    } else if d == 11 {
        'b'
    } else if d == 12 {
        'c'
    } else if d == 13 {
        'd'
    } else if d == 14 {
        'e'
    } else {
        'f'
    }
}

/// `sha256:` and the lower-case hexadecimal SHA-256 digest of the text's
/// UTF-8 bytes.
pub fn stable_hash(text: &str) -> (r: String)
    ensures
        r@ == stable_hash_of(text@),
{
    let digest = sha256(text.as_bytes());
    let mut r = String::from_str("sha256:");
    let mut i: usize = 0;
    while i < digest.len()
        invariant
            i <= digest.len(),
            r@ == "sha256:"@ + hex_lower(digest@.take(i as int)),
        decreases digest.len() - i,
    {
        let byte = digest[i];
        push_char(&mut r, hex_char(byte / 16));
        push_char(&mut r, hex_char(byte % 16));
        assert(digest@.take(i + 1).drop_last() =~= digest@.take(i as int));
        i = i + 1;
    }
    assert(digest@.take(digest.len() as int) =~= digest@);
    r
}

// ---- JSON text ----

/// A character inside a JSON string, escaped as `serde_json` writes it.
pub open spec fn json_escape(c: char) -> Seq<char> {
    if c == '"' {
        seq!['\\', '"']
    } else if c == '\\' {
        seq!['\\', '\\']
    } else if c == '\u{8}' {
        seq!['\\', 'b']
    } else if c == '\u{c}' {
        seq!['\\', 'f']
    } else if c == '\n' {
        seq!['\\', 'n']
    } else if c == '\r' {
        seq!['\\', 'r']
    } else if c == '\t' {
        seq!['\\', 't']
    } else if (c as int) < 32 {
        seq!['\\', 'u', '0', '0', hex_digit((c as int / 16) as nat), hex_digit((c as int % 16) as nat)]
    } else {
        seq![c]
    }
}

pub open spec fn json_escaped(s: Seq<char>) -> Seq<char>
    decreases s.len(),
{
    if s.len() == 0 {
        Seq::empty()
    } else {
        json_escaped(s.drop_last()) + json_escape(s.last())
    }
}

/// A JSON string literal.
pub open spec fn json_string(s: Seq<char>) -> Seq<char> {
    seq!['"'] + json_escaped(s) + seq!['"']
}

/// `"key":` before a member's value.
pub open spec fn json_key(key: Seq<char>) -> Seq<char> {
    json_string(key) + seq![':']
}

fn write_escaped_char(out: &mut String, c: char)
    ensures
        final(out)@ == old(out)@ + json_escape(c),
{
    if c == '"' {
        push_char(out, '\\');
        push_char(out, '"');
    } else if c == '\\' {
        push_char(out, '\\');
        push_char(out, '\\');
    } else if c == '\u{8}' {
        push_char(out, '\\');
        push_char(out, 'b');
    } else if c == '\u{c}' {
        push_char(out, '\\');
        push_char(out, 'f');
    } else if c == '\n' {
        push_char(out, '\\');
        push_char(out, 'n');
    } else if c == '\r' {
        push_char(out, '\\');
        push_char(out, 'r');
    } else if c == '\t' {
        push_char(out, '\\');
        push_char(out, 't');
    } else if (c as u32) < 32 {
        let code = (c as u32) as u8;
        push_char(out, '\\');
        push_char(out, 'u');
        push_char(out, '0');
        push_char(out, '0');
        push_char(out, hex_char(code / 16));
        push_char(out, hex_char(code % 16));
    } else {
        push_char(out, c);
    }
    assert(final(out)@ =~= old(out)@ + json_escape(c));
}

/// Appends a JSON string literal.
pub fn write_json_string(out: &mut String, s: &str)
    ensures
        final(out)@ == old(out)@ + json_string(s@),
{
    let chars = chars_of(s);
    push_char(out, '"');
    let ghost start = out@;
    let mut i: usize = 0;
    while i < chars.len()
        invariant
            i <= chars.len(),
            chars@ == s@,
            out@ == start + json_escaped(chars@.take(i as int)),
        decreases chars.len() - i,
    {
        write_escaped_char(out, chars[i]);
        assert(chars@.take(i + 1).drop_last() =~= chars@.take(i as int));
        i = i + 1;
    }
    assert(chars@.take(chars.len() as int) =~= chars@);
    push_char(out, '"');
    assert(final(out)@ =~= old(out)@ + json_string(s@));
}

/// `,"key":` or, first in an object, `"key":`.
pub open spec fn member(first: bool, key: Seq<char>) -> Seq<char> {
    if first {
        json_key(key)
    } else {
        seq![','] + json_key(key)
    }
}

pub(crate) fn write_member(out: &mut String, first: bool, key: &str)
    ensures
        final(out)@ == old(out)@ + member(first, key@),
{
    if !first {
        push_char(out, ',');
    }
    write_json_string(out, key);
    push_char(out, ':');
    assert(final(out)@ =~= old(out)@ + member(first, key@));
}

/// A tagged object of only its kind.
pub open spec fn kind_only(kind: Seq<char>) -> Seq<char> {
    seq!['{'] + member(true, "kind"@) + json_string(kind) + seq!['}']
}

fn write_kind_only(out: &mut String, kind: &str)
    ensures
        final(out)@ == old(out)@ + kind_only(kind@),
{
    push_char(out, '{');
    write_member(out, true, "kind");
    write_json_string(out, kind);
    push_char(out, '}');
    assert(final(out)@ =~= old(out)@ + kind_only(kind@));
}

pub(crate) fn write_u64(out: &mut String, n: u64)
    ensures
        final(out)@ == old(out)@ + nat_decimal(n as nat),
{
    let digits = u64_decimal(n);
    out.append(digits.as_str());
}

pub open spec fn sample_json(s: SampleCount) -> Seq<char> {
    match s {
        SampleCount::Finite { count } => seq!['{'] + member(true, "count"@) + nat_decimal(
            count as nat,
        ) + member(false, "kind"@) + json_string("finite"@) + seq!['}'],
        SampleCount::Unlimited => kind_only("unlimited"@),
    }
}

fn write_sample(out: &mut String, s: &SampleCount)
    ensures
        final(out)@ == old(out)@ + sample_json(*s),
{
    match s {
        SampleCount::Finite { count } => {
            push_char(out, '{');
            write_member(out, true, "count");
            write_u64(out, *count);
            write_member(out, false, "kind");
            write_json_string(out, "finite");
            push_char(out, '}');
            assert(final(out)@ =~= old(out)@ + sample_json(*s));
        },
        SampleCount::Unlimited => write_kind_only(out, "unlimited"),
    }
}

/// `{"kind":kind,"key":value}` with `kind` sorting before `key`.
pub open spec fn kind_then(kind: Seq<char>, key: Seq<char>, value: Seq<char>) -> Seq<char> {
    seq!['{'] + member(true, "kind"@) + json_string(kind) + member(false, key) + value + seq!['}']
}

/// `{"key":value,"kind":kind}` with `key` sorting before `kind`.
pub open spec fn then_kind(key: Seq<char>, value: Seq<char>, kind: Seq<char>) -> Seq<char> {
    seq!['{'] + member(true, key) + value + member(false, "kind"@) + json_string(kind) + seq!['}']
}

pub open spec fn secret_json(d: SecretDistribution) -> Seq<char> {
    match d {
        SecretDistribution::UniformBinary => kind_only("uniform_binary"@),
        SecretDistribution::UniformTernary => kind_only("uniform_ternary"@),
        SecretDistribution::SparseTernary {} => kind_only("sparse_ternary"@),
        SecretDistribution::FixedWeightBinary { hamming_weight } => then_kind(
            "hamming_weight"@,
            nat_decimal(hamming_weight as nat),
            "fixed_weight_binary"@,
        ),
        SecretDistribution::FixedWeightTernary { positive_weight, negative_weight } => seq!['{']
            + member(true, "kind"@) + json_string("fixed_weight_ternary"@) + member(
            false,
            "negative_weight"@,
        ) + nat_decimal(negative_weight as nat) + member(false, "positive_weight"@) + nat_decimal(
            positive_weight as nat,
        ) + seq!['}'],
        SecretDistribution::DiscreteGaussian { standard_deviation } => kind_then(
            "discrete_gaussian"@,
            "standard_deviation"@,
            json_string(standard_deviation@),
        ),
        SecretDistribution::CenteredBinomial { eta } => then_kind(
            "eta"@,
            nat_decimal(eta as nat),
            "centered_binomial"@,
        ),
        SecretDistribution::UniformInteger { lower, upper } => seq!['{'] + member(true, "kind"@)
            + json_string("uniform_integer"@) + member(false, "lower"@) + json_string(lower@)
            + member(false, "upper"@) + json_string(upper@) + seq!['}'],
    }
}

pub open spec fn error_json(d: ErrorDistribution) -> Seq<char> {
    match d {
        ErrorDistribution::DiscreteGaussian { standard_deviation } => kind_then(
            "discrete_gaussian"@,
            "standard_deviation"@,
            json_string(standard_deviation@),
        ),
        ErrorDistribution::CenteredBinomial { eta } => then_kind(
            "eta"@,
            nat_decimal(eta as nat),
            "centered_binomial"@,
        ),
        ErrorDistribution::UniformInteger { lower, upper } => seq!['{'] + member(true, "kind"@)
            + json_string("uniform_integer"@) + member(false, "lower"@) + json_string(lower@)
            + member(false, "upper"@) + json_string(upper@) + seq!['}'],
    }
}

pub(crate) fn write_secret(out: &mut String, d: &SecretDistribution)
    ensures
        final(out)@ == old(out)@ + secret_json(*d),
{
    match d {
        SecretDistribution::UniformBinary => write_kind_only(out, "uniform_binary"),
        SecretDistribution::UniformTernary => write_kind_only(out, "uniform_ternary"),
        SecretDistribution::SparseTernary {} => write_kind_only(out, "sparse_ternary"),
        SecretDistribution::FixedWeightBinary { hamming_weight } => {
            push_char(out, '{');
            write_member(out, true, "hamming_weight");
            write_u64(out, *hamming_weight);
            write_member(out, false, "kind");
            write_json_string(out, "fixed_weight_binary");
            push_char(out, '}');
            assert(final(out)@ =~= old(out)@ + secret_json(*d));
        },
        SecretDistribution::FixedWeightTernary { positive_weight, negative_weight } => {
            push_char(out, '{');
            write_member(out, true, "kind");
            write_json_string(out, "fixed_weight_ternary");
            write_member(out, false, "negative_weight");
            write_u64(out, *negative_weight);
            write_member(out, false, "positive_weight");
            write_u64(out, *positive_weight);
            push_char(out, '}');
            assert(final(out)@ =~= old(out)@ + secret_json(*d));
        },
        SecretDistribution::DiscreteGaussian { standard_deviation } => {
            push_char(out, '{');
            write_member(out, true, "kind");
            write_json_string(out, "discrete_gaussian");
            write_member(out, false, "standard_deviation");
            write_json_string(out, standard_deviation.as_str());
            push_char(out, '}');
            assert(final(out)@ =~= old(out)@ + secret_json(*d));
        },
        SecretDistribution::CenteredBinomial { eta } => {
            push_char(out, '{');
            write_member(out, true, "eta");
            write_u64(out, *eta);
            write_member(out, false, "kind");
            write_json_string(out, "centered_binomial");
            push_char(out, '}');
            assert(final(out)@ =~= old(out)@ + secret_json(*d));
        },
        SecretDistribution::UniformInteger { lower, upper } => {
            push_char(out, '{');
            write_member(out, true, "kind");
            write_json_string(out, "uniform_integer");
            write_member(out, false, "lower");
            write_json_string(out, lower.as_str());
            write_member(out, false, "upper");
            write_json_string(out, upper.as_str());
            push_char(out, '}');
            assert(final(out)@ =~= old(out)@ + secret_json(*d));
        },
    }
}

fn write_error(out: &mut String, d: &ErrorDistribution)
    ensures
        final(out)@ == old(out)@ + error_json(*d),
{
    match d {
        ErrorDistribution::DiscreteGaussian { standard_deviation } => {
            push_char(out, '{');
            write_member(out, true, "kind");
            write_json_string(out, "discrete_gaussian");
            write_member(out, false, "standard_deviation");
            write_json_string(out, standard_deviation.as_str());
            push_char(out, '}');
            assert(final(out)@ =~= old(out)@ + error_json(*d));
        },
        ErrorDistribution::CenteredBinomial { eta } => {
            push_char(out, '{');
            write_member(out, true, "eta");
            write_u64(out, *eta);
            write_member(out, false, "kind");
            write_json_string(out, "centered_binomial");
            push_char(out, '}');
            assert(final(out)@ =~= old(out)@ + error_json(*d));
        },
        ErrorDistribution::UniformInteger { lower, upper } => {
            push_char(out, '{');
            write_member(out, true, "kind");
            write_json_string(out, "uniform_integer");
            write_member(out, false, "lower");
            write_json_string(out, lower.as_str());
            write_member(out, false, "upper");
            write_json_string(out, upper.as_str());
            push_char(out, '}');
            assert(final(out)@ =~= old(out)@ + error_json(*d));
        },
    }
}

/// The members of an LWE problem after its opening brace, with or without
/// its kind tag.
pub open spec fn lwe_members(p: LweProblem, tagged: bool) -> Seq<char> {
    member(true, "dimension"@) + nat_decimal(p.dimension as nat) + member(false, "error"@)
        + error_json(p.error) + (if tagged {
        member(false, "kind"@) + json_string("lwe"@)
    } else {
        Seq::empty()
    }) + member(false, "modulus"@) + json_string(p.modulus@) + member(false, "samples"@)
        + sample_json(p.samples) + member(false, "secret"@) + secret_json(p.secret)
}

#[verifier::rlimit(100)]
fn write_lwe(out: &mut String, p: &LweProblem, tagged: bool)
    ensures
        final(out)@ == old(out)@ + seq!['{'] + lwe_members(*p, tagged) + seq!['}'],
{
    push_char(out, '{');
    write_member(out, true, "dimension");
    write_u64(out, p.dimension);
    write_member(out, false, "error");
    write_error(out, &p.error);
    let ghost before_tag = out@;
    if tagged {
        write_member(out, false, "kind");
        write_json_string(out, "lwe");
    }
    assert(out@ =~= before_tag + (if tagged {
        member(false, "kind"@) + json_string("lwe"@)
    } else {
        Seq::empty()
    }));
    write_member(out, false, "modulus");
    write_json_string(out, p.modulus.as_str());
    write_member(out, false, "samples");
    write_sample(out, &p.samples);
    write_member(out, false, "secret");
    write_secret(out, &p.secret);
    push_char(out, '}');
    assert(final(out)@ =~= old(out)@ + seq!['{'] + lwe_members(*p, tagged) + seq!['}']);
}

pub open spec fn ntru_json(p: NtruProblem) -> Seq<char> {
    seq!['{'] + member(true, "dimension"@) + nat_decimal(p.dimension as nat) + member(
        false,
        "error"@,
    ) + error_json(p.error) + member(false, "kind"@) + json_string("ntru"@) + member(
        false,
        "modulus"@,
    ) + json_string(p.modulus@) + member(false, "secret"@) + secret_json(p.secret) + member(
        false,
        "structure"@,
    ) + json_string(ntru_structure_name(p.structure)) + seq!['}']
}

pub open spec fn sis_json(p: SisProblem) -> Seq<char> {
    seq!['{'] + member(true, "columns"@) + nat_decimal(p.columns as nat) + member(
        false,
        "dimension"@,
    ) + nat_decimal(p.dimension as nat) + member(false, "kind"@) + json_string("sis"@) + member(
        false,
        "length_bound"@,
    ) + json_string(p.length_bound@) + member(false, "modulus"@) + json_string(p.modulus@)
        + member(false, "norm"@) + json_string(sis_norm_name(p.norm)) + seq!['}']
}

pub open spec fn estimator_problem_json(problem: EstimatorProblem) -> Seq<char> {
    match problem {
        EstimatorProblem::Lwe(p) => seq!['{'] + lwe_members(p, true) + seq!['}'],
        EstimatorProblem::Ntru(p) => ntru_json(p),
        EstimatorProblem::Sis(p) => sis_json(p),
    }
}

#[verifier::rlimit(50)]
fn write_ntru(out: &mut String, p: &NtruProblem)
    ensures
        final(out)@ == old(out)@ + ntru_json(*p),
{
    push_char(out, '{');
    write_member(out, true, "dimension");
    write_u64(out, p.dimension);
    write_member(out, false, "error");
    write_error(out, &p.error);
    write_member(out, false, "kind");
    write_json_string(out, "ntru");
    write_member(out, false, "modulus");
    write_json_string(out, p.modulus.as_str());
    write_member(out, false, "secret");
    write_secret(out, &p.secret);
    write_member(out, false, "structure");
    write_json_string(out, p.structure.name());
    push_char(out, '}');
    assert(final(out)@ =~= old(out)@ + ntru_json(*p));
}

#[verifier::rlimit(50)]
fn write_sis(out: &mut String, p: &SisProblem)
    ensures
        final(out)@ == old(out)@ + sis_json(*p),
{
    push_char(out, '{');
    write_member(out, true, "columns");
    write_u64(out, p.columns);
    write_member(out, false, "dimension");
    write_u64(out, p.dimension);
    write_member(out, false, "kind");
    write_json_string(out, "sis");
    write_member(out, false, "length_bound");
    write_json_string(out, p.length_bound.as_str());
    write_member(out, false, "modulus");
    write_json_string(out, p.modulus.as_str());
    write_member(out, false, "norm");
    write_json_string(out, p.norm.name());
    push_char(out, '}');
    assert(final(out)@ =~= old(out)@ + sis_json(*p));
}

fn write_estimator_problem(out: &mut String, problem: &EstimatorProblem)
    ensures
        final(out)@ == old(out)@ + estimator_problem_json(*problem),
{
    match problem {
        EstimatorProblem::Lwe(p) => {
            write_lwe(out, p, true);
            assert(final(out)@ =~= old(out)@ + estimator_problem_json(*problem));
        },
        EstimatorProblem::Ntru(p) => write_ntru(out, p),
        EstimatorProblem::Sis(p) => write_sis(out, p),
    }
}

/// A JSON array of strings, from `items[i..]` on, each after a comma.
pub open spec fn string_items(items: Seq<String>) -> Seq<char>
    decreases items.len(),
{
    if items.len() == 0 {
        Seq::empty()
    } else if items.len() == 1 {
        json_string(items[0]@)
    } else {
        string_items(items.drop_last()) + seq![','] + json_string(items.last()@)
    }
}

fn write_string_array(out: &mut String, items: &Vec<String>)
    ensures
        final(out)@ == old(out)@ + seq!['['] + string_items(items@) + seq![']'],
{
    push_char(out, '[');
    let ghost start = out@;
    let mut i: usize = 0;
    while i < items.len()
        invariant
            i <= items.len(),
            out@ == start + string_items(items@.take(i as int)),
        decreases items.len() - i,
    {
        if i > 0 {
            push_char(out, ',');
        }
        write_json_string(out, items[i].as_str());
        assert(items@.take(i + 1).drop_last() =~= items@.take(i as int));
        i = i + 1;
    }
    assert(items@.take(items.len() as int) =~= items@);
    push_char(out, ']');
    assert(final(out)@ =~= old(out)@ + seq!['['] + string_items(items@) + seq![']']);
}

pub open spec fn analysis_model_json(model: AnalysisModel) -> Seq<char> {
    match model {
        AnalysisModel::DirectLwe { version } => kind_then(
            "direct_lwe"@,
            "version"@,
            nat_decimal(version as nat),
        ),
        AnalysisModel::DirectNtru { version } => kind_then(
            "direct_ntru"@,
            "version"@,
            nat_decimal(version as nat),
        ),
        AnalysisModel::DirectSis { version } => kind_then(
            "direct_sis"@,
            "version"@,
            nat_decimal(version as nat),
        ),
        AnalysisModel::CoefficientEmbeddingV1 {
            version,
            source_ring_samples,
            scalar_samples,
            derived_lwe,
            warnings,
        } => seq!['{'] + member(true, "derived_lwe"@) + seq!['{'] + lwe_members(*derived_lwe, false)
            + seq!['}'] + member(false, "kind"@) + json_string("coefficient_embedding_v1"@)
            + member(false, "scalar_samples"@) + sample_json(scalar_samples) + member(
            false,
            "source_ring_samples"@,
        ) + sample_json(source_ring_samples) + member(false, "version"@) + nat_decimal(
            version as nat,
        ) + member(false, "warnings"@) + seq!['['] + string_items(warnings@) + seq![']'] + seq![
            '}',
        ],
    }
}

fn write_kind_version(out: &mut String, kind: &str, version: u32)
    ensures
        final(out)@ == old(out)@ + kind_then(kind@, "version"@, nat_decimal(version as nat)),
{
    push_char(out, '{');
    write_member(out, true, "kind");
    write_json_string(out, kind);
    write_member(out, false, "version");
    write_u64(out, version as u64);
    push_char(out, '}');
    assert(final(out)@ =~= old(out)@ + kind_then(kind@, "version"@, nat_decimal(version as nat)));
}

#[verifier::rlimit(100)]
fn write_analysis_model(out: &mut String, model: &AnalysisModel)
    ensures
        final(out)@ == old(out)@ + analysis_model_json(*model),
{
    match model {
        AnalysisModel::DirectLwe { version } => write_kind_version(out, "direct_lwe", *version),
        AnalysisModel::DirectNtru { version } => write_kind_version(out, "direct_ntru", *version),
        AnalysisModel::DirectSis { version } => write_kind_version(out, "direct_sis", *version),
        AnalysisModel::CoefficientEmbeddingV1 {
            version,
            source_ring_samples,
            scalar_samples,
            derived_lwe,
            warnings,
        } => {
            push_char(out, '{');
            write_member(out, true, "derived_lwe");
            write_lwe(out, derived_lwe, false);
            write_member(out, false, "kind");
            write_json_string(out, "coefficient_embedding_v1");
            write_member(out, false, "scalar_samples");
            write_sample(out, scalar_samples);
            write_member(out, false, "source_ring_samples");
            write_sample(out, source_ring_samples);
            write_member(out, false, "version");
            write_u64(out, *version as u64);
            write_member(out, false, "warnings");
            write_string_array(out, warnings);
            push_char(out, '}');
            assert(final(out)@ =~= old(out)@ + analysis_model_json(*model));
        },
    }
}

/// Analysis models equal up to their warning lists' identity have one JSON.
pub proof fn lemma_same_model_json(a: AnalysisModel, b: AnalysisModel)
    requires
        same_model(a, b),
    ensures
        analysis_model_json(a) == analysis_model_json(b),
{
}

/// A list of strings has its JSON from the strings' texts alone.
proof fn lemma_string_items_by_text(a: Seq<String>, b: Seq<String>)
    requires
        a.len() == b.len(),
        forall|i: int| 0 <= i < a.len() ==> (#[trigger] a[i])@ == b[i]@,
    ensures
        string_items(a) == string_items(b),
    decreases a.len(),
{
    if a.len() > 1 {
        lemma_string_items_by_text(a.drop_last(), b.drop_last());
    }
}

/// Two coefficient embeddings of one ring problem have one JSON.
pub proof fn lemma_embedding_json(
    a: AnalysisModel,
    b: AnalysisModel,
    ring: NegacyclicRing,
    rank: u64,
    samples: SampleCount,
    secret: SecretDistribution,
    error: ErrorDistribution,
)
    requires
        is_coefficient_embedding(a, ring, rank, samples, secret, error),
        is_coefficient_embedding(b, ring, rank, samples, secret, error),
    ensures
        analysis_model_json(a) == analysis_model_json(b),
{
    match (a, b) {
        (
            AnalysisModel::CoefficientEmbeddingV1 { warnings: wa, .. },
            AnalysisModel::CoefficientEmbeddingV1 { warnings: wb, .. },
        ) => {
            lemma_string_items_by_text(wa@, wb@);
        },
        _ => {},
    }
}

/// Identities that agree in all but the analysis model's value, and whose
/// analysis models have one JSON, have one JSON.
pub proof fn lemma_identity_json_by_parts(a: AttackCacheIdentity, b: AttackCacheIdentity)
    requires
        a.canonicalization_version == b.canonicalization_version,
        a.estimator_problem == b.estimator_problem,
        analysis_model_json(a.analysis_model) == analysis_model_json(b.analysis_model),
        a.resolved_analysis == b.resolved_analysis,
        a.attack == b.attack,
        a.estimator_context == b.estimator_context,
    ensures
        identity_json(a) == identity_json(b),
{
    reveal(identity_json);
}

pub open spec fn security_model_name(m: SecurityModel) -> Seq<char> {
    match m {
        SecurityModel::Classical => "classical"@,
        SecurityModel::Quantum => "quantum"@,
    }
}

pub open spec fn cost_model_name(m: ReductionCostModel) -> Seq<char> {
    match m {
        ReductionCostModel::Bdgl16 => "BDGL16"@,
        ReductionCostModel::LaaMosPol14 => "LaaMosPol14"@,
    }
}

pub open spec fn resolved_json(r: ResolvedAnalysisSettings) -> Seq<char> {
    seq!['{'] + member(true, "cost_model"@) + json_string(cost_model_name(r.cost_model)) + (
    match r.reduction_model {
        Some(_) => member(false, "reduction_model"@) + json_string("coefficient_embedding_v1"@),
        None => Seq::empty(),
    }) + member(false, "security_model"@) + json_string(security_model_name(r.security_model))
        + member(false, "shape_model"@) + json_string("GSA"@) + seq!['}']
}

#[verifier::rlimit(100)]
fn write_resolved(out: &mut String, r: &ResolvedAnalysisSettings)
    ensures
        final(out)@ == old(out)@ + resolved_json(*r),
{
    push_char(out, '{');
    write_member(out, true, "cost_model");
    let cost = match r.cost_model {
        ReductionCostModel::Bdgl16 => "BDGL16",
        ReductionCostModel::LaaMosPol14 => "LaaMosPol14",
    };
    write_json_string(out, cost);
    let ghost before = out@;
    if r.reduction_model.is_some() {
        write_member(out, false, "reduction_model");
        write_json_string(out, "coefficient_embedding_v1");
    }
    assert(out@ =~= before + match r.reduction_model {
        Some(_) => member(false, "reduction_model"@) + json_string("coefficient_embedding_v1"@),
        None => Seq::empty(),
    });
    write_member(out, false, "security_model");
    let security = match r.security_model {
        SecurityModel::Classical => "classical",
        SecurityModel::Quantum => "quantum",
    };
    write_json_string(out, security);
    write_member(out, false, "shape_model");
    write_json_string(out, "GSA");
    push_char(out, '}');
    assert(final(out)@ =~= old(out)@ + resolved_json(*r));
}

pub open spec fn context_json(c: EstimatorContext) -> Seq<char> {
    seq!['{'] + member(true, "adapter_version"@) + json_string(c.adapter_version@) + member(
        false,
        "estimator_commit"@,
    ) + json_string(c.estimator_commit@) + member(false, "sage_version"@) + json_string(
        c.sage_version@,
    ) + member(false, "worker_image"@) + json_string(c.worker_image@) + seq!['}']
}

pub fn write_context(out: &mut String, c: &EstimatorContext)
    ensures
        final(out)@ == old(out)@ + context_json(*c),
{
    push_char(out, '{');
    write_member(out, true, "adapter_version");
    write_json_string(out, c.adapter_version.as_str());
    write_member(out, false, "estimator_commit");
    write_json_string(out, c.estimator_commit.as_str());
    write_member(out, false, "sage_version");
    write_json_string(out, c.sage_version.as_str());
    write_member(out, false, "worker_image");
    write_json_string(out, c.worker_image.as_str());
    push_char(out, '}');
    assert(final(out)@ =~= old(out)@ + context_json(*c));
}

/// Canonical JSON of an attack cache identity.
#[verifier::opaque]
pub open spec fn identity_json(id: AttackCacheIdentity) -> Seq<char> {
    seq!['{'] + member(true, "analysis_model"@) + analysis_model_json(id.analysis_model) + member(
        false,
        "attack"@,
    ) + json_string(attack_name(id.attack)) + member(false, "canonicalization_version"@)
        + nat_decimal(id.canonicalization_version as nat) + member(false, "estimator_context"@)
        + context_json(id.estimator_context) + member(false, "estimator_problem"@)
        + estimator_problem_json(id.estimator_problem) + member(false, "resolved_analysis"@)
        + resolved_json(id.resolved_analysis) + seq!['}']
}

#[verifier::rlimit(100)]
pub fn write_identity(out: &mut String, id: &AttackCacheIdentity)
    ensures
        final(out)@ == old(out)@ + identity_json(*id),
{
    push_char(out, '{');
    write_member(out, true, "analysis_model");
    write_analysis_model(out, &id.analysis_model);
    write_member(out, false, "attack");
    write_json_string(out, id.attack.name());
    write_member(out, false, "canonicalization_version");
    write_u64(out, id.canonicalization_version as u64);
    write_member(out, false, "estimator_context");
    write_context(out, &id.estimator_context);
    write_member(out, false, "estimator_problem");
    write_estimator_problem(out, &id.estimator_problem);
    write_member(out, false, "resolved_analysis");
    write_resolved(out, &id.resolved_analysis);
    push_char(out, '}');
    proof {
        reveal(identity_json);
    }
    assert(final(out)@ =~= old(out)@ + identity_json(*id));
}

} // verus!
