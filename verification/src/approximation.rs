//! Calibrated slow-attack approximation models: their file format, the
//! checks a model must pass before use, and what the service reports of it.

use vstd::prelude::*;

use crate::canonical::{
    cost_model_name, identity_json, json_string, member, secret_json, security_model_name,
    stable_hash, stable_hash_of, write_identity, write_json_string, write_member, write_secret,
    write_u64, AttackCacheIdentity,
};
use crate::domain::attack_name;
use crate::canonical::EstimatorContext;
use crate::error::ServiceError;
use crate::numbers::{decimal_compare, decimal_numerator, decimal_order};
use crate::text::{chars_of, text_equals};
use crate::text::nat_decimal;
use crate::domain::{
    ApproximationProvenance, Attack, AttackOutcome, ErrorDistribution, EstimatorProblem,
    ExactDecimal, ReductionCostModel, ReductionShapeModel, SampleCount, SecretDistribution,
    SecurityModel,
};
use crate::scheduler::slot_of;
use crate::text::push_char;

verus! {

pub const APPROXIMATION_MODEL_FORMAT: &'static str = "lattice-security/slow-attack-model";

pub const APPROXIMATION_MODEL_VERSION: u32 = 1;

pub const APPROXIMATION_FEATURE_SCHEMA: &'static str = "lwe-log2-v1";

#[derive(Debug, PartialEq, Eq)]
pub struct CalibrationProvenance {
    pub estimator_commit: String,
    pub sage_version: String,
    pub adapter_version: String,
    pub worker_image: String,
    pub platform: String,
    pub dataset_hash: String,
}

#[derive(Debug, PartialEq, Eq)]
pub struct FeatureRange {
    pub min: ExactDecimal,
    pub max: ExactDecimal,
}

#[derive(Debug, PartialEq, Eq)]
pub struct ApproximationDomain {
    pub log2_dimension: FeatureRange,
    pub log2_modulus: FeatureRange,
    pub log2_error_standard_deviation: FeatureRange,
    pub log2_samples: Option<FeatureRange>,
}

#[derive(Clone, Copy, Debug, PartialEq, Eq, Structural)]
pub enum CalibrationSampleMode {
    Unlimited,
    Finite,
}

#[derive(Debug, PartialEq, Eq)]
pub struct CalibrationPoint {
    pub log2_dimension: ExactDecimal,
    pub log2_modulus: ExactDecimal,
    pub log2_error_standard_deviation: ExactDecimal,
    pub log2_samples: Option<ExactDecimal>,
    pub security_bits: ExactDecimal,
}

#[derive(Debug, PartialEq, Eq)]
pub struct HoldoutMetrics {
    pub samples: u64,
    pub mean_absolute_error_bits: ExactDecimal,
    pub p95_absolute_error_bits: ExactDecimal,
    pub max_overestimate_bits: ExactDecimal,
}

#[derive(Debug, PartialEq, Eq)]
pub struct ApproximationGroup {
    pub id: String,
    pub attack: Attack,
    pub security_model: SecurityModel,
    pub cost_model: ReductionCostModel,
    pub shape_model: ReductionShapeModel,
    pub secret: SecretDistribution,
    pub sample_mode: CalibrationSampleMode,
    pub domain: ApproximationDomain,
    pub neighbor_count: u32,
    pub max_normalized_distance: ExactDecimal,
    pub safety_margin_bits: ExactDecimal,
    pub holdout: HoldoutMetrics,
    pub points: Vec<CalibrationPoint>,
}

#[derive(Debug, PartialEq, Eq)]
pub struct ApproximationModelFile {
    pub format: String,
    pub version: u32,
    pub model_id: String,
    pub generated_at: String,
    pub feature_schema: String,
    pub provenance: CalibrationProvenance,
    pub groups: Vec<ApproximationGroup>,
}

/// What the service reports about its approximation model.
#[derive(Debug, PartialEq, Eq)]
pub struct ApproximationMetadata {
    pub available: bool,
    pub model_id: Option<String>,
    pub model_version: Option<u32>,
    pub model_hash: Option<String>,
    pub dataset_hash: Option<String>,
    pub generated_at: Option<String>,
    pub attacks: Vec<Attack>,
    pub group_count: usize,
    pub unavailable_reason: Option<String>,
}

impl Default for ApproximationMetadata {
    fn default() -> (r: Self)
        ensures
            !r.available,
            r.model_id is None,
            r.model_version is None,
            r.model_hash is None,
            r.dataset_hash is None,
            r.generated_at is None,
            r.attacks@.len() == 0,
            r.group_count == 0,
            r.unavailable_reason is None,
    {
        ApproximationMetadata {
            available: false,
            model_id: None,
            model_version: None,
            model_hash: None,
            dataset_hash: None,
            generated_at: None,
            attacks: Vec::new(),
            group_count: 0,
            unavailable_reason: None,
        }
    }
}

/// The approximation engine: a checked model and its hash, or the reason
/// there is none.
#[derive(Debug)]
pub struct ApproximationEngine {
    model: Option<ApproximationModelFile>,
    model_hash: Option<String>,
    unavailable_reason: Option<String>,
}

impl ApproximationEngine {
    pub closed spec fn loaded_model(self) -> Option<ApproximationModelFile> {
        self.model
    }

    pub closed spec fn hash_text(self) -> Option<Seq<char>> {
        match self.model_hash {
            Some(h) => Some(h@),
            None => None,
        }
    }

    pub closed spec fn reason_text(self) -> Option<Seq<char>> {
        match self.unavailable_reason {
            Some(r) => Some(r@),
            None => None,
        }
    }

    /// An engine without a model, for the given reason.
    pub fn disabled(reason: String) -> (r: Self)
        ensures
            r.loaded_model() is None,
            r.hash_text() is None,
            r.reason_text() == Some(reason@),
    {
        ApproximationEngine { model: None, model_hash: None, unavailable_reason: Some(reason) }
    }

    /// Why a prediction is unavailable: the engine's reason, else that the
    /// parameters lie outside the calibrated domain.
    pub fn unavailable_reason(&self) -> (r: &str)
        ensures
            r@ == match self.reason_text() {
                Some(t) => t,
                None => "parameters are outside the calibrated model domain"@,
            },
    {
        match &self.unavailable_reason {
            Some(reason) => reason.as_str(),
            None => "parameters are outside the calibrated model domain",
        }
    }

    /// The key of a prediction in the approximation cache: the stable hash
    /// of the identity and the model hash; none without a model hash.
    pub fn cache_key(&self, identity: &AttackCacheIdentity) -> (r: Option<String>)
        ensures
            match self.hash_text() {
                Some(h) => r matches Some(k) && k@ == stable_hash_of(prediction_key_json(*identity, h)),
                None => r is None,
            },
    {
        match &self.model_hash {
            Some(model_hash) => {
                let mut out = String::new();
                push_char(&mut out, '[');
                write_identity(&mut out, identity);
                push_char(&mut out, ',');
                write_json_string(&mut out, model_hash.as_str());
                push_char(&mut out, ']');
                assert(out@ =~= prediction_key_json(*identity, model_hash@));
                Some(stable_hash(out.as_str()))
            },
            None => None,
        }
    }
}

/// Canonical JSON of an identity and a model hash.
pub open spec fn prediction_key_json(identity: AttackCacheIdentity, model_hash: Seq<char>) -> Seq<char> {
    seq!['['] + identity_json(identity) + seq![','] + json_string(model_hash) + seq![']']
}

/// The attacks of the groups, in attack order, once each.
pub open spec fn sorted_attack_set(r: Seq<Attack>, groups: Seq<ApproximationGroup>) -> bool {
    &&& forall|i: int, j: int| 0 <= i < j < r.len() ==> slot_of(r[i]) < slot_of(r[j])
    &&& forall|a: Attack|
        #[trigger] r.contains(a) <==> exists|k: int| 0 <= k < groups.len() && groups[k].attack == a
}

/// What the service reports of an engine: without a model, only that none
/// is available and why; with one, its identity, hash, dataset, the attacks
/// it covers and its group count, and that it is unavailable without groups.
pub open spec fn metadata_of(engine: ApproximationEngine, m: ApproximationMetadata) -> bool {
    match engine.loaded_model() {
        None => {
            &&& !m.available
            &&& m.model_id is None
            &&& m.model_version is None
            &&& m.model_hash is None
            &&& m.dataset_hash is None
            &&& m.generated_at is None
            &&& m.attacks@.len() == 0
            &&& m.group_count == 0
            &&& match engine.reason_text() {
                Some(t) => m.unavailable_reason matches Some(u) && u@ == t,
                None => m.unavailable_reason is None,
            }
        },
        Some(model) => {
            &&& m.available == (model.groups@.len() > 0)
            &&& m.model_id matches Some(id) && id@ == model.model_id@
            &&& m.model_version == Some(model.version)
            &&& match engine.hash_text() {
                Some(h) => m.model_hash matches Some(x) && x@ == h,
                None => m.model_hash is None,
            }
            &&& m.dataset_hash matches Some(d) && d@ == model.provenance.dataset_hash@
            &&& m.generated_at matches Some(g) && g@ == model.generated_at@
            &&& sorted_attack_set(m.attacks@, model.groups@)
            &&& m.group_count == model.groups@.len()
            &&& if model.groups@.len() == 0 {
                m.unavailable_reason matches Some(u) && u@ == "model contains no calibrated groups"@
            } else {
                m.unavailable_reason is None
            }
        },
    }
}

fn group_attacks(groups: &Vec<ApproximationGroup>) -> (r: Vec<Attack>)
    ensures
        sorted_attack_set(r@, groups@),
{
    let mut present: Vec<bool> = Vec::new();
    let mut i: usize = 0;
    while i < 10
        invariant
            i <= 10,
            present@.len() == i,
            forall|j: int| 0 <= j < i ==> !present@[j],
        decreases 10 - i,
    {
        present.push(false);
        i = i + 1;
    }
    let mut k: usize = 0;
    while k < groups.len()
        invariant
            k <= groups.len(),
            present@.len() == 10,
            forall|j: int|
                0 <= j < 10 ==> (present@[j] <==> exists|g: int|
                    0 <= g < k && slot_of(#[trigger] groups@[g].attack) == j),
        decreases groups.len() - k,
    {
        let slot = crate::scheduler::attack_slot(groups[k].attack);
        present.set(slot, true);
        proof {
            assert forall|j: int| 0 <= j < 10 implies (present@[j] <==> exists|g: int|
                0 <= g < k + 1 && slot_of(#[trigger] groups@[g].attack) == j) by {
                if j == slot {
                    assert(slot_of(groups@[k as int].attack) == j);
                }
                if present@[j] && j != slot {
                    let g = choose|g: int| 0 <= g < k && slot_of(#[trigger] groups@[g].attack) == j;
                    assert(0 <= g < k + 1);
                }
                if exists|g: int| 0 <= g < k + 1 && slot_of(#[trigger] groups@[g].attack) == j {
                    let g = choose|g: int| 0 <= g < k + 1 && slot_of(#[trigger] groups@[g].attack) == j;
                    if g < k {
                        assert(exists|g2: int| 0 <= g2 < k && slot_of(#[trigger] groups@[g2].attack) == j);
                    }
                }
            }
        }
        k = k + 1;
    }
    let mut r: Vec<Attack> = Vec::new();
    let mut i: usize = 0;
    while i < 10
        invariant
            i <= 10,
            present@.len() == 10,
            forall|j: int|
                0 <= j < 10 ==> (present@[j] <==> exists|g: int|
                    0 <= g < groups@.len() && slot_of(#[trigger] groups@[g].attack) == j),
            forall|x: int, y: int| 0 <= x < y < r@.len() ==> slot_of(r@[x]) < slot_of(r@[y]),
            forall|x: int| 0 <= x < r@.len() ==> slot_of(#[trigger] r@[x]) < i,
            forall|a: Attack|
                slot_of(a) < i ==> (#[trigger] r@.contains(a) <==> present@[slot_of(a)]),
            forall|a: Attack| slot_of(a) >= i ==> !#[trigger] r@.contains(a),
        decreases 10 - i,
    {
        if present[i] {
            let a = crate::scheduler::attack_at(i);
            let ghost before = r@;
            r.push(a);
            proof {
                assert forall|b: Attack| #[trigger] r@.contains(b) <==> before.contains(b) || b == a by {
                    if r@.contains(b) {
                        let x = choose|x: int| 0 <= x < r@.len() && r@[x] == b;
                        if x < before.len() {
                            assert(before[x] == b);
                        }
                    }
                    if before.contains(b) {
                        let x = choose|x: int| 0 <= x < before.len() && before[x] == b;
                        assert(r@[x] == b);
                    }
                    if b == a {
                        assert(r@[before.len() as int] == b);
                    }
                }
            }
        }
        i = i + 1;
    }
    proof {
        assert forall|a: Attack| #[trigger] r@.contains(a) <==> exists|k: int|
            0 <= k < groups@.len() && groups@[k].attack == a by {
            if exists|k: int| 0 <= k < groups@.len() && groups@[k].attack == a {
                let k = choose|k: int| 0 <= k < groups@.len() && groups@[k].attack == a;
                assert(slot_of(groups@[k].attack) == slot_of(a));
            }
            if r@.contains(a) {
                let g = choose|g: int| 0 <= g < groups@.len() && slot_of(#[trigger] groups@[g].attack) == slot_of(a);
                assert(groups@[g].attack == a);
            }
        }
    }
    r
}

impl ApproximationEngine {
    /// What the service reports of its approximation model.
    pub fn metadata(&self) -> (r: ApproximationMetadata)
        ensures
            metadata_of(*self, r),
    {
        match &self.model {
            None => ApproximationMetadata {
                available: false,
                model_id: None,
                model_version: None,
                model_hash: None,
                dataset_hash: None,
                generated_at: None,
                attacks: Vec::new(),
                group_count: 0,
                unavailable_reason: match &self.unavailable_reason {
                    Some(reason) => Some(reason.clone()),
                    None => None,
                },
            },
            Some(model) => {
                let empty = model.groups.len() == 0;
                ApproximationMetadata {
                    available: !empty,
                    model_id: Some(model.model_id.clone()),
                    model_version: Some(model.version),
                    model_hash: match &self.model_hash {
                        Some(hash) => Some(hash.clone()),
                        None => None,
                    },
                    dataset_hash: Some(model.provenance.dataset_hash.clone()),
                    generated_at: Some(model.generated_at.clone()),
                    attacks: group_attacks(&model.groups),
                    group_count: model.groups.len(),
                    unavailable_reason: if empty {
                        Some(String::from_str("model contains no calibrated groups"))
                    } else {
                        None
                    },
                }
            },
        }
    }
}

// ---- canonical JSON of a model ----

pub open spec fn range_json(r: FeatureRange) -> Seq<char> {
    seq!['{'] + member(true, "max"@) + json_string(r.max@) + member(false, "min"@) + json_string(
        r.min@,
    ) + seq!['}']
}

fn write_range(out: &mut String, r: &FeatureRange)
    ensures
        final(out)@ == old(out)@ + range_json(*r),
{
    push_char(out, '{');
    write_member(out, true, "max");
    write_json_string(out, r.max.as_str());
    write_member(out, false, "min");
    write_json_string(out, r.min.as_str());
    push_char(out, '}');
    assert(final(out)@ =~= old(out)@ + range_json(*r));
}

pub open spec fn domain_json(d: ApproximationDomain) -> Seq<char> {
    seq!['{'] + member(true, "log2_dimension"@) + range_json(d.log2_dimension) + member(
        false,
        "log2_error_standard_deviation"@,
    ) + range_json(d.log2_error_standard_deviation) + member(false, "log2_modulus"@) + range_json(
        d.log2_modulus,
    ) + (match d.log2_samples {
        Some(r) => member(false, "log2_samples"@) + range_json(r),
        None => Seq::empty(),
    }) + seq!['}']
}

#[verifier::rlimit(50)]
fn write_domain(out: &mut String, d: &ApproximationDomain)
    ensures
        final(out)@ == old(out)@ + domain_json(*d),
{
    push_char(out, '{');
    write_member(out, true, "log2_dimension");
    write_range(out, &d.log2_dimension);
    write_member(out, false, "log2_error_standard_deviation");
    write_range(out, &d.log2_error_standard_deviation);
    write_member(out, false, "log2_modulus");
    write_range(out, &d.log2_modulus);
    let ghost before = out@;
    match &d.log2_samples {
        Some(r) => {
            write_member(out, false, "log2_samples");
            write_range(out, r);
        },
        None => {},
    }
    assert(out@ =~= before + match d.log2_samples {
        Some(r) => member(false, "log2_samples"@) + range_json(r),
        None => Seq::empty(),
    });
    push_char(out, '}');
    assert(final(out)@ =~= old(out)@ + domain_json(*d));
}

pub open spec fn point_json(p: CalibrationPoint) -> Seq<char> {
    seq!['{'] + member(true, "log2_dimension"@) + json_string(p.log2_dimension@) + member(
        false,
        "log2_error_standard_deviation"@,
    ) + json_string(p.log2_error_standard_deviation@) + member(false, "log2_modulus"@) + json_string(
        p.log2_modulus@,
    ) + (match p.log2_samples {
        Some(v) => member(false, "log2_samples"@) + json_string(v@),
        None => Seq::empty(),
    }) + member(false, "security_bits"@) + json_string(p.security_bits@) + seq!['}']
}

#[verifier::rlimit(50)]
fn write_point(out: &mut String, p: &CalibrationPoint)
    ensures
        final(out)@ == old(out)@ + point_json(*p),
{
    push_char(out, '{');
    write_member(out, true, "log2_dimension");
    write_json_string(out, p.log2_dimension.as_str());
    write_member(out, false, "log2_error_standard_deviation");
    write_json_string(out, p.log2_error_standard_deviation.as_str());
    write_member(out, false, "log2_modulus");
    write_json_string(out, p.log2_modulus.as_str());
    let ghost before = out@;
    match &p.log2_samples {
        Some(v) => {
            write_member(out, false, "log2_samples");
            write_json_string(out, v.as_str());
        },
        None => {},
    }
    assert(out@ =~= before + match p.log2_samples {
        Some(v) => member(false, "log2_samples"@) + json_string(v@),
        None => Seq::empty(),
    });
    write_member(out, false, "security_bits");
    write_json_string(out, p.security_bits.as_str());
    push_char(out, '}');
    assert(final(out)@ =~= old(out)@ + point_json(*p));
}

/// JSON of the points, comma separated.
pub open spec fn points_json(points: Seq<CalibrationPoint>) -> Seq<char>
    decreases points.len(),
{
    if points.len() == 0 {
        Seq::empty()
    } else if points.len() == 1 {
        point_json(points[0])
    } else {
        points_json(points.drop_last()) + seq![','] + point_json(points.last())
    }
}

fn write_points(out: &mut String, points: &Vec<CalibrationPoint>)
    ensures
        final(out)@ == old(out)@ + points_json(points@),
{
    let mut i: usize = 0;
    while i < points.len()
        invariant
            i <= points.len(),
            out@ == old(out)@ + points_json(points@.take(i as int)),
        decreases points.len() - i,
    {
        assert(points@.take(i + 1).drop_last() =~= points@.take(i as int));
        assert(points@.take(i + 1)[0] == points@[0]);
        if i > 0 {
            push_char(out, ',');
        }
        write_point(out, &points[i]);
        assert(out@ =~= old(out)@ + points_json(points@.take(i + 1)));
        i = i + 1;
    }
    assert(points@.take(points.len() as int) =~= points@);
}

pub open spec fn holdout_json(h: HoldoutMetrics) -> Seq<char> {
    seq!['{'] + member(true, "max_overestimate_bits"@) + json_string(h.max_overestimate_bits@)
        + member(false, "mean_absolute_error_bits"@) + json_string(h.mean_absolute_error_bits@)
        + member(false, "p95_absolute_error_bits"@) + json_string(h.p95_absolute_error_bits@)
        + member(false, "samples"@) + nat_decimal(h.samples as nat) + seq!['}']
}

#[verifier::rlimit(50)]
fn write_holdout(out: &mut String, h: &HoldoutMetrics)
    ensures
        final(out)@ == old(out)@ + holdout_json(*h),
{
    push_char(out, '{');
    write_member(out, true, "max_overestimate_bits");
    write_json_string(out, h.max_overestimate_bits.as_str());
    write_member(out, false, "mean_absolute_error_bits");
    write_json_string(out, h.mean_absolute_error_bits.as_str());
    write_member(out, false, "p95_absolute_error_bits");
    write_json_string(out, h.p95_absolute_error_bits.as_str());
    write_member(out, false, "samples");
    write_u64(out, h.samples);
    push_char(out, '}');
    assert(final(out)@ =~= old(out)@ + holdout_json(*h));
}

pub open spec fn sample_mode_name(m: CalibrationSampleMode) -> Seq<char> {
    match m {
        CalibrationSampleMode::Unlimited => "unlimited"@,
        CalibrationSampleMode::Finite => "finite"@,
    }
}

fn sample_mode_text(m: CalibrationSampleMode) -> (r: &'static str)
    ensures
        r@ == sample_mode_name(m),
{
    match m {
        CalibrationSampleMode::Unlimited => "unlimited",
        CalibrationSampleMode::Finite => "finite",
    }
}

fn security_model_text(m: SecurityModel) -> (r: &'static str)
    ensures
        r@ == security_model_name(m),
{
    match m {
        SecurityModel::Classical => "classical",
        SecurityModel::Quantum => "quantum",
    }
}

fn cost_model_text(m: ReductionCostModel) -> (r: &'static str)
    ensures
        r@ == cost_model_name(m),
{
    match m {
        ReductionCostModel::Bdgl16 => "BDGL16",
        ReductionCostModel::LaaMosPol14 => "LaaMosPol14",
    }
}

/// The members of a group up to and including its points.
#[verifier::opaque]
pub open spec fn group_head_json(g: ApproximationGroup) -> Seq<char> {
    seq!['{'] + member(true, "attack"@) + json_string(attack_name(g.attack)) + member(
        false,
        "cost_model"@,
    ) + json_string(cost_model_name(g.cost_model)) + member(false, "domain"@) + domain_json(g.domain)
        + member(false, "holdout"@) + holdout_json(g.holdout) + member(false, "id"@) + json_string(
        g.id@,
    ) + member(false, "max_normalized_distance"@) + json_string(g.max_normalized_distance@)
        + member(false, "neighbor_count"@) + nat_decimal(g.neighbor_count as nat)
}

/// The members of a group after its points.
#[verifier::opaque]
pub open spec fn group_tail_json(g: ApproximationGroup) -> Seq<char> {
    member(false, "safety_margin_bits"@) + json_string(g.safety_margin_bits@) + member(
        false,
        "sample_mode"@,
    ) + json_string(sample_mode_name(g.sample_mode)) + member(false, "secret"@) + secret_json(
        g.secret,
    ) + member(false, "security_model"@) + json_string(security_model_name(g.security_model))
        + member(false, "shape_model"@) + json_string("GSA"@) + seq!['}']
}

#[verifier::opaque]
pub open spec fn group_json(g: ApproximationGroup) -> Seq<char> {
    group_head_json(g) + member(false, "points"@) + seq!['['] + points_json(g.points@) + seq![']']
        + group_tail_json(g)
}

#[verifier::rlimit(50)]
fn write_group_head(out: &mut String, g: &ApproximationGroup)
    ensures
        final(out)@ == old(out)@ + group_head_json(*g),
{
    push_char(out, '{');
    write_member(out, true, "attack");
    write_json_string(out, g.attack.name());
    write_member(out, false, "cost_model");
    write_json_string(out, cost_model_text(g.cost_model));
    write_member(out, false, "domain");
    write_domain(out, &g.domain);
    write_member(out, false, "holdout");
    write_holdout(out, &g.holdout);
    write_member(out, false, "id");
    write_json_string(out, g.id.as_str());
    write_member(out, false, "max_normalized_distance");
    write_json_string(out, g.max_normalized_distance.as_str());
    write_member(out, false, "neighbor_count");
    write_u64(out, g.neighbor_count as u64);
    proof {
        reveal(group_head_json);
    }
    assert(final(out)@ =~= old(out)@ + group_head_json(*g));
}

#[verifier::rlimit(50)]
fn write_group_tail(out: &mut String, g: &ApproximationGroup)
    ensures
        final(out)@ == old(out)@ + group_tail_json(*g),
{
    write_member(out, false, "safety_margin_bits");
    write_json_string(out, g.safety_margin_bits.as_str());
    write_member(out, false, "sample_mode");
    write_json_string(out, sample_mode_text(g.sample_mode));
    write_member(out, false, "secret");
    write_secret(out, &g.secret);
    write_member(out, false, "security_model");
    write_json_string(out, security_model_text(g.security_model));
    write_member(out, false, "shape_model");
    write_json_string(out, "GSA");
    push_char(out, '}');
    proof {
        reveal(group_tail_json);
    }
    assert(final(out)@ =~= old(out)@ + group_tail_json(*g));
}

fn write_group(out: &mut String, g: &ApproximationGroup)
    ensures
        final(out)@ == old(out)@ + group_json(*g),
{
    write_group_head(out, g);
    write_member(out, false, "points");
    push_char(out, '[');
    write_points(out, &g.points);
    push_char(out, ']');
    write_group_tail(out, g);
    proof {
        reveal(group_json);
    }
    assert(final(out)@ =~= old(out)@ + group_json(*g));
}

pub open spec fn groups_json(groups: Seq<ApproximationGroup>) -> Seq<char>
    decreases groups.len(),
{
    if groups.len() == 0 {
        Seq::empty()
    } else if groups.len() == 1 {
        group_json(groups[0])
    } else {
        groups_json(groups.drop_last()) + seq![','] + group_json(groups.last())
    }
}

fn write_groups(out: &mut String, groups: &Vec<ApproximationGroup>)
    ensures
        final(out)@ == old(out)@ + groups_json(groups@),
{
    let mut i: usize = 0;
    while i < groups.len()
        invariant
            i <= groups.len(),
            out@ == old(out)@ + groups_json(groups@.take(i as int)),
        decreases groups.len() - i,
    {
        assert(groups@.take(i + 1).drop_last() =~= groups@.take(i as int));
        assert(groups@.take(i + 1)[0] == groups@[0]);
        if i > 0 {
            push_char(out, ',');
        }
        write_group(out, &groups[i]);
        assert(out@ =~= old(out)@ + groups_json(groups@.take(i + 1)));
        i = i + 1;
    }
    assert(groups@.take(groups.len() as int) =~= groups@);
}

pub open spec fn calibration_json(p: CalibrationProvenance) -> Seq<char> {
    seq!['{'] + member(true, "adapter_version"@) + json_string(p.adapter_version@) + member(
        false,
        "dataset_hash"@,
    ) + json_string(p.dataset_hash@) + member(false, "estimator_commit"@) + json_string(
        p.estimator_commit@,
    ) + member(false, "platform"@) + json_string(p.platform@) + member(false, "sage_version"@)
        + json_string(p.sage_version@) + member(false, "worker_image"@) + json_string(
        p.worker_image@,
    ) + seq!['}']
}

#[verifier::rlimit(50)]
fn write_calibration(out: &mut String, p: &CalibrationProvenance)
    ensures
        final(out)@ == old(out)@ + calibration_json(*p),
{
    push_char(out, '{');
    write_member(out, true, "adapter_version");
    write_json_string(out, p.adapter_version.as_str());
    write_member(out, false, "dataset_hash");
    write_json_string(out, p.dataset_hash.as_str());
    write_member(out, false, "estimator_commit");
    write_json_string(out, p.estimator_commit.as_str());
    write_member(out, false, "platform");
    write_json_string(out, p.platform.as_str());
    write_member(out, false, "sage_version");
    write_json_string(out, p.sage_version.as_str());
    write_member(out, false, "worker_image");
    write_json_string(out, p.worker_image.as_str());
    push_char(out, '}');
    assert(final(out)@ =~= old(out)@ + calibration_json(*p));
}

/// Canonical JSON of a model file.
pub open spec fn model_json(m: ApproximationModelFile) -> Seq<char> {
    seq!['{'] + member(true, "feature_schema"@) + json_string(m.feature_schema@) + member(
        false,
        "format"@,
    ) + json_string(m.format@) + member(false, "generated_at"@) + json_string(m.generated_at@)
        + member(false, "groups"@) + seq!['['] + groups_json(m.groups@) + seq![']'] + member(
        false,
        "model_id"@,
    ) + json_string(m.model_id@) + member(false, "provenance"@) + calibration_json(m.provenance)
        + member(false, "version"@) + nat_decimal(m.version as nat) + seq!['}']
}

#[verifier::rlimit(50)]
fn write_model(out: &mut String, m: &ApproximationModelFile)
    ensures
        final(out)@ == old(out)@ + model_json(*m),
{
    push_char(out, '{');
    write_member(out, true, "feature_schema");
    write_json_string(out, m.feature_schema.as_str());
    write_member(out, false, "format");
    write_json_string(out, m.format.as_str());
    write_member(out, false, "generated_at");
    write_json_string(out, m.generated_at.as_str());
    write_member(out, false, "groups");
    push_char(out, '[');
    write_groups(out, &m.groups);
    push_char(out, ']');
    write_member(out, false, "model_id");
    write_json_string(out, m.model_id.as_str());
    write_member(out, false, "provenance");
    write_calibration(out, &m.provenance);
    write_member(out, false, "version");
    write_u64(out, m.version as u64);
    push_char(out, '}');
    assert(final(out)@ =~= old(out)@ + model_json(*m));
}

/// The stable hash of a model file.
pub fn model_hash(m: &ApproximationModelFile) -> (r: String)
    ensures
        r@ == stable_hash_of(model_json(*m)),
{
    let mut out = String::new();
    write_model(&mut out, m);
    stable_hash(out.as_str())
}

// ---- checking a model ----

/// What only floating point can tell of a group: whether its feature
/// ranges have floating-point values, and whether every calibration point
/// has floating-point features within them.
#[derive(Clone, Copy, Debug, PartialEq, Eq, Structural)]
pub struct GroupFloatCheck {
    pub ranges_representable: bool,
    pub points_within_ranges: bool,
}

pub open spec fn lower_hex_char(c: char) -> bool {
    ('0' <= c && c <= '9') || ('a' <= c && c <= 'f')
}

/// `sha256:` followed by 64 lower-case hexadecimal digits.
pub open spec fn valid_sha256_text(v: Seq<char>) -> bool {
    &&& v.len() == 71
    &&& v.take(7) == "sha256:"@
    &&& forall|i: int| 7 <= i < 71 ==> lower_hex_char(#[trigger] v[i])
}

pub fn valid_sha256(value: &str) -> (r: bool)
    ensures
        r == valid_sha256_text(value@),
{
    let chars = chars_of(value);
    proof {
        reveal_strlit("sha256:");
    }
    if chars.len() != 71 {
        return false;
    }
    let prefix = ['s', 'h', 'a', '2', '5', '6', ':'];
    let mut i: usize = 0;
    while i < 7
        invariant
            i <= 7,
            chars@ == value@,
            chars@.len() == 71,
            prefix@ == "sha256:"@,
            forall|j: int| 0 <= j < i ==> chars@[j] == prefix@[j],
        decreases 7 - i,
    {
        if chars[i] != prefix[i] {
            assert(chars@.take(7)[i as int] != "sha256:"@[i as int]);
            return false;
        }
        i = i + 1;
    }
    assert(chars@.take(7) =~= "sha256:"@);
    let mut i: usize = 7;
    while i < 71
        invariant
            7 <= i <= 71,
            chars@ == value@,
            chars@.len() == 71,
            forall|j: int| 7 <= j < i ==> lower_hex_char(#[trigger] chars@[j]),
        decreases 71 - i,
    {
        let c = chars[i];
        if !(('0' <= c && c <= '9') || ('a' <= c && c <= 'f')) {
            return false;
        }
        i = i + 1;
    }
    true
}

pub open spec fn negative_text(v: Seq<char>) -> bool {
    v.len() > 0 && v[0] == '-'
}

/// Whether a decimal's text starts with a minus sign.
pub fn is_negative(value: &ExactDecimal) -> (r: bool)
    ensures
        r == negative_text(value@),
{
    let chars = chars_of(value.as_str());
    chars.len() > 0 && chars[0] == '-'
}

/// A range whose minimum exceeds its maximum.
pub open spec fn range_reversed(r: FeatureRange) -> bool {
    decimal_order(r.min@, r.max@) > 0
}

pub fn validate_range(range: &FeatureRange) -> (r: Result<(), ServiceError>)
    ensures
        r is Ok <==> !range_reversed(*range),
        r matches Err(e) ==> e matches ServiceError::BadRequest(m) && m@
            == "approximation domain minimum exceeds maximum"@,
{
    if decimal_compare(range.min.as_str(), range.max.as_str()) > 0 {
        return Err(
            ServiceError::BadRequest(String::from_str("approximation domain minimum exceeds maximum")),
        );
    }
    Ok(())
}

/// The same secret distribution, parameters compared by their text.
pub open spec fn secrets_agree(a: SecretDistribution, b: SecretDistribution) -> bool {
    match (a, b) {
        (SecretDistribution::DiscreteGaussian { standard_deviation: x }, SecretDistribution::DiscreteGaussian { standard_deviation: y }) => x@ == y@,
        (SecretDistribution::UniformInteger { lower: l1, upper: u1 }, SecretDistribution::UniformInteger { lower: l2, upper: u2 }) => l1@ == l2@ && u1@ == u2@,
        _ => a == b,
    }
}

fn secrets_match(a: &SecretDistribution, b: &SecretDistribution) -> (r: bool)
    ensures
        r == secrets_agree(*a, *b),
{
    match (a, b) {
        (SecretDistribution::UniformBinary, SecretDistribution::UniformBinary) => true,
        (SecretDistribution::UniformTernary, SecretDistribution::UniformTernary) => true,
        (SecretDistribution::SparseTernary {}, SecretDistribution::SparseTernary {}) => true,
        (SecretDistribution::FixedWeightBinary { hamming_weight: x }, SecretDistribution::FixedWeightBinary { hamming_weight: y }) => *x == *y,
        (
            SecretDistribution::FixedWeightTernary { positive_weight: p1, negative_weight: n1 },
            SecretDistribution::FixedWeightTernary { positive_weight: p2, negative_weight: n2 },
        ) => *p1 == *p2 && *n1 == *n2,
        (SecretDistribution::DiscreteGaussian { standard_deviation: x }, SecretDistribution::DiscreteGaussian { standard_deviation: y }) => text_equals(x.as_str(), y.as_str()),
        (SecretDistribution::CenteredBinomial { eta: x }, SecretDistribution::CenteredBinomial { eta: y }) => *x == *y,
        (SecretDistribution::UniformInteger { lower: l1, upper: u1 }, SecretDistribution::UniformInteger { lower: l2, upper: u2 }) => text_equals(l1.as_str(), l2.as_str()) && text_equals(u1.as_str(), u2.as_str()),
        _ => false,
    }
}

/// Whether a group was calibrated for an identity's attack, models, secret
/// and kind of sample count.
pub open spec fn group_fits(
    group: ApproximationGroup,
    identity: AttackCacheIdentity,
    secret: SecretDistribution,
    samples: SampleCount,
) -> bool {
    &&& group.attack == identity.attack
    &&& group.security_model == identity.resolved_analysis.security_model
    &&& group.cost_model == identity.resolved_analysis.cost_model
    &&& group.shape_model == identity.resolved_analysis.shape_model
    &&& secrets_agree(group.secret, secret)
    &&& (group.sample_mode == CalibrationSampleMode::Unlimited && samples is Unlimited)
        || (group.sample_mode == CalibrationSampleMode::Finite && samples is Finite)
}

pub fn group_matches(
    group: &ApproximationGroup,
    identity: &AttackCacheIdentity,
    secret: &SecretDistribution,
    samples: &SampleCount,
) -> (r: bool)
    ensures
        r == group_fits(*group, *identity, *secret, *samples),
{
    group.attack == identity.attack && group.security_model == identity.resolved_analysis.security_model
        && group.cost_model == identity.resolved_analysis.cost_model && group.shape_model
        == identity.resolved_analysis.shape_model && secrets_match(&group.secret, secret)
        && match (group.sample_mode, samples) {
        (CalibrationSampleMode::Unlimited, SampleCount::Unlimited) => true,
        (CalibrationSampleMode::Finite, SampleCount::Finite { .. }) => true,
        _ => false,
    }
}

/// Canonical JSON of what selects a group: attack, models, secret and kind
/// of sample count.
pub open spec fn selector_json(g: ApproximationGroup) -> Seq<char> {
    seq!['['] + json_string(attack_name(g.attack)) + seq![','] + json_string(
        security_model_name(g.security_model),
    ) + seq![','] + json_string(cost_model_name(g.cost_model)) + seq![','] + json_string("GSA"@)
        + seq![','] + secret_json(g.secret) + seq![','] + json_string(sample_mode_name(g.sample_mode))
        + seq![']']
}

pub open spec fn selector_of(g: ApproximationGroup) -> Seq<char> {
    stable_hash_of(selector_json(g))
}

#[verifier::rlimit(50)]
fn selector(g: &ApproximationGroup) -> (r: String)
    ensures
        r@ == selector_of(*g),
{
    let mut out = String::new();
    push_char(&mut out, '[');
    write_json_string(&mut out, g.attack.name());
    push_char(&mut out, ',');
    write_json_string(&mut out, security_model_text(g.security_model));
    push_char(&mut out, ',');
    write_json_string(&mut out, cost_model_text(g.cost_model));
    push_char(&mut out, ',');
    write_json_string(&mut out, "GSA");
    push_char(&mut out, ',');
    write_secret(&mut out, &g.secret);
    push_char(&mut out, ',');
    write_json_string(&mut out, sample_mode_text(g.sample_mode));
    push_char(&mut out, ']');
    assert(out@ =~= selector_json(*g));
    stable_hash(out.as_str())
}

pub open spec fn group_message(prefix: Seq<char>, id: Seq<char>) -> Seq<char> {
    prefix + id + "'"@
}

/// A calibration point without the group's kind of sample count or with
/// negative security.
pub open spec fn bad_point(g: ApproximationGroup, p: CalibrationPoint) -> bool {
    !((g.sample_mode == CalibrationSampleMode::Unlimited && p.log2_samples is None) || (
    g.sample_mode == CalibrationSampleMode::Finite && p.log2_samples is Some)) || negative_text(
        p.security_bits@,
    )
}

/// The first defect of the `k`-th group, given the groups before it.
pub open spec fn group_issue(groups: Seq<ApproximationGroup>, k: int, check: GroupFloatCheck) -> Option<Seq<char>> {
    let g = groups[k];
    if g.id@.len() == 0 || (exists|j: int| 0 <= j < k && (#[trigger] groups[j]).id@ == g.id@) || (
    exists|j: int| 0 <= j < k && selector_of(#[trigger] groups[j]) == selector_of(g)) || !(g.attack
        == Attack::AroraGb || g.attack == Attack::Bkw) || g.neighbor_count == 0
        || g.neighbor_count > g.points@.len() || g.holdout.samples == 0 || !(decimal_numerator(
        g.max_normalized_distance@,
    ) > 0) || !(decimal_numerator(g.safety_margin_bits@) > 0) || negative_text(
        g.holdout.mean_absolute_error_bits@,
    ) || negative_text(g.holdout.p95_absolute_error_bits@) {
        Some(group_message("invalid approximation group '"@, g.id@))
    } else if range_reversed(g.domain.log2_dimension) || range_reversed(g.domain.log2_modulus)
        || range_reversed(g.domain.log2_error_standard_deviation) {
        Some("approximation domain minimum exceeds maximum"@)
    } else if g.sample_mode == CalibrationSampleMode::Finite && g.domain.log2_samples is Some {
        if range_reversed(g.domain.log2_samples->0) {
            Some("approximation domain minimum exceeds maximum"@)
        } else {
            later_group_issue(g, check)
        }
    } else if g.sample_mode == CalibrationSampleMode::Unlimited && g.domain.log2_samples is None {
        later_group_issue(g, check)
    } else {
        Some(group_message("sample domain disagrees in approximation group '"@, g.id@))
    }
}

/// The defects of a group found after its domain.
pub open spec fn later_group_issue(g: ApproximationGroup, check: GroupFloatCheck) -> Option<Seq<char>> {
    if !check.ranges_representable {
        Some(group_message("unrepresentable approximation group '"@, g.id@))
    } else if (exists|i: int| 0 <= i < g.points@.len() && bad_point(g, #[trigger] g.points@[i]))
        || !check.points_within_ranges {
        Some(group_message("invalid calibration point in group '"@, g.id@))
    } else {
        None
    }
}

pub open spec fn groups_issue_from(groups: Seq<ApproximationGroup>, k: int, checks: Seq<GroupFloatCheck>) -> Option<Seq<char>>
    decreases groups.len() - k,
{
    if k < 0 || k >= groups.len() {
        None
    } else if group_issue(groups, k, checks[k]) is Some {
        group_issue(groups, k, checks[k])
    } else {
        groups_issue_from(groups, k + 1, checks)
    }
}

/// The first defect of a model file for an estimator: its contract, its
/// provenance, missing calibration data, then its groups in order.
pub open spec fn model_issue(m: ApproximationModelFile, context: EstimatorContext, checks: Seq<GroupFloatCheck>) -> Option<Seq<char>> {
    if m.format@ != "lattice-security/slow-attack-model"@ || m.version != 1 || m.feature_schema@
        != "lwe-log2-v1"@ {
        Some("unsupported approximation model contract"@)
    } else if m.provenance.estimator_commit@ != context.estimator_commit@
        || m.provenance.sage_version@ != context.sage_version@ || m.provenance.adapter_version@
        != context.adapter_version@ || m.provenance.worker_image@ != context.worker_image@ {
        Some("approximation model provenance does not match estimator context"@)
    } else if m.provenance.platform@ != "linux/amd64"@ || !valid_sha256_text(
        m.provenance.dataset_hash@,
    ) || m.model_id@.len() == 0 || m.generated_at@.len() == 0 || m.groups@.len() == 0 {
        Some("approximation model has no calibrated data"@)
    } else {
        groups_issue_from(m.groups@, 0, checks)
    }
}

fn group_error(prefix: &str, id: &str) -> (r: ServiceError)
    ensures
        r matches ServiceError::BadRequest(m) && m@ == group_message(prefix@, id@),
{
    let mut m = String::from_str(prefix);
    m.append(id);
    m.append("'");
    ServiceError::BadRequest(m)
}

fn any_bad_point(g: &ApproximationGroup) -> (r: bool)
    ensures
        r == exists|i: int| 0 <= i < g.points@.len() && bad_point(*g, #[trigger] g.points@[i]),
{
    let mut i: usize = 0;
    while i < g.points.len()
        invariant
            i <= g.points.len(),
            forall|j: int| 0 <= j < i ==> !bad_point(*g, #[trigger] g.points@[j]),
        decreases g.points.len() - i,
    {
        let p = &g.points[i];
        let shape = match (g.sample_mode, &p.log2_samples) {
            (CalibrationSampleMode::Unlimited, None) | (CalibrationSampleMode::Finite, Some(_)) => true,
            _ => false,
        };
        if !shape || is_negative(&p.security_bits) {
            assert(bad_point(*g, g.points@[i as int]));
            return true;
        }
        i = i + 1;
    }
    false
}

fn check_group(
    groups: &Vec<ApproximationGroup>,
    k: usize,
    selectors: &Vec<String>,
    check: GroupFloatCheck,
) -> (r: Result<(), ServiceError>)
    requires
        k < groups@.len(),
        selectors@.len() == k,
        forall|j: int| 0 <= j < k ==> (#[trigger] selectors@[j])@ == selector_of(groups@[j]),
    ensures
        r is Ok <==> group_issue(groups@, k as int, check) is None,
        r matches Err(e) ==> e matches ServiceError::BadRequest(m) && group_issue(groups@, k as int, check)
            == Some(m@),
{
    let g = &groups[k];
    let own = selector(g);
    let mut seen_id = false;
    let mut seen_selector = false;
    let mut j: usize = 0;
    while j < k
        invariant
            j <= k < groups@.len(),
            selectors@.len() == k,
            forall|i: int| 0 <= i < k ==> (#[trigger] selectors@[i])@ == selector_of(groups@[i]),
            own@ == selector_of(groups@[k as int]),
            *g == groups@[k as int],
            seen_id == exists|i: int| 0 <= i < j && (#[trigger] groups@[i]).id@ == groups@[k as int].id@,
            seen_selector == exists|i: int|
                0 <= i < j && selector_of(#[trigger] groups@[i]) == selector_of(groups@[k as int]),
        decreases k - j,
    {
        let same_id = text_equals(groups[j].id.as_str(), g.id.as_str());
        proof {
            assert(same_id == ((groups@[j as int]).id@ == groups@[k as int].id@));
            if seen_id {
                let w = choose|i: int| 0 <= i < j && (#[trigger] groups@[i]).id@ == groups@[k as int].id@;
                assert(0 <= w < j + 1);
            }
        }
        if same_id {
            seen_id = true;
        }
        if text_equals(selectors[j].as_str(), own.as_str()) {
            seen_selector = true;
        }
        j = j + 1;
    }
    if g.id.as_str().unicode_len() == 0 || seen_id || seen_selector || !(g.attack == Attack::AroraGb
        || g.attack == Attack::Bkw) || g.neighbor_count == 0 || g.neighbor_count as usize
        > g.points.len() || g.holdout.samples == 0 || !g.max_normalized_distance.is_positive()
        || !g.safety_margin_bits.is_positive() || is_negative(&g.holdout.mean_absolute_error_bits)
        || is_negative(&g.holdout.p95_absolute_error_bits) {
        return Err(group_error("invalid approximation group '", g.id.as_str()));
    }
    match validate_range(&g.domain.log2_dimension) {
        Ok(()) => {},
        Err(e) => {
            return Err(e);
        },
    }
    match validate_range(&g.domain.log2_modulus) {
        Ok(()) => {},
        Err(e) => {
            return Err(e);
        },
    }
    match validate_range(&g.domain.log2_error_standard_deviation) {
        Ok(()) => {},
        Err(e) => {
            return Err(e);
        },
    }
    match (g.sample_mode, &g.domain.log2_samples) {
        (CalibrationSampleMode::Finite, Some(range)) => match validate_range(range) {
            Ok(()) => {},
            Err(e) => {
                return Err(e);
            },
        },
        (CalibrationSampleMode::Unlimited, None) => {},
        _ => {
            return Err(group_error("sample domain disagrees in approximation group '", g.id.as_str()));
        },
    }
    if !check.ranges_representable {
        return Err(group_error("unrepresentable approximation group '", g.id.as_str()));
    }
    if any_bad_point(g) || !check.points_within_ranges {
        return Err(group_error("invalid calibration point in group '", g.id.as_str()));
    }
    Ok(())
}

/// Checks a model file against the estimator it must come from.
pub fn validate_model(
    model: &ApproximationModelFile,
    context: &EstimatorContext,
    checks: &Vec<GroupFloatCheck>,
) -> (r: Result<(), ServiceError>)
    requires
        checks@.len() == model.groups@.len(),
    ensures
        r is Ok <==> model_issue(*model, *context, checks@) is None,
        r matches Err(e) ==> e matches ServiceError::BadRequest(m) && model_issue(*model, *context, checks@)
            == Some(m@),
{
    if !text_equals(model.format.as_str(), APPROXIMATION_MODEL_FORMAT) || model.version
        != APPROXIMATION_MODEL_VERSION || !text_equals(model.feature_schema.as_str(), APPROXIMATION_FEATURE_SCHEMA) {
        return Err(ServiceError::BadRequest(String::from_str("unsupported approximation model contract")));
    }
    let p = &model.provenance;
    if !text_equals(p.estimator_commit.as_str(), context.estimator_commit.as_str()) || !text_equals(
        p.sage_version.as_str(),
        context.sage_version.as_str(),
    ) || !text_equals(p.adapter_version.as_str(), context.adapter_version.as_str()) || !text_equals(
        p.worker_image.as_str(),
        context.worker_image.as_str(),
    ) {
        return Err(
            ServiceError::BadRequest(
                String::from_str("approximation model provenance does not match estimator context"),
            ),
        );
    }
    if !text_equals(p.platform.as_str(), "linux/amd64") || !valid_sha256(p.dataset_hash.as_str())
        || model.model_id.as_str().unicode_len() == 0 || model.generated_at.as_str().unicode_len() == 0
        || model.groups.len() == 0 {
        return Err(ServiceError::BadRequest(String::from_str("approximation model has no calibrated data")));
    }
    let mut selectors: Vec<String> = Vec::new();
    let mut k: usize = 0;
    while k < model.groups.len()
        invariant
            k <= model.groups@.len(),
            checks@.len() == model.groups@.len(),
            selectors@.len() == k,
            forall|j: int| 0 <= j < k ==> (#[trigger] selectors@[j])@ == selector_of(model.groups@[j]),
            model_issue(*model, *context, checks@) == groups_issue_from(model.groups@, k as int, checks@),
        decreases model.groups@.len() - k,
    {
        match check_group(&model.groups, k, &selectors, checks[k]) {
            Ok(()) => {},
            Err(e) => {
                return Err(e);
            },
        }
        let s = selector(&model.groups[k]);
        selectors.push(s);
        k = k + 1;
    }
    Ok(())
}

impl ApproximationEngine {
    /// An engine for a model that passes its checks, with the model's hash.
    pub fn from_model(
        model: ApproximationModelFile,
        context: &EstimatorContext,
        checks: &Vec<GroupFloatCheck>,
    ) -> (r: Result<Self, ServiceError>)
        requires
            checks@.len() == model.groups@.len(),
        ensures
            match model_issue(model, *context, checks@) {
                Some(m) => r matches Err(e) && e matches ServiceError::BadRequest(t) && t@ == m,
                None => r matches Ok(engine) && engine.loaded_model() == Some(model)
                    && engine.hash_text() == Some(stable_hash_of(model_json(model)))
                    && engine.reason_text() is None,
            },
    {
        match validate_model(&model, context, checks) {
            Ok(()) => {},
            Err(e) => {
                return Err(e);
            },
        }
        let hash = model_hash(&model);
        Ok(ApproximationEngine { model: Some(model), model_hash: Some(hash), unavailable_reason: None })
    }
}

// ---- predictions ----

/// Whether the model can speak of an identity at all: a slow attack on an
/// LWE problem with Gaussian error.
pub open spec fn predictable(identity: AttackCacheIdentity) -> bool {
    &&& identity.attack == Attack::AroraGb || identity.attack == Attack::Bkw
    &&& identity.estimator_problem matches EstimatorProblem::Lwe(p) && p.error is DiscreteGaussian
}

/// The indices below `n` of the groups calibrated for an identity, in order.
pub open spec fn fitting_groups(groups: Seq<ApproximationGroup>, identity: AttackCacheIdentity, n: int) -> Seq<
    usize,
>
    decreases n,
{
    if n <= 0 {
        Seq::empty()
    } else {
        let before = fitting_groups(groups, identity, n - 1);
        let p = identity.estimator_problem->Lwe_0;
        if group_fits(groups[n - 1], identity, p.secret, p.samples) {
            before.push((n - 1) as usize)
        } else {
            before
        }
    }
}

/// An estimate from the model, with the key and model hash it is cached
/// under.
#[derive(Debug)]
pub struct ApproximationPrediction {
    pub cache_key: String,
    pub model_hash: String,
    pub outcome: AttackOutcome,
}

/// The provenance of a prediction by a group of a model with a given hash.
pub open spec fn prediction_provenance(
    p: ApproximationProvenance,
    model: ApproximationModelFile,
    group: ApproximationGroup,
    model_hash: Seq<char>,
) -> bool {
    &&& p.model_id == model.model_id
    &&& p.model_version == model.version
    &&& p.model_hash@ == model_hash
    &&& p.dataset_hash == model.provenance.dataset_hash
    &&& p.feature_schema == model.feature_schema
    &&& p.estimator_commit == model.provenance.estimator_commit
    &&& p.sage_version == model.provenance.sage_version
    &&& p.adapter_version == model.provenance.adapter_version
    &&& p.worker_image == model.provenance.worker_image
    &&& p.platform == model.provenance.platform
    &&& p.training_points == group.points@.len()
    &&& p.holdout_samples == group.holdout.samples
    &&& p.holdout_mean_absolute_error_bits == group.holdout.mean_absolute_error_bits
    &&& p.holdout_p95_absolute_error_bits == group.holdout.p95_absolute_error_bits
    &&& p.holdout_max_overestimate_bits == group.holdout.max_overestimate_bits
    &&& p.safety_margin_bits == group.safety_margin_bits
}

impl ApproximationEngine {
    /// The groups that may predict an identity, in order: none without a
    /// model or for an identity the model cannot speak of.
    pub fn candidate_groups(&self, identity: &AttackCacheIdentity) -> (r: Option<Vec<usize>>)
        ensures
            match self.loaded_model() {
                Some(m) => if predictable(*identity) {
                    r matches Some(v) && v@ == fitting_groups(m.groups@, *identity, m.groups@.len() as int)
                } else {
                    r is None
                },
                None => r is None,
            },
    {
        let model = match &self.model {
            Some(m) => m,
            None => {
                return None;
            },
        };
        if !(identity.attack == Attack::AroraGb || identity.attack == Attack::Bkw) {
            return None;
        }
        let problem = match &identity.estimator_problem {
            EstimatorProblem::Lwe(p) => p,
            _ => {
                return None;
            },
        };
        match &problem.error {
            ErrorDistribution::DiscreteGaussian { .. } => {},
            _ => {
                return None;
            },
        }
        let mut found: Vec<usize> = Vec::new();
        let mut k: usize = 0;
        while k < model.groups.len()
            invariant
                k <= model.groups@.len(),
                identity.estimator_problem == EstimatorProblem::Lwe(*problem),
                found@ == fitting_groups(model.groups@, *identity, k as int),
            decreases model.groups@.len() - k,
        {
            if group_matches(&model.groups[k], identity, &problem.secret, &problem.samples) {
                found.push(k);
            }
            k = k + 1;
        }
        Some(found)
    }

    /// The prediction of group `index` with the given conservative estimate:
    /// an approximate outcome that carries the model's provenance and the
    /// group's holdout metrics, keyed by the identity and the model's hash;
    /// none without a model.
    pub fn prediction(
        &self,
        identity: &AttackCacheIdentity,
        index: usize,
        security_bits: ExactDecimal,
    ) -> (r: Option<ApproximationPrediction>)
        requires
            self.loaded_model() matches Some(m) ==> index < m.groups@.len(),
        ensures
            match (self.loaded_model(), self.hash_text()) {
                (Some(m), Some(h)) => r matches Some(p) && {
                    &&& p.cache_key@ == stable_hash_of(prediction_key_json(*identity, h))
                    &&& p.model_hash@ == h
                    &&& p.outcome matches AttackOutcome::Approximate { security_bits: bits, provenance }
                        && bits == security_bits && prediction_provenance(
                        *provenance,
                        m,
                        m.groups@[index as int],
                        h,
                    )
                },
                _ => r is None,
            },
    {
        let model = match &self.model {
            Some(m) => m,
            None => {
                return None;
            },
        };
        let model_hash = match &self.model_hash {
            Some(h) => h,
            None => {
                return None;
            },
        };
        let cache_key = match self.cache_key(identity) {
            Some(k) => k,
            None => {
                return None;
            },
        };
        let group = &model.groups[index];
        let provenance = ApproximationProvenance {
            model_id: model.model_id.clone(),
            model_version: model.version,
            model_hash: model_hash.clone(),
            dataset_hash: model.provenance.dataset_hash.clone(),
            feature_schema: model.feature_schema.clone(),
            estimator_commit: model.provenance.estimator_commit.clone(),
            sage_version: model.provenance.sage_version.clone(),
            adapter_version: model.provenance.adapter_version.clone(),
            worker_image: model.provenance.worker_image.clone(),
            platform: model.provenance.platform.clone(),
            training_points: group.points.len() as u64,
            holdout_samples: group.holdout.samples,
            holdout_mean_absolute_error_bits: group.holdout.mean_absolute_error_bits.clone(),
            holdout_p95_absolute_error_bits: group.holdout.p95_absolute_error_bits.clone(),
            holdout_max_overestimate_bits: group.holdout.max_overestimate_bits.clone(),
            safety_margin_bits: group.safety_margin_bits.clone(),
        };
        Some(
            ApproximationPrediction {
                cache_key,
                model_hash: model_hash.clone(),
                outcome: AttackOutcome::Approximate { security_bits, provenance: Box::new(provenance) },
            },
        )
    }
}

} // verus!
