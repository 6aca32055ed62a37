use lattice_security::applicability::{slow_attack_applicability, ApplicabilityLevel};
use lattice_security::canonical::{AttackCacheIdentity, EstimatorContext};
use lattice_security::domain::{
    analysis_model_for, attacks_for_problem, fast_attacks_for_problem, slow_attacks_for_problem,
    AnalysisModel, AnalysisSettings, Attack, ErrorDistribution, EstimatorProblem, ExactDecimal,
    GlweProblem, LweProblem, NegacyclicRing, PositiveInteger, Problem, ReductionModel,
    RlweProblem, SampleCount, SecretDistribution, SecurityModel, SignedInteger,
};
use lattice_security::view::format_security_bits;

fn decimal(value: &str) -> ExactDecimal {
    ExactDecimal::new(value).unwrap()
}

fn integer(value: &str) -> PositiveInteger {
    PositiveInteger::new(value).unwrap()
}

fn gaussian(value: &str) -> ErrorDistribution {
    ErrorDistribution::DiscreteGaussian {
        standard_deviation: decimal(value),
    }
}

fn classical(reduction_model: Option<ReductionModel>) -> AnalysisSettings {
    AnalysisSettings {
        security_model: SecurityModel::Classical,
        cost_model: None,
        shape_model: None,
        reduction_model,
    }
}

fn lwe(n: u64, q: &str, samples: SampleCount, error: ErrorDistribution) -> EstimatorProblem {
    EstimatorProblem::Lwe(LweProblem {
        dimension: n,
        modulus: PositiveInteger::new(q).unwrap(),
        samples,
        secret: SecretDistribution::UniformBinary,
        error,
    })
}

#[test]
fn exact_values_are_canonicalized_at_the_boundary() {
    assert_eq!(integer("0004294967296").as_str(), "4294967296");
    assert_eq!(decimal("00022.8000").as_str(), "22.8");
    assert_eq!(decimal("-0.000").as_str(), "0");
    assert!(ExactDecimal::new("2.28e1").is_err());
    assert!(PositiveInteger::new("0x100").is_err());
}

#[test]
fn coefficient_embedding_preserves_source_and_derives_checked_lwe() {
    let problem = Problem::Glwe(GlweProblem {
        negacyclic_ring: NegacyclicRing {
            polynomial_degree: 1024,
            ciphertext_modulus: integer("134215681"),
        },
        dimension: 2,
        samples: SampleCount::Finite { count: 3 },
        secret: SecretDistribution::SparseTernary {},
        error: gaussian("3.2"),
    });
    let model = analysis_model_for(
        &problem,
        &classical(Some(ReductionModel::CoefficientEmbeddingV1)),
    )
    .unwrap();
    let AnalysisModel::CoefficientEmbeddingV1 {
        derived_lwe,
        scalar_samples,
        warnings,
        ..
    } = model
    else {
        panic!("expected coefficient embedding")
    };
    assert_eq!(derived_lwe.dimension, 2048);
    assert_eq!(scalar_samples, SampleCount::Finite { count: 3072 });
    assert_eq!(warnings.len(), 2);
}

#[test]
fn ring_problem_requires_explicit_reduction() {
    let problem = Problem::Rlwe(RlweProblem {
        negacyclic_ring: NegacyclicRing {
            polynomial_degree: 1024,
            ciphertext_modulus: integer("2013265921"),
        },
        samples: SampleCount::Unlimited,
        secret: SecretDistribution::UniformTernary,
        error: gaussian("3.19"),
    });
    let error = analysis_model_for(&problem, &classical(None)).unwrap_err();
    assert_eq!(error.path, "analysis.reduction_model");
}

#[test]
fn classifies_arora_gb_sample_error_and_borderline_domains() {
    let starved = lwe(
        128,
        "256",
        SampleCount::Finite { count: 16_384 },
        gaussian("1"),
    );
    assert_eq!(
        slow_attack_applicability(&starved, Attack::AroraGb)
            .unwrap()
            .level,
        ApplicabilityLevel::Inapplicable
    );

    let applicable = lwe(256, "65536", SampleCount::Unlimited, gaussian("2"));
    assert_eq!(
        slow_attack_applicability(&applicable, Attack::AroraGb)
            .unwrap()
            .level,
        ApplicabilityLevel::Applicable
    );

    let borderline = lwe(128, "256", SampleCount::Unlimited, gaussian("3.2"));
    assert_eq!(
        slow_attack_applicability(&borderline, Attack::AroraGb)
            .unwrap()
            .level,
        ApplicabilityLevel::Borderline
    );

    let outside = lwe(512, "65536", SampleCount::Unlimited, gaussian("3.2"));
    assert_eq!(
        slow_attack_applicability(&outside, Attack::AroraGb)
            .unwrap()
            .level,
        ApplicabilityLevel::Inapplicable
    );
}

#[test]
fn classifies_bkw_small_modulus_and_borderline_domains() {
    let applicable = lwe(512, "4", SampleCount::Finite { count: 512 }, gaussian("1"));
    assert_eq!(
        slow_attack_applicability(&applicable, Attack::Bkw)
            .unwrap()
            .level,
        ApplicabilityLevel::Applicable
    );

    let borderline = lwe(128, "512", SampleCount::Unlimited, gaussian("3.2"));
    assert_eq!(
        slow_attack_applicability(&borderline, Attack::Bkw)
            .unwrap()
            .level,
        ApplicabilityLevel::Borderline
    );

    let outside = lwe(728, "2013265921", SampleCount::Unlimited, gaussian("11000"));
    assert_eq!(
        slow_attack_applicability(&outside, Attack::Bkw)
            .unwrap()
            .level,
        ApplicabilityLevel::Inapplicable
    );
}

#[test]
fn ui_security_bits_are_rounded_only_for_ui_display() {
    assert_eq!(format_security_bits(&decimal("214.105577393628")), "214.11");
    assert_eq!(format_security_bits(&decimal("128.0001")), "128");
}

#[test]
fn view_security_bits_are_rounded_only_for_ui_display() {
    assert_eq!(format_security_bits(&decimal("214.105577393628")), "214.11");
    assert_eq!(format_security_bits(&decimal("128.0001")), "128");
}

#[test]
fn lwe_exposes_fast_and_adaptive_slow_attack_sets() {
    let problem = Problem::Lwe(LweProblem {
        dimension: 512,
        modulus: integer("2048"),
        samples: SampleCount::Unlimited,
        secret: SecretDistribution::UniformBinary,
        error: gaussian("0.92"),
    });
    assert_eq!(
        attacks_for_problem(&problem),
        vec![
            Attack::AroraGb,
            Attack::Bkw,
            Attack::Usvp,
            Attack::Bdd,
            Attack::BddHybrid,
            Attack::BddMitmHybrid,
            Attack::Dual,
            Attack::DualHybrid,
        ]
    );
    assert_eq!(
        fast_attacks_for_problem(&problem),
        vec![
            Attack::Usvp,
            Attack::Bdd,
            Attack::BddHybrid,
            Attack::BddMitmHybrid,
            Attack::Dual,
            Attack::DualHybrid,
        ]
    );
    assert_eq!(
        slow_attacks_for_problem(&problem),
        vec![Attack::AroraGb, Attack::Bkw]
    );
    assert_eq!(Attack::AroraGb.name(), "arora_gb");
    assert_eq!(Attack::Bkw.name(), "bkw");
}

fn context(commit: &str) -> EstimatorContext {
    EstimatorContext {
        estimator_commit: commit.to_string(),
        sage_version: "10.9".to_string(),
        adapter_version: "1".to_string(),
        worker_image: "sha256:worker".to_string(),
    }
}

fn identity(problem: EstimatorProblem, commit: &str) -> AttackCacheIdentity {
    AttackCacheIdentity::new(
        problem,
        AnalysisModel::DirectLwe { version: 1 },
        classical(None).resolve(),
        Attack::Usvp,
        context(commit),
    )
}

#[test]
fn cache_hash_ignores_field_order_and_tracks_estimator_context() {
    let problem_a = lwe(512, "002048", SampleCount::Unlimited, gaussian("00.9200"));
    let problem_b = lwe(512, "2048", SampleCount::Unlimited, gaussian("0.92"));
    assert_eq!(problem_a, problem_b);
    let first = identity(problem_a, "6019056011d10d7e9c30a0d5da2d2f729fbc2eec");
    let second = identity(problem_b.clone(), "6019056011d10d7e9c30a0d5da2d2f729fbc2eec");
    assert_eq!(first.hash(), second.hash());
    assert_eq!(
        first.hash(),
        "sha256:f914d1d00eba06a6980eecc041174888368cedd334d80fe078a43a66057d7162"
    );
    let changed = identity(problem_b, "different");
    assert_ne!(first.hash(), changed.hash());
}

#[test]
fn canonical_texts_read_back_unchanged_and_equal_values_share_them() {
    for text in ["00022.8000", "-0.000", "-0012.50", "7", "0.25"] {
        let value = decimal(text);
        assert_eq!(decimal(value.as_str()).as_str(), value.as_str());
    }
    assert_eq!(decimal("1.50").as_str(), decimal("001.5").as_str());
    assert_eq!(decimal("-3.100").as_str(), "-3.1");
    for text in ["000", "0004294967296", "12"] {
        let value = integer(text);
        assert_eq!(integer(value.as_str()).as_str(), value.as_str());
    }
    assert_eq!(integer("000").as_str(), "0");
    let signed = SignedInteger::new("-0007").unwrap();
    assert_eq!(signed.as_str(), "-7");
    assert_eq!(SignedInteger::new(signed.as_str()).unwrap().as_str(), "-7");
    assert_eq!(SignedInteger::new("-000").unwrap().as_str(), "0");
}
