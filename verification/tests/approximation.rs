use lattice_security::approximation::{
    model_hash, ApproximationDomain, ApproximationEngine, ApproximationGroup,
    ApproximationModelFile, CalibrationPoint, CalibrationProvenance, CalibrationSampleMode,
    FeatureRange, GroupFloatCheck, HoldoutMetrics, APPROXIMATION_FEATURE_SCHEMA,
    APPROXIMATION_MODEL_FORMAT, APPROXIMATION_MODEL_VERSION,
};
use lattice_security::canonical::{AttackCacheIdentity, EstimatorContext};
use lattice_security::domain::{
    AnalysisModel, Attack, AttackOutcome, ErrorDistribution, EstimatorProblem, ExactDecimal, LweProblem,
    PositiveInteger, ReductionCostModel, ReductionShapeModel, ResolvedAnalysisSettings,
    SampleCount, SecretDistribution, SecurityModel,
};
use lattice_security::error::ServiceError;

fn decimal(value: &str) -> ExactDecimal {
    ExactDecimal::new(value).unwrap()
}

fn context() -> EstimatorContext {
    EstimatorContext {
        estimator_commit: "estimator-commit".to_owned(),
        sage_version: "10.9".to_owned(),
        adapter_version: "1".to_owned(),
        worker_image: "worker@sha256:test".to_owned(),
    }
}

fn group(id: &str) -> ApproximationGroup {
    ApproximationGroup {
        id: id.to_owned(),
        attack: Attack::Bkw,
        security_model: SecurityModel::Classical,
        cost_model: ReductionCostModel::Bdgl16,
        shape_model: ReductionShapeModel::Gsa,
        secret: SecretDistribution::UniformBinary,
        sample_mode: CalibrationSampleMode::Unlimited,
        domain: ApproximationDomain {
            log2_dimension: FeatureRange { min: decimal("8"), max: decimal("8") },
            log2_modulus: FeatureRange { min: decimal("16"), max: decimal("16") },
            log2_error_standard_deviation: FeatureRange { min: decimal("2"), max: decimal("2") },
            log2_samples: None,
        },
        neighbor_count: 1,
        max_normalized_distance: decimal("0.1"),
        safety_margin_bits: decimal("2"),
        holdout: HoldoutMetrics {
            samples: 5,
            mean_absolute_error_bits: decimal("1"),
            p95_absolute_error_bits: decimal("1.5"),
            max_overestimate_bits: decimal("0.5"),
        },
        points: vec![CalibrationPoint {
            log2_dimension: decimal("8"),
            log2_modulus: decimal("16"),
            log2_error_standard_deviation: decimal("2"),
            log2_samples: None,
            security_bits: decimal("100"),
        }],
    }
}

fn model_with(groups: Vec<ApproximationGroup>) -> ApproximationModelFile {
    ApproximationModelFile {
        format: APPROXIMATION_MODEL_FORMAT.to_owned(),
        version: APPROXIMATION_MODEL_VERSION,
        model_id: "test-slow-v1".to_owned(),
        generated_at: "2026-08-18T00:00:00Z".to_owned(),
        feature_schema: APPROXIMATION_FEATURE_SCHEMA.to_owned(),
        provenance: CalibrationProvenance {
            estimator_commit: "estimator-commit".to_owned(),
            sage_version: "10.9".to_owned(),
            adapter_version: "1".to_owned(),
            worker_image: "worker@sha256:test".to_owned(),
            platform: "linux/amd64".to_owned(),
            dataset_hash: format!("sha256:{}", "d".repeat(64)),
        },
        groups,
    }
}

fn model() -> ApproximationModelFile {
    model_with(vec![group("bkw-binary-unlimited")])
}

fn sound(count: usize) -> Vec<GroupFloatCheck> {
    vec![GroupFloatCheck { ranges_representable: true, points_within_ranges: true }; count]
}

fn identity() -> AttackCacheIdentity {
    identity_for(Attack::Bkw)
}

fn identity_for(attack: Attack) -> AttackCacheIdentity {
    AttackCacheIdentity::new(
        EstimatorProblem::Lwe(LweProblem {
            dimension: 256,
            modulus: PositiveInteger::new("65536").unwrap(),
            samples: SampleCount::Unlimited,
            secret: SecretDistribution::UniformBinary,
            error: ErrorDistribution::DiscreteGaussian { standard_deviation: decimal("4") },
        }),
        AnalysisModel::DirectLwe { version: 1 },
        ResolvedAnalysisSettings {
            security_model: SecurityModel::Classical,
            cost_model: ReductionCostModel::Bdgl16,
            shape_model: ReductionShapeModel::Gsa,
            reduction_model: None,
        },
        attack,
        context(),
    )
}

fn refusal(result: Result<ApproximationEngine, ServiceError>) -> String {
    match result {
        Err(ServiceError::BadRequest(message)) => message,
        other => panic!("expected a refused model, got {other:?}"),
    }
}

#[test]
fn model_provenance_must_match_the_live_estimator() {
    let mut mismatched = context();
    mismatched.sage_version = "11.0".to_owned();
    assert!(ApproximationEngine::from_model(model(), &mismatched, &sound(1)).is_err());
}

#[test]
fn a_checked_model_is_available_under_its_hash() {
    let expected_hash = model_hash(&model());
    let engine = ApproximationEngine::from_model(model(), &context(), &sound(1)).unwrap();
    let metadata = engine.metadata();
    assert!(metadata.available);
    assert_eq!(metadata.model_id, Some("test-slow-v1".to_owned()));
    assert_eq!(metadata.model_version, Some(1));
    assert_eq!(metadata.model_hash, Some(expected_hash.clone()));
    assert_eq!(metadata.attacks, vec![Attack::Bkw]);
    assert_eq!(metadata.group_count, 1);
    assert_eq!(metadata.unavailable_reason, None);
    assert!(expected_hash.starts_with("sha256:"));
    assert_eq!(
        engine.unavailable_reason(),
        "parameters are outside the calibrated model domain"
    );
    let key = engine.cache_key(&identity()).unwrap();
    assert!(key.starts_with("sha256:"));
    assert_ne!(key, identity().hash());
}

#[test]
fn models_with_defects_are_refused_with_the_first_defect() {
    let mut foreign = model();
    foreign.format = "other".to_owned();
    assert_eq!(
        refusal(ApproximationEngine::from_model(foreign, &context(), &sound(1))),
        "unsupported approximation model contract"
    );
    assert_eq!(
        refusal(ApproximationEngine::from_model(model_with(Vec::new()), &context(), &sound(0))),
        "approximation model has no calibrated data"
    );
    let mut unused = group("no-neighbours");
    unused.neighbor_count = 0;
    assert_eq!(
        refusal(ApproximationEngine::from_model(model_with(vec![unused]), &context(), &sound(1))),
        "invalid approximation group 'no-neighbours'"
    );
    assert_eq!(
        refusal(ApproximationEngine::from_model(
            model_with(vec![group("twice"), group("twice")]),
            &context(),
            &sound(2)
        )),
        "invalid approximation group 'twice'"
    );
    let mut reversed = group("reversed");
    reversed.domain.log2_modulus = FeatureRange { min: decimal("17"), max: decimal("16") };
    assert_eq!(
        refusal(ApproximationEngine::from_model(model_with(vec![reversed]), &context(), &sound(1))),
        "approximation domain minimum exceeds maximum"
    );
    let mut finite = group("finite");
    finite.sample_mode = CalibrationSampleMode::Finite;
    assert_eq!(
        refusal(ApproximationEngine::from_model(model_with(vec![finite]), &context(), &sound(1))),
        "sample domain disagrees in approximation group 'finite'"
    );
    let unrepresentable = vec![GroupFloatCheck { ranges_representable: false, points_within_ranges: true }];
    assert_eq!(
        refusal(ApproximationEngine::from_model(model(), &context(), &unrepresentable)),
        "unrepresentable approximation group 'bkw-binary-unlimited'"
    );
    let outside = vec![GroupFloatCheck { ranges_representable: true, points_within_ranges: false }];
    assert_eq!(
        refusal(ApproximationEngine::from_model(model(), &context(), &outside)),
        "invalid calibration point in group 'bkw-binary-unlimited'"
    );
}

#[test]
fn predictions_carry_the_model_provenance_and_the_group_holdout() {
    let engine = ApproximationEngine::from_model(model(), &context(), &sound(1)).unwrap();
    assert_eq!(engine.candidate_groups(&identity()), Some(vec![0]));
    assert_eq!(engine.candidate_groups(&identity_for(Attack::Usvp)), None);
    assert_eq!(engine.candidate_groups(&identity_for(Attack::AroraGb)), Some(Vec::new()));
    let prediction = engine.prediction(&identity(), 0, decimal("98")).unwrap();
    assert_eq!(Some(prediction.cache_key.clone()), engine.cache_key(&identity()));
    assert_eq!(prediction.model_hash, model_hash(&model()));
    match prediction.outcome {
        AttackOutcome::Approximate { security_bits, provenance } => {
            assert_eq!(security_bits, decimal("98"));
            assert_eq!(provenance.holdout_samples, 5);
            assert_eq!(provenance.safety_margin_bits, decimal("2"));
            assert_eq!(provenance.training_points, 1);
            assert_eq!(provenance.model_id, "test-slow-v1");
            assert_eq!(provenance.platform, "linux/amd64");
        }
        other => panic!("unexpected {other:?}"),
    }
    let disabled = ApproximationEngine::disabled("off".to_owned());
    assert_eq!(disabled.candidate_groups(&identity()), None);
    assert!(disabled.prediction(&identity(), 0, decimal("98")).is_none());
}
