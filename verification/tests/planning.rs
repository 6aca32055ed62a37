use lattice_security::approximation::{
    valid_sha256, ApproximationEngine, ApproximationMetadata,
};
use lattice_security::canonical::EstimatorContext;
use lattice_security::cli::{accept_command, encode, parse_command, usage, CliMethod};
use lattice_security::database::{
    admit_batch, claim_step, deletion_check, import_version, initial_job_state, JobWork,
};
use lattice_security::domain::{
    AnalysisSettings, Attack, AttackOutcome, ErrorDistribution, ExactDecimal, LweProblem,
    NtruProblem, NtruStructure, PositiveInteger, Problem, ReductionModel, SampleCount,
    SecretDistribution, SecurityModel,
};
use lattice_security::error::ServiceError;
use lattice_security::formats::{
    AttackResult, EstimateMode, EstimateRequest, ParameterCase, SlowAttackPolicy,
};
use lattice_security::scheduler::{
    accept_worker_response, best_estimate, case_context, case_fully_cached, combine_controls,
    fast_attack_groups, fast_results_meet_stop_threshold, finish_case, insert_plan_failures,
    insert_timeouts, plan_slow_attacks, worker_timeout, AttackResults, WorkerControl,
};
use lattice_security::service::RunState;
use lattice_security::sweep::{expand, response, sweep_requests, SweepAxis, SweepRequest};
use lattice_security::upstream::{
    Metadata, ResultRole, WorkerAttackExecution, WorkerOutcome, WorkerProvenance, WorkerResponse,
};
use lattice_security::view::{outcome_audit, outcome_detail, outcome_security};

fn decimal(value: &str) -> ExactDecimal {
    ExactDecimal::new(value).unwrap()
}

fn policy(required: &str, margin: &str, forced: Vec<Attack>) -> SlowAttackPolicy {
    SlowAttackPolicy {
        required_security_bits: decimal(required),
        stop_margin_bits: decimal(margin),
        forced_attacks: forced,
    }
}

fn computed(attack: Attack, bits: &str) -> AttackResult {
    AttackResult {
        attack,
        cached: false,
        outcome: AttackOutcome::Computed {
            security_bits: decimal(bits),
            duration_ms: 1,
            metrics: Vec::new(),
        },
    }
}

fn lwe_problem(n: u64, q: &str, sigma: &str) -> Problem {
    Problem::Lwe(LweProblem {
        dimension: n,
        modulus: PositiveInteger::new(q).unwrap(),
        samples: SampleCount::Unlimited,
        secret: SecretDistribution::UniformBinary,
        error: ErrorDistribution::DiscreteGaussian {
            standard_deviation: decimal(sigma),
        },
    })
}

fn case(id: &str, problem: Problem) -> ParameterCase {
    ParameterCase {
        id: id.to_string(),
        name: "Demo case".to_string(),
        description: None,
        tags: Vec::new(),
        problem,
        analysis: AnalysisSettings {
            security_model: SecurityModel::Classical,
            cost_model: None,
            shape_model: None,
            reduction_model: None,
        },
    }
}

fn request(cases: Vec<ParameterCase>, mode: EstimateMode, slow: Option<SlowAttackPolicy>) -> EstimateRequest {
    EstimateRequest {
        name: None,
        parameter_set_id: None,
        cases,
        mode,
        timeout_seconds: 600,
        slow_attack_policy: slow,
    }
}

fn context() -> EstimatorContext {
    EstimatorContext {
        estimator_commit: "commit".to_string(),
        sage_version: "10.9".to_string(),
        adapter_version: "1".to_string(),
        worker_image: "sha256:worker".to_string(),
    }
}

fn metadata() -> Metadata {
    Metadata {
        adapter_schema_version: 2,
        dependency_graph_version: 1,
        estimator_commit: "commit".to_string(),
        sage_version: "10.9".to_string(),
        adapter_version: "1".to_string(),
        worker_image: "sha256:worker".to_string(),
        platform: "linux/amd64".to_string(),
        support_matrix: "{}".to_string(),
        dependency_graph: "{}".to_string(),
        adaptive_attacks: vec![Attack::AroraGb, Attack::Bkw],
        slow_attack_applicability_rule_version: 1,
        approximation: ApproximationMetadata::default(),
    }
}

#[test]
fn fast_estimate_threshold_includes_the_configured_margin() {
    let policy = policy("128", "16", Vec::new());
    let results = |bits: &str| {
        let mut results = AttackResults::new();
        results.insert(computed(Attack::Usvp, bits));
        results
    };
    assert!(!fast_results_meet_stop_threshold(&results("143.999"), &policy));
    assert!(fast_results_meet_stop_threshold(&results("144"), &policy));
}

#[test]
fn lwe_fast_attacks_keep_the_primal_family_together() {
    let problem = lwe_problem(512, "2048", "0.92");
    assert_eq!(
        fast_attack_groups(&problem, &AttackResults::new()),
        vec![
            vec![
                Attack::Usvp,
                Attack::Bdd,
                Attack::BddHybrid,
                Attack::BddMitmHybrid,
            ],
            vec![Attack::Dual, Attack::DualHybrid],
        ]
    );

    let mut existing = AttackResults::new();
    insert_timeouts(&vec![Attack::Usvp], 1, &mut existing);
    assert_eq!(
        fast_attack_groups(&problem, &existing),
        vec![
            vec![Attack::Bdd, Attack::BddHybrid, Attack::BddMitmHybrid],
            vec![Attack::Dual, Attack::DualHybrid],
        ]
    );
}

#[test]
fn targets_with_results_are_not_sent_again() {
    let mut results = AttackResults::new();
    insert_timeouts(&vec![Attack::Dual], 5, &mut results);
    let targets = vec![Attack::Usvp, Attack::Dual, Attack::Bdd];
    assert_eq!(results.missing_from(&targets), vec![Attack::Usvp, Attack::Bdd]);
    assert_eq!(AttackResults::new().missing_from(&targets), targets);
}

#[test]
fn failed_plan_becomes_attack_level_failures() {
    let mut results = AttackResults::new();
    insert_plan_failures(
        &vec![Attack::Dual, Attack::DualHybrid],
        &ServiceError::Upstream("worker returned 502".to_owned()),
        &mut results,
    );
    for attack in [Attack::Dual, Attack::DualHybrid] {
        assert!(matches!(
            &results.get(attack).unwrap().outcome,
            AttackOutcome::Failed {
                code,
                message,
                retryable: false,
            } if code == "estimator_plan_failed"
                && message.contains("worker returned 502")
        ));
    }
}

#[test]
fn unsupported_reason_is_visible_in_ui_detail() {
    let detail = outcome_detail(&AttackOutcome::Unsupported {
        code: "no_finite_rop".to_owned(),
        reason: "dual_hybrid returned no finite positive rop".to_owned(),
    });
    assert_eq!(
        detail,
        "unsupported · no_finite_rop: dual_hybrid returned no finite positive rop"
    );
}

#[test]
fn no_finite_estimate_is_distinct_and_auditable_in_ui() {
    let outcome = AttackOutcome::NoFiniteEstimate {
        code: "no_finite_rop".to_owned(),
        reason: "dual_hybrid returned no finite positive rop".to_owned(),
        raw_result: Some(r#"{"result":"rop: +Infinity"}"#.to_string()),
    };
    assert_eq!(
        outcome_detail(&outcome),
        "no finite estimate · no_finite_rop: dual_hybrid returned no finite positive rop"
    );
    assert_eq!(outcome_security(&outcome), "∞");
    assert!(outcome_audit(&outcome).contains("rop: +Infinity"));
}

#[test]
fn the_lowest_estimate_wins_and_ties_keep_the_first() {
    let ordered = vec![
        computed(Attack::Usvp, "150"),
        computed(Attack::Bdd, "140.5"),
        computed(Attack::Dual, "140.50"),
        computed(Attack::DualHybrid, "141"),
    ];
    assert_eq!(best_estimate(&ordered), Some(1));
    assert_eq!(best_estimate(&Vec::new()), None);
}

#[test]
fn a_high_fast_estimate_skips_unforced_slow_attacks() {
    let problem = lwe_problem(512, "2048", "0.92");
    let forced = request(
        vec![case("demo", problem.clone())],
        EstimateMode::Normal,
        Some(policy("128", "16", vec![Attack::Bkw])),
    );
    let context = case_context(&forced.cases[0], context()).unwrap();
    let mut results = AttackResults::new();
    results.insert(computed(Attack::Usvp, "200"));
    let plan = plan_slow_attacks(&forced, &problem, &context, &mut results).unwrap();
    assert_eq!(plan.plans, vec![vec![Attack::Bkw]]);
    assert!(!plan.fast_estimate);
    assert!(matches!(
        &results.get(Attack::AroraGb).unwrap().outcome,
        AttackOutcome::PolicySkipped { .. }
    ));
    assert!(results.get(Attack::Bkw).is_none());
}

#[test]
fn rough_mode_plans_no_slow_attacks() {
    let problem = lwe_problem(512, "2048", "0.92");
    let rough = request(vec![case("demo", problem.clone())], EstimateMode::Rough, None);
    let context = case_context(&rough.cases[0], context()).unwrap();
    let mut results = AttackResults::new();
    let plan = plan_slow_attacks(&rough, &problem, &context, &mut results).unwrap();
    assert!(plan.plans.is_empty());
    assert!(plan.fast_estimate);
    assert!(results.contains(Attack::AroraGb));
    assert!(results.contains(Attack::Bkw));
}

#[test]
fn normal_mode_without_a_policy_is_an_internal_error() {
    let problem = lwe_problem(512, "2048", "0.92");
    let normal = request(vec![case("demo", problem.clone())], EstimateMode::Normal, None);
    let context = case_context(&normal.cases[0], context()).unwrap();
    let mut results = AttackResults::new();
    match plan_slow_attacks(&normal, &problem, &context, &mut results) {
        Err(ServiceError::Internal(message)) => {
            assert_eq!(message, "missing validated slow attack policy")
        }
        other => panic!("unexpected {other:?}"),
    }
}

fn worker_response(commit: &str, outcome: WorkerOutcome) -> WorkerResponse {
    WorkerResponse {
        results: vec![WorkerAttackExecution {
            attack: Attack::Dual,
            role: ResultRole::Target,
            outcome,
        }],
        duration_ms: 42,
        provenance: WorkerProvenance {
            estimator_commit: commit.to_string(),
            sage_version: "10.9".to_string(),
            adapter_version: "1".to_string(),
            worker_image: "sha256:worker".to_string(),
        },
    }
}

#[test]
fn worker_answers_become_results_and_omissions_fail() {
    let targets = vec![Attack::Dual, Attack::DualHybrid];
    let mut results = AttackResults::new();
    let response = worker_response(
        "commit",
        WorkerOutcome::Computed {
            security_bits: decimal("131.5"),
            metrics: Vec::new(),
        },
    );
    let answer = accept_worker_response(&targets, response, &metadata(), 1, &mut results).unwrap();
    assert!(answer.retry.is_none());
    assert_eq!(answer.cache.len(), 1);
    assert_eq!(answer.cache[0].attack, Attack::Dual);
    match &results.get(Attack::Dual).unwrap().outcome {
        AttackOutcome::Computed { duration_ms, .. } => assert_eq!(*duration_ms, 42),
        other => panic!("unexpected {other:?}"),
    }
    match &results.get(Attack::DualHybrid).unwrap().outcome {
        AttackOutcome::Failed { code, .. } => assert_eq!(code, "missing_worker_result"),
        other => panic!("unexpected {other:?}"),
    }
}

#[test]
fn worker_answers_from_another_estimator_are_refused() {
    let mut results = AttackResults::new();
    let response = worker_response(
        "other",
        WorkerOutcome::Unsupported {
            code: "x".to_string(),
            reason: "y".to_string(),
        },
    );
    match accept_worker_response(&vec![Attack::Dual], response, &metadata(), 1, &mut results) {
        Err(ServiceError::Upstream(message)) => {
            assert_eq!(message, "worker provenance changed after metadata discovery")
        }
        other => panic!("unexpected {other:?}"),
    }
    assert!(results.is_empty());
}

#[test]
fn retryable_failures_retry_the_job_once() {
    let failed = || {
        worker_response(
            "commit",
            WorkerOutcome::Failed {
                code: "busy".to_string(),
                message: "try again".to_string(),
                retryable: true,
            },
        )
    };
    let mut results = AttackResults::new();
    let first = accept_worker_response(&vec![Attack::Dual], failed(), &metadata(), 1, &mut results).unwrap();
    match first.retry {
        Some(ServiceError::Upstream(message)) => {
            assert_eq!(message, "worker reported a retryable attack failure")
        }
        other => panic!("unexpected {other:?}"),
    }
    let mut results = AttackResults::new();
    let last = accept_worker_response(&vec![Attack::Dual], failed(), &metadata(), 2, &mut results).unwrap();
    assert!(last.retry.is_none());
    assert!(last.cache.is_empty());
}

#[test]
fn fresh_results_are_cached_also_when_the_job_retries() {
    let mut response = worker_response(
        "commit",
        WorkerOutcome::Failed {
            code: "busy".to_string(),
            message: "try again".to_string(),
            retryable: true,
        },
    );
    response.results.push(WorkerAttackExecution {
        attack: Attack::DualHybrid,
        role: ResultRole::Target,
        outcome: WorkerOutcome::NoFiniteEstimate {
            code: "no_finite_rop".to_string(),
            reason: "no finite cost".to_string(),
            raw_result: None,
        },
    });
    let targets = vec![Attack::Dual, Attack::DualHybrid];
    let mut results = AttackResults::new();
    let answer = accept_worker_response(&targets, response, &metadata(), 1, &mut results).unwrap();
    assert!(answer.retry.is_some());
    assert_eq!(answer.cache.len(), 1);
    assert_eq!(answer.cache[0].attack, Attack::DualHybrid);
}

#[test]
fn cancelled_cases_without_results_have_no_report() {
    let problem = lwe_problem(512, "2048", "0.92");
    let work = JobWork {
        job_id: "job".to_string(),
        batch_id: "batch".to_string(),
        case_index: 0,
        case: case("demo", problem.clone()),
        request: request(vec![case("demo", problem)], EstimateMode::Rough, None),
        attempts: 1,
    };
    let context = case_context(&work.case, context()).unwrap();
    let (state, entry) = finish_case(
        &work,
        &context,
        AttackResults::new(),
        WorkerControl::Cancelled,
        false,
        &metadata(),
        "2026-01-01T00:00:00Z".to_string(),
    );
    assert!(matches!(state, RunState::Cancelled { .. }));
    assert!(entry.is_none());

    let mut results = AttackResults::new();
    results.insert(computed(Attack::Usvp, "150"));
    let (state, entry) = finish_case(
        &work,
        &context,
        results,
        WorkerControl::Completed,
        true,
        &metadata(),
        "2026-01-01T00:00:00Z".to_string(),
    );
    assert!(matches!(state, RunState::Partial { .. }));
    let entry = entry.unwrap();
    assert!(!entry.summary.complete);
    assert!(entry.summary.fast_estimate);
    assert_eq!(entry.summary.best_attack, Some(Attack::Usvp));
    assert_eq!(entry.summary.security_bits, Some(decimal("150")));
    assert!(entry.request_hash.starts_with("sha256:"));
    assert_eq!(entry.request_hash.len(), 71);
}

#[test]
fn controls_combine_with_cancellation_first() {
    assert_eq!(
        combine_controls(WorkerControl::TimedOut, WorkerControl::Cancelled),
        WorkerControl::Cancelled
    );
    assert_eq!(
        combine_controls(WorkerControl::Completed, WorkerControl::TimedOut),
        WorkerControl::TimedOut
    );
    assert_eq!(worker_timeout(0, 600), 1);
    assert_eq!(worker_timeout(900, 600), 600);
    assert_eq!(worker_timeout(30, 600), 30);
}

#[test]
fn a_case_is_answered_from_the_cache_only_when_nothing_would_run() {
    let problem = lwe_problem(512, "2048", "0.92");
    let normal = request(
        vec![case("demo", problem.clone())],
        EstimateMode::Normal,
        Some(policy("128", "16", Vec::new())),
    );
    let context = case_context(&normal.cases[0], context()).unwrap();
    let mut cached = AttackResults::new();
    for attack in [
        Attack::Usvp,
        Attack::Bdd,
        Attack::BddHybrid,
        Attack::BddMitmHybrid,
        Attack::Dual,
    ] {
        cached.insert(computed(attack, "200"));
    }
    assert_eq!(case_fully_cached(&normal, &problem, &context, &cached).unwrap(), false);
    cached.insert(computed(Attack::DualHybrid, "200"));
    assert_eq!(case_fully_cached(&normal, &problem, &context, &cached).unwrap(), true);
}

fn ntru_case() -> ParameterCase {
    case(
        "ntru",
        Problem::Ntru(NtruProblem {
            dimension: 509,
            modulus: PositiveInteger::new("2048").unwrap(),
            secret: SecretDistribution::UniformTernary,
            error: ErrorDistribution::DiscreteGaussian {
                standard_deviation: decimal("1"),
            },
            structure: NtruStructure::Matrix,
        }),
    )
}

#[test]
fn sweeps_vary_the_first_axis_slowest() {
    let base = case("base", lwe_problem(512, "2048", "3.2"));
    let sweep = SweepRequest {
        base_case: base,
        axes: vec![
            SweepAxis::Dimension {
                values: vec![256, 512],
            },
            SweepAxis::Modulus {
                values: vec![
                    PositiveInteger::new("1024").unwrap(),
                    PositiveInteger::new("4096").unwrap(),
                    PositiveInteger::new("8192").unwrap(),
                ],
            },
        ],
        timeout_seconds: 600,
        slow_attack_policy: Some(policy("128", "16", Vec::new())),
    };
    let cases = expand(&sweep).unwrap();
    assert_eq!(cases.len(), 6);
    assert_eq!(cases[0].id, "base-s00001");
    assert_eq!(cases[5].id, "base-s00006");
    assert_eq!(cases[0].name, "Demo case · sweep 1");
    assert_eq!(cases[0].tags, vec!["sweep".to_string()]);
    for (i, first) in cases.iter().enumerate() {
        for second in &cases[i + 1..] {
            assert_ne!(first.id, second.id);
        }
    }
    match (&cases[1].problem, &cases[3].problem) {
        (Problem::Lwe(second), Problem::Lwe(fourth)) => {
            assert_eq!(second.dimension, 256);
            assert_eq!(second.modulus.as_str(), "4096");
            assert_eq!(fourth.dimension, 512);
            assert_eq!(fourth.modulus.as_str(), "1024");
        }
        _ => panic!("expected LWE cases"),
    }
}

#[test]
fn sweeps_refuse_bad_axes() {
    let base = case("base", lwe_problem(512, "2048", "3.2"));
    let repeated = SweepRequest {
        base_case: base,
        axes: vec![
            SweepAxis::Dimension { values: vec![256] },
            SweepAxis::Dimension { values: vec![512] },
        ],
        timeout_seconds: 600,
        slow_attack_policy: None,
    };
    match expand(&repeated) {
        Err(ServiceError::BadRequest(message)) => {
            assert_eq!(message, "sweep axis 'dimension' appears more than once")
        }
        other => panic!("unexpected {other:?}"),
    }
    let ntru = SweepRequest {
        base_case: ntru_case(),
        axes: vec![SweepAxis::SampleCount { values: vec![10] }],
        timeout_seconds: 600,
        slow_attack_policy: None,
    };
    match expand(&ntru) {
        Err(ServiceError::BadRequest(message)) => {
            assert_eq!(message, "sweep axis 'sample_count' is not valid for ntru")
        }
        other => panic!("unexpected {other:?}"),
    }
    let too_many = SweepRequest {
        base_case: case("base", lwe_problem(512, "2048", "3.2")),
        axes: vec![
            SweepAxis::Dimension {
                values: (1..=101).collect(),
            },
            SweepAxis::SampleCount {
                values: (1..=100).collect(),
            },
        ],
        timeout_seconds: 600,
        slow_attack_policy: None,
    };
    match expand(&too_many) {
        Err(ServiceError::BadRequest(message)) => {
            assert_eq!(message, "sweep exceeds the 10000 case limit")
        }
        other => panic!("unexpected {other:?}"),
    }
}

#[test]
fn sweeps_of_lwe_cases_need_a_policy() {
    let sweep = SweepRequest {
        base_case: case("base", lwe_problem(512, "2048", "3.2")),
        axes: vec![SweepAxis::Dimension { values: vec![256] }],
        timeout_seconds: 600,
        slow_attack_policy: None,
    };
    match expand(&sweep) {
        Err(ServiceError::Invalid(error)) => assert_eq!(error.path, "slow_attack_policy"),
        other => panic!("unexpected {other:?}"),
    }
}

#[test]
fn cli_commands_become_requests() {
    let args = |values: &[&str]| values.iter().map(|v| v.to_string()).collect::<Vec<_>>();
    let command = parse_command(&args(&["cancel", "a b/c"])).unwrap();
    assert_eq!(command.method, CliMethod::Post);
    assert_eq!(command.path, "v1/batches/a%20b%2Fc/cancel");
    let import = parse_command(&args(&["import", "set.json", "--replace"])).unwrap();
    assert_eq!(import.path, "v1/parameter-sets/import?conflict=replace");
    assert_eq!(import.body_file, Some("set.json".to_string()));
    assert!(!import.extra);
    let lenient = parse_command(&args(&["import", "set.json", "extra"])).unwrap();
    assert_eq!(lenient.path, "v1/parameter-sets/import?conflict=reject");
    assert!(!lenient.extra);
    assert!(accept_command(lenient).is_ok());
    let trailing = parse_command(&args(&["import", "set.json", "--replace", "extra"])).unwrap();
    assert_eq!(trailing.body_file, Some("set.json".to_string()));
    assert!(trailing.extra);
    assert_eq!(accept_command(trailing).unwrap_err(), usage());
    let health = parse_command(&args(&["health", "extra"])).unwrap();
    assert_eq!(health.path, "healthz");
    assert!(health.extra);
    assert_eq!(accept_command(health).unwrap_err(), usage());
    let estimate = parse_command(&args(&["estimate", "request.json", "extra"])).unwrap();
    assert_eq!(estimate.body_file, Some("request.json".to_string()));
    assert!(estimate.extra);
    assert_eq!(parse_command(&args(&[])).unwrap_err(), usage());
    let missing = parse_command(&args(&["batch"])).unwrap_err();
    assert!(missing.starts_with("missing batch id\nusage: "));
    assert_eq!(encode("é~_"), "%C3%A9~_");
}

#[test]
fn store_rules_admit_stage_and_version() {
    assert!(matches!(admit_batch(1999, 2, false), Err(ServiceError::QueueFull)));
    assert_eq!(admit_batch(1999, 2, true).unwrap(), 1);
    assert_eq!(admit_batch(2500, 2, true).unwrap(), 0);
    assert!(matches!(
        initial_job_state(true, 1, 1, "t".to_string()),
        RunState::Pending { .. }
    ));
    assert!(matches!(
        initial_job_state(false, 5, 1, "t".to_string()),
        RunState::Queued { .. }
    ));
    assert_eq!(import_version("set", None, false).unwrap(), 1);
    assert_eq!(import_version("set", Some(3), true).unwrap(), 4);
    match import_version("set", Some(3), false) {
        Err(ServiceError::Conflict(message)) => {
            assert_eq!(message, "parameter set 'set' already exists")
        }
        other => panic!("unexpected {other:?}"),
    }
    assert!(deletion_check("b", "completed").is_ok());
    assert!(deletion_check("b", "running").is_err());
}

#[test]
fn approximation_engines_report_their_model() {
    let engine = ApproximationEngine::disabled("no approximation model configured".to_string());
    let metadata = engine.metadata();
    assert!(!metadata.available);
    assert_eq!(
        metadata.unavailable_reason,
        Some("no approximation model configured".to_string())
    );
    assert_eq!(engine.unavailable_reason(), "no approximation model configured");
    assert!(valid_sha256(&format!("sha256:{}", "d".repeat(64))));
    assert!(!valid_sha256(&format!("sha256:{}", "D".repeat(64))));
    assert!(!valid_sha256("sha256:abc"));
}

#[test]
fn coefficient_embedding_cases_plan_on_the_derived_lwe() {
    let problem = Problem::Rlwe(lattice_security::domain::RlweProblem {
        negacyclic_ring: lattice_security::domain::NegacyclicRing {
            polynomial_degree: 1024,
            ciphertext_modulus: PositiveInteger::new("12289").unwrap(),
        },
        samples: SampleCount::Unlimited,
        secret: SecretDistribution::UniformTernary,
        error: ErrorDistribution::DiscreteGaussian {
            standard_deviation: decimal("3.2"),
        },
    });
    let mut ring_case = case("ring", problem);
    ring_case.analysis.reduction_model = Some(ReductionModel::CoefficientEmbeddingV1);
    let context = case_context(&ring_case, context()).unwrap();
    match &context.estimator_problem {
        lattice_security::domain::EstimatorProblem::Lwe(lwe) => assert_eq!(lwe.dimension, 1024),
        other => panic!("unexpected {other:?}"),
    }
    assert!(context.cache_key(Attack::Usvp).starts_with("sha256:"));
    assert_ne!(context.cache_key(Attack::Usvp), context.cache_key(Attack::Dual));
}

#[test]
fn case_labels_do_not_change_cache_keys() {
    let first = case("first", lwe_problem(512, "12289", "3.2"));
    let mut second = case("second", lwe_problem(512, "12289", "3.2"));
    second.name = "Another name".to_string();
    second.description = Some("relabelled".to_string());
    second.tags = vec!["sweep".to_string()];
    let first_context = case_context(&first, context()).unwrap();
    let second_context = case_context(&second, context()).unwrap();
    for attack in [Attack::Usvp, Attack::Dual, Attack::AroraGb, Attack::Bkw] {
        assert_eq!(first_context.cache_key(attack), second_context.cache_key(attack));
    }
    let other = case("first", lwe_problem(1024, "12289", "3.2"));
    let other_context = case_context(&other, context()).unwrap();
    assert_ne!(first_context.cache_key(Attack::Usvp), other_context.cache_key(Attack::Usvp));
}

#[test]
fn sweep_cases_are_queued_in_runs_of_five_hundred() {
    let base = case("base", lwe_problem(512, "2048", "3.2"));
    let cases = (0..1001)
        .map(|index| case(&format!("case-{index}"), lwe_problem(512, "2048", "3.2")))
        .collect::<Vec<_>>();
    let sweep = SweepRequest {
        base_case: base,
        axes: Vec::new(),
        timeout_seconds: 900,
        slow_attack_policy: Some(policy("128", "16", vec![Attack::Bkw])),
    };
    let requests = sweep_requests(&sweep, cases);
    assert_eq!(requests.len(), 3);
    assert_eq!(requests[0].cases.len(), 500);
    assert_eq!(requests[1].cases.len(), 500);
    assert_eq!(requests[2].cases.len(), 1);
    assert_eq!(requests[0].cases[0].id, "case-0");
    assert_eq!(requests[1].cases[0].id, "case-500");
    assert_eq!(requests[2].cases[0].id, "case-1000");
    for request in &requests {
        assert_eq!(request.mode, EstimateMode::Normal);
        assert_eq!(request.timeout_seconds, 900);
        let policy = request.slow_attack_policy.as_ref().unwrap();
        assert_eq!(policy.required_security_bits.as_str(), "128");
        assert_eq!(policy.forced_attacks, vec![Attack::Bkw]);
        assert_eq!(request.name, None);
    }
    assert!(sweep_requests(&sweep, Vec::new()).is_empty());
}

#[test]
fn claiming_runs_only_queued_jobs_of_known_cases() {
    assert!(matches!(claim_step("running", 0, 0, 1, "t".to_string()), Ok(None)));
    match claim_step("queued", 1, 2, 3, "t".to_string()) {
        Ok(Some((RunState::Running { started_at, heartbeat_at }, index, attempts))) => {
            assert_eq!(started_at, "t");
            assert_eq!(heartbeat_at, "t");
            assert_eq!(index, 2);
            assert_eq!(attempts, 2);
        }
        other => panic!("unexpected {other:?}"),
    }
    match claim_step("queued", 0, 3, 3, "t".to_string()) {
        Err(ServiceError::Database(message)) => assert_eq!(message, "stored case index is invalid"),
        other => panic!("unexpected {other:?}"),
    }
    match claim_step("queued", 0, -1, 3, "t".to_string()) {
        Err(ServiceError::Database(message)) => {
            assert_eq!(message, "out of range integral type conversion attempted")
        }
        other => panic!("unexpected {other:?}"),
    }
    assert!(claim_step("queued", i64::from(u32::MAX), 0, 1, "t".to_string()).is_err());
}

#[test]
fn sweep_ids_are_version_four_uuids() {
    let answer = response(Vec::new(), 0);
    let id: Vec<char> = answer.sweep_id.chars().collect();
    assert_eq!(id.len(), 36);
    for (i, c) in id.iter().enumerate() {
        if [8, 13, 18, 23].contains(&i) {
            assert_eq!(*c, '-');
        } else {
            assert!(c.is_ascii_digit() || ('a'..='f').contains(c));
        }
    }
    assert_eq!(id[14], '4');
    assert!(['8', '9', 'a', 'b'].contains(&id[19]));
}
