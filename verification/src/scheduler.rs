//! Estimation planning: which attacks run in which plan, when slow attacks
//! may be skipped, how worker answers become attack results, and the report
//! entry of a finished case.

use vstd::prelude::*;

use crate::applicability::{
    applicability_rule, slow_attack_applicability, ApplicabilityLevel, SlowAttackApplicability,
    Verdict, SLOW_ATTACK_APPLICABILITY_RULE_VERSION,
};
use crate::canonical::{
    identity_json, json_string, lemma_same_model_json, member, stable_hash, stable_hash_of,
    lemma_embedding_json, lemma_identity_json_by_parts,
    write_identity, write_json_string, write_member, write_u64, AttackCacheIdentity,
    EstimatorContext,
};
use crate::text::{nat_decimal, push_char};
use crate::domain::{
    analysis_model_for, analysis_model_outcome, attack_name, clone_strings, resolved, same_model,
    AnalysisModel, Attack, AttackOutcome, EstimatorProblem, ExactDecimal, Problem,
    ResolvedAnalysisSettings,
};
use crate::error::{error_text, ServiceError};
use crate::domain::{fast_attacks_for_problem, problem_fast_attacks, attacks_for_problem, problem_attacks, problem_slow_attacks, slow_attacks_for_problem};
use crate::database::JobWork;
use crate::formats::{same_case, Provenance, SecurityReportEntry, SecuritySummary};
use crate::service::RunState;
use crate::upstream::{context_of, provenance_fields, Metadata, WorkerAttackExecution, WorkerOutcome, WorkerResponse};
use crate::domain::NormalizedMetric;
use crate::formats::{AttackResult, EstimateMode, EstimateRequest, ParameterCase, SlowAttackPolicy};
use crate::validation::ValidationError;
use crate::numbers::{decimal_compare, decimal_compare_to_sum, decimal_order, decimal_order_to_sum};

verus! {

// ---- results by attack ----

/// Position of an attack in the attack order.
pub open spec fn slot_of(a: Attack) -> int {
    match a {
        Attack::AroraGb => 0,
        Attack::Bkw => 1,
        Attack::Usvp => 2,
        Attack::Bdd => 3,
        Attack::BddHybrid => 4,
        Attack::BddMitmHybrid => 5,
        Attack::Dual => 6,
        Attack::DualHybrid => 7,
        Attack::Dsd => 8,
        Attack::Lattice => 9,
    }
}

pub(crate) fn attack_slot(a: Attack) -> (r: usize)
    ensures
        r == slot_of(a),
{
    match a {
        Attack::AroraGb => 0,
        Attack::Bkw => 1,
        Attack::Usvp => 2,
        Attack::Bdd => 3,
        Attack::BddHybrid => 4,
        Attack::BddMitmHybrid => 5,
        Attack::Dual => 6,
        Attack::DualHybrid => 7,
        Attack::Dsd => 8,
        Attack::Lattice => 9,
    }
}

/// Attack results keyed by attack, at most one per attack.
#[derive(Debug)]
pub struct AttackResults {
    slots: Vec<Option<AttackResult>>,
}

impl AttackResults {
    spec fn holds(self, a: Attack) -> bool {
        &&& slot_of(a) < self.slots@.len()
        &&& self.slots@[slot_of(a)] matches Some(r) && r.attack == a
    }
}

impl View for AttackResults {
    type V = Map<Attack, AttackResult>;

    closed spec fn view(&self) -> Map<Attack, AttackResult> {
        Map::new(|a: Attack| self.holds(a), |a: Attack| self.slots@[slot_of(a)]->0)
    }
}

/// The attacks of `targets` that have no result in `m`, in their order.
pub open spec fn without_results(targets: Seq<Attack>, m: Map<Attack, AttackResult>) -> Seq<Attack> {
    targets.filter(|a: Attack| !m.dom().contains(a))
}

/// Each result is stored under its own attack.
pub proof fn lemma_results_keyed(results: AttackResults)
    ensures
        forall|a: Attack| #[trigger] results@.dom().contains(a) ==> results@[a].attack == a,
{
}

impl AttackResults {
    pub fn new() -> (r: Self)
        ensures
            r@ == Map::<Attack, AttackResult>::empty(),
    {
        let r = AttackResults { slots: Vec::new() };
        assert(r@ =~= Map::<Attack, AttackResult>::empty());
        r
    }

    /// Adds a result, replacing the one stored for its attack.
    pub fn insert(&mut self, result: AttackResult)
        ensures
            final(self)@ == old(self)@.insert(result.attack, result),
    {
        let slot = attack_slot(result.attack);
        while self.slots.len() <= slot
            invariant
                slot == slot_of(result.attack),
                self@ == old(self)@,
                old(self).slots@.len() <= self.slots@.len(),
                forall|i: int|
                    0 <= i < self.slots@.len() ==> #[trigger] self.slots@[i] == (if i
                        < old(self).slots@.len() {
                        old(self).slots@[i]
                    } else {
                        None
                    }),
            decreases slot + 1 - self.slots.len(),
        {
            self.slots.push(None);
            assert(self@ =~= old(self)@);
        }
        self.slots.remove(slot);
        self.slots.insert(slot, Some(result));
        assert(self@ =~= old(self)@.insert(result.attack, result));
    }

    pub fn contains(&self, attack: Attack) -> (r: bool)
        ensures
            r == self@.dom().contains(attack),
    {
        let slot = attack_slot(attack);
        if slot < self.slots.len() {
            match &self.slots[slot] {
                Some(result) => result.attack == attack,
                None => false,
            }
        } else {
            false
        }
    }

    /// The targets that hold no result yet, in their order.
    pub fn missing_from(&self, targets: &Vec<Attack>) -> (r: Vec<Attack>)
        ensures
            r@ == without_results(targets@, self@),
    {
        let mut r: Vec<Attack> = Vec::new();
        let mut i: usize = 0;
        while i < targets.len()
            invariant
                i <= targets.len(),
                r@ == without_results(targets@.take(i as int), self@),
            decreases targets.len() - i,
        {
            let a = targets[i];
            assert(targets@.take(i + 1).drop_last() =~= targets@.take(i as int));
            assert(targets@.take(i + 1).last() == a);
            reveal(Seq::filter);
            if !self.contains(a) {
                r.push(a);
            }
            i = i + 1;
        }
        assert(targets@.take(targets.len() as int) =~= targets@);
        r
    }

    pub fn get(&self, attack: Attack) -> (r: Option<&AttackResult>)
        ensures
            r is Some <==> self@.dom().contains(attack),
            r matches Some(x) ==> *x == self@[attack],
    {
        let slot = attack_slot(attack);
        if slot < self.slots.len() {
            match &self.slots[slot] {
                Some(result) => if result.attack == attack {
                    Some(result)
                } else {
                    None
                },
                None => None,
            }
        } else {
            None
        }
    }

    /// Removes and returns the result stored for an attack.
    pub fn take(&mut self, attack: Attack) -> (r: Option<AttackResult>)
        ensures
            r is Some <==> old(self)@.dom().contains(attack),
            r matches Some(x) ==> x == old(self)@[attack],
            final(self)@ == old(self)@.remove(attack),
    {
        let slot = attack_slot(attack);
        if slot < self.slots.len() && self.contains(attack) {
            let taken = self.slots.remove(slot);
            self.slots.insert(slot, None);
            assert(self@ =~= old(self)@.remove(attack));
            taken
        } else {
            assert(self@ =~= old(self)@.remove(attack));
            None
        }
    }

    pub fn is_empty(&self) -> (r: bool)
        ensures
            r == (self@.dom() == Set::<Attack>::empty()),
    {
        let mut i: usize = 0;
        while i < self.slots.len()
            invariant
                i <= self.slots.len(),
                forall|a: Attack| slot_of(a) < i ==> !#[trigger] self@.dom().contains(a),
            decreases self.slots.len() - i,
        {
            if let Some(result) = &self.slots[i] {
                if attack_slot(result.attack) == i {
                    assert(self@.dom().contains(result.attack));
                    assert(self@.dom() != Set::<Attack>::empty());
                    return false;
                }
            }
            i = i + 1;
        }
        assert(self@.dom() =~= Set::<Attack>::empty());
        true
    }

    /// Adds every result of `other`, replacing results for the same attacks.
    pub fn extend(&mut self, other: AttackResults)
        ensures
            final(self)@ == old(self)@.union_prefer_right(other@),
    {
        let mut other = other;
        let ghost incoming = other@;
        let mut i: usize = 0;
        while i < 10
            invariant
                i <= 10,
                other@ == incoming.restrict(Set::new(|a: Attack| slot_of(a) >= i)),
                self@ == old(self)@.union_prefer_right(
                    incoming.restrict(Set::new(|a: Attack| slot_of(a) < i)),
                ),
            decreases 10 - i,
        {
            let attack = attack_at(i);
            let taken = other.take(attack);
            if let Some(result) = taken {
                self.insert(result);
            }
            proof {
                assert(other@ =~= incoming.restrict(Set::new(|a: Attack| slot_of(a) >= i + 1)));
                assert(self@ =~= old(self)@.union_prefer_right(
                    incoming.restrict(Set::new(|a: Attack| slot_of(a) < i + 1)),
                ));
            }
            i = i + 1;
        }
        assert(incoming.restrict(Set::new(|a: Attack| slot_of(a) < 10)) =~= incoming);
    }
}

/// The security bits of a computed outcome.
pub open spec fn computed_bits(o: AttackOutcome) -> Option<ExactDecimal> {
    match o {
        AttackOutcome::Computed { security_bits, .. } => Some(security_bits),
        _ => None,
    }
}

/// Whether a computed result is below `required + margin`.
pub open spec fn below_target(r: AttackResult, policy: SlowAttackPolicy) -> bool {
    computed_bits(r.outcome) matches Some(bits) && decimal_order_to_sum(
        bits@,
        policy.required_security_bits@,
        policy.stop_margin_bits@,
    ) < 0
}

/// There is a computed fast estimate, and the lowest one is at least the
/// required security plus the stop margin.
pub open spec fn stop_threshold_met(m: Map<Attack, AttackResult>, policy: SlowAttackPolicy) -> bool {
    &&& exists|a: Attack| #[trigger] m.dom().contains(a) && computed_bits(m[a].outcome) is Some
    &&& forall|a: Attack| #[trigger] m.dom().contains(a) ==> !below_target(m[a], policy)
}

impl AttackResults {
    fn threshold_met(&self, policy: &SlowAttackPolicy) -> (r: bool)
        ensures
            r == stop_threshold_met(self@, *policy),
    {
        let required = policy.required_security_bits.as_str();
        let margin = policy.stop_margin_bits.as_str();
        let mut any = false;
        let mut i: usize = 0;
        while i < self.slots.len()
            invariant
                i <= self.slots.len(),
                required@ == policy.required_security_bits@,
                margin@ == policy.stop_margin_bits@,
                crate::numbers::is_plain_decimal(required@),
                crate::numbers::is_plain_decimal(margin@),
                any == exists|a: Attack|
                    slot_of(a) < i && #[trigger] self@.dom().contains(a) && computed_bits(
                        self@[a].outcome,
                    ) is Some,
                forall|a: Attack|
                    slot_of(a) < i && #[trigger] self@.dom().contains(a) ==> !below_target(
                        self@[a],
                        *policy,
                    ),
            decreases self.slots.len() - i,
        {
            if let Some(result) = &self.slots[i] {
                if attack_slot(result.attack) == i {
                    assert(self@.dom().contains(result.attack));
                    if let AttackOutcome::Computed { security_bits, .. } = &result.outcome {
                        any = true;
                        let order = decimal_compare_to_sum(security_bits.as_str(), required, margin);
                        if order < 0 {
                            assert(below_target(self@[result.attack], *policy));
                            return false;
                        }
                    }
                }
            }
            i = i + 1;
        }
        any
    }
}

/// Whether the fast estimates already meet the policy's stop threshold.
pub fn fast_results_meet_stop_threshold(results: &AttackResults, policy: &SlowAttackPolicy) -> (r:
    bool)
    ensures
        r == stop_threshold_met(results@, *policy),
{
    results.threshold_met(policy)
}

/// A timeout result for each attack.
pub fn insert_timeouts(attacks: &Vec<Attack>, timeout_seconds: u64, results: &mut AttackResults)
    ensures
        forall|a: Attack| #[trigger]
            final(results)@.dom().contains(a) <==> old(results)@.dom().contains(a)
                || attacks@.contains(a),
        forall|a: Attack|
            #[trigger] attacks@.contains(a) ==> final(results)@[a] == (AttackResult {
                attack: a,
                cached: false,
                outcome: AttackOutcome::Timeout { timeout_seconds },
            }),
        forall|a: Attack|
            !attacks@.contains(a) && #[trigger] old(results)@.dom().contains(a) ==> final(results)@[a] == old(results)@[a],
{
    let mut i: usize = 0;
    while i < attacks.len()
        invariant
            i <= attacks.len(),
            forall|a: Attack| #[trigger]
                results@.dom().contains(a) <==> old(results)@.dom().contains(a)
                    || attacks@.take(i as int).contains(a),
            forall|a: Attack|
                #[trigger] attacks@.take(i as int).contains(a) ==> results@[a] == (AttackResult {
                    attack: a,
                    cached: false,
                    outcome: AttackOutcome::Timeout { timeout_seconds },
                }),
            forall|a: Attack|
                !attacks@.take(i as int).contains(a) && #[trigger] old(results)@.dom().contains(a)
                    ==> results@[a] == old(results)@[a],
        decreases attacks.len() - i,
    {
        let attack = attacks[i];
        results.insert(
            AttackResult {
                attack,
                cached: false,
                outcome: AttackOutcome::Timeout { timeout_seconds },
            },
        );
        proof {
            assert forall|a: Attack| #[trigger]
                attacks@.take(i + 1).contains(a) <==> attacks@.take(i as int).contains(a) || a
                    == attack by {
                if attacks@.take(i + 1).contains(a) {
                    let k = choose|k: int| 0 <= k < i + 1 && #[trigger] attacks@.take(i + 1)[k] == a;
                    if k < i {
                        assert(attacks@.take(i as int)[k] == a);
                    }
                }
                if a == attack {
                    assert(attacks@.take(i + 1)[i as int] == a);
                }
                if attacks@.take(i as int).contains(a) {
                    let k = choose|k: int| 0 <= k < i && #[trigger] attacks@.take(i as int)[k] == a;
                    assert(attacks@.take(i + 1)[k] == a);
                }
            }
        }
        i = i + 1;
    }
    assert(attacks@.take(attacks.len() as int) =~= attacks@);
}

/// Whether a result records a failed plan with the given message.
pub open spec fn plan_failure(r: AttackResult, a: Attack, message: Seq<char>) -> bool {
    &&& r.attack == a
    &&& !r.cached
    &&& r.outcome matches AttackOutcome::Failed { code, message: m, retryable }
    &&& code@ == "estimator_plan_failed"@
    &&& m@ == message
    &&& !retryable
}

/// An attack-level failure for each attack of a plan that failed after its
/// retry.
pub fn insert_plan_failures(attacks: &Vec<Attack>, error: &ServiceError, results: &mut AttackResults)
    ensures
        forall|a: Attack| #[trigger]
            final(results)@.dom().contains(a) <==> old(results)@.dom().contains(a)
                || attacks@.contains(a),
        forall|a: Attack|
            #[trigger] attacks@.contains(a) ==> plan_failure(
                final(results)@[a],
                a,
                error_text(*error),
            ),
        forall|a: Attack|
            !attacks@.contains(a) && #[trigger] old(results)@.dom().contains(a) ==> final(results)@[a] == old(results)@[a],
{
    let mut i: usize = 0;
    while i < attacks.len()
        invariant
            i <= attacks.len(),
            forall|a: Attack| #[trigger]
                results@.dom().contains(a) <==> old(results)@.dom().contains(a)
                    || attacks@.take(i as int).contains(a),
            forall|a: Attack|
                #[trigger] attacks@.take(i as int).contains(a) ==> plan_failure(
                    results@[a],
                    a,
                    error_text(*error),
                ),
            forall|a: Attack|
                !attacks@.take(i as int).contains(a) && #[trigger] old(results)@.dom().contains(a)
                    ==> results@[a] == old(results)@[a],
        decreases attacks.len() - i,
    {
        let attack = attacks[i];
        results.insert(
            AttackResult {
                attack,
                cached: false,
                outcome: AttackOutcome::Failed {
                    code: String::from_str("estimator_plan_failed"),
                    message: error.message(),
                    retryable: false,
                },
            },
        );
        proof {
            assert forall|a: Attack| #[trigger]
                attacks@.take(i + 1).contains(a) <==> attacks@.take(i as int).contains(a) || a
                    == attack by {
                if attacks@.take(i + 1).contains(a) {
                    let k = choose|k: int| 0 <= k < i + 1 && #[trigger] attacks@.take(i + 1)[k] == a;
                    if k < i {
                        assert(attacks@.take(i as int)[k] == a);
                    }
                }
                if a == attack {
                    assert(attacks@.take(i + 1)[i as int] == a);
                }
                if attacks@.take(i as int).contains(a) {
                    let k = choose|k: int| 0 <= k < i && #[trigger] attacks@.take(i as int)[k] == a;
                    assert(attacks@.take(i + 1)[k] == a);
                }
            }
        }
        i = i + 1;
    }
    assert(attacks@.take(attacks.len() as int) =~= attacks@);
}

/// Fast attacks that run together in one estimator plan, by problem kind.
pub open spec fn attack_families(problem: Problem) -> Seq<Seq<Attack>> {
    match problem {
        Problem::Lwe(_) | Problem::Rlwe(_) | Problem::Glwe(_) => seq![
            seq![Attack::Usvp, Attack::Bdd, Attack::BddHybrid, Attack::BddMitmHybrid],
            seq![Attack::Dual, Attack::DualHybrid],
        ],
        Problem::Ntru(_) => seq![
            seq![Attack::Usvp],
            seq![Attack::Dsd],
            seq![Attack::Bdd, Attack::BddHybrid, Attack::BddMitmHybrid],
        ],
        Problem::Sis(_) => seq![seq![Attack::Lattice]],
    }
}

/// The attacks of a family without a result yet.
pub open spec fn still_missing(family: Seq<Attack>, existing: Set<Attack>) -> Seq<Attack> {
    family.filter(|a: Attack| !existing.contains(a))
}

/// Each family without the attacks that have a result, empty ones dropped.
pub open spec fn missing_groups(families: Seq<Seq<Attack>>, existing: Set<Attack>) -> Seq<Seq<Attack>>
    decreases families.len(),
{
    if families.len() == 0 {
        Seq::empty()
    } else {
        let rest = missing_groups(families.drop_last(), existing);
        let group = still_missing(families.last(), existing);
        if group.len() > 0 {
            rest.push(group)
        } else {
            rest
        }
    }
}

fn keep_missing(family: &Vec<Attack>, existing: &AttackResults) -> (r: Vec<Attack>)
    ensures
        r@ == still_missing(family@, existing@.dom()),
{
    let mut r: Vec<Attack> = Vec::new();
    let mut i: usize = 0;
    while i < family.len()
        invariant
            i <= family.len(),
            r@ == still_missing(family@.take(i as int), existing@.dom()),
        decreases family.len() - i,
    {
        assert(family@.take(i + 1).drop_last() =~= family@.take(i as int));
        proof {
            reveal(Seq::filter);
        }
        if !existing.contains(family[i]) {
            r.push(family[i]);
        }
        i = i + 1;
    }
    assert(family@.take(family.len() as int) =~= family@);
    r
}

fn family(attacks: &[Attack]) -> (r: Vec<Attack>)
    ensures
        r@ == attacks@,
{
    let mut r: Vec<Attack> = Vec::new();
    let mut i: usize = 0;
    while i < attacks.len()
        invariant
            i <= attacks.len(),
            r@ == attacks@.take(i as int),
        decreases attacks.len() - i,
    {
        r.push(attacks[i]);
        assert(r@ =~= attacks@.take(i + 1));
        i = i + 1;
    }
    assert(attacks@.take(attacks.len() as int) =~= attacks@);
    r
}

fn families_of(problem: &Problem) -> (r: Vec<Vec<Attack>>)
    ensures
        r@.map_values(|g: Vec<Attack>| g@) == attack_families(*problem),
{
    let mut r: Vec<Vec<Attack>> = Vec::new();
    match problem {
        Problem::Lwe(_) | Problem::Rlwe(_) | Problem::Glwe(_) => {
            let primal = [Attack::Usvp, Attack::Bdd, Attack::BddHybrid, Attack::BddMitmHybrid];
            let dual = [Attack::Dual, Attack::DualHybrid];
            r.push(family(&primal));
            r.push(family(&dual));
            assert(primal@ =~= seq![Attack::Usvp, Attack::Bdd, Attack::BddHybrid, Attack::BddMitmHybrid]);
            assert(dual@ =~= seq![Attack::Dual, Attack::DualHybrid]);
        },
        Problem::Ntru(_) => {
            let usvp = [Attack::Usvp];
            let dsd = [Attack::Dsd];
            let bdd = [Attack::Bdd, Attack::BddHybrid, Attack::BddMitmHybrid];
            r.push(family(&usvp));
            r.push(family(&dsd));
            r.push(family(&bdd));
            assert(usvp@ =~= seq![Attack::Usvp]);
            assert(dsd@ =~= seq![Attack::Dsd]);
            assert(bdd@ =~= seq![Attack::Bdd, Attack::BddHybrid, Attack::BddMitmHybrid]);
        },
        Problem::Sis(_) => {
            let lattice = [Attack::Lattice];
            r.push(family(&lattice));
            assert(lattice@ =~= seq![Attack::Lattice]);
        },
    }
    assert(r@.map_values(|g: Vec<Attack>| g@) =~= attack_families(*problem));
    r
}

/// The fast-attack plans still to run: each family of the problem kind,
/// without the attacks that already have a result; empty plans dropped.
pub fn fast_attack_groups(problem: &Problem, existing: &AttackResults) -> (r: Vec<Vec<Attack>>)
    ensures
        r@.map_values(|g: Vec<Attack>| g@) == missing_groups(
            attack_families(*problem),
            existing@.dom(),
        ),
{
    let families = families_of(problem);
    let ghost fam = families@.map_values(|g: Vec<Attack>| g@);
    let mut r: Vec<Vec<Attack>> = Vec::new();
    let mut i: usize = 0;
    while i < families.len()
        invariant
            i <= families.len(),
            fam == families@.map_values(|g: Vec<Attack>| g@),
            r@.map_values(|g: Vec<Attack>| g@) == missing_groups(fam.take(i as int), existing@.dom()),
        decreases families.len() - i,
    {
        assert(fam.take(i + 1).drop_last() =~= fam.take(i as int));
        let group = keep_missing(&families[i], existing);
        if group.len() > 0 {
            let ghost before = r@;
            r.push(group);
            assert(r@.map_values(|g: Vec<Attack>| g@) =~= before.map_values(|g: Vec<Attack>| g@).push(
                group@,
            ));
        }
        i = i + 1;
    }
    assert(fam.take(families.len() as int) =~= fam);
    r
}

/// The warnings an analysis model carries into reports.
pub open spec fn model_warnings(model: AnalysisModel) -> Seq<String> {
    match model {
        AnalysisModel::CoefficientEmbeddingV1 { warnings, .. } => warnings@,
        _ => Seq::empty(),
    }
}

pub fn analysis_warnings(model: &AnalysisModel) -> (r: Vec<String>)
    ensures
        r@ == model_warnings(*model),
{
    match model {
        AnalysisModel::CoefficientEmbeddingV1 { warnings, .. } => clone_strings(warnings),
        _ => Vec::new(),
    }
}

/// The label of an adaptive slow attack.
pub fn slow_attack_label(attack: Attack) -> (r: &'static str)
    requires
        attack == Attack::AroraGb || attack == Attack::Bkw,
    ensures
        r@ == attack_name(attack),
{
    match attack {
        Attack::AroraGb => "arora_gb",
        _ => "bkw",
    }
}

// ---- the context of one case ----

/// What every attack of a case shares: the problem handed to the estimator,
/// the analysis model, the resolved settings and the estimator context.
#[derive(Debug)]
pub struct CaseContext {
    pub estimator_problem: EstimatorProblem,
    pub analysis_model: AnalysisModel,
    pub resolved_analysis: ResolvedAnalysisSettings,
    pub estimator_context: EstimatorContext,
}

/// The cache identity of one attack of a case.
pub open spec fn identity_of(c: CaseContext, attack: Attack) -> AttackCacheIdentity {
    AttackCacheIdentity {
        canonicalization_version: crate::CANONICALIZATION_VERSION,
        estimator_problem: c.estimator_problem,
        analysis_model: c.analysis_model,
        resolved_analysis: c.resolved_analysis,
        attack,
        estimator_context: c.estimator_context,
    }
}

/// The cache key of one attack of a case.
pub open spec fn cache_key_of(c: CaseContext, attack: Attack) -> Seq<char> {
    stable_hash_of(identity_json(identity_of(c, attack)))
}

/// The problem the estimator works on: the problem itself, or the LWE
/// problem a ring problem embeds into.
pub open spec fn estimator_problem_of(problem: Problem, model: AnalysisModel) -> Option<
    EstimatorProblem,
> {
    match problem {
        Problem::Lwe(p) => Some(EstimatorProblem::Lwe(p)),
        Problem::Ntru(p) => Some(EstimatorProblem::Ntru(p)),
        Problem::Sis(p) => Some(EstimatorProblem::Sis(p)),
        _ => match model {
            AnalysisModel::CoefficientEmbeddingV1 { derived_lwe, .. } => Some(
                EstimatorProblem::Lwe(*derived_lwe),
            ),
            _ => None,
        },
    }
}

impl CaseContext {
    pub fn cache_identity(&self, attack: Attack) -> (r: AttackCacheIdentity)
        ensures
            r.canonicalization_version == crate::CANONICALIZATION_VERSION,
            r.estimator_problem == self.estimator_problem,
            same_model(r.analysis_model, self.analysis_model),
            r.resolved_analysis == self.resolved_analysis,
            r.attack == attack,
            r.estimator_context == self.estimator_context,
            identity_json(r) == identity_json(identity_of(*self, attack)),
    {
        let r = AttackCacheIdentity::new(
            self.estimator_problem.clone(),
            self.analysis_model.clone(),
            self.resolved_analysis,
            attack,
            self.estimator_context.clone(),
        );
        proof {
            lemma_same_model_json(r.analysis_model, self.analysis_model);
            reveal(identity_json);
        }
        r
    }

    /// The cache key of an attack's outcome.
    pub fn cache_key(&self, attack: Attack) -> (r: String)
        ensures
            r@ == cache_key_of(*self, attack),
    {
        self.cache_identity(attack).hash()
    }

    /// The applicability of an adaptive slow attack on this case's problem.
    pub fn applicability(&self, attack: Attack) -> (r: Result<SlowAttackApplicability, ServiceError>)
        ensures
            r is Ok <==> applicability_rule(self.estimator_problem, attack) is Some,
            r matches Ok(a) ==> Some(crate::applicability::verdict_of(a)) == applicability_rule(
                self.estimator_problem,
                attack,
            ),
            r matches Err(e) ==> e matches ServiceError::Internal(m) && m@
                == "missing applicability rule for adaptive slow attack"@,
    {
        match slow_attack_applicability(&self.estimator_problem, attack) {
            Some(a) => Ok(a),
            None => Err(
                ServiceError::Internal(
                    String::from_str("missing applicability rule for adaptive slow attack"),
                ),
            ),
        }
    }
}

/// A context of a case under a given estimator: the case's analysis model,
/// the problem the estimator works on, the resolved settings and the
/// estimator.
pub open spec fn is_case_context(case: ParameterCase, estimator_context: EstimatorContext, c: CaseContext) -> bool {
    &&& analysis_model_outcome(case.problem, case.analysis, Ok(c.analysis_model))
    &&& estimator_problem_of(case.problem, c.analysis_model) == Some(c.estimator_problem)
    &&& c.resolved_analysis == resolved(case.analysis)
    &&& c.estimator_context == estimator_context
}

/// The context of a case under a given estimator.
pub fn case_context(case: &ParameterCase, estimator_context: EstimatorContext) -> (r: Result<
    CaseContext,
    ServiceError,
>)
    ensures
        r matches Ok(c) ==> is_case_context(*case, estimator_context, c),
        r matches Err(e) ==> e matches ServiceError::Invalid(v) && analysis_model_outcome(
            case.problem,
            case.analysis,
            Err(v),
        ),
{
    let analysis_model = match analysis_model_for(&case.problem, &case.analysis) {
        Ok(model) => model,
        Err(v) => return Err(ServiceError::Invalid(v)),
    };
    let estimator_problem = match &case.problem {
        Problem::Lwe(p) => EstimatorProblem::Lwe(p.clone()),
        Problem::Ntru(p) => EstimatorProblem::Ntru(p.clone()),
        Problem::Sis(p) => EstimatorProblem::Sis(p.clone()),
        _ => match &analysis_model {
            AnalysisModel::CoefficientEmbeddingV1 { derived_lwe, .. } => EstimatorProblem::Lwe(
                (**derived_lwe).clone(),
            ),
            _ => {
                return Err(
                    ServiceError::Internal(String::from_str("problem and analysis model disagree")),
                );
            },
        },
    };
    Ok(
        CaseContext {
            estimator_problem,
            analysis_model,
            resolved_analysis: case.analysis.resolve(),
            estimator_context,
        },
    )
}

/// The cache key of an attack depends on a case's problem and analysis
/// settings and on the estimator alone: cases that differ only in id, name,
/// description or tags share every attack's cache key. (A request's case
/// order, timeout and slow-attack policy do not reach a case's context.)
pub proof fn lemma_cache_key_ignores_case_labels(
    first: ParameterCase,
    second: ParameterCase,
    estimator_context: EstimatorContext,
    first_context: CaseContext,
    second_context: CaseContext,
    attack: Attack,
)
    requires
        first.problem == second.problem,
        first.analysis == second.analysis,
        is_case_context(first, estimator_context, first_context),
        is_case_context(second, estimator_context, second_context),
    ensures
        cache_key_of(first_context, attack) == cache_key_of(second_context, attack),
{
    let a = first_context.analysis_model;
    let b = second_context.analysis_model;
    match first.problem {
        Problem::Rlwe(p) => {
            lemma_embedding_json(a, b, p.negacyclic_ring, 1, p.samples, p.secret, p.error);
        },
        Problem::Glwe(p) => {
            lemma_embedding_json(a, b, p.negacyclic_ring, p.dimension, p.samples, p.secret, p.error);
        },
        _ => {},
    }
    lemma_identity_json_by_parts(identity_of(first_context, attack), identity_of(second_context, attack));
}

/// A result that records a slow attack excluded by a policy rule.
pub open spec fn policy_skip(r: AttackResult, a: Attack, code: Seq<char>, reason: Seq<char>) -> bool {
    &&& r.attack == a
    &&& !r.cached
    &&& r.outcome matches AttackOutcome::PolicySkipped {
        code: c,
        reason: why,
        applicability_rule_version,
    }
    &&& c@ == code
    &&& why@ == reason
    &&& applicability_rule_version == SLOW_ATTACK_APPLICABILITY_RULE_VERSION
}

/// Whether the applicability rules exclude an attack on a problem.
pub open spec fn excluded_by_rule(p: EstimatorProblem, a: Attack) -> bool {
    applicability_rule(p, a) matches Some(v) && v.0 == ApplicabilityLevel::Inapplicable
}

/// Whether a result records the rule that excluded an attack.
pub open spec fn rule_skip(r: AttackResult, p: EstimatorProblem, a: Attack) -> bool {
    let verdict = applicability_rule(p, a)->0;
    policy_skip(r, a, verdict.1, verdict.2)
}

/// Records a policy skip for each attack its applicability rule excludes
/// and returns the others, in order. Every attack must have a rule.
pub fn apply_applicability_skips(
    context: &CaseContext,
    attacks: &Vec<Attack>,
    results: &mut AttackResults,
) -> (r: Result<Vec<Attack>, ServiceError>)
    ensures
        r is Ok <==> forall|i: int|
            0 <= i < attacks@.len() ==> applicability_rule(
                context.estimator_problem,
                #[trigger] attacks@[i],
            ) is Some,
        r matches Err(e) ==> e matches ServiceError::Internal(m) && m@
            == "missing applicability rule for adaptive slow attack"@ && final(results)@ == old(
            results,
        )@,
        r matches Ok(candidates) ==> {
            &&& candidates@ == attacks@.filter(
                |a: Attack| !excluded_by_rule(context.estimator_problem, a),
            )
            &&& forall|a: Attack| #[trigger]
                final(results)@.dom().contains(a) <==> old(results)@.dom().contains(a) || (
                attacks@.contains(a) && excluded_by_rule(context.estimator_problem, a))
            &&& forall|a: Attack|
                #[trigger] attacks@.contains(a) && excluded_by_rule(context.estimator_problem, a)
                    ==> rule_skip(final(results)@[a], context.estimator_problem, a)
            &&& forall|a: Attack|
                !(attacks@.contains(a) && excluded_by_rule(context.estimator_problem, a))
                    && #[trigger] old(results)@.dom().contains(a) ==> final(results)@[a] == old(
                    results,
                )@[a]
        },
{
    let mut i: usize = 0;
    while i < attacks.len()
        invariant
            i <= attacks.len(),
            forall|j: int|
                0 <= j < i ==> applicability_rule(context.estimator_problem, #[trigger] attacks@[j])
                    is Some,
        decreases attacks.len() - i,
    {
        if slow_attack_applicability(&context.estimator_problem, attacks[i]).is_none() {
            return Err(
                ServiceError::Internal(
                    String::from_str("missing applicability rule for adaptive slow attack"),
                ),
            );
        }
        i = i + 1;
    }
    let mut candidates: Vec<Attack> = Vec::new();
    let ghost p = context.estimator_problem;
    let mut i: usize = 0;
    while i < attacks.len()
        invariant
            i <= attacks.len(),
            p == context.estimator_problem,
            forall|j: int| 0 <= j < attacks@.len() ==> applicability_rule(p, #[trigger] attacks@[j]) is Some,
            candidates@ == attacks@.take(i as int).filter(|a: Attack| !excluded_by_rule(p, a)),
            forall|a: Attack| #[trigger]
                results@.dom().contains(a) <==> old(results)@.dom().contains(a) || (attacks@.take(
                    i as int,
                ).contains(a) && excluded_by_rule(p, a)),
            forall|a: Attack|
                #[trigger] attacks@.take(i as int).contains(a) && excluded_by_rule(p, a) ==> rule_skip(
                    results@[a],
                    p,
                    a,
                ),
            forall|a: Attack|
                !(attacks@.take(i as int).contains(a) && excluded_by_rule(p, a))
                    && #[trigger] old(results)@.dom().contains(a) ==> results@[a] == old(results)@[a],
        decreases attacks.len() - i,
    {
        let attack = attacks[i];
        assert(applicability_rule(p, attacks@[i as int]) is Some);
        let applicability = match slow_attack_applicability(&context.estimator_problem, attack) {
            Some(a) => a,
            None => {
                return Err(
                    ServiceError::Internal(
                        String::from_str("missing applicability rule for adaptive slow attack"),
                    ),
                );
            },
        };
        proof {
            reveal(Seq::filter);
            assert(attacks@.take(i + 1).drop_last() =~= attacks@.take(i as int));
            assert forall|a: Attack| #[trigger]
                attacks@.take(i + 1).contains(a) <==> attacks@.take(i as int).contains(a) || a
                    == attack by {
                if attacks@.take(i + 1).contains(a) {
                    let k = choose|k: int| 0 <= k < i + 1 && #[trigger] attacks@.take(i + 1)[k] == a;
                    if k < i {
                        assert(attacks@.take(i as int)[k] == a);
                    }
                }
                if a == attack {
                    assert(attacks@.take(i + 1)[i as int] == a);
                }
                if attacks@.take(i as int).contains(a) {
                    let k = choose|k: int| 0 <= k < i && #[trigger] attacks@.take(i as int)[k] == a;
                    assert(attacks@.take(i + 1)[k] == a);
                }
            }
        }
        if applicability.level == ApplicabilityLevel::Inapplicable {
            results.insert(
                AttackResult {
                    attack,
                    cached: false,
                    outcome: AttackOutcome::PolicySkipped {
                        code: applicability.code,
                        reason: applicability.reason,
                        applicability_rule_version: SLOW_ATTACK_APPLICABILITY_RULE_VERSION,
                    },
                },
            );
        } else {
            candidates.push(attack);
        }
        i = i + 1;
    }
    assert(attacks@.take(attacks.len() as int) =~= attacks@);
    Ok(candidates)
}

/// One more element of a sequence's prefix.
pub proof fn lemma_take_one_more(s: Seq<Attack>, i: int)
    requires
        0 <= i < s.len(),
    ensures
        forall|a: Attack| #[trigger]
            s.take(i + 1).contains(a) <==> s.take(i).contains(a) || a == s[i],
{
    assert forall|a: Attack| #[trigger] s.take(i + 1).contains(a) <==> s.take(i).contains(a) || a == s[i] by {
        if s.take(i + 1).contains(a) {
            let k = choose|k: int| 0 <= k < i + 1 && #[trigger] s.take(i + 1)[k] == a;
            if k < i {
                assert(s.take(i)[k] == a);
            }
        }
        if a == s[i] {
            assert(s.take(i + 1)[i] == a);
        }
        if s.take(i).contains(a) {
            let k = choose|k: int| 0 <= k < i && #[trigger] s.take(i)[k] == a;
            assert(s.take(i + 1)[k] == a);
        }
    }
}

// ---- slow attacks ----

/// The adaptive slow attacks of a problem that have no result yet.
pub open spec fn missing_slow(problem: Problem, existing: Set<Attack>) -> Seq<Attack> {
    still_missing(problem_slow_attacks(problem), existing)
}

/// One plan per attack.
pub open spec fn singletons(attacks: Seq<Attack>) -> Seq<Seq<Attack>> {
    attacks.map_values(|a: Attack| seq![a])
}

pub open spec fn rough_reason() -> Seq<char> {
    "rough mode runs fast attacks only"@
}

pub open spec fn threshold_code() -> Seq<char> {
    "fast_estimate_above_threshold"@
}

/// Why a slow attack was skipped for a high fast estimate.
pub open spec fn threshold_reason(margin: Seq<char>) -> Seq<char> {
    "the lowest fast-attack estimate is at least the required security plus the configured "@
        + margin + "-bit margin"@
}

/// The slow attacks to run, one plan each, and whether the case's result
/// rests on fast attacks alone.
#[derive(Debug)]
pub struct SlowPlan {
    pub plans: Vec<Vec<Attack>>,
    pub fast_estimate: bool,
}

/// A result that records a slow attack left out in rough mode.
pub open spec fn rough_skip(r: AttackResult, a: Attack) -> bool {
    &&& r.attack == a
    &&& !r.cached
    &&& r.outcome matches AttackOutcome::Skipped { reason }
    &&& reason@ == rough_reason()
}

fn singleton_plans(attacks: &Vec<Attack>) -> (r: Vec<Vec<Attack>>)
    ensures
        r@.map_values(|g: Vec<Attack>| g@) == singletons(attacks@),
{
    let mut r: Vec<Vec<Attack>> = Vec::new();
    let mut i: usize = 0;
    while i < attacks.len()
        invariant
            i <= attacks.len(),
            r@.len() == i,
            forall|k: int| 0 <= k < i ==> #[trigger] r@[k]@ == seq![attacks@[k]],
        decreases attacks.len() - i,
    {
        let mut plan: Vec<Attack> = Vec::new();
        plan.push(attacks[i]);
        assert(plan@ =~= seq![attacks@[i as int]]);
        r.push(plan);
        i = i + 1;
    }
    assert(r@.map_values(|g: Vec<Attack>| g@) =~= singletons(attacks@));
    r
}

/// Splits attacks into those the policy forces and the others, in order.
fn partition_forced(attacks: &Vec<Attack>, policy: &SlowAttackPolicy) -> (r: (Vec<Attack>, Vec<Attack>))
    ensures
        r.0@ == attacks@.filter(|a: Attack| policy.forced_attacks@.contains(a)),
        r.1@ == attacks@.filter(|a: Attack| !policy.forced_attacks@.contains(a)),
{
    let mut forced: Vec<Attack> = Vec::new();
    let mut automatic: Vec<Attack> = Vec::new();
    let mut i: usize = 0;
    while i < attacks.len()
        invariant
            i <= attacks.len(),
            forced@ == attacks@.take(i as int).filter(|a: Attack| policy.forced_attacks@.contains(a)),
            automatic@ == attacks@.take(i as int).filter(
                |a: Attack| !policy.forced_attacks@.contains(a),
            ),
        decreases attacks.len() - i,
    {
        proof {
            reveal(Seq::filter);
            assert(attacks@.take(i + 1).drop_last() =~= attacks@.take(i as int));
        }
        if policy.forces(attacks[i]) {
            forced.push(attacks[i]);
        } else {
            automatic.push(attacks[i]);
        }
        i = i + 1;
    }
    assert(attacks@.take(attacks.len() as int) =~= attacks@);
    (forced, automatic)
}

/// Records a rough-mode skip for each attack without a result.
fn insert_rough_skips(attacks: &Vec<Attack>, results: &mut AttackResults)
    ensures
        forall|a: Attack| #[trigger]
            final(results)@.dom().contains(a) <==> old(results)@.dom().contains(a)
                || attacks@.contains(a),
        forall|a: Attack|
            #[trigger] attacks@.contains(a) && !old(results)@.dom().contains(a) ==> rough_skip(
                final(results)@[a],
                a,
            ),
        forall|a: Attack|
            #[trigger] old(results)@.dom().contains(a) ==> final(results)@[a] == old(results)@[a],
{
    let mut i: usize = 0;
    while i < attacks.len()
        invariant
            i <= attacks.len(),
            forall|a: Attack| #[trigger]
                results@.dom().contains(a) <==> old(results)@.dom().contains(a)
                    || attacks@.take(i as int).contains(a),
            forall|a: Attack|
                #[trigger] attacks@.take(i as int).contains(a) && !old(results)@.dom().contains(a)
                    ==> rough_skip(results@[a], a),
            forall|a: Attack|
                #[trigger] old(results)@.dom().contains(a) ==> results@[a] == old(results)@[a],
        decreases attacks.len() - i,
    {
        let attack = attacks[i];
        proof {
            lemma_take_one_more(attacks@, i as int);
        }
        if !results.contains(attack) {
            results.insert(
                AttackResult {
                    attack,
                    cached: false,
                    outcome: AttackOutcome::Skipped {
                        reason: String::from_str("rough mode runs fast attacks only"),
                    },
                },
            );
        }
        i = i + 1;
    }
    assert(attacks@.take(attacks.len() as int) =~= attacks@);
}

fn threshold_reason_text(margin: &ExactDecimal) -> (r: String)
    ensures
        r@ == threshold_reason(margin@),
{
    let mut r = String::from_str(
        "the lowest fast-attack estimate is at least the required security plus the configured ",
    );
    r.append(margin.as_str());
    r.append("-bit margin");
    r
}

/// Records a threshold skip for each attack.
fn insert_threshold_skips(attacks: &Vec<Attack>, margin: &ExactDecimal, results: &mut AttackResults)
    ensures
        forall|a: Attack| #[trigger]
            final(results)@.dom().contains(a) <==> old(results)@.dom().contains(a)
                || attacks@.contains(a),
        forall|a: Attack|
            #[trigger] attacks@.contains(a) ==> policy_skip(
                final(results)@[a],
                a,
                threshold_code(),
                threshold_reason(margin@),
            ),
        forall|a: Attack|
            !attacks@.contains(a) && #[trigger] old(results)@.dom().contains(a) ==> final(results)@[a]
                == old(results)@[a],
{
    let mut i: usize = 0;
    while i < attacks.len()
        invariant
            i <= attacks.len(),
            forall|a: Attack| #[trigger]
                results@.dom().contains(a) <==> old(results)@.dom().contains(a)
                    || attacks@.take(i as int).contains(a),
            forall|a: Attack|
                #[trigger] attacks@.take(i as int).contains(a) ==> policy_skip(
                    results@[a],
                    a,
                    threshold_code(),
                    threshold_reason(margin@),
                ),
            forall|a: Attack|
                !attacks@.take(i as int).contains(a) && #[trigger] old(results)@.dom().contains(a)
                    ==> results@[a] == old(results)@[a],
        decreases attacks.len() - i,
    {
        let attack = attacks[i];
        proof {
            lemma_take_one_more(attacks@, i as int);
        }
        results.insert(
            AttackResult {
                attack,
                cached: false,
                outcome: AttackOutcome::PolicySkipped {
                    code: String::from_str("fast_estimate_above_threshold"),
                    reason: threshold_reason_text(margin),
                    applicability_rule_version: SLOW_ATTACK_APPLICABILITY_RULE_VERSION,
                },
            },
        );
        i = i + 1;
    }
    assert(attacks@.take(attacks.len() as int) =~= attacks@);
}

/// Membership in a filtered sequence.
pub proof fn lemma_filter_member(s: Seq<Attack>, p: spec_fn(Attack) -> bool)
    ensures
        forall|a: Attack| #[trigger] s.filter(p).contains(a) <==> s.contains(a) && p(a),
{
    assert forall|a: Attack| #[trigger] s.filter(p).contains(a) <==> s.contains(a) && p(a) by {
        if s.filter(p).contains(a) {
            s.lemma_filter_contains_rev(p, a);
            let k = choose|k: int| 0 <= k < s.filter(p).len() && #[trigger] s.filter(p)[k] == a;
            s.lemma_filter_pred(p, k);
        }
        if s.contains(a) && p(a) {
            let k = choose|k: int| 0 <= k < s.len() && #[trigger] s[k] == a;
            s.lemma_filter_contains(p, k);
        }
    }
}

/// Adding results that are not fast estimates, for attacks without a
/// result, leaves the stop threshold as it was.
pub proof fn lemma_threshold_kept(before: Map<Attack, AttackResult>, after: Map<Attack, AttackResult>, policy: SlowAttackPolicy)
    requires
        forall|a: Attack| #[trigger] before.dom().contains(a) ==> after.dom().contains(a) && after[a] == before[a],
        forall|a: Attack|
            #[trigger] after.dom().contains(a) && !before.dom().contains(a) ==> computed_bits(
                after[a].outcome,
            ) is None,
    ensures
        stop_threshold_met(after, policy) == stop_threshold_met(before, policy),
{
    if stop_threshold_met(before, policy) {
        let w = choose|a: Attack| #[trigger] before.dom().contains(a) && computed_bits(before[a].outcome) is Some;
        assert(after.dom().contains(w));
    }
    if stop_threshold_met(after, policy) {
        let w = choose|a: Attack| #[trigger] after.dom().contains(a) && computed_bits(after[a].outcome) is Some;
        assert(before.dom().contains(w));
    }
}

/// Every attack of a sequence has an applicability rule on the problem.
pub open spec fn all_ruled(p: EstimatorProblem, attacks: Seq<Attack>) -> bool {
    forall|i: int| 0 <= i < attacks.len() ==> applicability_rule(p, #[trigger] attacks[i]) is Some
}

/// The slow attacks a normal-mode policy leaves to the applicability rules.
pub open spec fn automatic_slow(missing: Seq<Attack>, policy: SlowAttackPolicy) -> Seq<Attack> {
    missing.filter(|a: Attack| !policy.forced_attacks@.contains(a))
}

/// The slow attacks a normal-mode policy forces.
pub open spec fn forced_slow(missing: Seq<Attack>, policy: SlowAttackPolicy) -> Seq<Attack> {
    missing.filter(|a: Attack| policy.forced_attacks@.contains(a))
}

/// The attacks the applicability rules leave in.
pub open spec fn rule_candidates(p: EstimatorProblem, attacks: Seq<Attack>) -> Seq<Attack> {
    attacks.filter(|a: Attack| !excluded_by_rule(p, a))
}

/// What planning the slow attacks of a case gives, given the results so far:
/// in rough mode, rule skips and rough skips and no plan; in normal mode,
/// rule skips for automatic attacks, then, when the fast estimates meet the
/// stop threshold, threshold skips for the remaining automatic attacks and
/// plans for the forced ones only, otherwise plans for forced and remaining
/// automatic attacks.
pub open spec fn slow_plan_outcome(
    request: EstimateRequest,
    problem: Problem,
    p: EstimatorProblem,
    before: Map<Attack, AttackResult>,
    after: Map<Attack, AttackResult>,
    r: Result<(Seq<Seq<Attack>>, bool), ServiceError>,
) -> bool {
    let missing = missing_slow(problem, before.dom());
    if request.mode == EstimateMode::Rough {
        if !all_ruled(p, missing) {
            r matches Err(e) && e matches ServiceError::Internal(m) && m@
                == "missing applicability rule for adaptive slow attack"@ && after == before
        } else {
            &&& r == Ok::<(Seq<Seq<Attack>>, bool), ServiceError>((Seq::empty(), true))
            &&& forall|a: Attack| #[trigger]
                after.dom().contains(a) <==> before.dom().contains(a) || missing.contains(a)
            &&& forall|a: Attack|
                #[trigger] missing.contains(a) ==> if excluded_by_rule(p, a) {
                    rule_skip(after[a], p, a)
                } else {
                    rough_skip(after[a], a)
                }
            &&& forall|a: Attack| #[trigger] before.dom().contains(a) ==> after[a] == before[a]
        }
    } else {
        match request.slow_attack_policy {
            None => r matches Err(e) && e matches ServiceError::Internal(m) && m@
                == "missing validated slow attack policy"@ && after == before,
            Some(policy) => {
                let automatic = automatic_slow(missing, policy);
                let candidates = rule_candidates(p, automatic);
                let met = stop_threshold_met(before, policy);
                if !all_ruled(p, automatic) {
                    r matches Err(e) && e matches ServiceError::Internal(m) && m@
                        == "missing applicability rule for adaptive slow attack"@ && after == before
                } else {
                    &&& r == Ok::<(Seq<Seq<Attack>>, bool), ServiceError>(
                        (
                            singletons(
                                if met {
                                    forced_slow(missing, policy)
                                } else {
                                    forced_slow(missing, policy) + candidates
                                },
                            ),
                            false,
                        ),
                    )
                    &&& forall|a: Attack| #[trigger]
                        after.dom().contains(a) <==> before.dom().contains(a) || (automatic.contains(
                            a,
                        ) && (excluded_by_rule(p, a) || met))
                    &&& forall|a: Attack|
                        #[trigger] automatic.contains(a) ==> (excluded_by_rule(p, a) ==> rule_skip(
                            after[a],
                            p,
                            a,
                        )) && (!excluded_by_rule(p, a) && met ==> policy_skip(
                            after[a],
                            a,
                            threshold_code(),
                            threshold_reason(policy.stop_margin_bits@),
                        ))
                    &&& forall|a: Attack| #[trigger] before.dom().contains(a) ==> after[a] == before[a]
                }
            },
        }
    }
}

/// The plan view of a planning result.
pub open spec fn plan_view(r: Result<SlowPlan, ServiceError>) -> Result<(Seq<Seq<Attack>>, bool), ServiceError> {
    match r {
        Ok(plan) => Ok((plan.plans@.map_values(|g: Vec<Attack>| g@), plan.fast_estimate)),
        Err(e) => Err(e),
    }
}

/// Decides the slow attacks of a case once its fast attacks have run.
pub fn plan_slow_attacks(
    request: &EstimateRequest,
    problem: &Problem,
    context: &CaseContext,
    results: &mut AttackResults,
) -> (r: Result<SlowPlan, ServiceError>)
    ensures
        slow_plan_outcome(
            *request,
            *problem,
            context.estimator_problem,
            old(results)@,
            final(results)@,
            plan_view(r),
        ),
{
    let ghost before = results@;
    let ghost p = context.estimator_problem;
    let slow = slow_attacks_for_problem(problem);
    let missing = keep_missing(&slow, results);
    proof {
        lemma_filter_member(missing_slow(*problem, before.dom()), |a: Attack| true);
        lemma_filter_member(problem_slow_attacks(*problem), |a: Attack| !before.dom().contains(a));
    }
    match request.mode {
        EstimateMode::Rough => {
            let candidates = match apply_applicability_skips(context, &missing, results) {
                Ok(c) => c,
                Err(e) => return Err(e),
            };
            let ghost skipped = results@;
            proof {
                lemma_filter_member(missing@, |a: Attack| !excluded_by_rule(p, a));
            }
            insert_rough_skips(&candidates, results);
            proof {
                assert forall|a: Attack| #[trigger] missing@.contains(a) implies (if excluded_by_rule(
                    p,
                    a,
                ) {
                    rule_skip(results@[a], p, a)
                } else {
                    rough_skip(results@[a], a)
                }) by {
                    if excluded_by_rule(p, a) {
                        assert(skipped.dom().contains(a));
                        assert(rule_skip(skipped[a], p, a));
                    } else {
                        assert(candidates@.contains(a));
                        assert(!before.dom().contains(a));
                        assert(!skipped.dom().contains(a));
                    }
                }
                assert forall|a: Attack| #[trigger] before.dom().contains(a) implies results@[a]
                    == before[a] by {
                    assert(!missing@.contains(a));
                    assert(skipped.dom().contains(a));
                }
            }
            let plans: Vec<Vec<Attack>> = Vec::new();
            assert(plans@.map_values(|g: Vec<Attack>| g@) =~= Seq::<Seq<Attack>>::empty());
            Ok(SlowPlan { plans, fast_estimate: true })
        },
        EstimateMode::Normal => {
            let policy = match &request.slow_attack_policy {
                Some(policy) => policy,
                None => {
                    return Err(
                        ServiceError::Internal(String::from_str("missing validated slow attack policy")),
                    );
                },
            };
            let (forced, automatic) = partition_forced(&missing, policy);
            proof {
                lemma_filter_member(missing@, |a: Attack| !policy.forced_attacks@.contains(a));
                lemma_filter_member(missing@, |a: Attack| policy.forced_attacks@.contains(a));
            }
            let candidates = match apply_applicability_skips(context, &automatic, results) {
                Ok(c) => c,
                Err(e) => return Err(e),
            };
            proof {
                lemma_filter_member(automatic@, |a: Attack| !excluded_by_rule(p, a));
                lemma_threshold_kept(before, results@, *policy);
            }
            let ghost skipped = results@;
            proof {
                assert forall|a: Attack| #[trigger] before.dom().contains(a) implies skipped.dom().contains(
                    a,
                ) && skipped[a] == before[a] by {
                    assert(!missing@.contains(a));
                    assert(!automatic@.contains(a));
                }
                assert forall|a: Attack| #[trigger]
                    automatic@.contains(a) && excluded_by_rule(p, a) implies skipped.dom().contains(a)
                    && rule_skip(skipped[a], p, a) && !candidates@.contains(a) by {}
            }
            if fast_results_meet_stop_threshold(results, policy) {
                insert_threshold_skips(&candidates, &policy.stop_margin_bits, results);
                proof {
                    assert forall|a: Attack| #[trigger] automatic@.contains(a) implies (excluded_by_rule(
                        p,
                        a,
                    ) ==> rule_skip(results@[a], p, a)) && (!excluded_by_rule(p, a)
                        ==> policy_skip(
                        results@[a],
                        a,
                        threshold_code(),
                        threshold_reason(policy.stop_margin_bits@),
                    )) by {
                        if !excluded_by_rule(p, a) {
                            assert(candidates@.contains(a));
                        }
                    }
                    assert forall|a: Attack| #[trigger] before.dom().contains(a) implies results@[a]
                        == before[a] by {
                        assert(!missing@.contains(a));
                        assert(!automatic@.contains(a));
                        assert(!candidates@.contains(a));
                    }
                    assert forall|a: Attack| #[trigger]
                        results@.dom().contains(a) <==> before.dom().contains(a) || automatic@.contains(a) by {
                        if automatic@.contains(a) && !excluded_by_rule(p, a) {
                            assert(candidates@.contains(a));
                        }
                    }
                }
                let plans = singleton_plans(&forced);
                Ok(SlowPlan { plans, fast_estimate: false })
            } else {
                let mut all = forced;
                let mut extra = candidates;
                all.append(&mut extra);
                let plans = singleton_plans(&all);
                Ok(SlowPlan { plans, fast_estimate: false })
            }
        },
    }
}

// ---- the report entry of a case ----

/// The results present for the attacks of `order`, in that order.
pub open spec fn ordered_results(order: Seq<Attack>, m: Map<Attack, AttackResult>) -> Seq<AttackResult>
    decreases order.len(),
{
    if order.len() == 0 {
        Seq::empty()
    } else {
        let rest = ordered_results(order.drop_last(), m);
        if m.dom().contains(order.last()) {
            rest.push(m[order.last()])
        } else {
            rest
        }
    }
}

/// Moves the results of `order`'s attacks out, in that order.
pub fn order_results(order: &Vec<Attack>, results: AttackResults) -> (r: Vec<AttackResult>)
    requires
        order@.no_duplicates(),
    ensures
        r@ == ordered_results(order@, results@),
{
    let ghost m = results@;
    let mut results = results;
    let mut out: Vec<AttackResult> = Vec::new();
    let mut i: usize = 0;
    while i < order.len()
        invariant
            i <= order.len(),
            order@.no_duplicates(),
            out@ == ordered_results(order@.take(i as int), m),
            forall|a: Attack|
                !order@.take(i as int).contains(a) ==> (#[trigger] results@.dom().contains(a)
                    == m.dom().contains(a)) && (m.dom().contains(a) ==> results@[a] == m[a]),
        decreases order.len() - i,
    {
        let attack = order[i];
        proof {
            lemma_take_one_more(order@, i as int);
            assert(order@.take(i + 1).drop_last() =~= order@.take(i as int));
            assert(order@.take(i + 1).last() == attack);
            if order@.take(i as int).contains(attack) {
                let k = choose|k: int| 0 <= k < i && #[trigger] order@.take(i as int)[k] == attack;
                assert(order@[k] == order@[i as int]);
            }
        }
        let ghost held = results@;
        let taken = results.take(attack);
        match taken {
            Some(result) => {
                out.push(result);
            },
            None => {},
        }
        proof {
            assert forall|a: Attack| !order@.take(i + 1).contains(a) implies (
            #[trigger] results@.dom().contains(a) == m.dom().contains(a)) && (m.dom().contains(a)
                ==> results@[a] == m[a]) by {
                assert(a != attack);
                assert(!order@.take(i as int).contains(a));
                assert(results@.dom().contains(a) == held.dom().contains(a));
            }
        }
        i = i + 1;
    }
    assert(order@.take(order.len() as int) =~= order@);
    out
}

/// The first result with the lowest computed estimate.
pub open spec fn best_of(s: Seq<AttackResult>) -> Option<int>
    decreases s.len(),
{
    if s.len() == 0 {
        None
    } else {
        let prev = best_of(s.drop_last());
        match computed_bits(s.last().outcome) {
            Some(bits) => match prev {
                None => Some(s.len() - 1),
                Some(k) => if decimal_order(bits@, computed_bits(s[k].outcome)->0@) < 0 {
                    Some(s.len() - 1)
                } else {
                    prev
                },
            },
            None => prev,
        }
    }
}

/// What `best_of` picks is a computed result of the sequence.
pub proof fn lemma_best_is_computed(s: Seq<AttackResult>)
    ensures
        best_of(s) matches Some(k) ==> 0 <= k < s.len() && computed_bits(s[k].outcome) is Some,
        best_of(s) is None <==> forall|i: int| 0 <= i < s.len() ==> computed_bits(#[trigger] s[i].outcome) is None,
    decreases s.len(),
{
    if s.len() > 0 {
        lemma_best_is_computed(s.drop_last());
        assert forall|i: int| 0 <= i < s.len() - 1 implies #[trigger] s.drop_last()[i] == s[i] by {}
        if best_of(s) is None {
            assert forall|i: int| 0 <= i < s.len() implies computed_bits(#[trigger] s[i].outcome) is None by {
                if i < s.len() - 1 {
                    assert(s.drop_last()[i] == s[i]);
                }
            }
        }
    }
}

/// Index of the first lowest computed estimate of the results.
pub fn best_estimate(ordered: &Vec<AttackResult>) -> (r: Option<usize>)
    ensures
        r matches Some(k) ==> best_of(ordered@) == Some(k as int),
        r is None ==> best_of(ordered@) is None,
{
    let mut best: Option<usize> = None;
    let mut i: usize = 0;
    while i < ordered.len()
        invariant
            i <= ordered.len(),
            best matches Some(k) ==> best_of(ordered@.take(i as int)) == Some(k as int) && k < i
                && computed_bits(ordered@[k as int].outcome) is Some,
            best is None ==> best_of(ordered@.take(i as int)) is None,
        decreases ordered.len() - i,
    {
        proof {
            assert(ordered@.take(i + 1).drop_last() =~= ordered@.take(i as int));
            assert(ordered@.take(i + 1).last() == ordered@[i as int]);
            if let Some(k) = best {
                assert(ordered@.take(i + 1)[k as int] == ordered@[k as int]);
            }
        }
        if let AttackOutcome::Computed { security_bits, .. } = &ordered[i].outcome {
            match best {
                None => {
                    best = Some(i);
                },
                Some(k) => {
                    if let AttackOutcome::Computed { security_bits: current, .. } = &ordered[k].outcome {
                        if decimal_compare(security_bits.as_str(), current.as_str()) < 0 {
                            best = Some(i);
                        }
                    }
                },
            }
        }
        i = i + 1;
    }
    assert(ordered@.take(ordered.len() as int) =~= ordered@);
    best
}

/// An outcome that completes its attack under the normal policy.
pub open spec fn settled(o: AttackOutcome) -> bool {
    o is Computed || o is NoFiniteEstimate || o is PolicySkipped
}

/// A case is complete when it ran in normal mode and every attack of the
/// problem settled.
pub open spec fn is_complete(mode: EstimateMode, expected: nat, s: Seq<AttackResult>) -> bool {
    &&& mode == EstimateMode::Normal
    &&& s.len() == expected
    &&& forall|i: int| 0 <= i < s.len() ==> settled(#[trigger] s[i].outcome)
}

fn all_settled(ordered: &Vec<AttackResult>) -> (r: bool)
    ensures
        r == forall|i: int| 0 <= i < ordered@.len() ==> settled(#[trigger] ordered@[i].outcome),
{
    let mut i: usize = 0;
    while i < ordered.len()
        invariant
            i <= ordered.len(),
            forall|j: int| 0 <= j < i ==> settled(#[trigger] ordered@[j].outcome),
        decreases ordered.len() - i,
    {
        match &ordered[i].outcome {
            AttackOutcome::Computed { .. } | AttackOutcome::NoFiniteEstimate { .. }
            | AttackOutcome::PolicySkipped { .. } => {},
            _ => {
                return false;
            },
        }
        i = i + 1;
    }
    true
}

/// Some result was skipped by the stop threshold (`threshold`) or by
/// another policy rule (`!threshold`).
pub open spec fn has_policy_skip(s: Seq<AttackResult>, threshold: bool) -> bool {
    exists|i: int|
        0 <= i < s.len() && (#[trigger] s[i].outcome matches AttackOutcome::PolicySkipped {
            code,
            ..
        } && (code@ == threshold_code()) == threshold)
}

fn any_policy_skip(ordered: &Vec<AttackResult>, threshold: bool) -> (r: bool)
    ensures
        r == has_policy_skip(ordered@, threshold),
{
    let mut i: usize = 0;
    while i < ordered.len()
        invariant
            i <= ordered.len(),
            forall|j: int|
                0 <= j < i ==> !(#[trigger] ordered@[j].outcome matches AttackOutcome::PolicySkipped {
                    code,
                    ..
                } && (code@ == threshold_code()) == threshold),
        decreases ordered.len() - i,
    {
        if let AttackOutcome::PolicySkipped { code, .. } = &ordered[i].outcome {
            if crate::text::text_equals(code.as_str(), "fast_estimate_above_threshold") == threshold {
                return true;
            }
        }
        i = i + 1;
    }
    false
}

// ---- report warnings ----

/// The texts of a list of strings.
pub open spec fn texts(v: Seq<String>) -> Seq<Seq<char>> {
    v.map_values(|s: String| s@)
}

fn push_text(v: &mut Vec<String>, text: String)
    ensures
        texts(final(v)@) == texts(old(v)@).push(text@),
{
    v.push(text);
    assert(texts(v@) =~= texts(old(v)@).push(text@));
}

pub open spec fn domain_warning() -> Seq<char> {
    "slow attacks outside the reviewed applicability domain were excluded by applicability rules v"@
        + nat_decimal(SLOW_ATTACK_APPLICABILITY_RULE_VERSION as nat)
        + "; completeness is relative to that policy"@
}

pub open spec fn threshold_warning() -> Seq<char> {
    "slow attacks were excluded because the lowest fast-attack estimate met the requested security target plus margin; completeness is relative to that policy"@
}

/// Attack names joined by `, `.
pub open spec fn joined_names(s: Seq<Attack>) -> Seq<char>
    decreases s.len(),
{
    if s.len() == 0 {
        Seq::empty()
    } else if s.len() == 1 {
        attack_name(s[0])
    } else {
        joined_names(s.drop_last()) + ", "@ + attack_name(s.last())
    }
}

pub open spec fn forced_warning(forced: Seq<Attack>) -> Seq<char> {
    "slow attacks were explicitly forced ("@ + joined_names(forced)
        + "); applicability and fast-estimate stop rules were bypassed"@
}

pub open spec fn level_name(level: ApplicabilityLevel) -> Seq<char> {
    match level {
        ApplicabilityLevel::Applicable => "applicable"@,
        ApplicabilityLevel::Borderline => "borderline"@,
        ApplicabilityLevel::Inapplicable => "inapplicable"@,
    }
}

/// The audit line of a forced attack: its rule's level, code and reason.
pub open spec fn audit_warning(a: Attack, v: Verdict) -> Seq<char> {
    "policy audit for "@ + attack_name(a) + ": "@ + level_name(v.0) + "/"@ + v.1 + " — "@ + v.2
}

/// Every forced attack has an applicability rule on the problem.
pub open spec fn forced_ruled(policy: Option<SlowAttackPolicy>, p: EstimatorProblem) -> bool {
    policy matches Some(pol) ==> all_ruled(p, pol.forced_attacks@)
}

pub open spec fn forced_warnings(policy: Option<SlowAttackPolicy>, p: EstimatorProblem) -> Seq<
    Seq<char>,
> {
    match policy {
        Some(pol) => if pol.forced_attacks@.len() > 0 {
            seq![forced_warning(pol.forced_attacks@)] + pol.forced_attacks@.map_values(
                |a: Attack| audit_warning(a, applicability_rule(p, a)->0),
            )
        } else {
            Seq::empty()
        },
        None => Seq::empty(),
    }
}

/// The warnings of a report entry: the analysis model's, then one for rule
/// skips, one for threshold skips, and the forced attacks with their audit.
pub open spec fn report_warnings(
    model: AnalysisModel,
    s: Seq<AttackResult>,
    policy: Option<SlowAttackPolicy>,
    p: EstimatorProblem,
) -> Seq<Seq<char>> {
    texts(model_warnings(model)) + (if has_policy_skip(s, false) {
        seq![domain_warning()]
    } else {
        Seq::empty()
    }) + (if has_policy_skip(s, true) {
        seq![threshold_warning()]
    } else {
        Seq::empty()
    }) + forced_warnings(policy, p)
}

fn joined_labels(forced: &Vec<Attack>) -> (r: String)
    requires
        forall|i: int|
            0 <= i < forced@.len() ==> #[trigger] forced@[i] == Attack::AroraGb || forced@[i]
                == Attack::Bkw,
    ensures
        r@ == joined_names(forced@),
{
    let mut r = String::new();
    let mut i: usize = 0;
    while i < forced.len()
        invariant
            i <= forced.len(),
            forall|i: int|
                0 <= i < forced@.len() ==> #[trigger] forced@[i] == Attack::AroraGb || forced@[i]
                    == Attack::Bkw,
            r@ == joined_names(forced@.take(i as int)),
        decreases forced.len() - i,
    {
        assert(forced@.take(i + 1).drop_last() =~= forced@.take(i as int));
        if i > 0 {
            r.append(", ");
        }
        r.append(slow_attack_label(forced[i]));
        assert(forced@.take(i + 1)[0] == forced@[0]);
        i = i + 1;
    }
    assert(forced@.take(forced.len() as int) =~= forced@);
    r
}

fn level_text(level: ApplicabilityLevel) -> (r: &'static str)
    ensures
        r@ == level_name(level),
{
    match level {
        ApplicabilityLevel::Applicable => "applicable",
        ApplicabilityLevel::Borderline => "borderline",
        ApplicabilityLevel::Inapplicable => "inapplicable",
    }
}

fn domain_warning_text() -> (r: String)
    ensures
        r@ == domain_warning(),
{
    let mut r = String::from_str(
        "slow attacks outside the reviewed applicability domain were excluded by applicability rules v",
    );
    let version = crate::text::u64_decimal(SLOW_ATTACK_APPLICABILITY_RULE_VERSION as u64);
    r.append(version.as_str());
    r.append("; completeness is relative to that policy");
    r
}

fn audit_text(attack: Attack, a: &SlowAttackApplicability) -> (r: String)
    requires
        attack == Attack::AroraGb || attack == Attack::Bkw,
    ensures
        r@ == audit_warning(attack, crate::applicability::verdict_of(*a)),
{
    let mut r = String::from_str("policy audit for ");
    r.append(slow_attack_label(attack));
    r.append(": ");
    r.append(level_text(a.level));
    r.append("/");
    r.append(a.code.as_str());
    r.append(" — ");
    r.append(a.reason.as_str());
    r
}

/// The warnings of a report entry.
pub fn entry_warnings(
    model: &AnalysisModel,
    ordered: &Vec<AttackResult>,
    policy: &Option<SlowAttackPolicy>,
    context: &CaseContext,
) -> (r: Vec<String>)
    requires
        forced_ruled(*policy, context.estimator_problem),
    ensures
        texts(r@) == report_warnings(*model, ordered@, *policy, context.estimator_problem),
{
    let ghost p = context.estimator_problem;
    let mut warnings = analysis_warnings(model);
    let ghost base = texts(warnings@);
    if any_policy_skip(ordered, false) {
        push_text(&mut warnings, domain_warning_text());
    }
    if any_policy_skip(ordered, true) {
        push_text(
            &mut warnings,
            String::from_str(
                "slow attacks were excluded because the lowest fast-attack estimate met the requested security target plus margin; completeness is relative to that policy",
            ),
        );
    }
    let ghost middle = texts(warnings@);
    assert(middle =~= texts(model_warnings(*model)) + (if has_policy_skip(ordered@, false) {
        seq![domain_warning()]
    } else {
        Seq::empty()
    }) + (if has_policy_skip(ordered@, true) {
        seq![threshold_warning()]
    } else {
        Seq::empty()
    }));
    if let Some(policy) = policy {
        if policy.forced_attacks.len() > 0 {
            let forced = &policy.forced_attacks;
            proof {
                assert forall|i: int| 0 <= i < forced@.len() implies #[trigger] forced@[i]
                    == Attack::AroraGb || forced@[i] == Attack::Bkw by {
                    assert(applicability_rule(p, forced@[i]) is Some);
                }
            }
            let mut line = String::from_str("slow attacks were explicitly forced (");
            let labels = joined_labels(forced);
            line.append(labels.as_str());
            line.append("); applicability and fast-estimate stop rules were bypassed");
            push_text(&mut warnings, line);
            let mut i: usize = 0;
            while i < forced.len()
                invariant
                    i <= forced.len(),
                    p == context.estimator_problem,
                    all_ruled(p, forced@),
                    forall|i: int|
                        0 <= i < forced@.len() ==> #[trigger] forced@[i] == Attack::AroraGb
                            || forced@[i] == Attack::Bkw,
                    texts(warnings@) == middle + seq![forced_warning(forced@)] + forced@.take(
                        i as int,
                    ).map_values(|a: Attack| audit_warning(a, applicability_rule(p, a)->0)),
                decreases forced.len() - i,
            {
                let attack = forced[i];
                assert(applicability_rule(p, forced@[i as int]) is Some);
                let ghost before = texts(warnings@);
                match context.applicability(attack) {
                    Ok(applicability) => {
                        push_text(&mut warnings, audit_text(attack, &applicability));
                    },
                    Err(_) => {
                        proof {
                            assert(false);
                        }
                    },
                }
                assert(forced@.take(i + 1).map_values(
                    |a: Attack| audit_warning(a, applicability_rule(p, a)->0),
                ) =~= forced@.take(i as int).map_values(
                    |a: Attack| audit_warning(a, applicability_rule(p, a)->0),
                ).push(audit_warning(attack, applicability_rule(p, attack)->0)));
                i = i + 1;
            }
            assert(forced@.take(forced.len() as int) =~= forced@);
            assert(texts(warnings@) =~= middle + forced_warnings(Some(*policy), p));
        }
    }
    warnings
}

// ---- the request key ----

pub open spec fn mode_name(mode: EstimateMode) -> Seq<char> {
    match mode {
        EstimateMode::Rough => "rough"@,
        EstimateMode::Normal => "normal"@,
    }
}

/// JSON strings of attack names, comma separated.
pub open spec fn name_items(s: Seq<Attack>) -> Seq<char>
    decreases s.len(),
{
    if s.len() == 0 {
        Seq::empty()
    } else if s.len() == 1 {
        json_string(attack_name(s[0]))
    } else {
        name_items(s.drop_last()) + seq![','] + json_string(attack_name(s.last()))
    }
}

/// Canonical JSON of an optional slow-attack policy.
pub open spec fn policy_json(policy: Option<SlowAttackPolicy>) -> Seq<char> {
    match policy {
        None => "null"@,
        Some(p) => seq!['{'] + member(true, "forced_attacks"@) + seq!['['] + name_items(
            p.forced_attacks@,
        ) + seq![']'] + member(false, "required_security_bits"@) + json_string(
            p.required_security_bits@,
        ) + member(false, "stop_margin_bits"@) + json_string(p.stop_margin_bits@) + seq!['}'],
    }
}

/// Canonical JSON of the cache identities of `order`'s attacks, comma
/// separated.
pub open spec fn identities_json(c: CaseContext, order: Seq<Attack>) -> Seq<char>
    decreases order.len(),
{
    if order.len() == 0 {
        Seq::empty()
    } else if order.len() == 1 {
        identity_json(identity_of(c, order[0]))
    } else {
        identities_json(c, order.drop_last()) + seq![','] + identity_json(
            identity_of(c, order.last()),
        )
    }
}

/// Canonical JSON of what identifies a case's request: the rule version,
/// the mode, the policy and the cache identities of the problem's attacks.
pub open spec fn request_key_json(
    mode: EstimateMode,
    policy: Option<SlowAttackPolicy>,
    c: CaseContext,
    order: Seq<Attack>,
) -> Seq<char> {
    seq!['['] + nat_decimal(SLOW_ATTACK_APPLICABILITY_RULE_VERSION as nat) + seq![','] + json_string(
        mode_name(mode),
    ) + seq![','] + policy_json(policy) + seq![','] + seq!['['] + identities_json(c, order) + seq![
        ']',
    ] + seq![']']
}

fn write_names(out: &mut String, attacks: &Vec<Attack>)
    ensures
        final(out)@ == old(out)@ + name_items(attacks@),
{
    let mut i: usize = 0;
    while i < attacks.len()
        invariant
            i <= attacks.len(),
            out@ == old(out)@ + name_items(attacks@.take(i as int)),
        decreases attacks.len() - i,
    {
        assert(attacks@.take(i + 1).drop_last() =~= attacks@.take(i as int));
        assert(attacks@.take(i + 1)[0] == attacks@[0]);
        let ghost before = out@;
        if i > 0 {
            push_char(out, ',');
        }
        write_json_string(out, attacks[i].name());
        assert(out@ =~= old(out)@ + name_items(attacks@.take(i + 1)));
        i = i + 1;
    }
    assert(attacks@.take(attacks.len() as int) =~= attacks@);
}

#[verifier::rlimit(50)]
fn write_policy(out: &mut String, policy: &Option<SlowAttackPolicy>)
    ensures
        final(out)@ == old(out)@ + policy_json(*policy),
{
    match policy {
        None => {
            out.append("null");
        },
        Some(p) => {
            push_char(out, '{');
            write_member(out, true, "forced_attacks");
            push_char(out, '[');
            write_names(out, &p.forced_attacks);
            push_char(out, ']');
            write_member(out, false, "required_security_bits");
            write_json_string(out, p.required_security_bits.as_str());
            write_member(out, false, "stop_margin_bits");
            write_json_string(out, p.stop_margin_bits.as_str());
            push_char(out, '}');
            assert(out@ =~= old(out)@ + policy_json(*policy));
        },
    }
}

fn write_identities(out: &mut String, context: &CaseContext, order: &Vec<Attack>)
    ensures
        final(out)@ == old(out)@ + identities_json(*context, order@),
{
    let mut i: usize = 0;
    while i < order.len()
        invariant
            i <= order.len(),
            out@ == old(out)@ + identities_json(*context, order@.take(i as int)),
        decreases order.len() - i,
    {
        assert(order@.take(i + 1).drop_last() =~= order@.take(i as int));
        assert(order@.take(i + 1)[0] == order@[0]);
        if i > 0 {
            push_char(out, ',');
        }
        let identity = context.cache_identity(order[i]);
        write_identity(out, &identity);
        assert(out@ =~= old(out)@ + identities_json(*context, order@.take(i + 1)));
        i = i + 1;
    }
    assert(order@.take(order.len() as int) =~= order@);
}

/// The stable hash that identifies a case's request.
pub fn request_hash(request: &EstimateRequest, context: &CaseContext, order: &Vec<Attack>) -> (r:
    String)
    ensures
        r@ == stable_hash_of(
            request_key_json(request.mode, request.slow_attack_policy, *context, order@),
        ),
{
    let mut out = String::new();
    push_char(&mut out, '[');
    write_u64(&mut out, SLOW_ATTACK_APPLICABILITY_RULE_VERSION as u64);
    push_char(&mut out, ',');
    let mode = match request.mode {
        EstimateMode::Rough => "rough",
        EstimateMode::Normal => "normal",
    };
    write_json_string(&mut out, mode);
    push_char(&mut out, ',');
    write_policy(&mut out, &request.slow_attack_policy);
    push_char(&mut out, ',');
    push_char(&mut out, '[');
    write_identities(&mut out, context, order);
    push_char(&mut out, ']');
    push_char(&mut out, ']');
    assert(out@ =~= request_key_json(request.mode, request.slow_attack_policy, *context, order@));
    stable_hash(out.as_str())
}

// ---- the report entry and the end of a case ----

/// A problem's attacks are listed once each.
pub proof fn lemma_attack_order_distinct(problem: Problem)
    ensures
        problem_attacks(problem).no_duplicates(),
        problem_fast_attacks(problem).no_duplicates(),
{
}

/// The provenance fields a report takes from the estimator's metadata.
pub open spec fn provenance_of(p: Provenance) -> (Seq<char>, Seq<char>, Seq<char>, Seq<char>) {
    (p.estimator_commit@, p.sage_version@, p.adapter_version@, p.worker_image@)
}

/// The report entry of a case from its results, as `report_entry` builds it.
pub open spec fn is_report_entry(
    r: SecurityReportEntry,
    work: JobWork,
    context: CaseContext,
    results: Map<Attack, AttackResult>,
    fast_estimate: bool,
    metadata: Metadata,
    created_at: Seq<char>,
) -> bool {
    let order = problem_attacks(work.case.problem);
    let s = ordered_results(order, results);
    &&& same_case(r.case, work.case)
    &&& r.request_hash@ == stable_hash_of(
        request_key_json(work.request.mode, work.request.slow_attack_policy, context, order),
    )
    &&& provenance_of(r.provenance) == context_of(metadata)
    &&& same_model(r.provenance.analysis_model, context.analysis_model)
    &&& r.provenance.resolved_analysis == context.resolved_analysis
    &&& r.provenance.created_at@ == created_at
    &&& r.attacks@ == s
    &&& match best_of(s) {
        Some(k) => r.summary.security_bits == computed_bits(s[k].outcome) && r.summary.best_attack
            == Some(s[k].attack),
        None => r.summary.security_bits is None && r.summary.best_attack is None,
    }
    &&& r.summary.complete == is_complete(work.request.mode, order.len(), s)
    &&& r.summary.fast_estimate == fast_estimate
    &&& texts(r.summary.warnings@) == report_warnings(
        context.analysis_model,
        s,
        work.request.slow_attack_policy,
        context.estimator_problem,
    )
}

/// The report entry of a case: the results of the problem's attacks in
/// order, the lowest computed estimate (the first one on a tie), whether
/// the case is complete, the warnings, the request hash and the provenance.
pub fn report_entry(
    work: &JobWork,
    context: &CaseContext,
    results: AttackResults,
    fast_estimate: bool,
    metadata: &Metadata,
    created_at: String,
) -> (r: SecurityReportEntry)
    requires
        forced_ruled(work.request.slow_attack_policy, context.estimator_problem),
    ensures
        is_report_entry(r, *work, *context, results@, fast_estimate, *metadata, created_at@),
{
    let order = attacks_for_problem(&work.case.problem);
    proof {
        lemma_attack_order_distinct(work.case.problem);
    }
    let ordered = order_results(&order, results);
    let best = best_estimate(&ordered);
    proof {
        lemma_best_is_computed(ordered@);
    }
    let (security_bits, best_attack) = match best {
        Some(k) => {
            let bits = match &ordered[k].outcome {
                AttackOutcome::Computed { security_bits, .. } => Some(security_bits.clone()),
                _ => None,
            };
            (bits, Some(ordered[k].attack))
        },
        None => (None, None),
    };
    let complete = work.request.mode == EstimateMode::Normal && ordered.len() == order.len()
        && all_settled(&ordered);
    let warnings = entry_warnings(
        &context.analysis_model,
        &ordered,
        &work.request.slow_attack_policy,
        context,
    );
    let request_hash = request_hash(&work.request, context, &order);
    SecurityReportEntry {
        case: work.case.clone(),
        request_hash,
        provenance: Provenance {
            estimator_commit: metadata.estimator_commit.clone(),
            sage_version: metadata.sage_version.clone(),
            adapter_version: metadata.adapter_version.clone(),
            worker_image: metadata.worker_image.clone(),
            analysis_model: context.analysis_model.clone(),
            resolved_analysis: context.resolved_analysis,
            created_at,
        },
        summary: SecuritySummary {
            security_bits,
            best_attack,
            complete,
            fast_estimate,
            warnings,
        },
        attacks: ordered,
    }
}

/// How the estimator plans of a phase ended.
#[derive(Clone, Copy, Debug, PartialEq, Eq, Structural)]
pub enum WorkerControl {
    Completed,
    Cancelled,
    TimedOut,
}

/// Cancellation outweighs a timeout, which outweighs completion.
pub open spec fn combined(a: WorkerControl, b: WorkerControl) -> WorkerControl {
    if a == WorkerControl::Cancelled || b == WorkerControl::Cancelled {
        WorkerControl::Cancelled
    } else if a == WorkerControl::TimedOut || b == WorkerControl::TimedOut {
        WorkerControl::TimedOut
    } else {
        WorkerControl::Completed
    }
}

/// How a phase ended, from how two of its plans ended.
pub fn combine_controls(a: WorkerControl, b: WorkerControl) -> (r: WorkerControl)
    ensures
        r == combined(a, b),
{
    match (a, b) {
        (WorkerControl::Cancelled, _) | (_, WorkerControl::Cancelled) => WorkerControl::Cancelled,
        (WorkerControl::TimedOut, _) | (_, WorkerControl::TimedOut) => WorkerControl::TimedOut,
        _ => WorkerControl::Completed,
    }
}

/// The state a case ends in and whether it has a report entry: a cancelled
/// case without results has none and is cancelled, one with results is
/// partial; a timed-out case keeps what it has; a completed case is
/// complete or partial as its entry says.
pub open spec fn case_end(
    control: WorkerControl,
    any_results: bool,
    complete: bool,
    finished_at: Seq<char>,
    state: RunState,
    has_entry: bool,
) -> bool {
    match control {
        WorkerControl::Cancelled => if !any_results {
            state matches RunState::Cancelled { finished_at: t } && t@ == finished_at && !has_entry
        } else {
            state matches RunState::Partial { finished_at: t } && t@ == finished_at && has_entry
        },
        WorkerControl::TimedOut => state matches RunState::TimedOut { finished_at: t } && t@
            == finished_at && has_entry,
        WorkerControl::Completed => has_entry && if complete {
            state matches RunState::Completed { finished_at: t } && t@ == finished_at
        } else {
            state matches RunState::Partial { finished_at: t } && t@ == finished_at
        },
    }
}

/// Ends a case: its state and, where it has one, its report entry. Only a
/// fully completed phase keeps the fast-estimate flag.
pub fn finish_case(
    work: &JobWork,
    context: &CaseContext,
    results: AttackResults,
    control: WorkerControl,
    fast_estimate: bool,
    metadata: &Metadata,
    finished_at: String,
) -> (r: (RunState, Option<SecurityReportEntry>))
    requires
        forced_ruled(work.request.slow_attack_policy, context.estimator_problem),
    ensures
        case_end(
            control,
            results@.dom() != Set::<Attack>::empty(),
            r.1 matches Some(e) && e.summary.complete,
            finished_at@,
            r.0,
            r.1 is Some,
        ),
        r.1 matches Some(e) ==> is_report_entry(
            e,
            *work,
            *context,
            results@,
            fast_estimate && control == WorkerControl::Completed,
            *metadata,
            finished_at@,
        ),
{
    match control {
        WorkerControl::Cancelled => {
            if results.is_empty() {
                (RunState::Cancelled { finished_at }, None)
            } else {
                let entry = report_entry(work, context, results, false, metadata, finished_at.clone());
                (RunState::Partial { finished_at }, Some(entry))
            }
        },
        WorkerControl::TimedOut => {
            let entry = report_entry(work, context, results, false, metadata, finished_at.clone());
            (RunState::TimedOut { finished_at }, Some(entry))
        },
        WorkerControl::Completed => {
            let entry = report_entry(work, context, results, fast_estimate, metadata, finished_at.clone());
            if entry.summary.complete {
                (RunState::Completed { finished_at }, Some(entry))
            } else {
                (RunState::Partial { finished_at }, Some(entry))
            }
        },
    }
}

/// A report entry is complete exactly when the case ran in normal mode, it
/// holds a result for each of the problem's attacks, and every result was
/// computed, had no finite estimate or was skipped by policy: a failed,
/// timed-out, unsupported, approximate or skipped result leaves it
/// incomplete.
pub proof fn lemma_complete_entry_settled(
    e: SecurityReportEntry,
    work: JobWork,
    context: CaseContext,
    results: Map<Attack, AttackResult>,
    fast_estimate: bool,
    metadata: Metadata,
    created_at: Seq<char>,
)
    requires
        is_report_entry(e, work, context, results, fast_estimate, metadata, created_at),
    ensures
        e.summary.complete <==> {
            &&& work.request.mode == EstimateMode::Normal
            &&& e.attacks@.len() == problem_attacks(work.case.problem).len()
            &&& forall|i: int|
                0 <= i < e.attacks@.len() ==> {
                    let o = (#[trigger] e.attacks@[i]).outcome;
                    o is PolicySkipped || o is Computed || o is NoFiniteEstimate
                }
        },
{
}

/// A case ends completed only when its phase completed and every attack
/// result of its entry was computed, had no finite estimate or was skipped
/// by policy; a completed phase with any other result ends partial.
pub proof fn lemma_completed_case_settled(
    work: JobWork,
    context: CaseContext,
    results: Map<Attack, AttackResult>,
    control: WorkerControl,
    fast_estimate: bool,
    metadata: Metadata,
    finished_at: Seq<char>,
    r: (RunState, Option<SecurityReportEntry>),
)
    requires
        case_end(
            control,
            results.dom() != Set::<Attack>::empty(),
            r.1 matches Some(e) && e.summary.complete,
            finished_at,
            r.0,
            r.1 is Some,
        ),
        r.1 matches Some(e) ==> is_report_entry(
            e,
            work,
            context,
            results,
            fast_estimate && control == WorkerControl::Completed,
            metadata,
            finished_at,
        ),
    ensures
        r.0 is Completed ==> control == WorkerControl::Completed && (r.1 matches Some(e)
            && forall|i: int|
            0 <= i < e.attacks@.len() ==> {
                let o = (#[trigger] e.attacks@[i]).outcome;
                o is PolicySkipped || o is Computed || o is NoFiniteEstimate
            }),
        control == WorkerControl::Completed && (r.1 matches Some(e) && exists|i: int|
            0 <= i < e.attacks@.len() && !({
                let o = (#[trigger] e.attacks@[i]).outcome;
                o is PolicySkipped || o is Computed || o is NoFiniteEstimate
            })) ==> r.0 is Partial,
{
    if let Some(e) = r.1 {
        lemma_complete_entry_settled(
            e,
            work,
            context,
            results,
            fast_estimate && control == WorkerControl::Completed,
            metadata,
            finished_at,
        );
    }
}

// ---- worker answers ----

/// The attack outcome a worker outcome becomes, with the plan's duration.
pub open spec fn converted(o: WorkerOutcome, duration_ms: u64) -> AttackOutcome {
    match o {
        WorkerOutcome::Computed { security_bits, metrics } => AttackOutcome::Computed {
            security_bits,
            duration_ms,
            metrics,
        },
        WorkerOutcome::NoFiniteEstimate { code, reason, raw_result } => AttackOutcome::NoFiniteEstimate {
            code,
            reason,
            raw_result,
        },
        WorkerOutcome::Unsupported { code, reason } => AttackOutcome::Unsupported { code, reason },
        WorkerOutcome::Failed { code, message, retryable } => AttackOutcome::Failed {
            code,
            message,
            retryable,
        },
    }
}

fn convert_outcome(o: WorkerOutcome, duration_ms: u64) -> (r: AttackOutcome)
    ensures
        r == converted(o, duration_ms),
{
    match o {
        WorkerOutcome::Computed { security_bits, metrics } => AttackOutcome::Computed {
            security_bits,
            duration_ms,
            metrics,
        },
        WorkerOutcome::NoFiniteEstimate { code, reason, raw_result } => AttackOutcome::NoFiniteEstimate {
            code,
            reason,
            raw_result,
        },
        WorkerOutcome::Unsupported { code, reason } => AttackOutcome::Unsupported { code, reason },
        WorkerOutcome::Failed { code, message, retryable } => AttackOutcome::Failed {
            code,
            message,
            retryable,
        },
    }
}

/// Equal outcomes; metric lists are compared by their elements.
pub open spec fn same_outcome(a: AttackOutcome, b: AttackOutcome) -> bool {
    match (a, b) {
        (
            AttackOutcome::Computed { security_bits: s1, duration_ms: d1, metrics: m1 },
            AttackOutcome::Computed { security_bits: s2, duration_ms: d2, metrics: m2 },
        ) => s1 == s2 && d1 == d2 && m1@ == m2@,
        _ => a == b,
    }
}

/// Outcomes the estimator cache keeps.
pub open spec fn cacheable(o: AttackOutcome) -> bool {
    o is Computed || o is NoFiniteEstimate
}

fn copy_metrics(metrics: &Vec<(String, NormalizedMetric)>) -> (r: Vec<(String, NormalizedMetric)>)
    ensures
        r@ == metrics@,
{
    let mut r: Vec<(String, NormalizedMetric)> = Vec::new();
    let mut i: usize = 0;
    while i < metrics.len()
        invariant
            i <= metrics.len(),
            r@ == metrics@.take(i as int),
        decreases metrics.len() - i,
    {
        let name = metrics[i].0.clone();
        let value = metrics[i].1.clone();
        r.push((name, value));
        assert(r@ =~= metrics@.take(i + 1));
        i = i + 1;
    }
    assert(metrics@.take(metrics.len() as int) =~= metrics@);
    r
}

/// A copy of an outcome the cache keeps.
fn copy_cacheable(o: &AttackOutcome) -> (r: AttackOutcome)
    requires
        cacheable(*o),
    ensures
        same_outcome(r, *o),
{
    match o {
        AttackOutcome::Computed { security_bits, duration_ms, metrics } => AttackOutcome::Computed {
            security_bits: security_bits.clone(),
            duration_ms: *duration_ms,
            metrics: copy_metrics(metrics),
        },
        AttackOutcome::NoFiniteEstimate { code, reason, raw_result } => AttackOutcome::NoFiniteEstimate {
            code: code.clone(),
            reason: reason.clone(),
            raw_result: match raw_result {
                Some(raw) => Some(raw.clone()),
                None => None,
            },
        },
        _ => {
            proof {
                assert(false);
            }
            AttackOutcome::Timeout { timeout_seconds: 0 }
        },
    }
}

/// The fresh result of a worker execution.
pub open spec fn fresh_result(e: WorkerAttackExecution, duration_ms: u64) -> AttackResult {
    AttackResult { attack: e.attack, cached: false, outcome: converted(e.outcome, duration_ms) }
}

/// The results after recording, in order, the executions for target attacks.
pub open spec fn recorded(
    m: Map<Attack, AttackResult>,
    executions: Seq<WorkerAttackExecution>,
    targets: Seq<Attack>,
    duration_ms: u64,
) -> Map<Attack, AttackResult>
    decreases executions.len(),
{
    if executions.len() == 0 {
        m
    } else {
        let prev = recorded(m, executions.drop_last(), targets, duration_ms);
        let e = executions.last();
        if targets.contains(e.attack) {
            prev.insert(e.attack, fresh_result(e, duration_ms))
        } else {
            prev
        }
    }
}

/// The executions for target attacks whose outcome the cache keeps, by
/// position in the response.
pub open spec fn cache_positions(executions: Seq<WorkerAttackExecution>, targets: Seq<Attack>) -> Seq<
    int,
>
    decreases executions.len(),
{
    if executions.len() == 0 {
        Seq::empty()
    } else {
        let prev = cache_positions(executions.drop_last(), targets);
        let e = executions.last();
        if targets.contains(e.attack) && cacheable(converted(e.outcome, 0)) {
            prev.push(executions.len() - 1)
        } else {
            prev
        }
    }
}

/// Each position to cache holds a cacheable result of a target attack.
proof fn lemma_cache_positions_sound(executions: Seq<WorkerAttackExecution>, targets: Seq<Attack>)
    ensures
        forall|k: int|
            0 <= k < cache_positions(executions, targets).len() ==> {
                let p = #[trigger] cache_positions(executions, targets)[k];
                &&& 0 <= p < executions.len()
                &&& targets.contains(executions[p].attack)
                &&& cacheable(converted(executions[p].outcome, 0))
            },
    decreases executions.len(),
{
    if executions.len() > 0 {
        let prev = executions.drop_last();
        lemma_cache_positions_sound(prev, targets);
        assert forall|k: int| 0 <= k < cache_positions(prev, targets).len() implies executions[
            #[trigger] cache_positions(prev, targets)[k]] == prev[cache_positions(prev, targets)[k]] by {}
    }
}

/// An execution for a target attack that failed and may be retried.
pub open spec fn retryable_target(e: WorkerAttackExecution, targets: Seq<Attack>) -> bool {
    &&& targets.contains(e.attack)
    &&& e.outcome matches WorkerOutcome::Failed { retryable, .. } && retryable
}

/// Some execution for a target attack failed and may be retried.
pub open spec fn retryable_failure(executions: Seq<WorkerAttackExecution>, targets: Seq<Attack>) -> bool {
    exists|i: int| 0 <= i < executions.len() && retryable_target(#[trigger] executions[i], targets)
}

/// A result that records a target the worker left out.
pub open spec fn missing_result(r: AttackResult, a: Attack) -> bool {
    &&& r.attack == a
    &&& !r.cached
    &&& r.outcome matches AttackOutcome::Failed { code, message, retryable }
    &&& code@ == "missing_worker_result"@
    &&& message@ == "worker omitted a target result"@
    &&& !retryable
}

/// A result for each target: the one recorded, or a missing-result failure.
pub open spec fn with_missing(
    before: Map<Attack, AttackResult>,
    after: Map<Attack, AttackResult>,
    targets: Seq<Attack>,
) -> bool {
    &&& forall|a: Attack| #[trigger]
        after.dom().contains(a) <==> before.dom().contains(a) || targets.contains(a)
    &&& forall|a: Attack| #[trigger] before.dom().contains(a) ==> after[a] == before[a]
    &&& forall|a: Attack|
        #[trigger] targets.contains(a) && !before.dom().contains(a) ==> missing_result(after[a], a)
}

fn fill_missing_results(targets: &Vec<Attack>, results: &mut AttackResults)
    ensures
        with_missing(old(results)@, final(results)@, targets@),
{
    let mut i: usize = 0;
    while i < targets.len()
        invariant
            i <= targets.len(),
            with_missing(old(results)@, results@, targets@.take(i as int)),
        decreases targets.len() - i,
    {
        let attack = targets[i];
        proof {
            lemma_take_one_more(targets@, i as int);
        }
        if !results.contains(attack) {
            results.insert(
                AttackResult {
                    attack,
                    cached: false,
                    outcome: AttackOutcome::Failed {
                        code: String::from_str("missing_worker_result"),
                        message: String::from_str("worker omitted a target result"),
                        retryable: false,
                    },
                },
            );
        }
        i = i + 1;
    }
    assert(targets@.take(targets.len() as int) =~= targets@);
}

/// What a plan's worker answer comes to: results for the plan's targets
/// (the worker's, in order, then failures for targets it left out), the
/// fresh results to cache, in response order, and the error that retries the
/// job where a target failed retryably and the job has a retry left; an
/// error alone where the answer came from another estimator.
pub open spec fn response_outcome(
    targets: Seq<Attack>,
    response: WorkerResponse,
    metadata: Metadata,
    attempts: u32,
    before: Map<Attack, AttackResult>,
    after: Map<Attack, AttackResult>,
    r: Result<(Seq<AttackResult>, Option<ServiceError>), ServiceError>,
) -> bool {
    let executions = response.results@;
    if context_of(metadata) != provenance_fields(response.provenance) {
        r matches Err(e) && e matches ServiceError::Upstream(m) && m@
            == "worker provenance changed after metadata discovery"@ && after == before
    } else {
        &&& with_missing(recorded(before, executions, targets, response.duration_ms), after, targets)
        &&& r matches Ok((cache, retry)) && {
            let positions = cache_positions(executions, targets);
            &&& cache.len() == positions.len()
            &&& forall|i: int|
                0 <= i < cache.len() ==> {
                    let e = executions[positions[i]];
                    &&& (#[trigger] cache[i]).attack == e.attack
                    &&& !cache[i].cached
                    &&& same_outcome(cache[i].outcome, converted(e.outcome, response.duration_ms))
                }
            &&& if retryable_failure(executions, targets) && attempts < 2 {
                retry matches Some(e) && e matches ServiceError::Upstream(m) && m@
                    == "worker reported a retryable attack failure"@
            } else {
                retry is None
            }
        }
    }
}

/// After recording, a target attack holds the fresh result of its last
/// execution in the response.
proof fn lemma_recorded_last(
    m: Map<Attack, AttackResult>,
    executions: Seq<WorkerAttackExecution>,
    targets: Seq<Attack>,
    duration_ms: u64,
    a: Attack,
    j: int,
)
    requires
        targets.contains(a),
        0 <= j < executions.len(),
        executions[j].attack == a,
        forall|k: int| j < k < executions.len() ==> (#[trigger] executions[k]).attack != a,
    ensures
        recorded(m, executions, targets, duration_ms).dom().contains(a),
        recorded(m, executions, targets, duration_ms)[a] == fresh_result(executions[j], duration_ms),
    decreases executions.len(),
{
    if j < executions.len() - 1 {
        let prev = executions.drop_last();
        assert(executions[executions.len() - 1].attack != a);
        assert forall|k: int| j < k < prev.len() implies (#[trigger] prev[k]).attack != a by {
            assert(prev[k] == executions[k]);
        }
        lemma_recorded_last(m, prev, targets, duration_ms, a, j);
    }
}

/// A worker's outcome for a target is recorded with the same kind and the
/// same fields: computed stays computed (with the plan's duration), no
/// finite estimate, unsupported and failed stay what they are. Where the
/// response holds several executions for the target, the last one counts.
pub proof fn lemma_worker_outcome_kept(
    targets: Seq<Attack>,
    response: WorkerResponse,
    metadata: Metadata,
    attempts: u32,
    before: Map<Attack, AttackResult>,
    after: Map<Attack, AttackResult>,
    r: Result<(Seq<AttackResult>, Option<ServiceError>), ServiceError>,
    a: Attack,
    j: int,
)
    requires
        response_outcome(targets, response, metadata, attempts, before, after, r),
        r is Ok,
        targets.contains(a),
        0 <= j < response.results@.len(),
        response.results@[j].attack == a,
        forall|k: int| j < k < response.results@.len() ==> (#[trigger] response.results@[k]).attack != a,
    ensures
        after.dom().contains(a),
        after[a].attack == a,
        !after[a].cached,
        match response.results@[j].outcome {
            WorkerOutcome::Computed { security_bits, metrics } => after[a].outcome
                == (AttackOutcome::Computed { security_bits, duration_ms: response.duration_ms, metrics }),
            WorkerOutcome::NoFiniteEstimate { code, reason, raw_result } => after[a].outcome
                == (AttackOutcome::NoFiniteEstimate { code, reason, raw_result }),
            WorkerOutcome::Unsupported { code, reason } => after[a].outcome
                == (AttackOutcome::Unsupported { code, reason }),
            WorkerOutcome::Failed { code, message, retryable } => after[a].outcome
                == (AttackOutcome::Failed { code, message, retryable }),
        },
{
    lemma_recorded_last(before, response.results@, targets, response.duration_ms, a, j);
}

/// Only computed and no-finite answers are cached: each cached result is
/// the outcome of an execution for one of the plan's targets whose worker
/// outcome was computed or had no finite estimate. An attack the worker only
/// answered as unsupported or failed is never cached.
pub proof fn lemma_only_estimates_cached(
    targets: Seq<Attack>,
    response: WorkerResponse,
    metadata: Metadata,
    attempts: u32,
    before: Map<Attack, AttackResult>,
    after: Map<Attack, AttackResult>,
    cache: Seq<AttackResult>,
    retry: Option<ServiceError>,
)
    requires
        response_outcome(targets, response, metadata, attempts, before, after, Ok((cache, retry))),
    ensures
        forall|i: int|
            0 <= i < cache.len() ==> targets.contains((#[trigger] cache[i]).attack) && exists|j: int|
                0 <= j < response.results@.len() && (#[trigger] response.results@[j]).attack
                    == cache[i].attack && (response.results@[j].outcome is Computed
                    || response.results@[j].outcome is NoFiniteEstimate),
{
    let executions = response.results@;
    lemma_cache_positions_sound(executions, targets);
    let positions = cache_positions(executions, targets);
    assert forall|i: int| 0 <= i < cache.len() implies targets.contains((#[trigger] cache[i]).attack)
        && exists|j: int|
        0 <= j < response.results@.len() && (#[trigger] response.results@[j]).attack
            == cache[i].attack && (response.results@[j].outcome is Computed
            || response.results@[j].outcome is NoFiniteEstimate) by {
        let p = positions[i];
        assert(0 <= p < executions.len());
        assert(executions[p].attack == cache[i].attack);
        assert(cacheable(converted(executions[p].outcome, 0)));
    }
}

/// A worker answer taken in: the fresh results to cache and, where the job
/// is to be retried, the error that retries it.
#[derive(Debug)]
pub struct WorkerAnswer {
    pub cache: Vec<AttackResult>,
    pub retry: Option<ServiceError>,
}

proof fn lemma_cacheable_any_duration(o: WorkerOutcome, d: u64)
    ensures
        cacheable(converted(o, d)) == cacheable(converted(o, 0)),
{
}

/// Records a plan's worker answer and returns the fresh results to cache,
/// also where the job is to be retried. Only computed and no-finite results
/// of the plan's own attacks are ever cached: timeouts, unsupported outcomes
/// and failures are not.
pub fn accept_worker_response(
    targets: &Vec<Attack>,
    response: WorkerResponse,
    metadata: &Metadata,
    attempts: u32,
    results: &mut AttackResults,
) -> (r: Result<WorkerAnswer, ServiceError>)
    ensures
        response_outcome(
            targets@,
            response,
            *metadata,
            attempts,
            old(results)@,
            final(results)@,
            match r {
                Ok(answer) => Ok((answer.cache@, answer.retry)),
                Err(e) => Err(e),
            },
        ),
        r matches Ok(answer) ==> forall|i: int|
            0 <= i < answer.cache@.len() ==> cacheable((#[trigger] answer.cache@[i]).outcome)
                && targets@.contains(answer.cache@[i].attack),
{
    if !metadata.matches_provenance(&response.provenance) {
        return Err(
            ServiceError::Upstream(
                String::from_str("worker provenance changed after metadata discovery"),
            ),
        );
    }
    let ghost executions = response.results@;
    let duration_ms = response.duration_ms;
    let mut pending = response.results;
    let mut retryable = false;
    let mut cache: Vec<AttackResult> = Vec::new();
    let mut i: usize = 0;
    let n = pending.len();
    while i < n
        invariant
            n == executions.len(),
            i <= n,
            pending@ == executions.subrange(i as int, n as int),
            results@ == recorded(old(results)@, executions.take(i as int), targets@, duration_ms),
            retryable == retryable_failure(executions.take(i as int), targets@),
            cache@.len() == cache_positions(executions.take(i as int), targets@).len(),
            forall|k: int|
                0 <= k < cache@.len() ==> {
                    let e = executions[cache_positions(executions.take(i as int), targets@)[k]];
                    &&& (#[trigger] cache@[k]).attack == e.attack
                    &&& !cache@[k].cached
                    &&& same_outcome(cache@[k].outcome, converted(e.outcome, duration_ms))
                },
            forall|k: int|
                0 <= k < cache_positions(executions.take(i as int), targets@).len() ==> 0
                    <= #[trigger] cache_positions(executions.take(i as int), targets@)[k] < i,
        decreases n - i,
    {
        let execution = pending.remove(0);
        let ghost prefix = executions.take(i as int);
        let ghost next = executions.take(i + 1);
        proof {
            assert(execution == executions[i as int]);
            assert(next.drop_last() =~= prefix);
            assert(next.last() == execution);
            assert(pending@ =~= executions.subrange(i + 1, n as int));
            lemma_cacheable_any_duration(execution.outcome, duration_ms);
            assert forall|k: int| 0 <= k < i implies #[trigger] next[k] == prefix[k] by {}
            if retryable_failure(prefix, targets@) {
                let w = choose|w: int|
                    0 <= w < prefix.len() && retryable_target(#[trigger] prefix[w], targets@);
                assert(next[w] == prefix[w]);
            }
            if retryable_failure(next, targets@) {
                let w = choose|w: int|
                    0 <= w < next.len() && retryable_target(#[trigger] next[w], targets@);
                if w < i {
                    assert(prefix[w] == next[w]);
                }
            }
        }
        let attack = execution.attack;
        if attack_in(targets, attack) {
            let outcome = convert_outcome(execution.outcome, duration_ms);
            if let AttackOutcome::Failed { retryable: true, .. } = &outcome {
                retryable = true;
            }
            if let AttackOutcome::Computed { .. } | AttackOutcome::NoFiniteEstimate { .. } = &outcome {
                let copy = copy_cacheable(&outcome);
                cache.push(AttackResult { attack, cached: false, outcome: copy });
            }
            results.insert(AttackResult { attack, cached: false, outcome });
        }
        i = i + 1;
    }
    proof {
        assert(executions.take(n as int) =~= executions);
        lemma_cache_positions_sound(executions, targets@);
        assert forall|k: int| 0 <= k < cache@.len() implies cacheable((#[trigger] cache@[k]).outcome)
            && targets@.contains(cache@[k].attack) by {
            let p = cache_positions(executions, targets@)[k];
            lemma_cacheable_any_duration(executions[p].outcome, duration_ms);
        }
    }
    fill_missing_results(targets, results);
    let retry = if retryable && attempts < 2 {
        Some(ServiceError::Upstream(String::from_str("worker reported a retryable attack failure")))
    } else {
        None
    };
    Ok(WorkerAnswer { cache, retry })
}

/// Whether an attack occurs in a list.
pub fn attack_in(attacks: &Vec<Attack>, attack: Attack) -> (r: bool)
    ensures
        r == attacks@.contains(attack),
{
    let mut i: usize = 0;
    while i < attacks.len()
        invariant
            i <= attacks.len(),
            forall|j: int| 0 <= j < i ==> attacks@[j] != attack,
        decreases attacks.len() - i,
    {
        if attacks[i] == attack {
            assert(attacks@[i as int] == attack);
            return true;
        }
        i = i + 1;
    }
    false
}

// ---- retries, timeouts and cached cases ----

/// The time limit handed to the worker: what is left of the job's time,
/// at least one second and at most the request's limit.
pub open spec fn worker_timeout_of(remaining_seconds: u64, timeout_seconds: u64) -> u64 {
    let at_least_one = if remaining_seconds < 1 { 1 } else { remaining_seconds };
    if at_least_one < timeout_seconds {
        at_least_one
    } else {
        timeout_seconds
    }
}

pub fn worker_timeout(remaining_seconds: u64, timeout_seconds: u64) -> (r: u64)
    ensures
        r == worker_timeout_of(remaining_seconds, timeout_seconds),
{
    let at_least_one = if remaining_seconds < 1 {
        1
    } else {
        remaining_seconds
    };
    if at_least_one < timeout_seconds {
        at_least_one
    } else {
        timeout_seconds
    }
}

/// A job is queued again after an estimator failure on its first attempt.
pub fn retries_job(error: &ServiceError, attempts: u32) -> (r: bool)
    ensures
        r == (*error is Upstream && attempts < 2),
{
    match error {
        ServiceError::Upstream(_) => attempts < 2,
        _ => false,
    }
}

/// A plan that fails at the estimator on the job's last attempt becomes
/// attack-level failures instead of failing the job.
pub fn absorbs_plan_failure(error: &ServiceError, attempts: u32) -> (r: bool)
    ensures
        r == (*error is Upstream && attempts >= 2),
{
    match error {
        ServiceError::Upstream(_) => attempts >= 2,
        _ => false,
    }
}

/// The state of a job whose estimation failed.
pub fn failed_job_state(error: &ServiceError, finished_at: String) -> (r: RunState)
    ensures
        r matches RunState::Failed { finished_at: t, code, message } && t == finished_at && code@
            == "estimation_failed"@ && message@ == error_text(*error),
{
    RunState::Failed {
        finished_at,
        code: String::from_str("estimation_failed"),
        message: error.message(),
    }
}

/// Whether the slow attacks of a case, from `slow` on, need no estimator run
/// given the cached outcomes: each is cached, or unforced and excluded by
/// its rule or by the fast estimates meeting the threshold. `None` where an
/// unforced attack without a cached outcome has no rule.
pub open spec fn slow_settled(
    slow: Seq<Attack>,
    cached: Set<Attack>,
    p: EstimatorProblem,
    policy: SlowAttackPolicy,
    met: bool,
) -> Option<bool>
    decreases slow.len(),
{
    if slow.len() == 0 {
        Some(true)
    } else {
        let a = slow[0];
        let rest = slow_settled(slow.subrange(1, slow.len() as int), cached, p, policy, met);
        if cached.contains(a) {
            rest
        } else if policy.forced_attacks@.contains(a) {
            Some(false)
        } else if applicability_rule(p, a) is None {
            None
        } else if excluded_by_rule(p, a) || met {
            rest
        } else {
            Some(false)
        }
    }
}

/// Whether a case can be answered from the cache alone: every fast attack
/// has a cached outcome and, in normal mode, no slow attack would run.
pub open spec fn cached_case_outcome(
    request: EstimateRequest,
    problem: Problem,
    p: EstimatorProblem,
    cached: Map<Attack, AttackResult>,
    r: Result<bool, ServiceError>,
) -> bool {
    let fast = problem_fast_attacks(problem);
    if !(forall|i: int| 0 <= i < fast.len() ==> cached.dom().contains(#[trigger] fast[i])) {
        r == Ok::<bool, ServiceError>(false)
    } else if request.mode == EstimateMode::Rough {
        r == Ok::<bool, ServiceError>(true)
    } else {
        match request.slow_attack_policy {
            None => r matches Err(e) && e matches ServiceError::Internal(m) && m@
                == "missing validated slow attack policy"@,
            Some(policy) => match slow_settled(
                problem_slow_attacks(problem),
                cached.dom(),
                p,
                policy,
                stop_threshold_met(cached.restrict(fast.to_set()), policy),
            ) {
                Some(b) => r == Ok::<bool, ServiceError>(b),
                None => r matches Err(e) && e matches ServiceError::Internal(m) && m@
                    == "missing applicability rule for adaptive slow attack"@,
            },
        }
    }
}

/// Whether the results of some attacks meet the policy's stop threshold.
fn threshold_met_among(results: &AttackResults, attacks: &Vec<Attack>, policy: &SlowAttackPolicy) -> (r:
    bool)
    requires
        attacks@.no_duplicates(),
    ensures
        r == stop_threshold_met(results@.restrict(attacks@.to_set()), *policy),
{
    let ghost m = results@.restrict(attacks@.to_set());
    let required = policy.required_security_bits.as_str();
    let margin = policy.stop_margin_bits.as_str();
    let mut any = false;
    let mut i: usize = 0;
    while i < attacks.len()
        invariant
            i <= attacks.len(),
            m == results@.restrict(attacks@.to_set()),
            required@ == policy.required_security_bits@,
            margin@ == policy.stop_margin_bits@,
            crate::numbers::is_plain_decimal(required@),
            crate::numbers::is_plain_decimal(margin@),
            any == exists|a: Attack|
                attacks@.take(i as int).contains(a) && #[trigger] m.dom().contains(a)
                    && computed_bits(m[a].outcome) is Some,
            forall|a: Attack|
                attacks@.take(i as int).contains(a) && #[trigger] m.dom().contains(a) ==> !below_target(
                    m[a],
                    *policy,
                ),
        decreases attacks.len() - i,
    {
        let attack = attacks[i];
        proof {
            lemma_take_one_more(attacks@, i as int);
            assert(attacks@.to_set().contains(attack));
        }
        if let Some(result) = results.get(attack) {
            assert(m.dom().contains(attack));
            if let AttackOutcome::Computed { security_bits, .. } = &result.outcome {
                any = true;
                if decimal_compare_to_sum(security_bits.as_str(), required, margin) < 0 {
                    assert(below_target(m[attack], *policy));
                    return false;
                }
            }
        }
        i = i + 1;
    }
    proof {
        assert(attacks@.take(attacks.len() as int) =~= attacks@);
        assert forall|a: Attack| #[trigger] m.dom().contains(a) implies attacks@.contains(a) by {
            assert(attacks@.to_set().contains(a));
        }
    }
    any
}

/// Decides whether a case needs the estimator, given the outcomes found in
/// the cache for its attacks.
pub fn case_fully_cached(
    request: &EstimateRequest,
    problem: &Problem,
    context: &CaseContext,
    cached: &AttackResults,
) -> (r: Result<bool, ServiceError>)
    ensures
        cached_case_outcome(*request, *problem, context.estimator_problem, cached@, r),
{
    let fast = fast_attacks_for_problem(problem);
    proof {
        crate::domain::lemma_attack_sets_partition(*problem);
        lemma_attack_order_distinct(*problem);
    }
    let mut i: usize = 0;
    while i < fast.len()
        invariant
            i <= fast.len(),
            fast@ == problem_fast_attacks(*problem),
            forall|j: int| 0 <= j < i ==> cached@.dom().contains(#[trigger] fast@[j]),
        decreases fast.len() - i,
    {
        if !cached.contains(fast[i]) {
            return Ok(false);
        }
        i = i + 1;
    }
    if request.mode == EstimateMode::Rough {
        return Ok(true);
    }
    let policy = match &request.slow_attack_policy {
        Some(policy) => policy,
        None => {
            return Err(
                ServiceError::Internal(String::from_str("missing validated slow attack policy")),
            );
        },
    };
    let met = threshold_met_among(cached, &fast, policy);
    let slow = slow_attacks_for_problem(problem);
    let ghost p = context.estimator_problem;
    assert(slow@.subrange(0, slow@.len() as int) =~= slow@);
    let mut k: usize = 0;
    while k < slow.len()
        invariant
            k <= slow.len(),
            slow@ == problem_slow_attacks(*problem),
            p == context.estimator_problem,
            fast@ == problem_fast_attacks(*problem),
            forall|j: int| 0 <= j < fast@.len() ==> cached@.dom().contains(#[trigger] fast@[j]),
            request.mode == EstimateMode::Normal,
            request.slow_attack_policy == Some(*policy),
            met == stop_threshold_met(cached@.restrict(fast@.to_set()), *policy),
            slow_settled(slow@, cached@.dom(), p, *policy, met) == slow_settled(
                slow@.subrange(k as int, slow@.len() as int),
                cached@.dom(),
                p,
                *policy,
                met,
            ),
        decreases slow.len() - k,
    {
        let attack = slow[k];
        let ghost rest = slow@.subrange(k as int, slow@.len() as int);
        assert(rest[0] == attack);
        assert(rest.subrange(1, rest.len() as int) =~= slow@.subrange(k + 1, slow@.len() as int));
        if cached.contains(attack) {
            k = k + 1;
            continue;
        }
        if policy.forces(attack) {
            assert(slow_settled(rest, cached@.dom(), p, *policy, met) == Some(false));
            return Ok(false);
        }
        let applicability = match context.applicability(attack) {
            Ok(a) => a,
            Err(e) => {
                assert(slow_settled(rest, cached@.dom(), p, *policy, met) is None);
                return Err(e);
            },
        };
        if applicability.level == ApplicabilityLevel::Inapplicable || met {
            k = k + 1;
            continue;
        }
        return Ok(false);
    }
    Ok(true)
}

// ---- laws ----

/// The best estimate of a report is its lowest computed estimate, and it
/// comes first among equal ones: every computed estimate is at least it, and
/// every earlier one is greater.
pub proof fn lemma_best_is_first_minimum(s: Seq<AttackResult>)
    ensures
        best_of(s) matches Some(k) ==> {
            &&& forall|j: int|
                0 <= j < s.len() && computed_bits(#[trigger] s[j].outcome) is Some ==> decimal_order(
                    computed_bits(s[k].outcome)->0@,
                    computed_bits(s[j].outcome)->0@,
                ) <= 0
            &&& forall|j: int|
                0 <= j < k && computed_bits(#[trigger] s[j].outcome) is Some ==> decimal_order(
                    computed_bits(s[k].outcome)->0@,
                    computed_bits(s[j].outcome)->0@,
                ) < 0
        },
    decreases s.len(),
{
    if s.len() > 0 {
        let init = s.drop_last();
        lemma_best_is_first_minimum(init);
        lemma_best_is_computed(init);
        lemma_best_is_computed(s);
        assert forall|i: int| 0 <= i < init.len() implies #[trigger] init[i] == s[i] by {}
        let last = s.last();
        if let Some(b) = computed_bits(last.outcome) {
            match best_of(init) {
                None => {
                    crate::numbers::lemma_decimal_order_flip(b@, b@);
                    assert forall|j: int|
                        0 <= j < s.len() && computed_bits(#[trigger] s[j].outcome) is Some implies j
                        == s.len() - 1 by {
                        if j < s.len() - 1 {
                            assert(init[j] == s[j]);
                        }
                    }
                },
                Some(p) => {
                    let bp = computed_bits(s[p].outcome)->0;
                    crate::numbers::lemma_decimal_order_flip(b@, bp@);
                    crate::numbers::lemma_decimal_order_flip(b@, b@);
                    if decimal_order(b@, bp@) < 0 {
                        assert forall|j: int|
                            0 <= j < s.len() && computed_bits(#[trigger] s[j].outcome) is Some
                                implies decimal_order(b@, computed_bits(s[j].outcome)->0@) <= 0
                            && (j < s.len() - 1 ==> decimal_order(b@, computed_bits(s[j].outcome)->0@)
                            < 0) by {
                            if j < s.len() - 1 {
                                assert(init[j] == s[j]);
                                crate::numbers::lemma_decimal_order_transitive(
                                    b@,
                                    bp@,
                                    computed_bits(s[j].outcome)->0@,
                                );
                            }
                        }
                    } else {
                        assert forall|j: int|
                            0 <= j < s.len() && computed_bits(#[trigger] s[j].outcome) is Some
                                implies decimal_order(bp@, computed_bits(s[j].outcome)->0@) <= 0 by {
                            if j < s.len() - 1 {
                                assert(init[j] == s[j]);
                            }
                        }
                        assert forall|j: int|
                            0 <= j < p && computed_bits(#[trigger] s[j].outcome) is Some implies decimal_order(
                                bp@,
                                computed_bits(s[j].outcome)->0@,
                            ) < 0 by {
                            assert(init[j] == s[j]);
                        }
                    }
                },
            }
        } else {
            if let Some(p) = best_of(init) {
                assert forall|j: int|
                    0 <= j < s.len() && computed_bits(#[trigger] s[j].outcome) is Some implies decimal_order(
                        computed_bits(s[p].outcome)->0@,
                        computed_bits(s[j].outcome)->0@,
                    ) <= 0 by {
                    assert(init[j] == s[j]);
                }
                assert forall|j: int|
                    0 <= j < p && computed_bits(#[trigger] s[j].outcome) is Some implies decimal_order(
                        computed_bits(s[p].outcome)->0@,
                        computed_bits(s[j].outcome)->0@,
                    ) < 0 by {
                    assert(init[j] == s[j]);
                }
            }
        }
    }
}

/// A complete report entry ran in normal mode, has a result for every
/// attack of its problem, and each of them settled: computed, without a
/// finite estimate, or skipped by policy.
pub proof fn lemma_complete_entries_cover_all_attacks(
    r: SecurityReportEntry,
    work: JobWork,
    context: CaseContext,
    results: Map<Attack, AttackResult>,
    fast_estimate: bool,
    metadata: Metadata,
    created_at: Seq<char>,
)
    requires
        is_report_entry(r, work, context, results, fast_estimate, metadata, created_at),
        r.summary.complete,
    ensures
        work.request.mode == EstimateMode::Normal,
        forall|a: Attack| #[trigger] problem_attacks(work.case.problem).contains(a) ==> results.dom().contains(a),
        forall|i: int| 0 <= i < r.attacks@.len() ==> settled(#[trigger] r.attacks@[i].outcome),
{
    lemma_ordered_length(problem_attacks(work.case.problem), results);
}

/// As many ordered results as attacks of the order have a result; all of
/// them when the counts agree.
pub proof fn lemma_ordered_length(order: Seq<Attack>, m: Map<Attack, AttackResult>)
    ensures
        ordered_results(order, m).len() <= order.len(),
        ordered_results(order, m).len() == order.len() ==> forall|a: Attack| #[trigger] order.contains(a) ==> m.dom().contains(a),
    decreases order.len(),
{
    if order.len() > 0 {
        lemma_ordered_length(order.drop_last(), m);
        if ordered_results(order, m).len() == order.len() {
            assert(m.dom().contains(order.last()));
            assert(ordered_results(order.drop_last(), m).len() == order.drop_last().len());
            assert forall|a: Attack| #[trigger] order.contains(a) implies m.dom().contains(a) by {
                let k = choose|k: int| 0 <= k < order.len() && order[k] == a;
                if k < order.len() - 1 {
                    assert(order.drop_last()[k] == a);
                    assert(order.drop_last().contains(a));
                }
            }
        }
    }
}

/// In normal mode, every slow attack the policy forces and that has no
/// result yet gets a plan of its own, whatever the fast estimates and the
/// applicability rules say.
pub proof fn lemma_forced_attacks_run(
    request: EstimateRequest,
    problem: Problem,
    p: EstimatorProblem,
    before: Map<Attack, AttackResult>,
    after: Map<Attack, AttackResult>,
    plans: Seq<Seq<Attack>>,
    fast_estimate: bool,
    a: Attack,
)
    requires
        slow_plan_outcome(request, problem, p, before, after, Ok((plans, fast_estimate))),
        request.mode == EstimateMode::Normal,
        request.slow_attack_policy matches Some(policy) && policy.forced_attacks@.contains(a),
        missing_slow(problem, before.dom()).contains(a),
    ensures
        plans.contains(seq![a]),
        !fast_estimate,
{
    let policy = request.slow_attack_policy->0;
    let missing = missing_slow(problem, before.dom());
    let forced = forced_slow(missing, policy);
    lemma_filter_member(missing, |x: Attack| policy.forced_attacks@.contains(x));
    assert(forced.contains(a));
    let k = choose|k: int| 0 <= k < forced.len() && forced[k] == a;
    let met = stop_threshold_met(before, policy);
    let all = if met {
        forced
    } else {
        forced + rule_candidates(p, automatic_slow(missing, policy))
    };
    assert(all[k] == a);
    assert(singletons(all)[k] == seq![a]);
}

pub(crate) fn attack_at(i: usize) -> (a: Attack)
    requires
        i < 10,
    ensures
        slot_of(a) == i,
{
    if i == 0 {
        Attack::AroraGb
    } else if i == 1 {
        Attack::Bkw
    } else if i == 2 {
        Attack::Usvp
    } else if i == 3 {
        Attack::Bdd
    } else if i == 4 {
        Attack::BddHybrid
    } else if i == 5 {
        Attack::BddMitmHybrid
    } else if i == 6 {
        Attack::Dual
    } else if i == 7 {
        Attack::DualHybrid
    } else if i == 8 {
        Attack::Dsd
    } else {
        Attack::Lattice
    }
}

} // verus!
