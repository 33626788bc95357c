use eggplan::assessment::{assess_plan, AssessmentReason, AssessmentStatus};
use eggplan::bounds::{BLOCKER_CHARS, ID_CHARS, INVOCATION_REF_CHARS, MAX_ITEMS, MAX_OBSERVATION_METADATA, OBJECTIVE_CHARS};
use eggplan::closure::{effective_observations, EvidenceSupersessionRecord};
use eggplan::evidence::{
    EvidenceError, EvidenceObservation, EvidenceObservationInput, EvidenceStatus, ProviderDescriptor, ProviderRegistry,
};
use eggplan::graph::{readiness, validate_graph, GraphError, Readiness};
use eggplan::identity::{
    CriterionId, EvidenceObservationId, EvidenceProviderId, EvidenceSupersessionId, PlanId, PlanItemId,
    VerificationDigest,
};
use eggplan::model::{
    item_transition_allowed, plan_transition_allowed, AcceptanceCriterion, EvidenceCardinality, EvidenceKind,
    EvidenceRequirement, Plan, PlanItem, PlanItemStatus, PlanStatus, SubjectPolicy, SubjectRevision, SubjectState,
    ValidationError,
};
use eggplan::text_map::TextMap;

fn digest_of(byte: &str) -> VerificationDigest {
    VerificationDigest::new(&format!("sha256:{}", byte.repeat(64))).unwrap()
}

fn subject(state: SubjectState, revision: &str) -> SubjectRevision {
    SubjectRevision {
        subject_kind: "git".into(),
        repository_id: "epr_test".into(),
        revision: revision.into(),
        state,
        dirty_digest: if state == SubjectState::Dirty { Some(format!("sha256:{}", "a".repeat(64))) } else { None },
    }
}

fn requirement(kind: EvidenceKind, cardinality: EvidenceCardinality, min_count: u16) -> EvidenceRequirement {
    EvidenceRequirement {
        description: "run check".into(),
        kind,
        provider: None,
        subject_policy: SubjectPolicy::Exact,
        cardinality,
        min_count,
        allow_human_judgment: false,
        expected_verification_digest: Some(digest_of("a")),
    }
}

fn assess_fixture(status: PlanItemStatus, requirements: Vec<EvidenceRequirement>, human: bool) -> Plan {
    Plan {
        schema_version: eggplan::SCHEMA_VERSION,
        id: PlanId::new("ep_assess").unwrap(),
        revision: 0,
        objective: "assess".into(),
        status: PlanStatus::Active,
        provenance: TextMap::new(),
        items: vec![PlanItem {
            id: PlanItemId::new("epi_item").unwrap(),
            position: 0,
            parent: None,
            dependencies: vec![],
            status,
            description: "check".into(),
            criteria: vec![AcceptanceCriterion {
                id: CriterionId::new("epc_test").unwrap(),
                statement: "passes".into(),
                human_judgment_allowed: human,
                requirements,
            }],
            blocker: None,
            next_action: None,
        }],
        subject: None,
    }
}

fn observation_with_digest(
    id: &str,
    kind: EvidenceKind,
    status: EvidenceStatus,
    subject: SubjectRevision,
    provider: &str,
    digest_byte: &str,
) -> EvidenceObservation {
    EvidenceObservation::finalize(EvidenceObservationInput {
        id: EvidenceObservationId::new(&format!("epe_{id}")).unwrap(),
        provider_id: EvidenceProviderId::new(&format!("epp_{provider}")).unwrap(),
        kind,
        status,
        subject,
        observed_at_unix_ms: 1,
        invocation_ref: None,
        verification_digest: Some(digest_of(digest_byte)),
        result_metadata: TextMap::new(),
        artifacts: vec![],
    })
    .unwrap()
}

fn observation(id: &str, kind: EvidenceKind, status: EvidenceStatus, subject: SubjectRevision, provider: &str) -> EvidenceObservation {
    observation_with_digest(id, kind, status, subject, provider, "a")
}

fn registry(provider: &str, class: &str, kinds: &[EvidenceKind]) -> ProviderRegistry {
    let mut registry = ProviderRegistry::default();
    registry
        .register_trusted(ProviderDescriptor::new(EvidenceProviderId::new(&format!("epp_{provider}")).unwrap(), class, kinds).unwrap())
        .unwrap();
    registry
}

/// A schema-1 observation sealed with its content digest, as older ledgers hold.
fn finalize_v1(mut input: EvidenceObservationInput) -> EvidenceObservation {
    input.verification_digest = None;
    let unsealed = EvidenceObservation::from_parts(1, input.clone(), String::new());
    let digest = unsealed.compute_content_digest();
    let sealed = EvidenceObservation::from_parts(1, input, digest);
    sealed.validate().unwrap();
    sealed
}

#[test]
fn execution_evidence_requires_exact_verification_binding() {
    let current = subject(SubjectState::Clean, "bound");
    let p = assess_fixture(PlanItemStatus::Completed, vec![requirement(EvidenceKind::Test, EvidenceCardinality::Any, 1)], false);
    let providers = registry("host", "host", &[EvidenceKind::Test]);
    let wrong = observation_with_digest("wrong", EvidenceKind::Test, EvidenceStatus::Passed, current.clone(), "host", "b");
    let wrong_result = assess_plan(&p, &current, &[wrong], &providers);
    let requirement_result = &wrong_result.items[0].criteria[0].requirements[0];
    assert_ne!(wrong_result.status, AssessmentStatus::Complete);
    assert!(requirement_result.satisfying_observation_ids.is_empty());
    assert!(requirement_result.reasons.iter().any(|r| matches!(r, AssessmentReason::VerificationDigestMismatch(_))));
    let exact = observation("exact", EvidenceKind::Test, EvidenceStatus::Passed, current.clone(), "host");
    assert_eq!(assess_plan(&p, &current, &[exact], &providers).status, AssessmentStatus::Complete);
}

#[test]
fn mismatched_observations_are_excluded_from_any_and_all_cardinality() {
    let current = subject(SubjectState::Clean, "cardinality");
    let providers = registry("host", "host", &[EvidenceKind::Test]);
    let passing_x = observation_with_digest("pass_x", EvidenceKind::Test, EvidenceStatus::Passed, current.clone(), "host", "a");
    let failed_y = observation_with_digest("fail_y", EvidenceKind::Test, EvidenceStatus::Failed, current.clone(), "host", "b");
    for cardinality in [EvidenceCardinality::Any, EvidenceCardinality::All] {
        let p = assess_fixture(PlanItemStatus::Completed, vec![requirement(EvidenceKind::Test, cardinality, 1)], false);
        let result = assess_plan(&p, &current, &[passing_x.clone(), failed_y.clone()], &providers);
        assert_eq!(result.status, AssessmentStatus::Complete);
        assert_eq!(
            result.items[0].criteria[0].requirements[0].satisfying_observation_ids,
            vec![EvidenceObservationId::new("epe_pass_x").unwrap()]
        );
    }
}

#[test]
fn legacy_unbound_execution_requirement_fails_closed() {
    let mut req = requirement(EvidenceKind::Test, EvidenceCardinality::Any, 1);
    req.expected_verification_digest = None;
    let mut p = assess_fixture(PlanItemStatus::Completed, vec![req], false);
    p.schema_version = 1;
    let current = subject(SubjectState::Clean, "legacy");
    let observation = observation("legacy", EvidenceKind::Test, EvidenceStatus::Passed, current.clone(), "host");
    let result = assess_plan(&p, &current, &[observation], &registry("host", "host", &[EvidenceKind::Test]));
    assert_ne!(result.status, AssessmentStatus::Complete);
    assert!(result.items[0].criteria[0].requirements[0].reasons.contains(&AssessmentReason::LegacyUnboundExecutionRequirement));
}

#[test]
fn legacy_unbound_observation_cannot_satisfy_a_v2_requirement() {
    let current = subject(SubjectState::Clean, "legacy-observation");
    let p = assess_fixture(PlanItemStatus::Completed, vec![requirement(EvidenceKind::Test, EvidenceCardinality::Any, 1)], false);
    let legacy = finalize_v1(EvidenceObservationInput {
        id: EvidenceObservationId::new("epe_legacy").unwrap(),
        provider_id: EvidenceProviderId::new("epp_host").unwrap(),
        kind: EvidenceKind::Test,
        status: EvidenceStatus::Passed,
        subject: current.clone(),
        observed_at_unix_ms: 1,
        invocation_ref: Some("cargo test".into()),
        verification_digest: None,
        result_metadata: TextMap::new(),
        artifacts: vec![],
    });
    let result = assess_plan(&p, &current, &[legacy], &registry("host", "host", &[EvidenceKind::Test]));
    let requirement_result = &result.items[0].criteria[0].requirements[0];
    assert_ne!(result.status, AssessmentStatus::Complete);
    assert!(requirement_result.satisfying_observation_ids.is_empty());
    assert!(requirement_result
        .reasons
        .iter()
        .any(|r| matches!(r, AssessmentReason::ObservationMissingVerificationBinding(_))));
}

#[test]
fn each_status_maps_to_distinct_deterministic_assessment() {
    let current = subject(SubjectState::Clean, "a");
    for (evidence, expected) in [
        (EvidenceStatus::Passed, AssessmentStatus::Complete),
        (EvidenceStatus::Failed, AssessmentStatus::EvidenceFailed),
        (EvidenceStatus::InProgress, AssessmentStatus::InFlight),
        (EvidenceStatus::NotRun, AssessmentStatus::EvidenceMissingOrUnavailable),
        (EvidenceStatus::Skipped, AssessmentStatus::EvidenceMissingOrUnavailable),
        (EvidenceStatus::Blocked, AssessmentStatus::Blocked),
        (EvidenceStatus::Unavailable, AssessmentStatus::EvidenceMissingOrUnavailable),
        (EvidenceStatus::Inconclusive, AssessmentStatus::Inconclusive),
    ] {
        let p = assess_fixture(PlanItemStatus::Completed, vec![requirement(EvidenceKind::Test, EvidenceCardinality::Any, 1)], false);
        let obs = observation("one", EvidenceKind::Test, evidence, current.clone(), "host");
        let providers = registry("host", "host", &[EvidenceKind::Test]);
        assert_eq!(
            assess_plan(&p, &current, std::slice::from_ref(&obs), &providers),
            assess_plan(&p, &current, std::slice::from_ref(&obs), &providers)
        );
        assert_eq!(
            assess_plan(&p, &current, &[observation("one", EvidenceKind::Test, evidence, current.clone(), "host")], &providers).status,
            expected
        );
    }
}

#[test]
fn stale_clean_dirty_subject_and_untrusted_provider_never_pass() {
    let current = subject(SubjectState::Dirty, "a");
    let p = assess_fixture(PlanItemStatus::Completed, vec![requirement(EvidenceKind::Test, EvidenceCardinality::Any, 1)], false);
    let stale = observation("stale", EvidenceKind::Test, EvidenceStatus::Passed, subject(SubjectState::Clean, "a"), "host");
    let trusted = registry("host", "host", &[EvidenceKind::Test]);
    assert_eq!(assess_plan(&p, &current, &[stale], &trusted).status, AssessmentStatus::InvalidOrStale);
    let stale_dirty = observation(
        "stale_dirty",
        EvidenceKind::Test,
        EvidenceStatus::Passed,
        SubjectRevision { state: SubjectState::Dirty, dirty_digest: Some(format!("sha256:{}", "b".repeat(64))), ..current.clone() },
        "host",
    );
    assert_eq!(assess_plan(&p, &current, &[stale_dirty], &trusted).status, AssessmentStatus::InvalidOrStale);
    let forged = observation("forged", EvidenceKind::Test, EvidenceStatus::Passed, current.clone(), "spoof");
    assert_eq!(assess_plan(&p, &current, &[forged], &trusted).status, AssessmentStatus::InvalidOrStale);
}

#[test]
fn completed_without_proof_and_missing_evidence_do_not_close() {
    let current = subject(SubjectState::Clean, "a");
    let p = assess_fixture(PlanItemStatus::Completed, vec![requirement(EvidenceKind::Test, EvidenceCardinality::Any, 1)], false);
    let providers = registry("host", "host", &[EvidenceKind::Test]);
    assert_eq!(assess_plan(&p, &current, &[], &providers).status, AssessmentStatus::EvidenceMissingOrUnavailable);
    let p = assess_fixture(PlanItemStatus::Completed, vec![], false);
    assert_eq!(assess_plan(&p, &current, &[], &providers).status, AssessmentStatus::EvidenceMissingOrUnavailable);
}

#[test]
fn closed_plan_with_unmet_criterion_is_not_complete() {
    let current = subject(SubjectState::Clean, "a");
    let mut p = assess_fixture(PlanItemStatus::Completed, vec![requirement(EvidenceKind::Test, EvidenceCardinality::Any, 1)], false);
    p.status = PlanStatus::Closed;
    let providers = registry("host", "host", &[EvidenceKind::Test]);
    assert_eq!(assess_plan(&p, &current, &[], &providers).status, AssessmentStatus::EvidenceMissingOrUnavailable);
}

#[test]
fn any_all_cardinality_and_human_policy_are_explicit() {
    let current = subject(SubjectState::Clean, "a");
    let observations = [
        observation("pass", EvidenceKind::Test, EvidenceStatus::Passed, current.clone(), "host"),
        observation("fail", EvidenceKind::Test, EvidenceStatus::Failed, current.clone(), "host"),
    ];
    let providers = registry("host", "host", &[EvidenceKind::Test]);
    let any = assess_fixture(PlanItemStatus::Completed, vec![requirement(EvidenceKind::Test, EvidenceCardinality::Any, 1)], false);
    let all = assess_fixture(PlanItemStatus::Completed, vec![requirement(EvidenceKind::Test, EvidenceCardinality::All, 1)], false);
    assert_eq!(assess_plan(&any, &current, &observations, &providers).status, AssessmentStatus::Complete);
    assert_eq!(assess_plan(&all, &current, &observations, &providers).status, AssessmentStatus::EvidenceFailed);
    let mut human_req = requirement(EvidenceKind::HumanJudgment, EvidenceCardinality::Any, 1);
    human_req.allow_human_judgment = true;
    let human_plan = assess_fixture(PlanItemStatus::Completed, vec![human_req], true);
    let human_obs = observation("judge", EvidenceKind::HumanJudgment, EvidenceStatus::Passed, current.clone(), "operator");
    let human_providers = registry("operator", "human", &[EvidenceKind::HumanJudgment]);
    assert_eq!(assess_plan(&human_plan, &current, &[human_obs], &human_providers).status, AssessmentStatus::Complete);
    let not_allowed = assess_fixture(
        PlanItemStatus::Completed,
        vec![requirement(EvidenceKind::HumanJudgment, EvidenceCardinality::Any, 1)],
        false,
    );
    assert!(not_allowed.validate().is_err());
}

#[test]
fn deterministic_reason_codes_have_stable_observation_order() {
    let current = subject(SubjectState::Clean, "a");
    let p = assess_fixture(PlanItemStatus::Completed, vec![requirement(EvidenceKind::Test, EvidenceCardinality::Any, 2)], false);
    let a = observation("aaa", EvidenceKind::Test, EvidenceStatus::NotRun, current.clone(), "host");
    let b = observation("bbb", EvidenceKind::Test, EvidenceStatus::Skipped, current.clone(), "host");
    let providers = registry("host", "host", &[EvidenceKind::Test]);
    let first = assess_plan(&p, &current, &[b.clone(), a.clone()], &providers);
    let second = assess_plan(&p, &current, &[a, b], &providers);
    assert_eq!(first, second);
}

#[test]
fn provider_mismatch_and_mixed_criteria_remain_unsatisfied() {
    let current = subject(SubjectState::Clean, "a");
    let mut first = requirement(EvidenceKind::Test, EvidenceCardinality::Any, 1);
    first.provider = Some(EvidenceProviderId::new("epp_expected").unwrap());
    let second = requirement(EvidenceKind::StaticAnalysis, EvidenceCardinality::Any, 1);
    let p = assess_fixture(PlanItemStatus::Completed, vec![first, second], false);
    let observations = [
        observation("wrong_provider", EvidenceKind::Test, EvidenceStatus::Passed, current.clone(), "other"),
        observation("test_pass", EvidenceKind::Test, EvidenceStatus::Passed, current.clone(), "expected"),
    ];
    let mut providers = registry("other", "host", &[EvidenceKind::Test]);
    providers
        .register_trusted(ProviderDescriptor::new(EvidenceProviderId::new("epp_expected").unwrap(), "host", &[EvidenceKind::Test]).unwrap())
        .unwrap();
    assert_eq!(assess_plan(&p, &current, &observations, &providers).status, AssessmentStatus::EvidenceMissingOrUnavailable);
    assert_eq!(assess_plan(&p, &current, &observations, &providers), assess_plan(&p, &current, &observations, &providers));
}

fn closure_observation(id: &str) -> EvidenceObservation {
    EvidenceObservation::finalize(EvidenceObservationInput {
        id: EvidenceObservationId::new(&format!("epe_{id}")).unwrap(),
        provider_id: EvidenceProviderId::new("epp_test").unwrap(),
        kind: EvidenceKind::Research,
        status: EvidenceStatus::Failed,
        subject: SubjectRevision {
            subject_kind: "git".into(),
            repository_id: "epr_test".into(),
            revision: "abc".into(),
            state: SubjectState::Clean,
            dirty_digest: None,
        },
        observed_at_unix_ms: 1,
        invocation_ref: None,
        verification_digest: None,
        result_metadata: TextMap::new(),
        artifacts: vec![],
    })
    .unwrap()
}

#[test]
fn supersession_is_append_only_effective_lineage_and_detects_cycles() {
    let old = closure_observation("old");
    let replacement = closure_observation("replacement");
    let first = EvidenceSupersessionRecord::new(
        EvidenceSupersessionId::new("eps_one").unwrap(),
        PlanId::new("ep_plan").unwrap(),
        old.id().clone(),
        replacement.id().clone(),
        "correction".into(),
        2,
    )
    .unwrap();
    let observations = [old.clone(), replacement.clone()];
    let active = effective_observations(&observations, std::slice::from_ref(&first)).unwrap();
    assert_eq!(active, vec![replacement.clone()]);
    let second = EvidenceSupersessionRecord::new(
        EvidenceSupersessionId::new("eps_two").unwrap(),
        PlanId::new("ep_plan").unwrap(),
        replacement.id().clone(),
        old.id().clone(),
        "bad correction".into(),
        3,
    )
    .unwrap();
    assert!(effective_observations(&observations, &[first, second]).is_err());
    assert!(effective_observations(&observations[..1], &[]).unwrap().contains(&old));
}

fn evidence_input(status: EvidenceStatus) -> EvidenceObservationInput {
    EvidenceObservationInput {
        id: EvidenceObservationId::new("epe_test").unwrap(),
        provider_id: EvidenceProviderId::new("epp_test").unwrap(),
        kind: EvidenceKind::Test,
        status,
        subject: SubjectRevision {
            subject_kind: "git".into(),
            repository_id: "epr_test".into(),
            revision: "abc123".into(),
            state: SubjectState::Clean,
            dirty_digest: None,
        },
        observed_at_unix_ms: 1_700_000_000_000,
        invocation_ref: None,
        verification_digest: Some(digest_of("a")),
        result_metadata: TextMap::new(),
        artifacts: vec![],
    }
}

#[test]
fn schema_v2_evidence_golden_bytes_and_digest() {
    let observation = EvidenceObservation::finalize(evidence_input(EvidenceStatus::Passed)).unwrap();
    let bytes = observation.canonical_json();
    let content = format!(
        "{{\"schema_version\":2,\"id\":\"epe_test\",\"provider_id\":\"epp_test\",\"kind\":\"test\",\"status\":\"passed\",\"subject\":{{\"subject_kind\":\"git\",\"repository_id\":\"epr_test\",\"revision\":\"abc123\",\"state\":\"clean\"}},\"observed_at_unix_ms\":1700000000000,\"verification_digest\":\"sha256:{}\",\"result_metadata\":{{}},\"artifacts\":[]",
        "a".repeat(64)
    );
    let expected_digest = eggplan::digest::digest_of_text(&format!("{content}}}"));
    assert_eq!(observation.content_digest(), expected_digest);
    assert_eq!(
        std::str::from_utf8(&bytes).unwrap(),
        format!("{content},\"content_digest\":\"{expected_digest}\"}}")
    );
}

#[test]
fn schema_v2_execution_observations_require_bindings() {
    for kind in [
        EvidenceKind::Command,
        EvidenceKind::Test,
        EvidenceKind::StaticAnalysis,
        EvidenceKind::DelegatedRun,
        EvidenceKind::Benchmark,
    ] {
        let mut input = evidence_input(EvidenceStatus::Passed);
        input.kind = kind;
        input.verification_digest = None;
        assert!(EvidenceObservation::finalize(input).is_err(), "{kind:?} accepted without a binding");
    }
}

#[test]
fn provider_registry_rejects_duplicate_identity() {
    let provider = EvidenceProviderId::new("epp_host").unwrap();
    let descriptor = ProviderDescriptor::new(provider.clone(), "host", &[EvidenceKind::Test]).unwrap();
    let mut registry = ProviderRegistry::default();
    registry.register_trusted(descriptor.clone()).unwrap();
    assert!(matches!(registry.register_trusted(descriptor), Err(EvidenceError::DuplicateProvider(_))));
}

#[test]
fn observation_bounds_reject_oversize_metadata_and_invocation() {
    let mut data = evidence_input(EvidenceStatus::Passed);
    for index in 0..=MAX_OBSERVATION_METADATA {
        data.result_metadata.insert(format!("key_{index}"), "v".into());
    }
    assert!(EvidenceObservation::finalize(data).is_err());
    let mut data = evidence_input(EvidenceStatus::Passed);
    data.invocation_ref = Some("x".repeat(INVOCATION_REF_CHARS + 1));
    assert!(EvidenceObservation::finalize(data).is_err());
}

fn graph_item(id: &str, position: u32, dependencies: Vec<&str>) -> PlanItem {
    PlanItem {
        id: PlanItemId::new(&format!("epi_{id}")).unwrap(),
        position,
        parent: None,
        dependencies: dependencies.into_iter().map(|d| PlanItemId::new(&format!("epi_{d}")).unwrap()).collect(),
        status: PlanItemStatus::Pending,
        description: id.into(),
        criteria: vec![],
        blocker: None,
        next_action: None,
    }
}

fn graph_plan(items: Vec<PlanItem>) -> Plan {
    Plan {
        schema_version: 1,
        id: PlanId::new("ep_test").unwrap(),
        revision: 0,
        objective: "test".into(),
        status: PlanStatus::Active,
        provenance: Default::default(),
        items,
        subject: None,
    }
}

#[test]
fn stable_order_and_waiting() {
    let p = graph_plan(vec![graph_item("b", 1, vec!["a"]), graph_item("a", 0, vec![])]);
    let r = readiness(&p);
    assert_eq!(r[0].item_id.as_str(), "epi_a");
    assert_eq!(r[1].readiness, Readiness::WaitingOnDependencies(vec![PlanItemId::new("epi_a").unwrap()]));
}

#[test]
fn dependency_cycle_rejected() {
    let p = graph_plan(vec![graph_item("a", 0, vec!["b"]), graph_item("b", 1, vec!["a"])]);
    assert_eq!(validate_graph(&p.items), Err(GraphError::DependencyCycle));
}

#[test]
fn parent_cycle_rejected() {
    let mut a = graph_item("a", 0, vec![]);
    a.parent = Some(PlanItemId::new("epi_b").unwrap());
    let mut b = graph_item("b", 1, vec![]);
    b.parent = Some(PlanItemId::new("epi_a").unwrap());
    assert_eq!(validate_graph(&graph_plan(vec![a, b]).items), Err(GraphError::ParentCycle));
}

#[test]
fn ids_roundtrip_generate_and_reject_bad_prefixes() {
    let id = PlanId::new("ep_example-1").unwrap();
    assert_eq!(id.to_string(), "ep_example-1");
    assert_eq!(id.as_str().parse::<PlanId>().unwrap(), id);
    assert!(PlanId::new("epi_wrong").is_err());
    assert!(PlanItemId::new("epi_has space").is_err());
    assert!(CriterionId::new(&format!("epc_{}", "x".repeat(ID_CHARS))).is_err());
    assert!(EvidenceProviderId::generate().as_str().starts_with("epp_"));
}

fn model_item() -> PlanItem {
    PlanItem {
        id: PlanItemId::new("epi_one").unwrap(),
        position: 0,
        parent: None,
        dependencies: vec![],
        status: PlanItemStatus::Pending,
        description: "work".into(),
        criteria: vec![],
        blocker: None,
        next_action: None,
    }
}

#[test]
fn blocker_discipline_and_text_bounds() {
    let mut i = model_item();
    i.status = PlanItemStatus::Blocked;
    assert!(i.validate().is_err());
    i.blocker = Some("waiting".into());
    assert!(i.validate().is_ok());
    i.blocker = Some("x".repeat(BLOCKER_CHARS + 1));
    assert!(i.validate().is_err());
}

#[test]
fn transition_matrices_fail_closed_for_terminal_states() {
    assert!(plan_transition_allowed(&PlanStatus::Draft, &PlanStatus::Active));
    assert!(!plan_transition_allowed(&PlanStatus::Closed, &PlanStatus::Active));
    assert!(item_transition_allowed(&PlanItemStatus::InProgress, &PlanItemStatus::Completed));
    assert!(!item_transition_allowed(&PlanItemStatus::Completed, &PlanItemStatus::Actionable));
}

#[test]
fn collection_and_unicode_scalar_bounds_are_enforced() {
    let mut p = Plan::new(PlanId::new("ep_bounds").unwrap(), "é", vec![]).unwrap();
    p.objective = "é".repeat(OBJECTIVE_CHARS + 1);
    assert!(p.validate().is_err());
    p.objective = "valid".into();
    p.items = (0..=MAX_ITEMS)
        .map(|n| PlanItem {
            id: PlanItemId::new(&format!("epi_{n}")).unwrap(),
            position: n as u32,
            parent: None,
            dependencies: vec![],
            status: PlanItemStatus::Pending,
            description: "step".into(),
            criteria: vec![],
            blocker: None,
            next_action: None,
        })
        .collect();
    assert!(matches!(p.validate(), Err(ValidationError::Count { field: "plan.items", .. })));
}

#[test]
fn malformed_text_and_dangling_graph_references_fail() {
    let mut p = Plan::new(PlanId::new("ep_invalid").unwrap(), "valid", vec![model_item()]).unwrap();
    p.items[0].description = "bad\0text".into();
    assert!(p.validate().is_err());
    p.items[0].description = "work".into();
    p.items[0].dependencies = vec![PlanItemId::new("epi_missing").unwrap()];
    assert!(p.validate().is_err());
    p.items[0].dependencies.clear();
    p.items[0].parent = Some(PlanItemId::new("epi_missing").unwrap());
    assert!(p.validate().is_err());
}

#[test]
fn identifiers_parse_from_text_as_their_constructors_do() {
    let id: PlanId = "ep_parsed".parse().unwrap();
    assert_eq!(id, PlanId::new("ep_parsed").unwrap());
    assert_eq!("epi_x".parse::<PlanId>().unwrap_err(), PlanId::new("epi_x").unwrap_err());
    let item: PlanItemId = "epi_parsed".parse().unwrap();
    assert_eq!(item.as_str(), "epi_parsed");
    let digest: VerificationDigest = format!("sha256:{}", "c".repeat(64)).parse().unwrap();
    assert_eq!(digest, digest_of("c"));
    assert!("sha256:xyz".parse::<VerificationDigest>().is_err());
}
