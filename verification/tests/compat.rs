use eggplan::assessment::AssessmentStatus;
use eggplan::compat::{
    assess_codegg_snapshot, completion_family, evidence_requests, hash_id, normalize_fixture, normalize_resolved,
    normalize_snapshot, project_bounded,
    AcceptanceDisposition, CodeggAcceptance, CodeggCompletionFamily, CodeggEvidenceKind, CodeggEvidenceRef,
    CodeggItemSnapshot, CodeggItemStatus, CodeggPlanSnapshot, CodeggPlanStatus, EvidenceResolver, Fixture, Loss,
    MappedPlan, ResolvedEvidence, MAX_EVIDENCE_REFS_PER_ITEM, SOURCE_CODEGG_SHA,
};
use eggplan::evidence::{EvidenceObservation, EvidenceObservationInput, EvidenceStatus, ProviderDescriptor, ProviderRegistry};
use eggplan::identity::{EvidenceObservationId, EvidenceProviderId, VerificationDigest};
use eggplan::model::{EvidenceKind, PlanItemStatus, PlanStatus, SubjectRevision, SubjectState};
use eggplan::text_map::TextMap;

fn subject() -> SubjectRevision {
    SubjectRevision {
        subject_kind: "git".into(),
        repository_id: "epr_fixture".into(),
        revision: "fixture-revision-1".into(),
        state: SubjectState::Clean,
        dirty_digest: None,
    }
}

fn binding(byte: &str) -> VerificationDigest {
    VerificationDigest::new(&format!("sha256:{}", byte.repeat(64))).unwrap()
}

fn needs_binding(kind: EvidenceKind) -> bool {
    matches!(
        kind,
        EvidenceKind::Test
            | EvidenceKind::Command
            | EvidenceKind::DelegatedRun
            | EvidenceKind::Benchmark
            | EvidenceKind::StaticAnalysis
    )
}

fn kind_of(kind: CodeggEvidenceKind) -> EvidenceKind {
    match kind {
        CodeggEvidenceKind::TestJob => EvidenceKind::Test,
        CodeggEvidenceKind::DelegatedRun | CodeggEvidenceKind::AgentRun => EvidenceKind::DelegatedRun,
        CodeggEvidenceKind::SchedulerJob => EvidenceKind::Command,
        CodeggEvidenceKind::Artifact => EvidenceKind::Artifact,
        CodeggEvidenceKind::Commit => EvidenceKind::Revision,
    }
}

#[derive(Clone, Copy)]
enum Fault {
    Clean,
    StaleSubject,
    MissingBinding,
    MismatchedBinding,
    WrongKind,
    Refuse,
}

struct Resolver {
    status: EvidenceStatus,
    fault: Fault,
}

fn resolver(status: EvidenceStatus) -> Resolver {
    Resolver { status, fault: Fault::Clean }
}

impl EvidenceResolver for Resolver {
    fn resolve(&mut self, reference: &CodeggEvidenceRef, subject: &SubjectRevision) -> Result<ResolvedEvidence, String> {
        let mut kind = kind_of(reference.kind);
        let mut observed_subject = subject.clone();
        let mut digest = if needs_binding(kind) { Some(binding("a")) } else { None };
        let mut expected = digest.clone();
        match self.fault {
            Fault::Clean => {}
            Fault::StaleSubject => observed_subject.revision = "stale".into(),
            Fault::MissingBinding => {
                expected = None;
            }
            Fault::MismatchedBinding => digest = Some(binding("b")),
            Fault::WrongKind => {
                kind = EvidenceKind::Artifact;
                digest = None;
            }
            Fault::Refuse => return Err("host refused".into()),
        }
        let observation = EvidenceObservation::finalize(EvidenceObservationInput {
            id: EvidenceObservationId::new(&format!("epe_{}", reference.ref_id)).unwrap(),
            provider_id: EvidenceProviderId::new("epp_host").unwrap(),
            kind,
            status: self.status,
            subject: observed_subject,
            observed_at_unix_ms: 100,
            invocation_ref: Some(reference.ref_id.clone()),
            verification_digest: digest,
            result_metadata: TextMap::new(),
            artifacts: vec![],
        })
        .map_err(|error| error.message())?;
        Ok(ResolvedEvidence { observation, expected_verification: expected })
    }
}

fn item(id: &str, position: i64, status: CodeggItemStatus) -> CodeggItemSnapshot {
    CodeggItemSnapshot {
        item_id: id.into(),
        position,
        parent_item_id: None,
        dependencies: vec![],
        status,
        description: format!("work on {id}"),
        acceptance: vec![CodeggAcceptance {
            description: format!("{id} passes"),
            disposition: AcceptanceDisposition::Unmet,
            note: None,
        }],
        evidence: vec![],
        owner_run_id: None,
        owner_job_id: None,
        blocker: None,
        next_action: None,
    }
}

fn test_ref(ref_id: &str) -> CodeggEvidenceRef {
    CodeggEvidenceRef { kind: CodeggEvidenceKind::TestJob, ref_id: ref_id.into(), detail: None }
}

/// One completed item with a test job and a satisfied acceptance, one
/// pending item that depends on it.
fn foundation() -> CodeggPlanSnapshot {
    let mut first = item("wi_first", 0, CodeggItemStatus::Completed);
    first.acceptance[0].disposition = AcceptanceDisposition::Satisfied;
    first.evidence = vec![test_ref("job-1")];
    first.owner_job_id = Some("job-fixture-1".into());
    let mut second = item("wi_second", 1, CodeggItemStatus::Pending);
    second.dependencies = vec!["wi_first".into()];
    CodeggPlanSnapshot {
        plan_id: "plan-1".into(),
        revision: 7,
        status: CodeggPlanStatus::Active,
        objective: "ship the foundation".into(),
        current_phase: Some("build".into()),
        current_item_id: Some("wi_second".into()),
        items: vec![first, second],
    }
}

fn providers() -> ProviderRegistry {
    let mut providers = ProviderRegistry::new();
    providers
        .register_trusted(
            ProviderDescriptor::new(
                EvidenceProviderId::new("epp_host").unwrap(),
                "host",
                &[EvidenceKind::Test, EvidenceKind::Artifact, EvidenceKind::Revision],
            )
            .unwrap(),
        )
        .unwrap();
    providers
}

fn normalized(snapshot: &CodeggPlanSnapshot) -> MappedPlan {
    normalize_snapshot(snapshot, subject(), &mut resolver(EvidenceStatus::Passed)).unwrap()
}

fn error_of(snapshot: &CodeggPlanSnapshot) -> String {
    normalize_snapshot(snapshot, subject(), &mut resolver(EvidenceStatus::Passed)).unwrap_err()
}

#[test]
fn completion_families_fold_failed_and_missing_into_actionable_work() {
    let table = [
        (AssessmentStatus::Complete, CodeggCompletionFamily::Complete, "complete"),
        (AssessmentStatus::ActionableWorkRemaining, CodeggCompletionFamily::ActionableWorkRemaining, "actionable_work_remaining"),
        (AssessmentStatus::EvidenceFailed, CodeggCompletionFamily::ActionableWorkRemaining, "actionable_work_remaining"),
        (
            AssessmentStatus::EvidenceMissingOrUnavailable,
            CodeggCompletionFamily::ActionableWorkRemaining,
            "actionable_work_remaining",
        ),
        (AssessmentStatus::Inconclusive, CodeggCompletionFamily::ActionableWorkRemaining, "actionable_work_remaining"),
        (AssessmentStatus::InvalidOrStale, CodeggCompletionFamily::ActionableWorkRemaining, "actionable_work_remaining"),
        (AssessmentStatus::Blocked, CodeggCompletionFamily::Blocked, "blocked"),
        (AssessmentStatus::AwaitingHumanJudgment, CodeggCompletionFamily::AwaitingUserJudgment, "awaiting_user_judgment"),
        (AssessmentStatus::InFlight, CodeggCompletionFamily::InFlight, "in_flight"),
    ];
    for (status, family, text) in table {
        assert_eq!(completion_family(status), family);
        assert_eq!(family.as_str(), text);
    }
}

#[test]
fn hash_identifiers_are_stable_truncated_sha256() {
    assert_eq!(hash_id("item", "wi_first"), "6e7757cd35b35a6654ce1412086e4840");
    assert_eq!(hash_id("plan", "plan-1"), "ae99a6315c14a1d2744a9ad06c852347");
    assert_ne!(hash_id("item", "plan-1"), hash_id("plan", "plan-1"));
    assert_eq!(hash_id("item", "x").len(), 32);
}

#[test]
fn normalization_is_deterministic_and_records_losses() {
    let snapshot = foundation();
    let first = normalized(&snapshot);
    let second = normalized(&snapshot);
    assert_eq!(first.plan.id.as_str(), "ep_ae99a6315c14a1d2744a9ad06c852347");
    assert_eq!(first.plan.id.as_str(), second.plan.id.as_str());
    assert_eq!(first.manifest, second.manifest);
    assert_eq!(first.plan.status, PlanStatus::Draft);
    assert_eq!(first.plan.revision, 0);
    assert_eq!(first.source_status(), CodeggPlanStatus::Active);
    assert_eq!(first.manifest.id_map.len(), 3);
    let sources: Vec<&str> = first.manifest.id_map.iter().map(|e| e.source_id.as_str()).collect();
    assert_eq!(sources, ["plan-1", "wi_first", "wi_second"]);
    assert_eq!(first.manifest.id_map[1].eggplan_id, "epi_6e7757cd35b35a6654ce1412086e4840");
    assert_eq!(first.plan.items[0].id.as_str(), "epi_6e7757cd35b35a6654ce1412086e4840");
    assert_eq!(first.plan.items[1].dependencies.len(), 1);
    assert_eq!(first.plan.items[1].dependencies[0].as_str(), first.plan.items[0].id.as_str());
    assert_eq!(first.plan.items[0].status, PlanItemStatus::Completed);
    assert_eq!(first.plan.items[0].criteria[0].id.as_str(), "epc_0000");
    assert_eq!(first.plan.items[0].criteria[0].requirements.len(), 1);
    assert_eq!(first.plan.items[0].criteria[0].requirements[0].description, "CodeGG TestJob ref job-1");
    assert_eq!(first.observations.len(), 1);
    assert_eq!(first.manifest.owner_provenance[0].owner_job_id.as_deref(), Some("job-fixture-1"));
    assert!(first.manifest.losses.contains(&Loss::SourceRevisionIsProvenanceOnly));
    assert!(first.manifest.losses.contains(&Loss::SerializedDispositionIsNotEvidence));
    assert!(first.manifest.losses.contains(&Loss::OwnerReferencesAreProvenanceOnly));
    assert!(!first.manifest.losses.contains(&Loss::CompletedPlanNeedsGuardedClose));
    first.manifest.validate().unwrap();
    let mut tampered = first.manifest.clone();
    tampered.source_revision += 1;
    assert_eq!(tampered.validate().unwrap_err(), "mapping manifest digest mismatch");
    let mut negative = first.manifest.clone();
    negative.source_revision = -1;
    assert_eq!(negative.validate().unwrap_err(), "unsupported mapping manifest version or revision");
    let mut duplicated = first.manifest.clone();
    duplicated.id_map.push(duplicated.id_map[1].clone());
    assert_eq!(duplicated.validate().unwrap_err(), "mapping manifest contains duplicate identities");
}

#[test]
fn completed_source_plan_needs_a_guarded_close() {
    let mut snapshot = foundation();
    snapshot.status = CodeggPlanStatus::Completed;
    let mapped = normalized(&snapshot);
    assert!(mapped.manifest.losses.contains(&Loss::CompletedPlanNeedsGuardedClose));
    assert_eq!(mapped.plan.status, PlanStatus::Draft);
}

#[test]
fn snapshot_refusals_are_explicit() {
    let mut empty = foundation();
    empty.items.clear();
    assert_eq!(error_of(&empty), "invalid snapshot revision or item count");
    let mut negative = foundation();
    negative.revision = -1;
    assert_eq!(error_of(&negative), "invalid snapshot revision or item count");
    let mut blank_objective = foundation();
    blank_objective.objective = String::new();
    assert_eq!(error_of(&blank_objective), "invalid or oversized objective");
    let mut long_id = foundation();
    long_id.plan_id = "p".repeat(129);
    assert_eq!(error_of(&long_id), "oversized plan ID");
    let mut duplicate = foundation();
    duplicate.items[1].item_id = "wi_first".into();
    duplicate.items[1].dependencies.clear();
    duplicate.current_item_id = None;
    assert_eq!(error_of(&duplicate), "deterministic item ID collision");
    let mut unknown_current = foundation();
    unknown_current.current_item_id = Some("wi_missing".into());
    assert_eq!(error_of(&unknown_current), "current item ID does not identify a snapshot item");
    let mut missing_parent = foundation();
    missing_parent.items[1].parent_item_id = Some("wi_parent".into());
    assert_eq!(error_of(&missing_parent), "missing parent item wi_parent");
    let mut missing_dependency = foundation();
    missing_dependency.items[1].dependencies = vec!["wi_gone".into()];
    assert_eq!(error_of(&missing_dependency), "missing dependency item wi_gone");
    let mut oversized = foundation();
    oversized.items[0].evidence = vec![test_ref("job-limit"); MAX_EVIDENCE_REFS_PER_ITEM + 1];
    assert_eq!(error_of(&oversized), "item position or bounded collection limit is invalid");
    let mut bad_position = foundation();
    bad_position.items[0].position = -1;
    assert_eq!(error_of(&bad_position), "item position or bounded collection limit is invalid");
    let mut nul_blocker = foundation();
    nul_blocker.items[1].blocker = Some("a\0b".into());
    assert_eq!(error_of(&nul_blocker), "invalid or oversized blocker");
}

#[test]
fn stale_unbound_mismatched_and_refused_evidence_fail_closed() {
    let snapshot = foundation();
    let cases = [
        (Fault::StaleSubject, "resolver returned stale, mismatched, or reused evidence"),
        (Fault::WrongKind, "resolver returned stale, mismatched, or reused evidence"),
        (Fault::MissingBinding, "execution evidence lacks the authoritative matching verification binding"),
        (Fault::MismatchedBinding, "execution evidence lacks the authoritative matching verification binding"),
        (Fault::Refuse, "host refused"),
    ];
    for (fault, message) in cases {
        let mut faulty = Resolver { status: EvidenceStatus::Passed, fault };
        assert_eq!(normalize_snapshot(&snapshot, subject(), &mut faulty).unwrap_err(), message);
    }
    let mut reused = foundation();
    reused.items[1].evidence = vec![test_ref("job-1")];
    assert_eq!(error_of(&reused), "resolver returned stale, mismatched, or reused evidence");
}

#[test]
fn fixture_provenance_is_checked_before_the_snapshot() {
    let fixture = Fixture {
        schema_version: 1,
        source_repository: "codegg".into(),
        source_sha: SOURCE_CODEGG_SHA.into(),
        source_case: "work_plan_foundation".into(),
        snapshot: foundation(),
    };
    let mapped = normalize_fixture(&fixture, subject(), &mut resolver(EvidenceStatus::Passed)).unwrap();
    assert_eq!(mapped.manifest.source_revision, 7);
    let mut bad_version = fixture.clone();
    bad_version.schema_version = 2;
    let mut wrong_sha = fixture.clone();
    wrong_sha.source_sha = "0000000000000000000000000000000000000000".into();
    for bad in [bad_version, wrong_sha] {
        assert_eq!(
            normalize_fixture(&bad, subject(), &mut resolver(EvidenceStatus::Passed)).unwrap_err(),
            "unsupported fixture version, repository, or source SHA"
        );
        let mut untouched = Recorder { calls: vec![], inner: resolver(EvidenceStatus::Passed) };
        assert!(normalize_fixture(&bad, subject(), &mut untouched).is_err());
        assert!(untouched.calls.is_empty());
    }
    let mut no_case = fixture.clone();
    no_case.source_case = String::new();
    assert_eq!(
        normalize_fixture(&no_case, subject(), &mut resolver(EvidenceStatus::Passed)).unwrap_err(),
        "invalid or oversized source case"
    );
}

#[test]
fn item_status_mapping_preserves_state_without_transition_replay() {
    let table = [
        (CodeggItemStatus::Pending, PlanItemStatus::Pending),
        (CodeggItemStatus::Actionable, PlanItemStatus::Actionable),
        (CodeggItemStatus::InProgress, PlanItemStatus::InProgress),
        (CodeggItemStatus::Blocked, PlanItemStatus::Blocked),
        (CodeggItemStatus::Completed, PlanItemStatus::Completed),
        (CodeggItemStatus::Cancelled, PlanItemStatus::Cancelled),
    ];
    for (source, expected) in table {
        let mut snapshot = foundation();
        snapshot.items[1].status = source;
        if source == CodeggItemStatus::Blocked {
            snapshot.items[1].blocker = Some("source blocker".into());
        }
        assert_eq!(normalized(&snapshot).plan.items[1].status, expected);
    }
}

#[test]
fn bridge_assesses_completed_plans_as_active_and_user_judgment_as_pending() {
    let mut snapshot = foundation();
    snapshot.items.truncate(1);
    snapshot.current_item_id = None;
    snapshot.status = CodeggPlanStatus::Completed;
    let bridge = assess_codegg_snapshot(&snapshot, subject(), &mut resolver(EvidenceStatus::Passed), &providers()).unwrap();
    assert_eq!(bridge.plan.status, PlanStatus::Active);
    assert_eq!(bridge.assessment.status, AssessmentStatus::Complete);
    assert_eq!(bridge.completion_family, CodeggCompletionFamily::Complete);
    assert_eq!(bridge.reason_codes, ["evidence_status"]);

    let untrusted = ProviderRegistry::new();
    let bridge = assess_codegg_snapshot(&snapshot, subject(), &mut resolver(EvidenceStatus::Passed), &untrusted).unwrap();
    assert_ne!(bridge.assessment.status, AssessmentStatus::Complete);
    assert_eq!(bridge.reason_codes, ["untrusted_provider"]);

    let mut judged = foundation();
    judged.items.truncate(1);
    judged.current_item_id = None;
    judged.items[0].evidence.clear();
    judged.items[0].status = CodeggItemStatus::Actionable;
    judged.items[0].acceptance = vec![CodeggAcceptance {
        description: "Owner judgment required".into(),
        disposition: AcceptanceDisposition::RequiresUserJudgment,
        note: Some("explicit owner decision".into()),
    }];
    let bridge = assess_codegg_snapshot(&judged, subject(), &mut resolver(EvidenceStatus::Passed), &providers()).unwrap();
    assert_eq!(bridge.assessment.status, AssessmentStatus::AwaitingHumanJudgment);
    assert_eq!(bridge.completion_family, CodeggCompletionFamily::AwaitingUserJudgment);
    assert!(bridge.manifest.losses.contains(&Loss::AcceptanceNoteOmitted));
}

#[test]
fn current_projection_is_bounded_stable_and_excludes_completed_history() {
    let mut snapshot = foundation();
    let mut third = item("wi_third", 2, CodeggItemStatus::InProgress);
    third.next_action = Some("reload host resumable state".into());
    snapshot.items.push(third);
    snapshot.current_item_id = Some("wi_third".into());
    let mapped = normalize_snapshot(&snapshot, subject(), &mut resolver(EvidenceStatus::InProgress)).unwrap();
    let projection = project_bounded(&mapped, AssessmentStatus::InFlight, 1, 16);
    assert_eq!(projection.schema_version, 1);
    assert_eq!(projection.total_items, 3);
    assert_eq!(projection.completed_items, 1);
    assert_eq!(projection.actionable_count, 1);
    assert_eq!(projection.in_progress_count, 1);
    assert_eq!(projection.blocked_count, 0);
    assert_eq!(projection.assessment_reason_code, "in_flight");
    assert!(projection.truncated);
    assert_eq!(projection.items.len(), 1);
    assert_eq!(projection.items[0].source_id, "wi_third");
    assert_eq!(projection.items[0].next_action.as_deref(), Some("reload host resu"));
    assert_eq!(projection.items[0].description, "work on wi_third");
    assert_eq!(projection.current_item_id.as_deref(), Some(projection.items[0].id.as_str()));

    let wide = project_bounded(&mapped, AssessmentStatus::Complete, 0, 1000);
    assert_eq!(wide.items.len(), 1);
    let all = project_bounded(&mapped, AssessmentStatus::Complete, 100, 0);
    assert_eq!(all.items.len(), 2);
    assert!(!all.truncated);
    assert_eq!(all.items[0].source_id, "wi_third");
    assert_eq!(all.items[1].source_id, "wi_second");
    assert_eq!(all.items[1].description, "w");
    assert_eq!(all.assessment_reason_code, "complete");

    let mut completed_current = snapshot.clone();
    completed_current.current_item_id = Some("wi_first".into());
    let mapped = normalized(&completed_current);
    let projection = project_bounded(&mapped, AssessmentStatus::ActionableWorkRemaining, 8, 200);
    assert_eq!(projection.items[0].source_id, "wi_second");
    assert_eq!(projection.current_item_id.as_deref(), Some(mapped.plan.items[1].id.as_str()));
}

struct Recorder {
    calls: Vec<(String, String)>,
    inner: Resolver,
}

impl EvidenceResolver for Recorder {
    fn resolve(&mut self, reference: &CodeggEvidenceRef, subject: &SubjectRevision) -> Result<ResolvedEvidence, String> {
        self.calls.push((reference.ref_id.clone(), subject.revision.clone()));
        self.inner.resolve(reference, subject)
    }
}

#[test]
fn resolutions_taken_in_request_order_map_as_the_resolver_does() {
    let mut snapshot = foundation();
    snapshot.items[1].evidence = vec![test_ref("job-2"), test_ref("job-3")];
    let requests = evidence_requests(&snapshot);
    let ids: Vec<&str> = requests.iter().map(|r| r.ref_id.as_str()).collect();
    assert_eq!(ids, vec!["job-1", "job-2", "job-3"]);

    let mut recorder = Recorder { calls: vec![], inner: resolver(EvidenceStatus::Passed) };
    let driven = normalize_snapshot(&snapshot, subject(), &mut recorder).unwrap();
    let expected_calls: Vec<(String, String)> =
        ids.iter().map(|id| (id.to_string(), subject().revision.clone())).collect();
    assert_eq!(recorder.calls, expected_calls);

    let mut clean = resolver(EvidenceStatus::Passed);
    let resolutions: Vec<Result<ResolvedEvidence, String>> =
        requests.iter().map(|r| clean.resolve(r, &subject())).collect();
    let resolved = normalize_resolved(&snapshot, subject(), resolutions.clone()).unwrap();
    assert_eq!(format!("{:?}", driven), format!("{:?}", resolved));

    let mut stale = resolutions.clone();
    stale[1] = Resolver { status: EvidenceStatus::Passed, fault: Fault::StaleSubject }.resolve(&requests[1], &subject());
    assert_eq!(
        normalize_resolved(&snapshot, subject(), stale).unwrap_err(),
        "resolver returned stale, mismatched, or reused evidence"
    );
    let mut reused = resolutions.clone();
    reused[2] = resolutions[0].clone();
    assert_eq!(
        normalize_resolved(&snapshot, subject(), reused).unwrap_err(),
        "resolver returned stale, mismatched, or reused evidence"
    );
    let mut refused_host = resolutions;
    refused_host[0] = Err("host refused".into());
    assert_eq!(normalize_resolved(&snapshot, subject(), refused_host).unwrap_err(), "host refused");

    let mut refused = snapshot.clone();
    refused.revision = -1;
    let mut untouched = Recorder { calls: vec![], inner: resolver(EvidenceStatus::Passed) };
    assert!(normalize_snapshot(&refused, subject(), &mut untouched).is_err());
    assert!(untouched.calls.is_empty());
}
