use eggplan::assessment::{assess_plan, AssessmentReason, AssessmentStatus, ItemAssessment, PlanAssessment};
use eggplan::report::{assessment_data, MAX_ASSESSMENT_ROWS};
use eggplan::closure::{ClosureCandidate, ClosureRecord, ProviderPolicyEntry};
use eggplan::digest::digest_json;
use eggplan::evidence::{EvidenceObservation, EvidenceObservationInput, EvidenceStatus, ProviderDescriptor, ProviderRegistry};
use eggplan::identity::{ClosureId, CriterionId, EvidenceObservationId, EvidenceProviderId, PlanId, PlanItemId, VerificationDigest};
use eggplan::check::{assessment_state, check_plan, check_recovery};
use eggplan::cli::CliFailure;
use eggplan::ledger::{
    closure_file_action, ledger_entry, names_record, observation_append, AppendAction, AppendRefusal, ClosureFile,
    ClosureFileAction, LedgerEntry,
    admit_closure, check_drift, check_stored_plan, pending_action, registry_from_policy, verify_stored_closure,
    ClosureRefusal, PendingAction, StoreOptions, StoredPlanFault, MAX_PLAN_FILE_BYTES,
};
use eggplan::model::{
    AcceptanceCriterion, EvidenceCardinality, EvidenceKind, EvidenceRequirement, KindSet, Plan, PlanItem, PlanItemStatus,
    PlanStatus, SubjectPolicy, SubjectRevision, SubjectState,
};
use eggplan::schema::plan_to_json;
use eggplan::text_map::TextMap;

fn binding() -> VerificationDigest {
    VerificationDigest::new(&format!("sha256:{}", "a".repeat(64))).unwrap()
}

fn subject(revision: &str) -> SubjectRevision {
    SubjectRevision {
        subject_kind: "git".into(),
        repository_id: "epr_ledger".into(),
        revision: revision.into(),
        state: SubjectState::Clean,
        dirty_digest: None,
    }
}

fn plan() -> Plan {
    Plan {
        schema_version: eggplan::SCHEMA_VERSION,
        id: PlanId::new("ep_ledger").unwrap(),
        revision: 3,
        objective: "close with evidence".into(),
        status: PlanStatus::Active,
        provenance: TextMap::new(),
        items: vec![PlanItem {
            id: PlanItemId::new("epi_done").unwrap(),
            position: 0,
            parent: None,
            dependencies: vec![],
            status: PlanItemStatus::Completed,
            description: "done".into(),
            criteria: vec![AcceptanceCriterion {
                id: CriterionId::new("epc_tests").unwrap(),
                statement: "tests pass".into(),
                human_judgment_allowed: false,
                requirements: vec![EvidenceRequirement {
                    description: "run tests".into(),
                    kind: EvidenceKind::Test,
                    provider: None,
                    subject_policy: SubjectPolicy::Exact,
                    cardinality: EvidenceCardinality::Any,
                    min_count: 1,
                    allow_human_judgment: false,
                    expected_verification_digest: Some(binding()),
                }],
            }],
            blocker: None,
            next_action: None,
        }],
        subject: None,
    }
}

fn observation(id: &str, s: SubjectRevision) -> EvidenceObservation {
    EvidenceObservation::finalize(EvidenceObservationInput {
        id: EvidenceObservationId::new(id).unwrap(),
        provider_id: EvidenceProviderId::new("epp_host").unwrap(),
        kind: EvidenceKind::Test,
        status: EvidenceStatus::Passed,
        subject: s,
        observed_at_unix_ms: 5,
        invocation_ref: None,
        verification_digest: Some(binding()),
        result_metadata: TextMap::new(),
        artifacts: vec![],
    })
    .unwrap()
}

fn policy() -> Vec<ProviderPolicyEntry> {
    vec![ProviderPolicyEntry {
        provider_id: EvidenceProviderId::new("epp_host").unwrap(),
        class: "host".into(),
        allowed_kinds: KindSet::from_kinds(&vec![EvidenceKind::Test]),
    }]
}

fn registry() -> ProviderRegistry {
    let mut r = ProviderRegistry::new();
    r.register_trusted(ProviderDescriptor::new(EvidenceProviderId::new("epp_host").unwrap(), "host", &[EvidenceKind::Test]).unwrap())
        .unwrap();
    r
}

fn candidate(p: &Plan, observations: &[EvidenceObservation]) -> ClosureCandidate {
    let assessment = assess_plan(p, &subject("rev1"), observations, &registry());
    assert_eq!(assessment.status, AssessmentStatus::Complete);
    ClosureCandidate::build(p, subject("rev1"), assessment, observations, &[], policy(), 10).unwrap()
}

#[test]
fn admitted_closure_advances_to_closed_and_reads_back() {
    let p = plan();
    let obs = vec![observation("epe_one", subject("rev1"))];
    let c = candidate(&p, &obs);
    let closed = admit_closure(p.clone(), &c, &subject("rev1"), &obs, &[]).unwrap();
    assert_eq!(closed.revision, 4);
    assert_eq!(closed.status, PlanStatus::Closed);
    assert_eq!(closed.id.as_str(), "ep_ledger");
    assert!(check_drift(&subject("rev1"), &subject("rev1"), &c).is_ok());
    assert_eq!(check_drift(&subject("rev1"), &subject("rev2"), &c), Err(ClosureRefusal::SubjectDrift));
    let record = ClosureRecord::finalize(ClosureId::new("epcl_one").unwrap(), c.clone(), &closed, 11).unwrap();
    let back = verify_stored_closure(closed.clone(), &record, &obs, &[]).unwrap();
    assert_eq!(back, closed);
    assert_eq!(
        verify_stored_closure(closed.clone(), &record, &[], &[]),
        Err("closure observation epe_one is missing or changed".to_string())
    );
    let other = vec![observation("epe_one", subject("rev2"))];
    assert_eq!(
        verify_stored_closure(closed.clone(), &record, &other, &[]),
        Err("closure observation epe_one is missing or changed".to_string())
    );
    let mut reopened = closed.clone();
    reopened.status = PlanStatus::Active;
    assert!(verify_stored_closure(reopened, &record, &obs, &[]).is_err());
}

#[test]
fn stale_changed_or_unreproducible_candidates_are_refused() {
    let p = plan();
    let obs = vec![observation("epe_one", subject("rev1"))];
    let c = candidate(&p, &obs);
    assert_eq!(admit_closure(p.clone(), &c, &subject("rev2"), &obs, &[]), Err(ClosureRefusal::SubjectStale));
    let mut advanced = p.clone();
    advanced.revision = 4;
    assert_eq!(admit_closure(advanced, &c, &subject("rev1"), &obs, &[]), Err(ClosureRefusal::InvalidUpdate));
    let mut edited = p.clone();
    edited.objective = "changed".into();
    assert_eq!(admit_closure(edited, &c, &subject("rev1"), &obs, &[]), Err(ClosureRefusal::InvalidUpdate));
    assert_eq!(admit_closure(p.clone(), &c, &subject("rev1"), &[], &[]), Err(ClosureRefusal::InvalidUpdate));
    let twice = vec![obs[0].clone(), obs[0].clone()];
    assert_eq!(
        admit_closure(p.clone(), &c, &subject("rev1"), &twice, &[]),
        Err(ClosureRefusal::Lineage("duplicate observation ID".into()))
    );
    let mut tampered = c.clone();
    tampered.provider_policy_digest = format!("sha256:{}", "0".repeat(64));
    assert_eq!(admit_closure(p.clone(), &tampered, &subject("rev1"), &obs, &[]), Err(ClosureRefusal::InvalidUpdate));
    let mut untrusted = c.clone();
    untrusted.provider_policy.clear();
    assert_eq!(admit_closure(p.clone(), &untrusted, &subject("rev1"), &obs, &[]), Err(ClosureRefusal::InvalidUpdate));
    let mut repeated = c.clone();
    repeated.provider_policy.push(repeated.provider_policy[0].clone());
    assert!(matches!(
        admit_closure(p.clone(), &repeated, &subject("rev1"), &obs, &[]),
        Err(ClosureRefusal::Provider(_))
    ));
}

#[test]
fn policy_registry_refuses_repeated_providers() {
    assert!(registry_from_policy(&policy()).is_ok());
    let mut twice = policy();
    twice.push(policy().remove(0));
    assert!(registry_from_policy(&twice).is_err());
    let mut empty_class = policy();
    empty_class[0].class = String::new();
    assert!(registry_from_policy(&empty_class).is_err());
}

#[test]
fn stored_plan_records_are_checked_in_order() {
    let p = plan();
    let digest = digest_json(&plan_to_json(&p));
    let id = PlanId::new("ep_ledger").unwrap();
    assert!(check_stored_plan(100, 1, &digest, &p, &id).is_ok());
    assert_eq!(
        check_stored_plan(MAX_PLAN_FILE_BYTES + 1, 1, &digest, &p, &id),
        Err(StoredPlanFault::Corrupt("plan file exceeds 16 MiB storage limit".into()))
    );
    assert_eq!(check_stored_plan(100, 2, &digest, &p, &id), Err(StoredPlanFault::Corrupt("unknown storage schema 2".into())));
    assert_eq!(
        check_stored_plan(100, 1, "sha256:00", &p, &id),
        Err(StoredPlanFault::Corrupt("plan content digest mismatch".into()))
    );
    assert_eq!(
        check_stored_plan(100, 1, &digest, &p, &PlanId::new("ep_other").unwrap()),
        Err(StoredPlanFault::Corrupt("stored plan ID differs from directory ID".into()))
    );
    let mut invalid = p.clone();
    invalid.objective = String::new();
    assert!(matches!(check_stored_plan(100, 1, &digest, &invalid, &id), Err(StoredPlanFault::InvalidPlan(_))));
    assert_eq!(StoreOptions::default().lock_timeout_ms, 5000);
}

#[test]
fn illegal_lifecycle_updates_are_rejected() {
    let mut p = plan();
    p.status = PlanStatus::Draft;
    p.revision = 0;
    p.items[0].status = PlanItemStatus::Pending;
    let mut closed = p.clone();
    closed.revision = 1;
    closed.status = PlanStatus::Closed;
    assert_eq!(eggplan::ledger::check_swap(0, &p, &closed), Err(eggplan::ledger::SwapRefusal::InvalidTransition));
    let mut completed = p.clone();
    completed.revision = 1;
    completed.items[0].status = PlanItemStatus::Completed;
    assert_eq!(eggplan::ledger::check_swap(0, &p, &completed), Err(eggplan::ledger::SwapRefusal::InvalidTransition));
    let active = plan();
    let mut closing = active.clone();
    closing.revision = 4;
    closing.status = PlanStatus::Closed;
    assert_eq!(
        eggplan::ledger::check_swap(3, &active, &closing),
        Err(eggplan::ledger::SwapRefusal::GuardedClosureRequired)
    );
}

#[test]
fn check_reports_state_codes_and_pending_recovery() {
    let p = plan();
    let obs = vec![observation("epe_one", subject("rev1"))];
    let missing = check_plan(&p, None, &obs, &[], None, &registry()).unwrap();
    assert_eq!(missing.state, "unavailable");
    assert_eq!(missing.assessment_status, None);
    assert_eq!(missing.reason_codes, vec!["current_subject_unavailable".to_string()]);
    assert!(!missing.current_subject_available);

    let checked = check_plan(&p, Some(&subject("rev1")), &obs, &[], None, &registry()).unwrap();
    assert_eq!(checked.state, "complete");
    assert_eq!(checked.assessment_status, Some(AssessmentStatus::Complete));
    assert!(checked.current_subject_available);

    let c = candidate(&p, &obs);
    let closed = admit_closure(p.clone(), &c, &subject("rev1"), &obs, &[]).unwrap();
    let record = ClosureRecord::finalize(ClosureId::new("epcl_one").unwrap(), c.clone(), &closed, 11).unwrap();
    let drifted = check_plan(&closed, Some(&subject("rev2")), &obs, &[], Some(&record), &registry()).unwrap();
    assert_eq!(drifted.reason_codes[0], "closure_subject_stale");
    assert!(drifted.reason_codes[1..].windows(2).all(|w| w[0] < w[1]));
    let steady = check_plan(&closed, Some(&subject("rev1")), &obs, &[], Some(&record), &registry()).unwrap();
    assert!(!steady.reason_codes.contains(&"closure_subject_stale".to_string()));

    let closed_digest = digest_json(&plan_to_json(&closed));
    let source_digest = digest_json(&plan_to_json(&p));
    assert_eq!(pending_action(&closed, &closed_digest, &record, false), Ok(PendingAction::Promote));
    assert_eq!(pending_action(&p, &source_digest, &record, false), Ok(PendingAction::Discard));
    assert!(pending_action(&closed, &closed_digest, &record, true).is_err());
    assert!(pending_action(&closed, &source_digest, &record, false).is_err());

    let pending = vec![PlanId::new("ep_a").unwrap(), PlanId::new("ep_b").unwrap()];
    assert_eq!(
        check_recovery(&pending, false, false),
        Err(CliFailure {
            command: "check".into(),
            code: "recovery_required".into(),
            message: "pending closures require explicit --recover-pending: ep_a,ep_b".into(),
            json: false,
        })
    );
    assert_eq!(check_recovery(&pending, true, false), Ok(true));
    assert_eq!(check_recovery(&vec![], false, true), Ok(false));

    assert_eq!(assessment_state(AssessmentStatus::Complete, &obs), "complete");
    assert_eq!(assessment_state(AssessmentStatus::EvidenceMissingOrUnavailable, &obs), "incomplete");
    assert_eq!(assessment_state(AssessmentStatus::ActionableWorkRemaining, &[]), "incomplete");
}

#[test]
fn assessment_report_is_bounded_with_distinct_sorted_codes() {
    let items: Vec<ItemAssessment> = (0..101)
        .map(|i| ItemAssessment {
            item_id: PlanItemId::new(&format!("epi_{i}")).unwrap(),
            status: AssessmentStatus::Blocked,
            criteria: vec![],
            reasons: vec![AssessmentReason::PlanBlocked, AssessmentReason::MissingObservation, AssessmentReason::PlanBlocked],
        })
        .collect();
    let assessment = PlanAssessment {
        plan_id: PlanId::new("ep_report").unwrap(),
        plan_revision: 9,
        subject: subject("rev1"),
        status: AssessmentStatus::Blocked,
        items,
        reasons: vec![AssessmentReason::NoPlanItems, AssessmentReason::InvalidPlan, AssessmentReason::NoPlanItems],
    };
    let data = assessment_data(&assessment);
    assert_eq!(data.plan_id.as_str(), "ep_report");
    assert_eq!(data.plan_revision, 9);
    assert_eq!(data.status, AssessmentStatus::Blocked);
    assert_eq!(data.reason_codes, vec!["invalid_plan".to_string(), "no_plan_items".to_string()]);
    assert_eq!(data.total_items, 101);
    assert!(data.items_truncated);
    assert_eq!(data.items.len(), MAX_ASSESSMENT_ROWS);
    assert_eq!(data.items[0].item_id.as_str(), "epi_0");
    assert_eq!(data.items[0].reason_codes, vec!["missing_observation".to_string(), "plan_blocked".to_string()]);
    assert_eq!(data.items[0].total_reasons, 2);
    assert!(!data.items[0].reasons_truncated);

    let p = plan();
    let small = assessment_data(&assess_plan(&p, &subject("rev1"), &[], &registry()));
    assert_eq!(small.total_items, 1);
    assert!(!small.items_truncated);
    assert_eq!(small.items[0].item_id.as_str(), "epi_done");
}

#[test]
fn ledger_names_closure_files_and_appends_follow_the_store_rules() {
    assert_eq!(ledger_entry(".tmp-123"), LedgerEntry::Staging);
    assert_eq!(ledger_entry("epe_one.json"), LedgerEntry::Record);
    assert_eq!(ledger_entry("notes.txt"), LedgerEntry::Unexpected);
    assert_eq!(ledger_entry(".json"), LedgerEntry::Record);
    assert_eq!(ledger_entry("json"), LedgerEntry::Unexpected);
    assert!(names_record("epe_one.json", "epe_one"));
    assert!(!names_record("epe_two.json", "epe_one"));
    assert!(!names_record("epe_one.jsonx", "epe_one"));
    assert!(!names_record("epe_one", "epe_one"));

    assert_eq!(closure_file_action(true, true, ClosureFile::Regular), ClosureFileAction::RecoveryRequired);
    assert_eq!(closure_file_action(false, true, ClosureFile::Regular), ClosureFileAction::Verify);
    assert_eq!(
        closure_file_action(false, true, ClosureFile::Other),
        ClosureFileAction::Corrupt("closed plan has no valid closure record".into())
    );
    assert_eq!(
        closure_file_action(false, true, ClosureFile::Missing),
        ClosureFileAction::Corrupt("closed plan has no valid closure record".into())
    );
    assert_eq!(
        closure_file_action(false, false, ClosureFile::Regular),
        ClosureFileAction::Corrupt("closure record exists for non-closed plan".into())
    );
    assert_eq!(closure_file_action(false, false, ClosureFile::Missing), ClosureFileAction::Accept);
    assert_eq!(closure_file_action(false, false, ClosureFile::Unreadable), ClosureFileAction::ReadFailed);

    let one = observation("epe_one", subject("rev1"));
    let same = observation("epe_one", subject("rev1"));
    let changed = observation("epe_one", subject("rev2"));
    assert_eq!(observation_append(0, None, &one), Ok(AppendAction::Write));
    assert_eq!(observation_append(1, Some(&same), &one), Ok(AppendAction::AlreadyStored));
    assert_eq!(observation_append(1, Some(&changed), &one), Err(AppendRefusal::Conflict));
    assert_eq!(
        observation_append(eggplan::bounds::MAX_OBSERVATIONS_PER_PLAN, None, &one),
        Err(AppendRefusal::Limit)
    );
}

#[test]
fn assessment_is_the_same_for_reordered_observations_with_distinct_ids() {
    let p = plan();
    let a = observation("epe_a", subject("rev1"));
    let b = observation("epe_b", subject("rev2"));
    let forward = assess_plan(&p, &subject("rev1"), &[a.clone(), b.clone()], &registry());
    let backward = assess_plan(&p, &subject("rev1"), &[b, a], &registry());
    assert_eq!(forward, backward);
}
