use eggplan::eggsearch::{
    self, Bundle, FetchTrust, Fetched, Gap, GapKind, Limits, Link, LinkReason, Source, TrustLevel, MAX_BUNDLE_BYTES,
};
use eggplan::eggwork::{
    self, ArtifactRecord, ExecutionFailure, ExecutionResult, ExecutionSnapshot, ExecutionState, FinalizationFailure,
    ResourceDimensionResult, ResourceResult, SandboxResult, MAX_SNAPSHOT_BYTES,
};
use eggplan::evidence::EvidenceStatus;
use eggplan::identity::{EvidenceObservationId, VerificationDigest};
use eggplan::model::{EvidenceKind, SubjectRevision, SubjectState};
use eggplan::spi::{ObservationContext, ProviderClass, SpiError};
use eggplan::text_map::TextMap;

fn work_context() -> ObservationContext {
    ObservationContext {
        observation_id: EvidenceObservationId::new("epe_eggwork_test").unwrap(),
        subject: SubjectRevision {
            subject_kind: "git".into(),
            repository_id: "epr_test".into(),
            revision: "abc".into(),
            state: SubjectState::Clean,
            dirty_digest: None,
        },
        requested_kind: EvidenceKind::Test,
        observed_at_unix_ms: 1_700_000_000_000,
        invocation_ref: None,
        verification_digest: Some(VerificationDigest::new(&format!("sha256:{}", "a".repeat(64))).unwrap()),
        metadata: TextMap::new(),
    }
}

fn search_context() -> ObservationContext {
    ObservationContext {
        observation_id: EvidenceObservationId::new("epe_eggsearch_test").unwrap(),
        requested_kind: EvidenceKind::Research,
        verification_digest: None,
        ..work_context()
    }
}

fn execution_result(state: ExecutionState) -> ExecutionResult {
    ExecutionResult {
        state,
        exit_code: if state == ExecutionState::Succeeded { Some(0) } else { None },
        failure: None,
        stdout_bytes: 11,
        stderr_bytes: 3,
        stdout_omitted: 0,
        stderr_omitted: 0,
        cleanup_warning: None,
        finalization_failure: None,
        artifact_count: 0,
        sandbox: None,
        resources: None,
    }
}

fn snapshot(state: ExecutionState, terminal: bool) -> ExecutionSnapshot {
    ExecutionSnapshot {
        schema_version: 1,
        execution_id: "exe-test".into(),
        generation: 1,
        state,
        result: if terminal { Some(execution_result(state)) } else { None },
    }
}

fn artifact(execution_id: &str) -> ArtifactRecord {
    ArtifactRecord {
        artifact_id: "art1".into(),
        execution_id: execution_id.into(),
        generation: 1,
        path: "out/a".into(),
        kind: "File".into(),
        digest: "b".repeat(64),
        size_bytes: 3,
        executable: false,
        created_unix_ms: 1,
        expires_unix_ms: 2,
    }
}

#[test]
fn states_map_and_failures_remain_distinct() {
    for (state, terminal, expected) in [
        (ExecutionState::Accepted, false, EvidenceStatus::InProgress),
        (ExecutionState::Preparing, false, EvidenceStatus::InProgress),
        (ExecutionState::Running, false, EvidenceStatus::InProgress),
        (ExecutionState::Cancelling, false, EvidenceStatus::InProgress),
        (ExecutionState::Succeeded, true, EvidenceStatus::Passed),
        (ExecutionState::Failed, true, EvidenceStatus::Failed),
        (ExecutionState::TimedOut, true, EvidenceStatus::Failed),
        (ExecutionState::Cancelled, true, EvidenceStatus::Skipped),
        (ExecutionState::Interrupted, true, EvidenceStatus::Inconclusive),
        (ExecutionState::Succeeded, false, EvidenceStatus::Inconclusive),
    ] {
        let input = snapshot(state, terminal);
        eggwork::validate_snapshot(&input).unwrap();
        assert_eq!(eggwork::normalize(&input, &[], &work_context()).unwrap().status(), expected, "{state:?}");
    }
}

#[test]
fn binding_artifact_identity_and_version_are_validated() {
    let mut input = snapshot(ExecutionState::Succeeded, true);
    input.result.as_mut().unwrap().artifact_count = 1;
    let mut no_binding = work_context();
    no_binding.verification_digest = None;
    assert_eq!(eggwork::normalize(&input, &[], &no_binding), Err(SpiError::MissingVerificationBinding));
    assert!(eggwork::normalize(&input, &[artifact("wrong")], &work_context()).is_err());
    assert!(eggwork::check_snapshot_size(MAX_SNAPSHOT_BYTES + 1).is_err());
    assert!(eggwork::check_snapshot_size(MAX_SNAPSHOT_BYTES).is_ok());
}

#[test]
fn artifact_refs_are_digest_bound_and_output_content_is_omitted() {
    let mut input = snapshot(ExecutionState::Succeeded, true);
    input.result.as_mut().unwrap().artifact_count = 1;
    let first = eggwork::normalize(&input, std::slice::from_ref(&artifact("exe-test")), &work_context()).unwrap();
    let second = eggwork::normalize(&input, &[artifact("exe-test")], &work_context()).unwrap();
    assert_eq!(first.content_digest(), second.content_digest());
    assert_eq!(first.artifacts()[0].digest.as_deref(), Some(format!("sha256:{}", "b".repeat(64)).as_str()));
    assert_eq!(first.artifacts()[0].reference, "eggwork:artifact:art1");
    assert!(!first.result_metadata().contains_key("stdout"));
    assert_eq!(first.result_metadata().get("stdout_bytes").map(String::as_str), Some("11"));
}

#[test]
fn eggwork_descriptor_is_an_execution_adapter() {
    let d = eggwork::descriptor();
    assert_eq!(d.provider_id.as_str(), "epp_eggwork");
    assert_eq!(d.provider_class, ProviderClass::Execution);
    assert!(d.allowed_kinds.contains(EvidenceKind::Benchmark));
    assert!(!d.allowed_kinds.contains(EvidenceKind::Research));
    d.validate().unwrap();
}

#[test]
fn eggwork_metadata_records_outcomes_not_output() {
    let mut input = snapshot(ExecutionState::Failed, true);
    {
        let r = input.result.as_mut().unwrap();
        r.exit_code = Some(-9);
        r.failure = Some(ExecutionFailure::ResourceLimit);
        r.cleanup_warning = Some("leftover temp dir".into());
        r.sandbox = Some(SandboxResult::Applied { profile: "strict".into() });
        r.resources = Some(ResourceResult {
            memory_bytes: ResourceDimensionResult::LimitExceeded { backend: "cgroup".into() },
            cpu_millis: ResourceDimensionResult::NotRequested,
            pids: ResourceDimensionResult::NotApplied { reason: "unsupported".into() },
        });
    }
    let o = eggwork::normalize(&input, &[], &work_context()).unwrap();
    let md = o.result_metadata();
    assert_eq!(md.get("exit_code").map(String::as_str), Some("-9"));
    assert_eq!(md.get("failure_class").map(String::as_str), Some("resourcelimit"));
    assert_eq!(md.get("native_state").map(String::as_str), Some("failed"));
    assert_eq!(md.get("generation").map(String::as_str), Some("1"));
    assert_eq!(md.get("cleanup_warning").map(String::as_str), Some("present"));
    assert_eq!(md.get("sandbox_outcome").map(String::as_str), Some("applied"));
    assert_eq!(md.get("resource_memory").map(String::as_str), Some("limit_exceeded"));
    assert_eq!(md.get("resource_cpu").map(String::as_str), Some("not_requested"));
    assert_eq!(md.get("resource_pids").map(String::as_str), Some("not_applied"));
    assert_eq!(md.get("artifact_count").map(String::as_str), Some("0"));
    assert_eq!(o.status(), EvidenceStatus::Failed);

    let mut sandboxed = snapshot(ExecutionState::Succeeded, true);
    sandboxed.result.as_mut().unwrap().sandbox = Some(SandboxResult::Failed { reason: "denied".into() });
    assert_eq!(eggwork::normalize(&sandboxed, &[], &work_context()).unwrap().status(), EvidenceStatus::Failed);

    let mut finalization = snapshot(ExecutionState::Succeeded, true);
    finalization.result.as_mut().unwrap().finalization_failure = Some(FinalizationFailure::ArtifactCapture);
    finalization.result.as_mut().unwrap().sandbox = Some(SandboxResult::Failed { reason: "denied".into() });
    let o = eggwork::normalize(&finalization, &[], &work_context()).unwrap();
    assert_eq!(o.status(), EvidenceStatus::Inconclusive);
    assert_eq!(o.result_metadata().get("finalization_failure").map(String::as_str), Some("artifactcapture"));
}

#[test]
fn eggwork_refusals_are_ordered_and_explicit() {
    let mut version = snapshot(ExecutionState::Succeeded, true);
    version.schema_version = 2;
    assert_eq!(
        eggwork::normalize(&version, &[], &work_context()),
        Err(SpiError::Invalid("unsupported Eggwork schema version"))
    );
    let mut warning = snapshot(ExecutionState::Succeeded, true);
    warning.result.as_mut().unwrap().cleanup_warning = Some("é".repeat(65));
    assert_eq!(eggwork::normalize(&warning, &[], &work_context()), Err(SpiError::Invalid("Eggwork warning exceeds bound")));
    let mut zero = snapshot(ExecutionState::Succeeded, true);
    zero.generation = 0;
    assert_eq!(
        eggwork::normalize(&zero, &[], &work_context()),
        Err(SpiError::Invalid("invalid Eggwork identity or artifact count"))
    );
    let mut bad_id = snapshot(ExecutionState::Succeeded, true);
    bad_id.execution_id = "exe/1".into();
    assert!(eggwork::normalize(&bad_id, &[], &work_context()).is_err());
    let mut counted = snapshot(ExecutionState::Succeeded, true);
    counted.result.as_mut().unwrap().artifact_count = 2;
    assert_eq!(
        eggwork::normalize(&counted, &[artifact("exe-test")], &work_context()),
        Err(SpiError::Invalid("Eggwork artifact count mismatch"))
    );
    let mut mismatched = snapshot(ExecutionState::Succeeded, true);
    mismatched.result.as_mut().unwrap().state = ExecutionState::Failed;
    assert_eq!(
        eggwork::normalize(&mismatched, &[], &work_context()),
        Err(SpiError::Invalid("Eggwork snapshot/result state mismatch"))
    );
    let mut input = snapshot(ExecutionState::Succeeded, true);
    input.result.as_mut().unwrap().artifact_count = 2;
    let invalid = Err(SpiError::Invalid("invalid or mismatched Eggwork artifact"));
    assert_eq!(eggwork::normalize(&input, &[artifact("exe-test"), artifact("exe-test")], &work_context()), invalid);
    for path in ["/abs", "a//b", "a/../b", "./a", "a\\b", "a/"] {
        let mut bad = artifact("exe-test");
        bad.path = path.into();
        input.result.as_mut().unwrap().artifact_count = 1;
        assert_eq!(eggwork::normalize(&input, &[bad], &work_context()), invalid, "{path}");
    }
    let mut upper = artifact("exe-test");
    upper.digest = "B".repeat(64);
    assert_eq!(eggwork::normalize(&input, &[upper], &work_context()), invalid);
    let mut expired = artifact("exe-test");
    expired.expires_unix_ms = 0;
    assert_eq!(eggwork::normalize(&input, &[expired], &work_context()), invalid);
    let mut directory = artifact("exe-test");
    directory.kind = "Directory".into();
    assert_eq!(eggwork::normalize(&input, &[directory], &work_context()), invalid);
    let mut nested = artifact("exe-test");
    nested.path = "out/nested/file.txt".into();
    assert!(eggwork::normalize(&input, &[nested], &work_context()).is_ok());
    assert!(eggwork::check_artifact_count(65).is_err());
    assert!(eggwork::check_artifacts_size(MAX_SNAPSHOT_BYTES + 1).is_err());
}

fn source(trust: TrustLevel) -> Source {
    Source { source_id: "src_a".into(), provider_id: Some("web".into()), trust, stable: Some(true) }
}

fn bundle(trust: TrustLevel, truncated: bool, gaps: Vec<Gap>, sources: usize) -> Bundle {
    let fetched = Fetched {
        fetch_id: "fetch_a".into(),
        source_id: Some("src_a".into()),
        fetched: true,
        truncated,
        trust: FetchTrust::ExternalUntrusted,
        line_start: Some(1),
        line_end: Some(2),
    };
    Bundle {
        bundle_id: "bundle_abcd".into(),
        created_at: "2026-09-24T00:00:00Z".into(),
        sources: (0..sources).map(|_| source(trust)).collect(),
        fetched_items: if sources == 0 { vec![] } else { vec![fetched] },
        source_links: vec![],
        gaps,
        limits: Limits { sources_truncated: false, fetched_items_truncated: false, total_chars_exceeded: truncated },
        warning_count: 0,
        structured_warning_count: 0,
        research_claim_count: None,
        research_conflict_count: None,
    }
}

fn gap(kind: GapKind) -> Gap {
    Gap { kind, source_id: None, provider_id: None, affected_source_ids: vec![] }
}

#[test]
fn empty_gapped_truncated_and_unknown_contracts_are_truthful() {
    let empty = eggsearch::normalize(&bundle(TrustLevel::ExternalUntrusted, false, vec![], 0), &search_context()).unwrap();
    assert_eq!(empty.status(), EvidenceStatus::Unavailable);
    let gapped = eggsearch::normalize(
        &bundle(TrustLevel::ExternalUntrusted, false, vec![gap(GapKind::AllResultsExternalUntrusted)], 1),
        &search_context(),
    )
    .unwrap();
    assert_eq!(gapped.status(), EvidenceStatus::Inconclusive);
    let truncated = eggsearch::normalize(&bundle(TrustLevel::ExternalUntrusted, true, vec![], 1), &search_context()).unwrap();
    assert_eq!(truncated.status(), EvidenceStatus::Inconclusive);
    assert!(eggsearch::check_bundle_size(MAX_BUNDLE_BYTES + 1).is_err());
}

#[test]
fn provenance_is_kept_without_copying_content_or_promoting_trust() {
    let parsed = bundle(TrustLevel::LocalTrusted, false, vec![], 1);
    let first = eggsearch::normalize(&parsed, &search_context()).unwrap();
    let second = eggsearch::normalize(&parsed, &search_context()).unwrap();
    assert_eq!(first.content_digest(), second.content_digest());
    assert_eq!(first.status(), EvidenceStatus::Passed);
    assert_eq!(first.provider_id().as_str(), "epp_eggsearch");
    assert_eq!(first.result_metadata().get("trust_local_count").map(String::as_str), Some("1"));
    assert_eq!(first.result_metadata().get("source_trust").map(String::as_str), Some("external_untrusted"));
    assert_eq!(first.artifacts()[0].reference, "eggsearch:bundle:bundle_abcd");
    for entry in first.result_metadata().entries() {
        for value in ["secret.invalid", "secret title", "private fetched body", "private query", "do not persist this"] {
            assert!(!entry.0.contains(value) && !entry.1.contains(value));
        }
    }
}

#[test]
fn eggsearch_gapped_bundle_keeps_provenance_metadata() {
    let parsed = bundle(TrustLevel::LocalTrusted, false, vec![gap(GapKind::MissingTests), gap(GapKind::MissingTests)], 1);
    let first = eggsearch::normalize(&parsed, &search_context()).unwrap();
    let second = eggsearch::normalize(&parsed, &search_context()).unwrap();
    assert_eq!(first.content_digest(), second.content_digest());
    assert_eq!(first.status(), EvidenceStatus::Inconclusive);
    assert_eq!(first.provider_id().as_str(), "epp_eggsearch");
    let md = first.result_metadata();
    assert_eq!(md.get("trust_local_count").map(String::as_str), Some("1"));
    assert_eq!(md.get("source_trust").map(String::as_str), Some("external_untrusted"));
    assert_eq!(md.get("gap_missing_tests").map(String::as_str), Some("2"));
    assert_eq!(md.get("gap_count").map(String::as_str), Some("2"));
    assert_eq!(md.get("line_range_count").map(String::as_str), Some("1"));
    assert_eq!(md.get("bundle_truncated").map(String::as_str), Some("false"));
    assert_eq!(md.get("research_claim_count").map(String::as_str), Some("0"));
    assert_eq!(
        md.get("source_ids_digest").map(String::as_str),
        Some(eggplan::digest::digest_of_text("src_a").as_str())
    );
    assert_eq!(
        md.get("fetch_ids_digest").map(String::as_str),
        Some("sha256:".to_string() + &eggplan::digest::hex_sha256(b"fetch_a")).as_deref()
    );
    assert_eq!(first.artifacts()[0].reference, "eggsearch:bundle:bundle_abcd");
    assert_eq!(first.artifacts()[0].digest, None);
}

#[test]
fn eggsearch_sorted_identifier_digests_join_with_nul() {
    let mut two = bundle(TrustLevel::Unknown, false, vec![gap(GapKind::ProviderDegraded)], 1);
    two.sources.push(Source { source_id: "src_0".into(), provider_id: None, trust: TrustLevel::Unknown, stable: None });
    two.source_links.push(Link { source_id: "src_0".into(), fetch_id: "fetch_a".into(), link_reason: LinkReason::Explicit });
    let o = eggsearch::normalize(&two, &search_context()).unwrap();
    let md = o.result_metadata();
    assert_eq!(md.get("source_ids_digest").map(String::as_str), Some(eggplan::digest::digest_of_text("src_0\0src_a").as_str()));
    assert_eq!(md.get("provider_ids_digest").map(String::as_str), Some(eggplan::digest::digest_of_text("web").as_str()));
    assert_eq!(md.get("trust_unknown_count").map(String::as_str), Some("2"));
    assert_eq!(md.get("stable_source_count").map(String::as_str), Some("1"));
    assert_eq!(md.get("link_explicit_count").map(String::as_str), Some("1"));
    assert_eq!(md.get("link_url_match_count").map(String::as_str), Some("0"));
    assert_eq!(md.get("gap_provider_degraded").map(String::as_str), Some("1"));
}

#[test]
fn eggsearch_refusals_are_ordered_and_explicit() {
    let ok = bundle(TrustLevel::Unknown, false, vec![gap(GapKind::FetchFailed)], 1);
    let invalid = |b: &Bundle| eggsearch::normalize(b, &search_context());
    let mut stamp = ok.clone();
    stamp.created_at = "2026-09-24 00:00:00Z".into();
    assert_eq!(invalid(&stamp), Err(SpiError::Invalid("invalid or out-of-bounds Eggsearch bundle")));
    let mut id = ok.clone();
    id.bundle_id = "bundle.a".into();
    assert_eq!(invalid(&id), Err(SpiError::Invalid("invalid or out-of-bounds Eggsearch bundle")));
    let mut duplicate = ok.clone();
    duplicate.sources.push(source(TrustLevel::Unknown));
    assert_eq!(invalid(&duplicate), Err(SpiError::Invalid("invalid or duplicate Eggsearch source")));
    let mut lines = ok.clone();
    lines.fetched_items[0].line_start = Some(3);
    assert_eq!(invalid(&lines), Err(SpiError::Invalid("invalid Eggsearch fetched item")));
    let mut affected = ok.clone();
    affected.gaps[0].affected_source_ids = vec!["src_missing".into()];
    assert_eq!(invalid(&affected), Err(SpiError::Invalid("Eggsearch gap references unknown source")));
    let mut fetch_source = ok.clone();
    fetch_source.fetched_items[0].source_id = Some("src_missing".into());
    assert_eq!(invalid(&fetch_source), Err(SpiError::Invalid("Eggsearch fetch references unknown source")));
    let mut twice = ok.clone();
    twice.fetched_items.push(twice.fetched_items[0].clone());
    assert_eq!(invalid(&twice), Err(SpiError::Invalid("duplicate Eggsearch fetch ID")));
    let mut link = ok.clone();
    link.source_links.push(Link { source_id: "src_a".into(), fetch_id: "fetch_b".into(), link_reason: LinkReason::UrlMatch });
    assert_eq!(invalid(&link), Err(SpiError::Invalid("Eggsearch link references unknown identity")));
    let mut kind = search_context();
    kind.requested_kind = EvidenceKind::Test;
    assert_eq!(eggsearch::normalize(&ok, &kind), Err(SpiError::UnsupportedKind));
    assert!(invalid(&ok).is_ok());
    let d = eggsearch::descriptor();
    assert_eq!(d.provider_id.as_str(), "epp_eggsearch");
    assert_eq!(d.provider_class, ProviderClass::Research);
}
