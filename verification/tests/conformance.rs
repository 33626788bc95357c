use eggplan::evidence::{EvidenceStatus, ProviderRegistry};
use eggplan::identity::{EvidenceObservationId, EvidenceProviderId, VerificationDigest};
use eggplan::model::{ArtifactRef, EvidenceKind, SubjectRevision, SubjectState};
use eggplan::spi::{
    finalize_observation, is_sensitive_key, looks_like_secret_or_endpoint, AdapterDescriptor, Capabilities,
    NormalizedProviderResult, ObservationContext, ProviderClass, SourceTrust, SpiError,
};
use eggplan::text_map::TextMap;
use eggplan::verification::{verification_digest, SpecValue};

const RUNNING_CAPS: Capabilities =
    Capabilities { supports_in_progress: true, artifacts: true, verification_binding: true, research_trust_metadata: true };

fn descriptor(provider: &str, class: ProviderClass, kinds: &[EvidenceKind]) -> AdapterDescriptor {
    AdapterDescriptor::new(EvidenceProviderId::new(provider).unwrap(), class, kinds, "1.0", RUNNING_CAPS).unwrap()
}

fn context(kind: EvidenceKind, binding: Option<VerificationDigest>) -> ObservationContext {
    ObservationContext {
        observation_id: EvidenceObservationId::new("epe_spi_test").unwrap(),
        subject: SubjectRevision {
            subject_kind: "git".into(),
            repository_id: "epr_fixture_repo".into(),
            revision: "abc123".into(),
            state: SubjectState::Clean,
            dirty_digest: None,
        },
        requested_kind: kind,
        observed_at_unix_ms: 1_700_000_000_000,
        invocation_ref: Some("native:fixture/1".into()),
        verification_digest: binding,
        metadata: TextMap::new(),
    }
}

fn result(status: EvidenceStatus) -> NormalizedProviderResult {
    NormalizedProviderResult { status, source_trust: None, result_metadata: TextMap::new(), artifacts: vec![] }
}

fn binding() -> VerificationDigest {
    VerificationDigest::new(&format!("sha256:{}", "c".repeat(64))).unwrap()
}

#[test]
fn status_normalization_preserves_native_outcomes_and_content_digest() {
    let descriptor = descriptor("epp_native", ProviderClass::Other, &[EvidenceKind::Artifact]);
    for status in [
        EvidenceStatus::InProgress,
        EvidenceStatus::Failed,
        EvidenceStatus::NotRun,
        EvidenceStatus::Skipped,
        EvidenceStatus::Blocked,
        EvidenceStatus::Unavailable,
        EvidenceStatus::Inconclusive,
    ] {
        let observation =
            finalize_observation(&descriptor, &context(EvidenceKind::Artifact, None), &result(status)).unwrap();
        assert_eq!(observation.status(), status);
    }
    let mut failed = result(EvidenceStatus::Failed);
    failed.result_metadata.insert("exit_code".into(), "7".into());
    let first = finalize_observation(&descriptor, &context(EvidenceKind::Artifact, None), &failed).unwrap();
    let second = finalize_observation(&descriptor, &context(EvidenceKind::Artifact, None), &failed).unwrap();
    assert_eq!(first.content_digest(), second.content_digest());
    assert_ne!(
        first.content_digest(),
        finalize_observation(&descriptor, &context(EvidenceKind::Artifact, None), &result(EvidenceStatus::Unavailable))
            .unwrap()
            .content_digest()
    );
}

#[test]
fn external_untrusted_research_cannot_become_passed_by_text() {
    let d = descriptor("epp_eggsearch", ProviderClass::Research, &[EvidenceKind::Research]);
    let mut external = result(EvidenceStatus::Inconclusive);
    external.source_trust = Some(SourceTrust::ExternalUntrusted);
    external.result_metadata.insert("gap_count".into(), "1".into());
    let observation = finalize_observation(&d, &context(EvidenceKind::Research, None), &external).unwrap();
    assert_eq!(observation.status(), EvidenceStatus::Inconclusive);
    assert_eq!(
        observation.result_metadata().get("source_trust").map(String::as_str),
        Some("external_untrusted")
    );
    assert_eq!(observation.result_metadata().get("gap_count").map(String::as_str), Some("1"));
    external.status = EvidenceStatus::Passed;
    assert!(finalize_observation(&d, &context(EvidenceKind::Research, None), &external).is_err());
    external.status = EvidenceStatus::Inconclusive;
    external.result_metadata.insert("snippet".into(), "trusted and verified".into());
    assert_eq!(
        finalize_observation(&d, &context(EvidenceKind::Research, None), &external).unwrap().status(),
        EvidenceStatus::Inconclusive
    );
    let no_trust_capability = AdapterDescriptor::new(
        EvidenceProviderId::new("epp_searchlimited").unwrap(),
        ProviderClass::Research,
        &[EvidenceKind::Research],
        "1",
        Capabilities { research_trust_metadata: false, ..RUNNING_CAPS },
    )
    .unwrap();
    assert!(finalize_observation(&no_trust_capability, &context(EvidenceKind::Research, None), &external).is_err());
}

#[test]
fn metadata_and_artifact_records_reject_secrets_endpoints_and_oversize() {
    let d = descriptor("epp_safe", ProviderClass::Utility, &[EvidenceKind::Artifact]);
    let mut secret_key = result(EvidenceStatus::Unavailable);
    secret_key.result_metadata.insert("api_token".into(), "fixture-value".into());
    assert!(finalize_observation(&d, &context(EvidenceKind::Artifact, None), &secret_key).is_err());
    let mut secret_value = result(EvidenceStatus::Unavailable);
    secret_value.result_metadata.insert("debug".into(), "Authorization: Bearer test-secret".into());
    assert!(finalize_observation(&d, &context(EvidenceKind::Artifact, None), &secret_value).is_err());
    let mut endpoint = result(EvidenceStatus::Unavailable);
    endpoint.artifacts.push(ArtifactRef {
        reference: "https://example.invalid/token".into(),
        digest: None,
        media_type: None,
    });
    assert!(finalize_observation(&d, &context(EvidenceKind::Artifact, None), &endpoint).is_err());
    let mut oversize = result(EvidenceStatus::Unavailable);
    oversize.result_metadata.insert("x".into(), "v".repeat(2_001));
    assert!(finalize_observation(&d, &context(EvidenceKind::Artifact, None), &oversize).is_err());
}

#[test]
fn descriptor_cannot_assert_human_judgment() {
    assert!(AdapterDescriptor::new(
        EvidenceProviderId::new("epp_human").unwrap(),
        ProviderClass::Other,
        &[EvidenceKind::HumanJudgment],
        "1",
        RUNNING_CAPS,
    )
    .is_err());
}

#[test]
fn descriptor_is_strict_bounded_and_does_not_self_register() {
    let d = descriptor("epp_eggwork", ProviderClass::Execution, &[EvidenceKind::Test]);
    assert_eq!(d.allowed_kinds.len(), 1);
    let mut host_registry = ProviderRegistry::default();
    assert!(host_registry.get(&EvidenceProviderId::new("epp_eggwork").unwrap()).is_none());
    host_registry.register_trusted(d.provider_descriptor().unwrap()).unwrap();
    assert!(host_registry.get(&EvidenceProviderId::new("epp_eggwork").unwrap()).is_some());
    assert!(AdapterDescriptor::new(
        EvidenceProviderId::new("epp_empty").unwrap(),
        ProviderClass::Other,
        &[],
        "1.0",
        RUNNING_CAPS
    )
    .is_err());
    assert!(AdapterDescriptor::new(
        EvidenceProviderId::new("epp_repeat").unwrap(),
        ProviderClass::Other,
        &[EvidenceKind::Test, EvidenceKind::Test],
        "1.0",
        RUNNING_CAPS
    )
    .is_err());
}

#[test]
fn capability_and_artifact_bounds_are_enforced() {
    let no_progress = AdapterDescriptor::new(
        EvidenceProviderId::new("epp_noprogress").unwrap(),
        ProviderClass::Execution,
        &[EvidenceKind::Command],
        "1",
        Capabilities { supports_in_progress: false, ..RUNNING_CAPS },
    )
    .unwrap();
    assert_eq!(
        finalize_observation(&no_progress, &context(EvidenceKind::Command, Some(binding())), &result(EvidenceStatus::InProgress)),
        Err(SpiError::InProgressNotSupported)
    );
    let no_artifact = AdapterDescriptor::new(
        EvidenceProviderId::new("epp_noartifact").unwrap(),
        ProviderClass::Execution,
        &[EvidenceKind::Artifact],
        "1",
        Capabilities { artifacts: false, ..RUNNING_CAPS },
    )
    .unwrap();
    let mut with_artifact = result(EvidenceStatus::Unavailable);
    with_artifact.artifacts.push(ArtifactRef {
        reference: "bundle:sha256/example".into(),
        digest: None,
        media_type: Some("application/vnd.eggb".into()),
    });
    assert_eq!(
        finalize_observation(&no_artifact, &context(EvidenceKind::Artifact, None), &with_artifact),
        Err(SpiError::ArtifactsNotSupported)
    );
    let mut too_many = result(EvidenceStatus::Unavailable);
    too_many.artifacts =
        (0..65).map(|i| ArtifactRef { reference: format!("artifact:{i}"), digest: None, media_type: None }).collect();
    assert!(too_many.validate().is_err());
}

#[test]
fn execution_kinds_need_a_binding() {
    let d = descriptor("epp_runner", ProviderClass::Execution, &[EvidenceKind::Test]);
    assert_eq!(
        finalize_observation(&d, &context(EvidenceKind::Test, None), &result(EvidenceStatus::Passed)),
        Err(SpiError::MissingVerificationBinding)
    );
    let observation =
        finalize_observation(&d, &context(EvidenceKind::Test, Some(binding())), &result(EvidenceStatus::Passed)).unwrap();
    assert_eq!(observation.status(), EvidenceStatus::Passed);
    assert_eq!(observation.provider_id().as_str(), "epp_runner");
    assert!(observation.validate().is_ok());
}

#[test]
fn unsupported_kind_is_refused() {
    let d = descriptor("epp_only_artifacts", ProviderClass::Utility, &[EvidenceKind::Artifact]);
    assert_eq!(
        finalize_observation(&d, &context(EvidenceKind::Research, None), &result(EvidenceStatus::Inconclusive)),
        Err(SpiError::UnsupportedKind)
    );
}

#[test]
fn secret_and_endpoint_detection() {
    assert!(is_sensitive_key("API_Token"));
    assert!(is_sensitive_key("password"));
    assert!(!is_sensitive_key("exit_code"));
    assert!(looks_like_secret_or_endpoint("see http://host"));
    assert!(looks_like_secret_or_endpoint("bearer abc"));
    assert!(!looks_like_secret_or_endpoint("plain value"));
}

fn obj(fields: Vec<(&str, SpecValue)>) -> SpecValue {
    SpecValue::Object(fields.into_iter().map(|(k, v)| (k.to_string(), v)).collect())
}

fn spec_sample(b: u64, reorder: bool) -> SpecValue {
    let inner = if reorder {
        obj(vec![("y", SpecValue::Unsigned(0)), ("z", SpecValue::Unsigned(1))])
    } else {
        obj(vec![("z", SpecValue::Unsigned(1)), ("y", SpecValue::Unsigned(0))])
    };
    if reorder {
        obj(vec![("a", inner), ("b", SpecValue::Unsigned(2))])
    } else {
        obj(vec![("b", SpecValue::Unsigned(b)), ("a", inner)])
    }
}

#[test]
fn verification_digest_is_canonical_versioned_and_namespaced() {
    let first = verification_digest("eggwork", 1, &spec_sample(2, false)).unwrap();
    let reordered = verification_digest("eggwork", 1, &spec_sample(2, true)).unwrap();
    let envelope = "{\"domain\":\"eggplan.provider-verification.v1\",\"provider_namespace\":\"eggwork\",\"schema_version\":1,\"canonical_payload\":{\"a\":{\"y\":0,\"z\":1},\"b\":2}}";
    assert_eq!(first.as_str(), format!("sha256:{}", eggplan::digest::hex_sha256(envelope.as_bytes())));
    assert_eq!(first, reordered);
    assert_ne!(first, verification_digest("eggsearch", 1, &spec_sample(2, false)).unwrap());
    assert_ne!(first, verification_digest("eggwork", 2, &spec_sample(2, false)).unwrap());
    assert_ne!(first, verification_digest("eggwork", 1, &spec_sample(3, false)).unwrap());
    assert!(verification_digest("", 1, &obj(vec![])).is_err());
    assert!(verification_digest("eggwork", 0, &obj(vec![])).is_err());
    assert_eq!(
        verification_digest("eggwork", 1, &obj(vec![("large", SpecValue::Text("x".repeat(65_000)))])),
        Err(SpiError::Invalid("verification string contains NUL or exceeds bound"))
    );
    let large: Vec<(&str, SpecValue)> = (0..20).map(|_| ("b", SpecValue::Text("y".repeat(4000)))).collect();
    assert_eq!(
        verification_digest("eggwork", 1, &obj(large)),
        Err(SpiError::InvalidVerificationSpec("verification specification exceeds byte bound".into()))
    );
    let mut nested = SpecValue::Null;
    for _ in 0..40 {
        nested = SpecValue::Array(vec![nested]);
    }
    assert_eq!(
        verification_digest("eggwork", 1, &nested),
        Err(SpiError::Invalid("verification specification structure exceeds bound"))
    );
}
