//! Immutable evidence observations, their content digests, and the explicit
//! registry of trusted evidence providers.
use crate::bounds::{ID_CHARS, INVOCATION_REF_CHARS, MAX_ARTIFACT_REFS, MAX_OBSERVATION_METADATA, OBSERVATION_METADATA_VALUE_CHARS};
use crate::digest::{digest_json, json_digest};
use crate::identity::{EvidenceObservationId, EvidenceProviderId, VerificationDigest};
use crate::json::{decimal, fields_of, push_field, push_value, values_of, write_decimal, JsonText, JsonV};
use crate::model::{
    artifact_error, is_execution_evidence, is_execution_kind, kind_name, kind_text, subject_error, subject_state_name,
    subject_state_text, validation_message, ArtifactRef, EvidenceKind, KindSet, SubjectRevision, SubjectView,
};
use crate::text::{owned, push_str, text_ok, valid_text};
use crate::text_map::{entry_views, TextMap};
use vstd::prelude::*;

verus! {

/// Current evidence schema version.
pub const EVIDENCE_SCHEMA_VERSION: u32 = 2;

/// Native outcome of an observation.
#[derive(Debug, Clone, Copy, PartialEq, Eq, Structural, PartialOrd, Ord, Hash)]
pub enum EvidenceStatus {
    Passed,
    Failed,
    InProgress,
    NotRun,
    Skipped,
    Blocked,
    Unavailable,
    Inconclusive,
}

/// The serialized name of an evidence status.
pub open spec fn status_text(s: EvidenceStatus) -> Seq<char> {
    match s {
        EvidenceStatus::Passed => "passed"@,
        EvidenceStatus::Failed => "failed"@,
        EvidenceStatus::InProgress => "in_progress"@,
        EvidenceStatus::NotRun => "not_run"@,
        EvidenceStatus::Skipped => "skipped"@,
        EvidenceStatus::Blocked => "blocked"@,
        EvidenceStatus::Unavailable => "unavailable"@,
        EvidenceStatus::Inconclusive => "inconclusive"@,
    }
}

/// The serialized name of an evidence status (see `status_text`).
pub fn status_name(s: EvidenceStatus) -> (r: &'static str)
    ensures
        r@ == status_text(s),
{
    match s {
        EvidenceStatus::Passed => "passed",
        EvidenceStatus::Failed => "failed",
        EvidenceStatus::InProgress => "in_progress",
        EvidenceStatus::NotRun => "not_run",
        EvidenceStatus::Skipped => "skipped",
        EvidenceStatus::Blocked => "blocked",
        EvidenceStatus::Unavailable => "unavailable",
        EvidenceStatus::Inconclusive => "inconclusive",
    }
}

/// Why an observation or provider is refused.
#[derive(Debug, Clone, PartialEq, Eq)]
pub enum EvidenceError {
    Invalid(String),
    UnknownSchema(u32),
    DigestMismatch,
    DuplicateProvider(EvidenceProviderId),
}

/// Value of an evidence error.
pub enum EvidenceErrorV {
    Invalid(Seq<char>),
    UnknownSchema(u32),
    DigestMismatch,
    DuplicateProvider(Seq<char>),
}

impl View for EvidenceError {
    type V = EvidenceErrorV;

    open spec fn view(&self) -> EvidenceErrorV {
        match self {
            EvidenceError::Invalid(m) => EvidenceErrorV::Invalid(m@),
            EvidenceError::UnknownSchema(v) => EvidenceErrorV::UnknownSchema(*v),
            EvidenceError::DigestMismatch => EvidenceErrorV::DigestMismatch,
            EvidenceError::DuplicateProvider(id) => EvidenceErrorV::DuplicateProvider(id@),
        }
    }
}

/// The displayed message of an evidence error.
pub open spec fn evidence_message(e: EvidenceErrorV) -> Seq<char> {
    match e {
        EvidenceErrorV::Invalid(m) => "invalid evidence observation: "@ + m,
        EvidenceErrorV::UnknownSchema(v) => "unknown evidence schema version "@ + decimal(v as nat),
        EvidenceErrorV::DigestMismatch => "evidence content digest mismatch"@,
        EvidenceErrorV::DuplicateProvider(id) => "provider "@ + id + " is already registered"@,
    }
}

impl EvidenceError {
    /// Human readable message (see `evidence_message`).
    pub fn message(&self) -> (m: String)
        ensures
            m@ == evidence_message(self@),
    {
        match self {
            EvidenceError::Invalid(detail) => {
                let mut m = owned("invalid evidence observation: ");
                push_str(&mut m, detail.as_str());
                m
            },
            EvidenceError::UnknownSchema(v) => {
                let mut m = owned("unknown evidence schema version ");
                write_decimal(*v as u64, &mut m);
                m
            },
            EvidenceError::DigestMismatch => owned("evidence content digest mismatch"),
            EvidenceError::DuplicateProvider(id) => {
                let mut m = owned("provider ");
                push_str(&mut m, id.as_str());
                push_str(&mut m, " is already registered");
                m
            },
        }
    }
}

/// The message for text that is empty, holds NUL, or is too long.
pub open spec fn text_message(label: Seq<char>, max: nat) -> Seq<char> {
    label + " is empty, contains NUL, or exceeds "@ + decimal(max) + " Unicode scalar values"@
}

/// The error for invalid text, if any.
pub open spec fn text_fault(s: Seq<char>, label: Seq<char>, max: nat) -> Option<EvidenceErrorV> {
    if valid_text(s, max) {
        None
    } else {
        Some(EvidenceErrorV::Invalid(text_message(label, max)))
    }
}

/// Validates bounded text of an observation or provider.
pub fn validate_text(value: &str, label: &str, max: usize) -> (r: Result<(), EvidenceError>)
    ensures
        match r {
            Ok(()) => text_fault(value@, label@, max as nat) is None,
            Err(e) => text_fault(value@, label@, max as nat) == Some(e@),
        },
{
    if text_ok(value, max) {
        Ok(())
    } else {
        let mut m = owned(label);
        push_str(&mut m, " is empty, contains NUL, or exceeds ");
        write_decimal(max as u64, &mut m);
        push_str(&mut m, " Unicode scalar values");
        Err(EvidenceError::Invalid(m))
    }
}

/// Value of an observation.
pub struct ObservationV {
    pub schema_version: u32,
    pub id: Seq<char>,
    pub provider_id: Seq<char>,
    pub kind: EvidenceKind,
    pub status: EvidenceStatus,
    pub subject: SubjectView,
    pub observed_at_unix_ms: u64,
    pub invocation_ref: Option<Seq<char>>,
    pub verification_digest: Option<Seq<char>>,
    pub result_metadata: Seq<(Seq<char>, Seq<char>)>,
    pub artifacts: Seq<ArtifactRef>,
    pub content_digest: Seq<char>,
}

/// An immutable, content-addressed evidence observation.
#[derive(Debug, Clone, PartialEq, Eq)]
pub struct EvidenceObservation {
    schema_version: u32,
    id: EvidenceObservationId,
    provider_id: EvidenceProviderId,
    kind: EvidenceKind,
    status: EvidenceStatus,
    subject: SubjectRevision,
    observed_at_unix_ms: u64,
    invocation_ref: Option<String>,
    verification_digest: Option<VerificationDigest>,
    result_metadata: TextMap,
    artifacts: Vec<ArtifactRef>,
    content_digest: String,
}

/// The fields a provider supplies for a new observation.
#[derive(Debug, Clone, PartialEq, Eq)]
pub struct EvidenceObservationInput {
    pub id: EvidenceObservationId,
    pub provider_id: EvidenceProviderId,
    pub kind: EvidenceKind,
    pub status: EvidenceStatus,
    pub subject: SubjectRevision,
    pub observed_at_unix_ms: u64,
    pub invocation_ref: Option<String>,
    pub verification_digest: Option<VerificationDigest>,
    pub result_metadata: TextMap,
    pub artifacts: Vec<ArtifactRef>,
}

/// View of an optional string.
pub open spec fn opt_seq(s: Option<String>) -> Option<Seq<char>> {
    match s {
        Some(v) => Some(v@),
        None => None,
    }
}

/// View of an optional verification digest.
pub open spec fn opt_vd(d: Option<VerificationDigest>) -> Option<Seq<char>> {
    match d {
        Some(v) => Some(v@),
        None => None,
    }
}

impl View for EvidenceObservation {
    type V = ObservationV;

    closed spec fn view(&self) -> ObservationV {
        ObservationV {
            schema_version: self.schema_version,
            id: self.id@,
            provider_id: self.provider_id@,
            kind: self.kind,
            status: self.status,
            subject: self.subject@,
            observed_at_unix_ms: self.observed_at_unix_ms,
            invocation_ref: opt_seq(self.invocation_ref),
            verification_digest: opt_vd(self.verification_digest),
            result_metadata: self.result_metadata@,
            artifacts: self.artifacts@,
            content_digest: self.content_digest@,
        }
    }
}

/// The observation an input becomes under a schema version, with a digest.
pub open spec fn input_view(input: EvidenceObservationInput, schema_version: u32, content_digest: Seq<char>) -> ObservationV {
    ObservationV {
        schema_version,
        id: input.id@,
        provider_id: input.provider_id@,
        kind: input.kind,
        status: input.status,
        subject: input.subject@,
        observed_at_unix_ms: input.observed_at_unix_ms,
        invocation_ref: opt_seq(input.invocation_ref),
        verification_digest: opt_vd(input.verification_digest),
        result_metadata: input.result_metadata@,
        artifacts: input.artifacts@,
        content_digest,
    }
}

/// The first invalid metadata entry among the first `n`.
pub open spec fn metadata_fault(e: Seq<(Seq<char>, Seq<char>)>, n: int) -> Option<EvidenceErrorV>
    decreases n,
{
    if n <= 0 {
        None
    } else if metadata_fault(e, n - 1) is Some {
        metadata_fault(e, n - 1)
    } else if text_fault(e[n - 1].0, "result metadata key"@, ID_CHARS as nat) is Some {
        text_fault(e[n - 1].0, "result metadata key"@, ID_CHARS as nat)
    } else {
        text_fault(e[n - 1].1, "result metadata value"@, OBSERVATION_METADATA_VALUE_CHARS as nat)
    }
}

/// The first invalid artifact reference among the first `n`.
pub open spec fn artifacts_fault(a: Seq<ArtifactRef>, n: int) -> Option<EvidenceErrorV>
    decreases n,
{
    if n <= 0 {
        None
    } else if artifacts_fault(a, n - 1) is Some {
        artifacts_fault(a, n - 1)
    } else {
        match artifact_error(a[n - 1]) {
            Some(e) => Some(EvidenceErrorV::Invalid(validation_message(e))),
            None => None,
        }
    }
}

/// The first field rule an observation breaks, if any.
pub open spec fn fields_fault(o: ObservationV) -> Option<EvidenceErrorV> {
    if !(o.schema_version == 1 || o.schema_version == EVIDENCE_SCHEMA_VERSION) {
        Some(EvidenceErrorV::UnknownSchema(o.schema_version))
    } else if o.schema_version == 1 && o.verification_digest is Some {
        Some(EvidenceErrorV::Invalid("schema-v1 observation cannot carry verification binding"@))
    } else if o.schema_version == EVIDENCE_SCHEMA_VERSION && is_execution_kind(o.kind) && o.verification_digest is None {
        Some(EvidenceErrorV::Invalid("schema-v2 execution observation requires verification binding"@))
    } else if subject_error(o.subject) is Some {
        Some(EvidenceErrorV::Invalid(validation_message(subject_error(o.subject)->0)))
    } else if o.invocation_ref is Some && text_fault(o.invocation_ref->0, "invocation_ref"@, INVOCATION_REF_CHARS as nat) is Some {
        text_fault(o.invocation_ref->0, "invocation_ref"@, INVOCATION_REF_CHARS as nat)
    } else if o.result_metadata.len() > MAX_OBSERVATION_METADATA {
        Some(EvidenceErrorV::Invalid("result metadata entry limit exceeded"@))
    } else if metadata_fault(o.result_metadata, o.result_metadata.len() as int) is Some {
        metadata_fault(o.result_metadata, o.result_metadata.len() as int)
    } else if o.artifacts.len() > MAX_ARTIFACT_REFS {
        Some(EvidenceErrorV::Invalid("artifact reference limit exceeded"@))
    } else {
        artifacts_fault(o.artifacts, o.artifacts.len() as int)
    }
}

/// JSON of a subject revision (an absent dirty digest is omitted).
pub open spec fn subject_json(s: SubjectView) -> JsonV {
    let base = seq![
        ("subject_kind"@, JsonV::Str(s.subject_kind)),
        ("repository_id"@, JsonV::Str(s.repository_id)),
        ("revision"@, JsonV::Str(s.revision)),
        ("state"@, JsonV::Str(subject_state_text(s.state))),
    ];
    JsonV::Obj(
        match s.dirty_digest {
            Some(d) => base.push(("dirty_digest"@, JsonV::Str(d))),
            None => base,
        },
    )
}

/// JSON of an artifact reference (absent fields are omitted).
pub open spec fn artifact_json(a: ArtifactRef) -> JsonV {
    let base = seq![("reference"@, JsonV::Str(a.reference@))];
    let with_digest = match a.digest {
        Some(d) => base.push(("digest"@, JsonV::Str(d@))),
        None => base,
    };
    JsonV::Obj(
        match a.media_type {
            Some(m) => with_digest.push(("media_type"@, JsonV::Str(m@))),
            None => with_digest,
        },
    )
}

/// JSON of a sequence of artifact references.
pub open spec fn artifacts_json(a: Seq<ArtifactRef>) -> Seq<JsonV> {
    Seq::new(a.len(), |i: int| artifact_json(a[i]))
}

/// JSON object of text entries in key order.
pub open spec fn map_json(e: Seq<(Seq<char>, Seq<char>)>) -> JsonV {
    JsonV::Obj(Seq::new(e.len(), |i: int| (e[i].0, JsonV::Str(e[i].1))))
}

/// The digested fields of an observation, in declared order.
pub open spec fn content_fields(o: ObservationV) -> Seq<(Seq<char>, JsonV)> {
    let base = seq![
        ("schema_version"@, JsonV::Nat(o.schema_version as nat)),
        ("id"@, JsonV::Str(o.id)),
        ("provider_id"@, JsonV::Str(o.provider_id)),
        ("kind"@, JsonV::Str(kind_text(o.kind))),
        ("status"@, JsonV::Str(status_text(o.status))),
        ("subject"@, subject_json(o.subject)),
        ("observed_at_unix_ms"@, JsonV::Nat(o.observed_at_unix_ms as nat)),
    ];
    let with_invocation = match o.invocation_ref {
        Some(v) => base.push(("invocation_ref"@, JsonV::Str(v))),
        None => base,
    };
    let with_binding = match o.verification_digest {
        Some(v) => with_invocation.push(("verification_digest"@, JsonV::Str(v))),
        None => with_invocation,
    };
    with_binding.push(("result_metadata"@, map_json(o.result_metadata))).push(
        ("artifacts"@, JsonV::Arr(artifacts_json(o.artifacts))),
    )
}

/// The digested content of an observation.
pub open spec fn content_json(o: ObservationV) -> JsonV {
    JsonV::Obj(content_fields(o))
}

/// The full record of an observation: its content and its digest.
pub open spec fn record_json(o: ObservationV) -> JsonV {
    JsonV::Obj(content_fields(o).push(("content_digest"@, JsonV::Str(o.content_digest))))
}

/// JSON of a subject revision.
pub fn subject_to_json(s: &SubjectRevision) -> (r: JsonText)
    ensures
        r.wf(),
        r.value@ == subject_json(s@),
{
    let mut f: Vec<(String, JsonText)> = Vec::new();
    push_field(&mut f, "subject_kind", JsonText::string(s.subject_kind.as_str()));
    push_field(&mut f, "repository_id", JsonText::string(s.repository_id.as_str()));
    push_field(&mut f, "revision", JsonText::string(s.revision.as_str()));
    push_field(&mut f, "state", JsonText::string(subject_state_name(s.state)));
    if let Some(d) = &s.dirty_digest {
        push_field(&mut f, "dirty_digest", JsonText::string(d.as_str()));
    }
    proof {
        assert(fields_of(f@) =~= subject_json(s@)->Obj_0);
    }
    JsonText::object(f)
}

/// JSON of an artifact reference.
pub fn artifact_to_json(a: &ArtifactRef) -> (r: JsonText)
    ensures
        r.wf(),
        r.value@ == artifact_json(*a),
{
    let mut f: Vec<(String, JsonText)> = Vec::new();
    push_field(&mut f, "reference", JsonText::string(a.reference.as_str()));
    if let Some(d) = &a.digest {
        push_field(&mut f, "digest", JsonText::string(d.as_str()));
    }
    if let Some(m) = &a.media_type {
        push_field(&mut f, "media_type", JsonText::string(m.as_str()));
    }
    proof {
        assert(fields_of(f@) =~= artifact_json(*a)->Obj_0);
    }
    JsonText::object(f)
}

/// JSON array of artifact references.
pub fn artifacts_to_json(a: &Vec<ArtifactRef>) -> (r: JsonText)
    ensures
        r.wf(),
        r.value@ == JsonV::Arr(artifacts_json(a@)),
{
    let mut items: Vec<JsonText> = Vec::new();
    let mut i: usize = 0;
    while i < a.len()
        invariant
            i <= a.len(),
            values_of(items@) == artifacts_json(a@.take(i as int)),
            forall|k: int| 0 <= k < items@.len() ==> #[trigger] items@[k].wf(),
        decreases a.len() - i,
    {
        push_value(&mut items, artifact_to_json(&a[i]));
        proof {
            assert(artifacts_json(a@.take(i + 1)) =~= artifacts_json(a@.take(i as int)).push(artifact_json(a@[i as int])));
        }
        i = i + 1;
    }
    assert(a@.take(a.len() as int) =~= a@);
    JsonText::array(items)
}

/// JSON object of a text map, in key order.
pub fn map_to_json(m: &TextMap) -> (r: JsonText)
    ensures
        r.wf(),
        r.value@ == map_json(m@),
{
    let entries = m.entries();
    let mut f: Vec<(String, JsonText)> = Vec::new();
    let mut i: usize = 0;
    while i < entries.len()
        invariant
            i <= entries.len(),
            entry_views(entries@) == m@,
            fields_of(f@) == map_json(m@.take(i as int))->Obj_0,
            forall|k: int| 0 <= k < f@.len() ==> #[trigger] f@[k].1.wf(),
        decreases entries.len() - i,
    {
        push_field(&mut f, entries[i].0.as_str(), JsonText::string(entries[i].1.as_str()));
        proof {
            assert(map_json(m@.take(i + 1))->Obj_0 =~= map_json(m@.take(i as int))->Obj_0.push(
                (m@[i as int].0, JsonV::Str(m@[i as int].1)),
            ));
        }
        i = i + 1;
    }
    assert(m@.take(entries.len() as int) =~= m@);
    JsonText::object(f)
}

proof fn lemma_metadata_fault_stable(e: Seq<(Seq<char>, Seq<char>)>, n: int, m: int)
    requires
        0 <= n <= m,
    ensures
        metadata_fault(e, n) is Some ==> metadata_fault(e, m) == metadata_fault(e, n),
    decreases m - n,
{
    if m > n {
        lemma_metadata_fault_stable(e, n, m - 1);
    }
}

proof fn lemma_artifacts_fault_stable(a: Seq<ArtifactRef>, n: int, m: int)
    requires
        0 <= n <= m,
    ensures
        artifacts_fault(a, n) is Some ==> artifacts_fault(a, m) == artifacts_fault(a, n),
    decreases m - n,
{
    if m > n {
        lemma_artifacts_fault_stable(a, n, m - 1);
    }
}

impl EvidenceObservation {
    /// Seals an input as a current-schema observation: validates its fields
    /// and records the digest of its content.
    pub fn finalize(input: EvidenceObservationInput) -> (r: Result<EvidenceObservation, EvidenceError>)
        ensures
            match r {
                Ok(o) => {
                    &&& fields_fault(input_view(input, EVIDENCE_SCHEMA_VERSION, Seq::empty())) is None
                    &&& o@ == input_view(input, EVIDENCE_SCHEMA_VERSION, o@.content_digest)
                    &&& o@.content_digest == json_digest(content_json(o@))
                    &&& crate::digest::is_sha256_text(o@.content_digest)
                },
                Err(e) => fields_fault(input_view(input, EVIDENCE_SCHEMA_VERSION, Seq::empty())) == Some(e@),
            },
    {
        let ghost iv = input;
        let mut observation = EvidenceObservation {
            schema_version: EVIDENCE_SCHEMA_VERSION,
            id: input.id,
            provider_id: input.provider_id,
            kind: input.kind,
            status: input.status,
            subject: input.subject,
            observed_at_unix_ms: input.observed_at_unix_ms,
            invocation_ref: input.invocation_ref,
            verification_digest: input.verification_digest,
            result_metadata: input.result_metadata,
            artifacts: input.artifacts,
            content_digest: String::new(),
        };
        proof {
            assert(observation@ == input_view(iv, EVIDENCE_SCHEMA_VERSION, Seq::empty()));
        }
        observation.validate_fields()?;
        let content = observation.content_to_json();
        observation.content_digest = digest_json(&content);
        proof {
            assert(content_fields(observation@) == content_fields(input_view(iv, EVIDENCE_SCHEMA_VERSION, Seq::empty())));
        }
        Ok(observation)
    }

    /// Rebuilds an observation from stored fields, without checking them.
    pub fn from_parts(
        schema_version: u32,
        input: EvidenceObservationInput,
        content_digest: String,
    ) -> (r: EvidenceObservation)
        ensures
            r@ == input_view(input, schema_version, content_digest@),
    {
        EvidenceObservation {
            schema_version,
            id: input.id,
            provider_id: input.provider_id,
            kind: input.kind,
            status: input.status,
            subject: input.subject,
            observed_at_unix_ms: input.observed_at_unix_ms,
            invocation_ref: input.invocation_ref,
            verification_digest: input.verification_digest,
            result_metadata: input.result_metadata,
            artifacts: input.artifacts,
            content_digest,
        }
    }

    /// Checks the field rules, then that the recorded digest is the digest of
    /// the content.
    pub fn validate(&self) -> (r: Result<(), EvidenceError>)
        ensures
            match r {
                Ok(()) => fields_fault(self@) is None && self@.content_digest == json_digest(content_json(self@)),
                Err(e) => match fields_fault(self@) {
                    Some(f) => e@ == f,
                    None => e@ == EvidenceErrorV::DigestMismatch && self@.content_digest != json_digest(
                        content_json(self@),
                    ),
                },
            },
    {
        self.validate_fields()?;
        let digest = self.compute_content_digest();
        if digest != self.content_digest {
            return Err(EvidenceError::DigestMismatch);
        }
        Ok(())
    }

    /// The digest of this observation's content, as `finalize` records it.
    pub fn compute_content_digest(&self) -> (r: String)
        ensures
            r@ == json_digest(content_json(self@)),
            crate::digest::is_sha256_text(r@),
    {
        let content = self.content_to_json();
        digest_json(&content)
    }

    /// Compact canonical JSON bytes of the whole record.
    pub fn canonical_json(&self) -> (r: Vec<u8>)
        ensures
            r@ == vstd::utf8::encode_utf8(crate::json::enc(record_json(self@))),
    {
        let mut f = self.content_fields_json();
        push_field(&mut f, "content_digest", JsonText::string(self.content_digest.as_str()));
        let j = JsonText::object(f);
        crate::json::canonical_json(&j)
    }

    fn content_fields_json(&self) -> (r: Vec<(String, JsonText)>)
        ensures
            fields_of(r@) == content_fields(self@),
            forall|i: int| 0 <= i < r@.len() ==> #[trigger] r@[i].1.wf(),
    {
        let mut f: Vec<(String, JsonText)> = Vec::new();
        push_field(&mut f, "schema_version", JsonText::natural(self.schema_version as u64));
        push_field(&mut f, "id", JsonText::string(self.id.as_str()));
        push_field(&mut f, "provider_id", JsonText::string(self.provider_id.as_str()));
        push_field(&mut f, "kind", JsonText::string(kind_name(self.kind)));
        push_field(&mut f, "status", JsonText::string(status_name(self.status)));
        push_field(&mut f, "subject", subject_to_json(&self.subject));
        push_field(&mut f, "observed_at_unix_ms", JsonText::natural(self.observed_at_unix_ms));
        if let Some(v) = &self.invocation_ref {
            push_field(&mut f, "invocation_ref", JsonText::string(v.as_str()));
        }
        if let Some(v) = &self.verification_digest {
            push_field(&mut f, "verification_digest", JsonText::string(v.as_str()));
        }
        push_field(&mut f, "result_metadata", map_to_json(&self.result_metadata));
        push_field(&mut f, "artifacts", artifacts_to_json(&self.artifacts));
        f
    }

    fn content_to_json(&self) -> (r: JsonText)
        ensures
            r.wf(),
            r.value@ == content_json(self@),
    {
        JsonText::object(self.content_fields_json())
    }

    /// Checks the field rules (see `fields_fault`).
    #[verifier::loop_isolation(false)]
    fn validate_fields(&self) -> (r: Result<(), EvidenceError>)
        ensures
            match r {
                Ok(()) => fields_fault(self@) is None,
                Err(e) => fields_fault(self@) == Some(e@),
            },
    {
        if !(self.schema_version == 1 || self.schema_version == EVIDENCE_SCHEMA_VERSION) {
            return Err(EvidenceError::UnknownSchema(self.schema_version));
        }
        if self.schema_version == 1 && self.verification_digest.is_some() {
            return Err(EvidenceError::Invalid(owned("schema-v1 observation cannot carry verification binding")));
        }
        if self.schema_version == EVIDENCE_SCHEMA_VERSION && is_execution_evidence(self.kind)
            && self.verification_digest.is_none() {
            return Err(EvidenceError::Invalid(owned("schema-v2 execution observation requires verification binding")));
        }
        match self.subject.validate() {
            Ok(()) => {},
            Err(e) => {
                return Err(EvidenceError::Invalid(e.message()));
            },
        }
        if let Some(invocation) = &self.invocation_ref {
            validate_text(invocation.as_str(), "invocation_ref", INVOCATION_REF_CHARS)?;
        }
        if self.result_metadata.len() > MAX_OBSERVATION_METADATA {
            return Err(EvidenceError::Invalid(owned("result metadata entry limit exceeded")));
        }
        let entries = self.result_metadata.entries();
        let mut i: usize = 0;
        while i < entries.len()
            invariant
                i <= entries.len(),
                entry_views(entries@) == self.result_metadata@,
                metadata_fault(self@.result_metadata, i as int) is None,
            decreases entries.len() - i,
        {
            proof {
                lemma_metadata_fault_stable(self@.result_metadata, i + 1, self@.result_metadata.len() as int);
            }
            validate_text(entries[i].0.as_str(), "result metadata key", ID_CHARS)?;
            validate_text(entries[i].1.as_str(), "result metadata value", OBSERVATION_METADATA_VALUE_CHARS)?;
            i = i + 1;
        }
        if self.artifacts.len() > MAX_ARTIFACT_REFS {
            return Err(EvidenceError::Invalid(owned("artifact reference limit exceeded")));
        }
        let mut i: usize = 0;
        while i < self.artifacts.len()
            invariant
                i <= self.artifacts.len(),
                artifacts_fault(self@.artifacts, i as int) is None,
            decreases self.artifacts.len() - i,
        {
            proof {
                lemma_artifacts_fault_stable(self@.artifacts, i + 1, self@.artifacts.len() as int);
            }
            match self.artifacts[i].validate() {
                Ok(()) => {},
                Err(e) => {
                    return Err(EvidenceError::Invalid(e.message()));
                },
            }
            i = i + 1;
        }
        Ok(())
    }

    pub fn schema_version(&self) -> (r: u32)
        ensures
            r == self@.schema_version,
    {
        self.schema_version
    }

    pub fn id(&self) -> (r: &EvidenceObservationId)
        ensures
            r@ == self@.id,
    {
        &self.id
    }

    pub fn provider_id(&self) -> (r: &EvidenceProviderId)
        ensures
            r@ == self@.provider_id,
    {
        &self.provider_id
    }

    pub fn kind(&self) -> (r: EvidenceKind)
        ensures
            r == self@.kind,
    {
        self.kind
    }

    pub fn status(&self) -> (r: EvidenceStatus)
        ensures
            r == self@.status,
    {
        self.status
    }

    pub fn subject(&self) -> (r: &SubjectRevision)
        ensures
            r@ == self@.subject,
    {
        &self.subject
    }

    pub fn observed_at_unix_ms(&self) -> (r: u64)
        ensures
            r == self@.observed_at_unix_ms,
    {
        self.observed_at_unix_ms
    }

    pub fn invocation_ref(&self) -> (r: Option<&str>)
        ensures
            match r {
                Some(v) => self@.invocation_ref == Some(v@),
                None => self@.invocation_ref is None,
            },
    {
        match &self.invocation_ref {
            Some(v) => Some(v.as_str()),
            None => None,
        }
    }

    pub fn verification_digest(&self) -> (r: Option<&VerificationDigest>)
        ensures
            match r {
                Some(v) => self@.verification_digest == Some(v@),
                None => self@.verification_digest is None,
            },
    {
        self.verification_digest.as_ref()
    }

    pub fn result_metadata(&self) -> (r: &TextMap)
        ensures
            r@ == self@.result_metadata,
    {
        &self.result_metadata
    }

    pub fn artifacts(&self) -> (r: &Vec<ArtifactRef>)
        ensures
            r@ == self@.artifacts,
    {
        &self.artifacts
    }

    pub fn content_digest(&self) -> (r: &str)
        ensures
            r@ == self@.content_digest,
    {
        self.content_digest.as_str()
    }

    /// A copy of the observation.
    pub fn duplicate(&self) -> (r: EvidenceObservation)
        ensures
            r@ == self@,
    {
        EvidenceObservation {
            schema_version: self.schema_version,
            id: self.id.duplicate(),
            provider_id: self.provider_id.duplicate(),
            kind: self.kind,
            status: self.status,
            subject: self.subject.duplicate(),
            observed_at_unix_ms: self.observed_at_unix_ms,
            invocation_ref: crate::model::copy_opt_string(&self.invocation_ref),
            verification_digest: match &self.verification_digest {
                Some(d) => Some(d.duplicate()),
                None => None,
            },
            result_metadata: self.result_metadata.duplicate(),
            artifacts: copy_artifacts(&self.artifacts),
            content_digest: self.content_digest.clone(),
        }
    }
}

/// A copy of a list of artifact references.
pub fn copy_artifacts(a: &Vec<ArtifactRef>) -> (r: Vec<ArtifactRef>)
    ensures
        r@ == a@,
{
    let mut r: Vec<ArtifactRef> = Vec::new();
    let mut i: usize = 0;
    while i < a.len()
        invariant
            i <= a.len(),
            r@ == a@.take(i as int),
        decreases a.len() - i,
    {
        r.push(a[i].duplicate());
        assert(a@.take(i + 1) =~= a@.take(i as int).push(a@[i as int]));
        i = i + 1;
    }
    assert(a@.take(a.len() as int) =~= a@);
    r
}

/// Value of a provider descriptor.
pub struct DescriptorV {
    pub id: Seq<char>,
    pub class: Seq<char>,
    pub allowed_kinds: Set<EvidenceKind>,
}

/// A provider the host trusts for some kinds of evidence. It is trusted
/// because the host adds it to the registry given to assessment; observation
/// text cannot enroll or widen it.
#[derive(Debug, Clone, PartialEq, Eq)]
pub struct ProviderDescriptor {
    id: EvidenceProviderId,
    class: String,
    allowed_kinds: KindSet,
}

impl View for ProviderDescriptor {
    type V = DescriptorV;

    closed spec fn view(&self) -> DescriptorV {
        DescriptorV { id: self.id@, class: self.class@, allowed_kinds: self.allowed_kinds@ }
    }
}

/// The first rule a descriptor breaks, if any.
pub open spec fn descriptor_fault(class: Seq<char>, kinds: Set<EvidenceKind>) -> Option<EvidenceErrorV> {
    if text_fault(class, "provider class"@, 64) is Some {
        text_fault(class, "provider class"@, 64)
    } else if kinds.len() == 0 {
        Some(EvidenceErrorV::Invalid("provider must allow at least one kind"@))
    } else {
        None
    }
}

impl ProviderDescriptor {
    /// A descriptor with a bounded class and at least one allowed kind.
    pub fn new(id: EvidenceProviderId, class: &str, allowed_kinds: &[EvidenceKind]) -> (r: Result<ProviderDescriptor, EvidenceError>)
        ensures
            match r {
                Ok(d) => descriptor_fault(class@, allowed_kinds@.to_set()) is None && d@ == (DescriptorV {
                    id: id@,
                    class: class@,
                    allowed_kinds: allowed_kinds@.to_set(),
                }),
                Err(e) => descriptor_fault(class@, allowed_kinds@.to_set()) == Some(e@),
            },
    {
        validate_text(class, "provider class", 64)?;
        let mut kinds: Vec<EvidenceKind> = Vec::new();
        let mut i: usize = 0;
        while i < allowed_kinds.len()
            invariant
                i <= allowed_kinds.len(),
                kinds@ == allowed_kinds@.take(i as int),
            decreases allowed_kinds.len() - i,
        {
            kinds.push(allowed_kinds[i]);
            assert(allowed_kinds@.take(i + 1) =~= allowed_kinds@.take(i as int).push(allowed_kinds@[i as int]));
            i = i + 1;
        }
        assert(allowed_kinds@.take(allowed_kinds.len() as int) =~= allowed_kinds@);
        let set = KindSet::from_kinds(&kinds);
        if set.is_empty() {
            return Err(EvidenceError::Invalid(owned("provider must allow at least one kind")));
        }
        Ok(ProviderDescriptor { id, class: owned(class), allowed_kinds: set })
    }

    pub fn id(&self) -> (r: &EvidenceProviderId)
        ensures
            r@ == self@.id,
    {
        &self.id
    }

    pub fn class(&self) -> (r: &str)
        ensures
            r@ == self@.class,
    {
        self.class.as_str()
    }

    pub fn allowed_kinds(&self) -> (r: &KindSet)
        ensures
            r@ == self@.allowed_kinds,
    {
        &self.allowed_kinds
    }

    /// Checks the descriptor rules (see `descriptor_fault`).
    pub fn validate(&self) -> (r: Result<(), EvidenceError>)
        ensures
            match r {
                Ok(()) => descriptor_fault(self@.class, self@.allowed_kinds) is None,
                Err(e) => descriptor_fault(self@.class, self@.allowed_kinds) == Some(e@),
            },
    {
        validate_text(self.class.as_str(), "provider class", 64)?;
        if self.allowed_kinds.is_empty() {
            return Err(EvidenceError::Invalid(owned("provider must allow at least one kind")));
        }
        Ok(())
    }

    /// A copy of the descriptor.
    pub fn duplicate(&self) -> (r: ProviderDescriptor)
        ensures
            r@ == self@,
    {
        ProviderDescriptor { id: self.id.duplicate(), class: self.class.clone(), allowed_kinds: self.allowed_kinds.clone() }
    }
}

impl Default for ProviderRegistry {
    fn default() -> (r: Self)
        ensures
            r@ == Seq::<DescriptorV>::empty(),
    {
        ProviderRegistry::new()
    }
}

/// The most recently registered descriptor with an identifier.
pub open spec fn lookup_provider(ds: Seq<DescriptorV>, id: Seq<char>) -> Option<DescriptorV>
    decreases ds.len(),
{
    if ds.len() == 0 {
        None
    } else if ds.last().id == id {
        Some(ds.last())
    } else {
        lookup_provider(ds.drop_last(), id)
    }
}

/// The explicit set of providers the host trusts, each identity once.
#[derive(Debug, Clone)]
pub struct ProviderRegistry {
    providers: Vec<ProviderDescriptor>,
}

impl View for ProviderRegistry {
    type V = Seq<DescriptorV>;

    closed spec fn view(&self) -> Seq<DescriptorV> {
        Seq::new(self.providers@.len(), |i: int| self.providers@[i]@)
    }
}

impl ProviderRegistry {
    /// An empty registry.
    pub fn new() -> (r: ProviderRegistry)
        ensures
            r@ == Seq::<DescriptorV>::empty(),
    {
        let r = ProviderRegistry { providers: Vec::new() };
        assert(r@ =~= Seq::<DescriptorV>::empty());
        r
    }

    /// Registers a valid descriptor under an identity not yet registered.
    pub fn register_trusted(&mut self, descriptor: ProviderDescriptor) -> (r: Result<(), EvidenceError>)
        ensures
            match r {
                Ok(()) => {
                    &&& descriptor_fault(descriptor@.class, descriptor@.allowed_kinds) is None
                    &&& lookup_provider(old(self)@, descriptor@.id) is None
                    &&& final(self)@ == old(self)@.push(descriptor@)
                },
                Err(e) => {
                    &&& final(self)@ == old(self)@
                    &&& match descriptor_fault(descriptor@.class, descriptor@.allowed_kinds) {
                        Some(f) => e@ == f,
                        None => e@ == EvidenceErrorV::DuplicateProvider(descriptor@.id) && lookup_provider(
                            old(self)@,
                            descriptor@.id,
                        ) is Some,
                    }
                },
            },
    {
        descriptor.validate()?;
        if self.get(descriptor.id()).is_some() {
            return Err(EvidenceError::DuplicateProvider(descriptor.id.duplicate()));
        }
        let ghost before = self@;
        self.providers.push(descriptor);
        assert(self@ =~= before.push(descriptor@));
        Ok(())
    }

    /// The descriptor registered under an identity.
    pub fn get(&self, id: &EvidenceProviderId) -> (r: Option<&ProviderDescriptor>)
        ensures
            match r {
                Some(d) => lookup_provider(self@, id@) == Some(d@),
                None => lookup_provider(self@, id@) is None,
            },
    {
        let mut k = self.providers.len();
        assert(self@.take(k as int) =~= self@);
        while k > 0
            invariant
                k <= self.providers.len(),
                lookup_provider(self@, id@) == lookup_provider(self@.take(k as int), id@),
            decreases k,
        {
            let ghost t = self@.take(k as int);
            assert(t.drop_last() =~= self@.take(k - 1));
            if self.providers[k - 1].id.same(id) {
                return Some(&self.providers[k - 1]);
            }
            k = k - 1;
        }
        None
    }
}

/// What a finalized observation records passes validation: the field rules
/// do not read the recorded digest, and the recorded digest is the digest
/// of the content.
pub proof fn lemma_finalized_validates(input: EvidenceObservationInput, d: Seq<char>)
    requires
        fields_fault(input_view(input, EVIDENCE_SCHEMA_VERSION, Seq::empty())) is None,
        d == json_digest(content_json(input_view(input, EVIDENCE_SCHEMA_VERSION, d))),
    ensures
        fields_fault(input_view(input, EVIDENCE_SCHEMA_VERSION, d)) is None,
        input_view(input, EVIDENCE_SCHEMA_VERSION, d).content_digest == json_digest(
            content_json(input_view(input, EVIDENCE_SCHEMA_VERSION, d)),
        ),
{
}

/// The digested content does not depend on the recorded digest.
pub proof fn lemma_content_ignores_digest(o: ObservationV, d: Seq<char>)
    ensures
        content_json(o) == content_json(ObservationV { content_digest: d, ..o }),
{
    assert(content_fields(o) =~= content_fields(ObservationV { content_digest: d, ..o }));
}

/// A registered provider is found under its identity, and registering it
/// leaves every other identity's lookup unchanged.
pub proof fn lemma_registration_lookup(registry: Seq<DescriptorV>, d: DescriptorV, other: Seq<char>)
    ensures
        lookup_provider(registry.push(d), d.id) == Some(d),
        other != d.id ==> lookup_provider(registry.push(d), other) == lookup_provider(registry, other),
{
    assert(registry.push(d).drop_last() =~= registry);
}

} // verus!
