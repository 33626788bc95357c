//! Normalization contract for external evidence producers: adapter
//! descriptors, observation contexts, normalized native results, and their
//! finalization into observations. No evidence is acquired and no trust is
//! granted here; hosts own transports and registry membership.
use crate::bounds::{ARTIFACT_REF_CHARS, ID_CHARS, INVOCATION_REF_CHARS, MAX_ARTIFACT_REFS, MAX_OBSERVATION_METADATA, OBSERVATION_METADATA_VALUE_CHARS};
use crate::evidence::{
    fields_fault, input_view, DescriptorV, EvidenceObservation, EvidenceObservationInput,
    EvidenceStatus, ProviderDescriptor, EVIDENCE_SCHEMA_VERSION,
};
use crate::identity::{EvidenceObservationId, EvidenceProviderId, VerificationDigest};
use crate::model::{artifact_error, is_execution_evidence, is_execution_kind, subject_error, ArtifactRef, EvidenceKind, KindSet, SubjectRevision};
use crate::text::{chars_contain, chars_of, chars_start_with, contains_sub, lower_chars, lower_seq, owned, starts_with, text_ok, valid_text};
use crate::text_map::{entries_map, entry_views, lookup, TextMap};
use vstd::prelude::*;

verus! {

/// Version of the adapter descriptor schema.
pub const ADAPTER_SCHEMA_VERSION: u32 = 1;
/// Version of the verification specification schema.
pub const VERIFICATION_SCHEMA_VERSION: u32 = 1;
/// Most metadata entries an observation context carries.
pub const MAX_CONTEXT_METADATA: usize = 16;
/// Most bytes of a canonical verification specification.
pub const MAX_VERIFICATION_SPEC_BYTES: usize = 65536;
/// Most nodes of a verification specification.
pub const MAX_VERIFICATION_SPEC_NODES: usize = 4096;
/// Deepest nesting of a verification specification.
pub const MAX_VERIFICATION_SPEC_DEPTH: usize = 32;

/// What kind of producer a provider is.
#[derive(Debug, Clone, Copy, PartialEq, Eq, Structural, Hash)]
pub enum ProviderClass {
    Execution,
    Research,
    Benchmark,
    Utility,
    Other,
}

/// The class name a core provider descriptor receives.
pub open spec fn class_text(c: ProviderClass) -> Seq<char> {
    match c {
        ProviderClass::Execution => "execution"@,
        ProviderClass::Research => "research"@,
        ProviderClass::Benchmark => "benchmark"@,
        ProviderClass::Utility => "utility"@,
        ProviderClass::Other => "other"@,
    }
}

/// The class name a core provider descriptor receives (see `class_text`).
pub fn class_name(c: ProviderClass) -> (r: &'static str)
    ensures
        r@ == class_text(c),
{
    match c {
        ProviderClass::Execution => "execution",
        ProviderClass::Research => "research",
        ProviderClass::Benchmark => "benchmark",
        ProviderClass::Utility => "utility",
        ProviderClass::Other => "other",
    }
}

/// What an adapter declares it can report.
#[derive(Debug, Clone, Copy, PartialEq, Eq, Structural, Hash)]
pub struct Capabilities {
    pub supports_in_progress: bool,
    pub artifacts: bool,
    pub verification_binding: bool,
    pub research_trust_metadata: bool,
}

/// Where a research result's content came from.
#[derive(Debug, Clone, Copy, PartialEq, Eq, Structural, Hash)]
pub enum SourceTrust {
    ProviderTrusted,
    ExternalUntrusted,
}

/// Why an adapter input is refused.
#[derive(Debug, Clone, PartialEq, Eq)]
pub enum SpiError {
    Invalid(&'static str),
    UnsupportedKind,
    MissingVerificationBinding,
    VerificationBindingNotSupported,
    ArtifactsNotSupported,
    InProgressNotSupported,
    HumanJudgmentUnsupported,
    InvalidVerificationSpec(String),
}

/// Value of an adapter error.
pub enum SpiErrorV {
    Invalid(Seq<char>),
    UnsupportedKind,
    MissingVerificationBinding,
    VerificationBindingNotSupported,
    ArtifactsNotSupported,
    InProgressNotSupported,
    HumanJudgmentUnsupported,
    InvalidVerificationSpec(Seq<char>),
}

impl View for SpiError {
    type V = SpiErrorV;

    open spec fn view(&self) -> SpiErrorV {
        match self {
            SpiError::Invalid(m) => SpiErrorV::Invalid(m@),
            SpiError::UnsupportedKind => SpiErrorV::UnsupportedKind,
            SpiError::MissingVerificationBinding => SpiErrorV::MissingVerificationBinding,
            SpiError::VerificationBindingNotSupported => SpiErrorV::VerificationBindingNotSupported,
            SpiError::ArtifactsNotSupported => SpiErrorV::ArtifactsNotSupported,
            SpiError::InProgressNotSupported => SpiErrorV::InProgressNotSupported,
            SpiError::HumanJudgmentUnsupported => SpiErrorV::HumanJudgmentUnsupported,
            SpiError::InvalidVerificationSpec(m) => SpiErrorV::InvalidVerificationSpec(m@),
        }
    }
}

/// The displayed message of an adapter error.
pub open spec fn spi_message(e: SpiErrorV) -> Seq<char> {
    match e {
        SpiErrorV::Invalid(m) => "invalid provider SPI input: "@ + m,
        SpiErrorV::UnsupportedKind => "unsupported evidence kind for provider"@,
        SpiErrorV::MissingVerificationBinding => "execution-derived evidence requires verification binding"@,
        SpiErrorV::VerificationBindingNotSupported => "verification binding capability is not declared"@,
        SpiErrorV::ArtifactsNotSupported => "artifact capability is not declared"@,
        SpiErrorV::InProgressNotSupported => "in-progress capability is not declared"@,
        SpiErrorV::HumanJudgmentUnsupported => "native result cannot assert human judgment"@,
        SpiErrorV::InvalidVerificationSpec(m) => "invalid canonical verification specification: "@ + m,
    }
}

impl SpiError {
    /// Human readable message (see `spi_message`).
    pub fn message(&self) -> (m: String)
        ensures
            m@ == spi_message(self@),
    {
        match self {
            SpiError::Invalid(detail) => {
                let mut m = owned("invalid provider SPI input: ");
                crate::text::push_str(&mut m, detail);
                m
            },
            SpiError::UnsupportedKind => owned("unsupported evidence kind for provider"),
            SpiError::MissingVerificationBinding => owned("execution-derived evidence requires verification binding"),
            SpiError::VerificationBindingNotSupported => owned("verification binding capability is not declared"),
            SpiError::ArtifactsNotSupported => owned("artifact capability is not declared"),
            SpiError::InProgressNotSupported => owned("in-progress capability is not declared"),
            SpiError::HumanJudgmentUnsupported => owned("native result cannot assert human judgment"),
            SpiError::InvalidVerificationSpec(detail) => {
                let mut m = owned("invalid canonical verification specification: ");
                crate::text::push_str(&mut m, detail.as_str());
                m
            },
        }
    }
}

/// The message for text that is empty, holds NUL, or is too long.
pub open spec fn bounded_message() -> Seq<char> {
    "text is empty, contains NUL, or exceeds bound"@
}

/// Bounded text, or the adapter error for it.
pub fn bounded_text(value: &str, max: usize) -> (r: Result<(), SpiError>)
    ensures
        match r {
            Ok(()) => valid_text(value@, max as nat),
            Err(e) => !valid_text(value@, max as nat) && e@ == SpiErrorV::Invalid(bounded_message()),
        },
{
    if text_ok(value, max) {
        Ok(())
    } else {
        Err(SpiError::Invalid("text is empty, contains NUL, or exceeds bound"))
    }
}

/// Key fragments that mark metadata as sensitive.
pub open spec fn sensitive_needles() -> Seq<Seq<char>> {
    seq!["token"@, "password"@, "secret"@, "credential"@, "authorization"@, "endpoint"@]
}

/// Value fragments that mark text as a secret.
pub open spec fn secret_needles() -> Seq<Seq<char>> {
    seq!["bearer "@, "token="@, "password="@, "secret="@, "api_key="@, "api-key="@]
}

/// Some needle occurs in the text.
pub open spec fn contains_any(s: Seq<char>, needles: Seq<Seq<char>>) -> bool {
    exists|i: int| 0 <= i < needles.len() && contains_sub(s, #[trigger] needles[i])
}

/// A metadata key whose lowercase form names a credential or endpoint.
pub open spec fn sensitive_key(k: Seq<char>) -> bool {
    contains_any(lower_seq(k), sensitive_needles())
}

/// Text whose lowercase form looks like a URL, an API key or a credential.
pub open spec fn secret_or_endpoint(v: Seq<char>) -> bool {
    let l = lower_seq(v);
    contains_sub(l, "://"@) || starts_with(l, "sk-"@) || contains_any(l, secret_needles())
}

fn contains_any_exec(s: &Vec<char>, needles: &Vec<&'static str>, Ghost(spec_needles): Ghost<Seq<Seq<char>>>) -> (r: bool)
    requires
        needles@.len() == spec_needles.len(),
        forall|i: int| 0 <= i < needles@.len() ==> (#[trigger] needles@[i])@ == spec_needles[i],
    ensures
        r == contains_any(s@, spec_needles),
{
    let mut i: usize = 0;
    while i < needles.len()
        invariant
            i <= needles.len(),
            needles@.len() == spec_needles.len(),
            forall|k: int| 0 <= k < needles@.len() ==> (#[trigger] needles@[k])@ == spec_needles[k],
            forall|k: int| 0 <= k < i ==> !contains_sub(s@, #[trigger] spec_needles[k]),
        decreases needles.len() - i,
    {
        let n = chars_of(needles[i]);
        if chars_contain(s, &n) {
            assert(contains_sub(s@, spec_needles[i as int]));
            return true;
        }
        i = i + 1;
    }
    false
}

/// Whether a metadata key is sensitive (see `sensitive_key`).
pub fn is_sensitive_key(key: &str) -> (r: bool)
    ensures
        r == sensitive_key(key@),
{
    let l = lower_chars(&chars_of(key));
    let needles = vec!["token", "password", "secret", "credential", "authorization", "endpoint"];
    contains_any_exec(&l, &needles, Ghost(sensitive_needles()))
}

/// Whether text looks like a secret or endpoint (see `secret_or_endpoint`).
pub fn looks_like_secret_or_endpoint(value: &str) -> (r: bool)
    ensures
        r == secret_or_endpoint(value@),
{
    let l = lower_chars(&chars_of(value));
    let scheme = chars_of("://");
    let key = chars_of("sk-");
    let needles = vec!["bearer ", "token=", "password=", "secret=", "api_key=", "api-key="];
    chars_contain(&l, &scheme) || chars_start_with(&l, &key) || contains_any_exec(&l, &needles, Ghost(secret_needles()))
}

/// The first rule a metadata map breaks, as its message.
pub open spec fn map_fault(e: Seq<(Seq<char>, Seq<char>)>, max: nat) -> Option<Seq<char>> {
    if e.len() > max {
        Some("metadata entry limit exceeded"@)
    } else {
        entries_fault(e, e.len() as int)
    }
}

/// The first of the first `n` entries that breaks a rule, as its message.
pub open spec fn entries_fault(e: Seq<(Seq<char>, Seq<char>)>, n: int) -> Option<Seq<char>>
    decreases n,
{
    if n <= 0 {
        None
    } else if entries_fault(e, n - 1) is Some {
        entries_fault(e, n - 1)
    } else if !valid_text(e[n - 1].0, ID_CHARS as nat) || !valid_text(e[n - 1].1, OBSERVATION_METADATA_VALUE_CHARS as nat) {
        Some(bounded_message())
    } else if sensitive_key(e[n - 1].0) || secret_or_endpoint(e[n - 1].1) {
        Some("sensitive metadata cannot be persisted by the generic SPI"@)
    } else {
        None
    }
}

proof fn lemma_entries_fault_stable(e: Seq<(Seq<char>, Seq<char>)>, n: int, m: int)
    requires
        0 <= n <= m,
    ensures
        entries_fault(e, n) is Some ==> entries_fault(e, m) == entries_fault(e, n),
    decreases m - n,
{
    if m > n {
        lemma_entries_fault_stable(e, n, m - 1);
    }
}

/// Checks a metadata map (see `map_fault`).
pub fn validate_map(map: &TextMap, max_entries: usize) -> (r: Result<(), SpiError>)
    ensures
        match r {
            Ok(()) => map_fault(map@, max_entries as nat) is None,
            Err(e) => map_fault(map@, max_entries as nat) matches Some(m) && e@ == SpiErrorV::Invalid(m),
        },
{
    if map.len() > max_entries {
        return Err(SpiError::Invalid("metadata entry limit exceeded"));
    }
    let entries = map.entries();
    let mut i: usize = 0;
    while i < entries.len()
        invariant
            i <= entries.len(),
            map@.len() <= max_entries,
            entry_views(entries@) == map@,
            entries_fault(map@, i as int) is None,
        decreases entries.len() - i,
    {
        proof {
            lemma_entries_fault_stable(map@, i + 1, map@.len() as int);
        }
        let key = entries[i].0.as_str();
        let value = entries[i].1.as_str();
        if !text_ok(key, ID_CHARS) || !text_ok(value, OBSERVATION_METADATA_VALUE_CHARS) {
            return Err(SpiError::Invalid("text is empty, contains NUL, or exceeds bound"));
        }
        if is_sensitive_key(key) || looks_like_secret_or_endpoint(value) {
            return Err(SpiError::Invalid("sensitive metadata cannot be persisted by the generic SPI"));
        }
        i = i + 1;
    }
    Ok(())
}

/// What an adapter is and what it may report.
#[derive(Debug, Clone, PartialEq, Eq)]
pub struct AdapterDescriptor {
    pub schema_version: u32,
    pub provider_id: EvidenceProviderId,
    pub provider_class: ProviderClass,
    pub allowed_kinds: KindSet,
    pub adapter_version: String,
    pub capabilities: Capabilities,
}

/// The first rule an adapter descriptor breaks, if any.
pub open spec fn adapter_fault(schema_version: u32, adapter_version: Seq<char>, kinds: Set<EvidenceKind>) -> Option<SpiErrorV> {
    if schema_version != ADAPTER_SCHEMA_VERSION {
        Some(SpiErrorV::Invalid("unknown adapter descriptor schema"@))
    } else if !valid_text(adapter_version, ID_CHARS as nat) {
        Some(SpiErrorV::Invalid(bounded_message()))
    } else if kinds.len() == 0 {
        Some(SpiErrorV::Invalid("adapter must allow at least one evidence kind"@))
    } else if kinds.contains(EvidenceKind::HumanJudgment) {
        Some(SpiErrorV::Invalid("adapters cannot assert human judgment"@))
    } else {
        None
    }
}

impl AdapterDescriptor {
    /// A current-schema descriptor; refuses repeated kinds, an unbounded
    /// version, no kinds, and human judgment.
    pub fn new(
        provider_id: EvidenceProviderId,
        provider_class: ProviderClass,
        allowed_kinds: &[EvidenceKind],
        adapter_version: &str,
        capabilities: Capabilities,
    ) -> (r: Result<AdapterDescriptor, SpiError>)
        ensures
            match r {
                Ok(d) => {
                    &&& allowed_kinds@.no_duplicates()
                    &&& adapter_fault(ADAPTER_SCHEMA_VERSION, adapter_version@, allowed_kinds@.to_set()) is None
                    &&& d.schema_version == ADAPTER_SCHEMA_VERSION
                    &&& d.provider_id@ == provider_id@
                    &&& d.provider_class == provider_class
                    &&& d.allowed_kinds@ == allowed_kinds@.to_set()
                    &&& d.adapter_version@ == adapter_version@
                    &&& d.capabilities == capabilities
                },
                Err(e) => if !allowed_kinds@.no_duplicates() {
                    e@ == SpiErrorV::Invalid("duplicate evidence kind"@)
                } else {
                    adapter_fault(ADAPTER_SCHEMA_VERSION, adapter_version@, allowed_kinds@.to_set()) == Some(e@)
                },
            },
    {
        let mut kinds: Vec<EvidenceKind> = Vec::new();
        let mut i: usize = 0;
        while i < allowed_kinds.len()
            invariant
                i <= allowed_kinds.len(),
                kinds@ == allowed_kinds@.take(i as int),
                kinds@.no_duplicates(),
            decreases allowed_kinds.len() - i,
        {
            let mut j: usize = 0;
            while j < kinds.len()
                invariant
                    j <= kinds.len(),
                    kinds@ == allowed_kinds@.take(i as int),
                    i < allowed_kinds.len(),
                    forall|k: int| 0 <= k < j ==> kinds@[k] != allowed_kinds@[i as int],
                decreases kinds.len() - j,
            {
                if kinds[j] == allowed_kinds[i] {
                    proof {
                        assert(allowed_kinds@[j as int] == allowed_kinds@[i as int]);
                    }
                    return Err(SpiError::Invalid("duplicate evidence kind"));
                }
                j = j + 1;
            }
            kinds.push(allowed_kinds[i]);
            assert(allowed_kinds@.take(i + 1) =~= allowed_kinds@.take(i as int).push(allowed_kinds@[i as int]));
            i = i + 1;
        }
        assert(allowed_kinds@.take(allowed_kinds.len() as int) =~= allowed_kinds@);
        let set = KindSet::from_kinds(&kinds);
        let value = AdapterDescriptor {
            schema_version: ADAPTER_SCHEMA_VERSION,
            provider_id,
            provider_class,
            allowed_kinds: set,
            adapter_version: owned(adapter_version),
            capabilities,
        };
        value.validate()?;
        Ok(value)
    }

    /// Checks the descriptor (see `adapter_fault`).
    pub fn validate(&self) -> (r: Result<(), SpiError>)
        ensures
            match r {
                Ok(()) => adapter_fault(self.schema_version, self.adapter_version@, self.allowed_kinds@) is None,
                Err(e) => adapter_fault(self.schema_version, self.adapter_version@, self.allowed_kinds@) == Some(e@),
            },
    {
        if self.schema_version != ADAPTER_SCHEMA_VERSION {
            return Err(SpiError::Invalid("unknown adapter descriptor schema"));
        }
        bounded_text(self.adapter_version.as_str(), ID_CHARS)?;
        if self.allowed_kinds.is_empty() {
            return Err(SpiError::Invalid("adapter must allow at least one evidence kind"));
        }
        if self.allowed_kinds.contains(EvidenceKind::HumanJudgment) {
            return Err(SpiError::Invalid("adapters cannot assert human judgment"));
        }
        Ok(())
    }

    /// The core provider descriptor a host may register; calling this
    /// enrolls nothing.
    pub fn provider_descriptor(&self) -> (r: Result<ProviderDescriptor, SpiError>)
        ensures
            match r {
                Ok(d) => adapter_fault(self.schema_version, self.adapter_version@, self.allowed_kinds@) is None && d@ == (
                DescriptorV {
                    id: self.provider_id@,
                    class: class_text(self.provider_class),
                    allowed_kinds: self.allowed_kinds@,
                }),
                Err(e) => adapter_fault(self.schema_version, self.adapter_version@, self.allowed_kinds@) == Some(e@),
            },
    {
        self.validate()?;
        let kinds = self.allowed_kinds.kinds();
        let slice = kinds.as_slice();
        match ProviderDescriptor::new(self.provider_id.duplicate(), class_name(self.provider_class), slice) {
            Ok(d) => Ok(d),
            Err(_) => {
                proof {
                    reveal_strlit("execution");
                    reveal_strlit("research");
                    reveal_strlit("benchmark");
                    reveal_strlit("utility");
                    reveal_strlit("other");
                    assert(kinds@.contains(kinds@[0]) || kinds@.len() == 0);
                    if kinds@.len() == 0 {
                        assert(self.allowed_kinds@ =~= Set::<EvidenceKind>::empty());
                    }
                }
                Err(SpiError::Invalid("core provider descriptor rejected"))
            },
        }
    }
}

/// What the host supplies about one observation.
#[derive(Debug, Clone, PartialEq, Eq)]
pub struct ObservationContext {
    pub observation_id: EvidenceObservationId,
    pub subject: SubjectRevision,
    pub requested_kind: EvidenceKind,
    pub observed_at_unix_ms: u64,
    pub invocation_ref: Option<String>,
    pub verification_digest: Option<VerificationDigest>,
    pub metadata: TextMap,
}

/// The first rule an observation context breaks, if any.
pub open spec fn context_fault(c: ObservationContext) -> Option<SpiErrorV> {
    if subject_error(c.subject@) is Some {
        Some(SpiErrorV::Invalid("invalid subject"@))
    } else if c.invocation_ref is Some && !valid_text(c.invocation_ref->0@, INVOCATION_REF_CHARS as nat) {
        Some(SpiErrorV::Invalid(bounded_message()))
    } else if c.invocation_ref is Some && secret_or_endpoint(c.invocation_ref->0@) {
        Some(SpiErrorV::Invalid("secret or endpoint cannot be persisted as invocation reference"@))
    } else if map_fault(c.metadata@, MAX_CONTEXT_METADATA as nat) is Some {
        Some(SpiErrorV::Invalid(map_fault(c.metadata@, MAX_CONTEXT_METADATA as nat)->0))
    } else {
        None
    }
}

impl ObservationContext {
    /// Checks the context (see `context_fault`).
    pub fn validate(&self) -> (r: Result<(), SpiError>)
        ensures
            match r {
                Ok(()) => context_fault(*self) is None,
                Err(e) => context_fault(*self) == Some(e@),
            },
    {
        if self.subject.validate().is_err() {
            return Err(SpiError::Invalid("invalid subject"));
        }
        if let Some(value) = &self.invocation_ref {
            bounded_text(value.as_str(), INVOCATION_REF_CHARS)?;
            if looks_like_secret_or_endpoint(value.as_str()) {
                return Err(SpiError::Invalid("secret or endpoint cannot be persisted as invocation reference"));
            }
        }
        validate_map(&self.metadata, MAX_CONTEXT_METADATA)?;
        Ok(())
    }
}

/// Native facts an adapter has normalized. It names no provider: the
/// descriptor passed to finalization is the authority.
#[derive(Debug, Clone, PartialEq, Eq)]
pub struct NormalizedProviderResult {
    pub status: EvidenceStatus,
    pub source_trust: Option<SourceTrust>,
    pub result_metadata: TextMap,
    pub artifacts: Vec<ArtifactRef>,
}

/// The first rule among the first `n` artifact references that is broken.
pub open spec fn artifact_refs_fault(a: Seq<ArtifactRef>, n: int) -> Option<Seq<char>>
    decreases n,
{
    if n <= 0 {
        None
    } else if artifact_refs_fault(a, n - 1) is Some {
        artifact_refs_fault(a, n - 1)
    } else if a[n - 1].reference@.len() > ARTIFACT_REF_CHARS {
        Some("artifact reference exceeds bound"@)
    } else if secret_or_endpoint(a[n - 1].reference@) {
        Some("secret or endpoint cannot be persisted as artifact reference"@)
    } else if artifact_error(a[n - 1]) is Some {
        Some("invalid artifact reference"@)
    } else {
        None
    }
}

proof fn lemma_artifact_refs_fault_stable(a: Seq<ArtifactRef>, n: int, m: int)
    requires
        0 <= n <= m,
    ensures
        artifact_refs_fault(a, n) is Some ==> artifact_refs_fault(a, m) == artifact_refs_fault(a, n),
    decreases m - n,
{
    if m > n {
        lemma_artifact_refs_fault_stable(a, n, m - 1);
    }
}

/// The first rule a normalized result breaks, as its message.
pub open spec fn result_fault(r: NormalizedProviderResult) -> Option<Seq<char>> {
    if map_fault(r.result_metadata@, MAX_OBSERVATION_METADATA as nat) is Some {
        map_fault(r.result_metadata@, MAX_OBSERVATION_METADATA as nat)
    } else if r.artifacts@.len() > MAX_ARTIFACT_REFS {
        Some("artifact reference limit exceeded"@)
    } else {
        artifact_refs_fault(r.artifacts@, r.artifacts@.len() as int)
    }
}

impl NormalizedProviderResult {
    /// Checks the result (see `result_fault`).
    #[verifier::loop_isolation(false)]
    pub fn validate(&self) -> (r: Result<(), SpiError>)
        ensures
            match r {
                Ok(()) => result_fault(*self) is None,
                Err(e) => result_fault(*self) matches Some(m) && e@ == SpiErrorV::Invalid(m),
            },
    {
        validate_map(&self.result_metadata, MAX_OBSERVATION_METADATA)?;
        if self.artifacts.len() > MAX_ARTIFACT_REFS {
            return Err(SpiError::Invalid("artifact reference limit exceeded"));
        }
        let mut i: usize = 0;
        while i < self.artifacts.len()
            invariant
                i <= self.artifacts.len(),
                artifact_refs_fault(self.artifacts@, i as int) is None,
            decreases self.artifacts.len() - i,
        {
            proof {
                lemma_artifact_refs_fault_stable(self.artifacts@, i + 1, self.artifacts@.len() as int);
            }
            let a = &self.artifacts[i];
            if crate::text::char_count(a.reference.as_str()) > ARTIFACT_REF_CHARS {
                return Err(SpiError::Invalid("artifact reference exceeds bound"));
            }
            if looks_like_secret_or_endpoint(a.reference.as_str()) {
                return Err(SpiError::Invalid("secret or endpoint cannot be persisted as artifact reference"));
            }
            if a.validate().is_err() {
                return Err(SpiError::Invalid("invalid artifact reference"));
            }
            i = i + 1;
        }
        Ok(())
    }
}

/// The metadata value recording a source trust marker.
pub open spec fn trust_text(t: SourceTrust) -> Seq<char> {
    match t {
        SourceTrust::ProviderTrusted => "provider_trusted"@,
        SourceTrust::ExternalUntrusted => "external_untrusted"@,
    }
}

/// Context metadata with the trust marker recorded.
pub open spec fn with_trust(m: Map<Seq<char>, Seq<char>>, t: Option<SourceTrust>) -> Map<Seq<char>, Seq<char>> {
    match t {
        Some(x) => m.insert("source_trust"@, trust_text(x)),
        None => m,
    }
}

/// Context metadata, trust marker and result metadata together.
pub open spec fn merged_metadata(c: ObservationContext, r: NormalizedProviderResult) -> Map<Seq<char>, Seq<char>> {
    with_trust(entries_map(c.metadata@), r.source_trust).union_prefer_right(entries_map(r.result_metadata@))
}

/// Some result metadata key is already a context key or the trust marker.
pub open spec fn metadata_clash(c: ObservationContext, r: NormalizedProviderResult) -> bool {
    exists|i: int| 0 <= i < r.result_metadata@.len() && with_trust(entries_map(c.metadata@), r.source_trust).dom().contains(
        (#[trigger] r.result_metadata@[i]).0,
    )
}

/// The observation finalization produces, with merged metadata and a digest.
pub open spec fn finalized_view(
    d: AdapterDescriptor,
    c: ObservationContext,
    r: NormalizedProviderResult,
    digest: Seq<char>,
) -> crate::evidence::ObservationV {
    crate::evidence::ObservationV {
        schema_version: EVIDENCE_SCHEMA_VERSION,
        id: c.observation_id@,
        provider_id: d.provider_id@,
        kind: c.requested_kind,
        status: r.status,
        subject: c.subject@,
        observed_at_unix_ms: c.observed_at_unix_ms,
        invocation_ref: crate::evidence::opt_seq(c.invocation_ref),
        verification_digest: crate::evidence::opt_vd(c.verification_digest),
        result_metadata: crate::text_map::sorted_entries(merged_metadata(c, r)),
        artifacts: r.artifacts@,
        content_digest: digest,
    }
}

/// The first rule finalization finds broken, if any.
pub open spec fn finalize_fault(d: AdapterDescriptor, c: ObservationContext, r: NormalizedProviderResult) -> Option<SpiErrorV> {
    finalize_fault_in(d, c, r, true)
}

/// The first rule finalization finds broken, where the rule that an
/// external-untrusted result is never Passed applies only when
/// `refuse_untrusted_passed` holds.
pub open spec fn finalize_fault_in(
    d: AdapterDescriptor,
    c: ObservationContext,
    r: NormalizedProviderResult,
    refuse_untrusted_passed: bool,
) -> Option<SpiErrorV> {
    let caps = d.capabilities;
    if adapter_fault(d.schema_version, d.adapter_version@, d.allowed_kinds@) is Some {
        adapter_fault(d.schema_version, d.adapter_version@, d.allowed_kinds@)
    } else if context_fault(c) is Some {
        context_fault(c)
    } else if result_fault(r) is Some {
        Some(SpiErrorV::Invalid(result_fault(r)->0))
    } else if !d.allowed_kinds@.contains(c.requested_kind) {
        Some(SpiErrorV::UnsupportedKind)
    } else if c.requested_kind == EvidenceKind::HumanJudgment {
        Some(SpiErrorV::HumanJudgmentUnsupported)
    } else if d.provider_class == ProviderClass::Research && r.source_trust is None {
        Some(SpiErrorV::Invalid("research results must preserve a source trust marker"@))
    } else if r.source_trust is Some && !caps.research_trust_metadata {
        Some(SpiErrorV::Invalid("provider does not declare research trust metadata capability"@))
    } else if refuse_untrusted_passed && r.source_trust == Some(SourceTrust::ExternalUntrusted) && r.status
        == EvidenceStatus::Passed {
        Some(SpiErrorV::Invalid("external-untrusted source cannot normalize as passed evidence"@))
    } else if r.status == EvidenceStatus::InProgress && !caps.supports_in_progress {
        Some(SpiErrorV::InProgressNotSupported)
    } else if r.artifacts@.len() > 0 && !caps.artifacts {
        Some(SpiErrorV::ArtifactsNotSupported)
    } else if is_execution_kind(c.requested_kind) && c.verification_digest is None {
        Some(SpiErrorV::MissingVerificationBinding)
    } else if c.verification_digest is Some && !caps.verification_binding {
        Some(SpiErrorV::VerificationBindingNotSupported)
    } else if r.source_trust is Some && entries_map(c.metadata@).dom().contains("source_trust"@) {
        Some(SpiErrorV::Invalid("source trust metadata is reserved for the normalized trust marker"@))
    } else if metadata_clash(c, r) {
        Some(SpiErrorV::Invalid("duplicate context/result metadata key"@))
    } else if map_fault(crate::text_map::sorted_entries(merged_metadata(c, r)), MAX_OBSERVATION_METADATA as nat) is Some {
        Some(SpiErrorV::Invalid(map_fault(crate::text_map::sorted_entries(merged_metadata(c, r)), MAX_OBSERVATION_METADATA as nat)->0))
    } else if fields_fault(finalized_view(d, c, r, Seq::empty())) is Some {
        Some(SpiErrorV::Invalid("core rejected normalized observation"@))
    } else {
        None
    }
}

proof fn lemma_entries_map_push(e: Seq<(Seq<char>, Seq<char>)>, x: (Seq<char>, Seq<char>))
    ensures
        entries_map(e.push(x)) == entries_map(e).insert(x.0, x.1),
{
    assert(e.push(x).drop_last() =~= e);
    assert(entries_map(e.push(x)) =~= entries_map(e).insert(x.0, x.1));
}

/// Merges context metadata, the trust marker and result metadata.
#[verifier::loop_isolation(false)]
fn merge_metadata(c: &ObservationContext, r: &NormalizedProviderResult) -> (m: Result<TextMap, SpiError>)
    ensures
        match m {
            Ok(md) => {
                &&& !(r.source_trust is Some && entries_map(c.metadata@).dom().contains("source_trust"@))
                &&& !metadata_clash(*c, *r)
                &&& md@ == crate::text_map::sorted_entries(merged_metadata(*c, *r))
            },
            Err(e) => if r.source_trust is Some && entries_map(c.metadata@).dom().contains("source_trust"@) {
                e@ == SpiErrorV::Invalid("source trust metadata is reserved for the normalized trust marker"@)
            } else {
                metadata_clash(*c, *r) && e@ == SpiErrorV::Invalid("duplicate context/result metadata key"@)
            },
        },
{
    let mut md = c.metadata.duplicate();
    if let Some(t) = r.source_trust {
        let value = match t {
            SourceTrust::ProviderTrusted => "provider_trusted",
            SourceTrust::ExternalUntrusted => "external_untrusted",
        };
        if md.insert(owned("source_trust"), owned(value)).is_some() {
            return Err(SpiError::Invalid("source trust metadata is reserved for the normalized trust marker"));
        }
    }
    let ghost base = with_trust(entries_map(c.metadata@), r.source_trust);
    assert(entries_map(md@) == base);
    let entries = r.result_metadata.entries();
    let ghost re = r.result_metadata@;
    let mut i: usize = 0;
    assert(re.take(0) =~= Seq::<(Seq<char>, Seq<char>)>::empty());
    assert(entries_map(re.take(0)) =~= Map::<Seq<char>, Seq<char>>::empty());
    assert(base.union_prefer_right(Map::<Seq<char>, Seq<char>>::empty()) =~= base);
    while i < entries.len()
        invariant
            i <= entries.len(),
            re == r.result_metadata@,
            entry_views(entries@) == re,
            crate::text_map::sorted_keys(re),
            base == with_trust(entries_map(c.metadata@), r.source_trust),
            entries_map(md@) == base.union_prefer_right(entries_map(re.take(i as int))),
            forall|j: int| 0 <= j < i ==> !base.dom().contains((#[trigger] re[j]).0),
        decreases entries.len() - i,
    {
        let ghost before = md@;
        let key = entries[i].0.clone();
        let value = entries[i].1.clone();
        proof {
            assert(key@ == re[i as int].0);
            assert(!entries_map(re.take(i as int)).dom().contains(re[i as int].0)) by {
                if entries_map(re.take(i as int)).dom().contains(re[i as int].0) {
                    crate::text_map::lemma_lookup_in(re.take(i as int), re[i as int].0);
                    let j = choose|j: int| 0 <= j < re.take(i as int).len() && (#[trigger] re.take(i as int)[j]).0 == re[i as int].0;
                    assert(re.take(i as int)[j] == re[j]);
                    assert(crate::text::seq_lt(re[j].0, re[i as int].0));
                    crate::text::lemma_seq_lt_irreflexive(re[i as int].0);
                }
            }
            assert(entries_map(before).dom().contains(re[i as int].0) <==> base.dom().contains(re[i as int].0));
            assert(entries_map(before).dom().contains(re[i as int].0) <==> crate::text_map::lookup(before, re[i as int].0) is Some);
        }
        let prev = md.insert(key, value);
        if prev.is_some() {
            proof {
                assert(base.dom().contains(re[i as int].0));
                assert(metadata_clash(*c, *r));
            }
            return Err(SpiError::Invalid("duplicate context/result metadata key"));
        }
        proof {
            lemma_entries_map_push(re.take(i as int), re[i as int]);
            assert(re.take(i + 1) =~= re.take(i as int).push(re[i as int]));
            assert(entries_map(md@) =~= base.union_prefer_right(entries_map(re.take(i + 1))));
        }
        i = i + 1;
    }
    proof {
        assert(re.take(entries.len() as int) =~= re);
        if metadata_clash(*c, *r) {
            let k = choose|k: int| 0 <= k < re.len() && base.dom().contains((#[trigger] re[k]).0);
            assert(!base.dom().contains(re[k].0));
        }
    }
    let sorted = md.entries();
    proof {
        crate::text_map::lemma_view_is_sorted_entries(md@);
    }
    Ok(md)
}

/// What finalization gives for a descriptor, context and result: the
/// finalized observation with its content digest, or the first fault.
pub open spec fn finalize_outcome(
    d: AdapterDescriptor,
    c: ObservationContext,
    nr: NormalizedProviderResult,
    r: Result<EvidenceObservation, SpiError>,
) -> bool {
    finalize_outcome_in(d, c, nr, r, true)
}

/// What finalization gives (see `finalize_outcome`), with the rule on
/// external-untrusted Passed results applied as `finalize_fault_in` says.
pub open spec fn finalize_outcome_in(
    d: AdapterDescriptor,
    c: ObservationContext,
    nr: NormalizedProviderResult,
    r: Result<EvidenceObservation, SpiError>,
    refuse_untrusted_passed: bool,
) -> bool {
    match r {
        Ok(o) => {
            &&& finalize_fault_in(d, c, nr, refuse_untrusted_passed) is None
            &&& o@ == finalized_view(d, c, nr, o@.content_digest)
            &&& o@.content_digest == crate::digest::json_digest(crate::evidence::content_json(o@))
        },
        Err(e) => finalize_fault_in(d, c, nr, refuse_untrusted_passed) == Some(e@),
    }
}

/// Finalizes a normalized native result into an observation. The provider
/// identity comes from the descriptor; the descriptor must allow the
/// requested kind; research keeps its trust marker; external-untrusted
/// content never normalizes as Passed; declared capabilities gate
/// in-progress, artifacts and verification binding; execution-derived
/// kinds need a verification binding; metadata is merged without clashes
/// and without secrets or endpoints.
pub fn finalize_observation(
    descriptor: &AdapterDescriptor,
    context: &ObservationContext,
    result: &NormalizedProviderResult,
) -> (r: Result<EvidenceObservation, SpiError>)
    ensures
        finalize_outcome(*descriptor, *context, *result, r),
{
    finalize_checked(descriptor, context, result, true)
}

/// Finalizes a result as `finalize_observation` does, applying the rule
/// on external-untrusted Passed results only when `refuse_untrusted_passed`
/// holds. An adapter whose own marker records content provenance, while
/// its status describes only how the evidence was produced, finalizes
/// without that rule.
#[verifier::rlimit(40)]
pub(crate) fn finalize_checked(
    descriptor: &AdapterDescriptor,
    context: &ObservationContext,
    result: &NormalizedProviderResult,
    refuse_untrusted_passed: bool,
) -> (r: Result<EvidenceObservation, SpiError>)
    ensures
        finalize_outcome_in(*descriptor, *context, *result, r, refuse_untrusted_passed),
{
    descriptor.validate()?;
    context.validate()?;
    match result.validate() {
        Ok(()) => {},
        Err(e) => {
            return Err(e);
        },
    }
    if !descriptor.allowed_kinds.contains(context.requested_kind) {
        return Err(SpiError::UnsupportedKind);
    }
    if context.requested_kind == EvidenceKind::HumanJudgment {
        return Err(SpiError::HumanJudgmentUnsupported);
    }
    if descriptor.provider_class == ProviderClass::Research && result.source_trust.is_none() {
        return Err(SpiError::Invalid("research results must preserve a source trust marker"));
    }
    if result.source_trust.is_some() && !descriptor.capabilities.research_trust_metadata {
        return Err(SpiError::Invalid("provider does not declare research trust metadata capability"));
    }
    if refuse_untrusted_passed && result.source_trust == Some(SourceTrust::ExternalUntrusted) && result.status
        == EvidenceStatus::Passed {
        return Err(SpiError::Invalid("external-untrusted source cannot normalize as passed evidence"));
    }
    if result.status == EvidenceStatus::InProgress && !descriptor.capabilities.supports_in_progress {
        return Err(SpiError::InProgressNotSupported);
    }
    if result.artifacts.len() > 0 && !descriptor.capabilities.artifacts {
        return Err(SpiError::ArtifactsNotSupported);
    }
    if is_execution_evidence(context.requested_kind) && context.verification_digest.is_none() {
        return Err(SpiError::MissingVerificationBinding);
    }
    if context.verification_digest.is_some() && !descriptor.capabilities.verification_binding {
        return Err(SpiError::VerificationBindingNotSupported);
    }
    let metadata = merge_metadata(context, result)?;
    validate_map(&metadata, MAX_OBSERVATION_METADATA)?;
    let input = EvidenceObservationInput {
        id: context.observation_id.duplicate(),
        provider_id: descriptor.provider_id.duplicate(),
        kind: context.requested_kind,
        status: result.status,
        subject: context.subject.duplicate(),
        observed_at_unix_ms: context.observed_at_unix_ms,
        invocation_ref: crate::model::copy_opt_string(&context.invocation_ref),
        verification_digest: match &context.verification_digest {
            Some(d) => Some(d.duplicate()),
            None => None,
        },
        result_metadata: metadata,
        artifacts: crate::evidence::copy_artifacts(&result.artifacts),
    };
    let ghost iv = input;
    proof {
        assert(input_view(iv, EVIDENCE_SCHEMA_VERSION, Seq::empty()) == finalized_view(*descriptor, *context, *result, Seq::empty()));
    }
    match EvidenceObservation::finalize(input) {
        Ok(o) => {
            proof {
                assert(input_view(iv, EVIDENCE_SCHEMA_VERSION, o@.content_digest) == finalized_view(*descriptor, *context, *result, o@.content_digest));
            }
            Ok(o)
        },
        Err(_) => Err(SpiError::Invalid("core rejected normalized observation")),
    }
}

/// Every entry of a map without faults is bounded and holds no sensitive key
/// and no secret or endpoint value.
pub proof fn lemma_clean_entries(e: Seq<(Seq<char>, Seq<char>)>, n: int)
    requires
        0 <= n <= e.len(),
        entries_fault(e, n) is None,
    ensures
        forall|i: int| 0 <= i < n ==> !sensitive_key((#[trigger] e[i]).0) && !secret_or_endpoint(e[i].1) && valid_text(
            e[i].0,
            ID_CHARS as nat,
        ) && valid_text(e[i].1, OBSERVATION_METADATA_VALUE_CHARS as nat),
    decreases n,
{
    if n > 0 {
        lemma_clean_entries(e, n - 1);
    }
}

/// What finalization guarantees of every observation it produces: the
/// kind is one the descriptor allows and never human judgment; an
/// execution-derived kind carries a verification binding and the provider
/// declared binding support; an external-untrusted research result is
/// never Passed; in-progress and artifact results need declared
/// capabilities; and no persisted metadata entry has a sensitive key or a
/// secret or endpoint value.
pub proof fn lemma_finalized_observation_policy(d: AdapterDescriptor, c: ObservationContext, r: NormalizedProviderResult)
    requires
        finalize_fault(d, c, r) is None,
    ensures
        d.allowed_kinds@.contains(c.requested_kind),
        c.requested_kind != EvidenceKind::HumanJudgment,
        !d.allowed_kinds@.contains(EvidenceKind::HumanJudgment),
        is_execution_kind(c.requested_kind) ==> c.verification_digest is Some && d.capabilities.verification_binding,
        !(r.source_trust == Some(SourceTrust::ExternalUntrusted) && r.status == EvidenceStatus::Passed),
        d.provider_class == ProviderClass::Research ==> r.source_trust is Some,
        r.status == EvidenceStatus::InProgress ==> d.capabilities.supports_in_progress,
        r.artifacts@.len() > 0 ==> d.capabilities.artifacts,
        forall|i: int| 0 <= i < crate::text_map::sorted_entries(merged_metadata(c, r)).len() ==> !sensitive_key(
            (#[trigger] crate::text_map::sorted_entries(merged_metadata(c, r))[i]).0,
        ) && !secret_or_endpoint(crate::text_map::sorted_entries(merged_metadata(c, r))[i].1),
{
    let e = crate::text_map::sorted_entries(merged_metadata(c, r));
    lemma_clean_entries(e, e.len() as int);
}

} // verus!
