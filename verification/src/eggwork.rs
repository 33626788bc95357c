//! Normalizer for Eggwork execution snapshots. The host submits the
//! native records as values; nothing here runs a command or keeps
//! captured output, and only sizes, identities and outcomes are recorded.
use crate::digest::is_lower_hex;
use crate::evidence::{EvidenceObservation, EvidenceStatus};
use crate::identity::{valid_id, EvidenceProviderId};
use crate::json::{decimal, write_decimal};
use crate::markdown_text::{split_by, utf8_len};
use crate::model::{ArtifactRef, EvidenceKind, KindSet};
use crate::spi::{
    adapter_fault, finalize_outcome, AdapterDescriptor, Capabilities, NormalizedProviderResult, ObservationContext,
    ProviderClass, SpiError, SpiErrorV, ADAPTER_SCHEMA_VERSION,
};
use crate::text::{chars_of, owned, push_str, str_eq};
use crate::text_map::{entries_map, sorted_entries, TextMap};
use vstd::prelude::*;

verus! {

/// The Eggwork revision whose record shapes this normalizer follows.
pub const REVIEWED_EGGWORK_SHA: &'static str = "faaa0b905fa6bc43e46825fdd98530b5533a970f";
/// Most bytes of a serialized snapshot or artifact list.
pub const MAX_SNAPSHOT_BYTES: usize = 1_048_576;
/// Most artifacts of one execution.
pub const MAX_ARTIFACTS: usize = 64;

/// Lifecycle state of an execution.
#[derive(Debug, Clone, Copy, PartialEq, Eq, Structural)]
pub enum ExecutionState {
    Accepted,
    Preparing,
    Running,
    Cancelling,
    Succeeded,
    Failed,
    Cancelled,
    TimedOut,
    Interrupted,
}

/// Why an execution failed.
#[derive(Debug, Clone, Copy, PartialEq, Eq, Structural)]
pub enum ExecutionFailure {
    Spawn,
    Internal,
    OutputLimit,
    Sandbox,
    ResourceLimit,
    Interrupted,
    LeaseExpired,
}

/// Why finalizing an execution failed.
#[derive(Debug, Clone, Copy, PartialEq, Eq, Structural)]
pub enum FinalizationFailure {
    ArtifactCapture,
    Retention,
}

/// What became of a requested sandbox.
#[derive(Debug, Clone, PartialEq, Eq)]
pub enum SandboxResult {
    NotRequested,
    NotApplied { reason: String },
    Applied { profile: String },
    Failed { reason: String },
}

/// What became of one requested resource limit.
#[derive(Debug, Clone, PartialEq, Eq)]
pub enum ResourceDimensionResult {
    NotRequested,
    NotApplied { reason: String },
    Applied { backend: String },
    LimitExceeded { backend: String },
}

/// Resource limit outcomes per dimension.
#[derive(Debug, Clone, PartialEq, Eq)]
pub struct ResourceResult {
    pub memory_bytes: ResourceDimensionResult,
    pub cpu_millis: ResourceDimensionResult,
    pub pids: ResourceDimensionResult,
}

/// The result part of a snapshot.
#[derive(Debug, Clone, PartialEq, Eq)]
pub struct ExecutionResult {
    pub state: ExecutionState,
    pub exit_code: Option<i32>,
    pub failure: Option<ExecutionFailure>,
    pub stdout_bytes: u64,
    pub stderr_bytes: u64,
    pub stdout_omitted: u64,
    pub stderr_omitted: u64,
    pub cleanup_warning: Option<String>,
    pub finalization_failure: Option<FinalizationFailure>,
    pub artifact_count: u32,
    pub sandbox: Option<SandboxResult>,
    pub resources: Option<ResourceResult>,
}

/// A snapshot of one execution generation.
#[derive(Debug, Clone, PartialEq, Eq)]
pub struct ExecutionSnapshot {
    pub schema_version: u16,
    pub execution_id: String,
    pub generation: u64,
    pub state: ExecutionState,
    pub result: Option<ExecutionResult>,
}

/// A captured artifact of an execution.
#[derive(Debug, Clone, PartialEq, Eq)]
pub struct ArtifactRecord {
    pub artifact_id: String,
    pub execution_id: String,
    pub generation: u64,
    pub path: String,
    pub kind: String,
    pub digest: String,
    pub size_bytes: u64,
    pub executable: bool,
    pub created_unix_ms: u64,
    pub expires_unix_ms: u64,
}

/// The state name recorded in metadata.
pub open spec fn state_text(s: ExecutionState) -> Seq<char> {
    match s {
        ExecutionState::Accepted => "accepted"@,
        ExecutionState::Preparing => "preparing"@,
        ExecutionState::Running => "running"@,
        ExecutionState::Cancelling => "cancelling"@,
        ExecutionState::Succeeded => "succeeded"@,
        ExecutionState::Failed => "failed"@,
        ExecutionState::Cancelled => "cancelled"@,
        ExecutionState::TimedOut => "timedout"@,
        ExecutionState::Interrupted => "interrupted"@,
    }
}

fn state_name(s: ExecutionState) -> (r: &'static str)
    ensures
        r@ == state_text(s),
{
    match s {
        ExecutionState::Accepted => "accepted",
        ExecutionState::Preparing => "preparing",
        ExecutionState::Running => "running",
        ExecutionState::Cancelling => "cancelling",
        ExecutionState::Succeeded => "succeeded",
        ExecutionState::Failed => "failed",
        ExecutionState::Cancelled => "cancelled",
        ExecutionState::TimedOut => "timedout",
        ExecutionState::Interrupted => "interrupted",
    }
}

/// The failure class recorded in metadata.
pub open spec fn failure_text(f: ExecutionFailure) -> Seq<char> {
    match f {
        ExecutionFailure::Spawn => "spawn"@,
        ExecutionFailure::Internal => "internal"@,
        ExecutionFailure::OutputLimit => "outputlimit"@,
        ExecutionFailure::Sandbox => "sandbox"@,
        ExecutionFailure::ResourceLimit => "resourcelimit"@,
        ExecutionFailure::Interrupted => "interrupted"@,
        ExecutionFailure::LeaseExpired => "leaseexpired"@,
    }
}

fn failure_name(f: ExecutionFailure) -> (r: &'static str)
    ensures
        r@ == failure_text(f),
{
    match f {
        ExecutionFailure::Spawn => "spawn",
        ExecutionFailure::Internal => "internal",
        ExecutionFailure::OutputLimit => "outputlimit",
        ExecutionFailure::Sandbox => "sandbox",
        ExecutionFailure::ResourceLimit => "resourcelimit",
        ExecutionFailure::Interrupted => "interrupted",
        ExecutionFailure::LeaseExpired => "leaseexpired",
    }
}

/// The finalization failure recorded in metadata.
pub open spec fn finalization_text(f: FinalizationFailure) -> Seq<char> {
    match f {
        FinalizationFailure::ArtifactCapture => "artifactcapture"@,
        FinalizationFailure::Retention => "retention"@,
    }
}

fn finalization_name(f: FinalizationFailure) -> (r: &'static str)
    ensures
        r@ == finalization_text(f),
{
    match f {
        FinalizationFailure::ArtifactCapture => "artifactcapture",
        FinalizationFailure::Retention => "retention",
    }
}

/// The sandbox outcome recorded in metadata.
pub open spec fn sandbox_text(s: SandboxResult) -> Seq<char> {
    match s {
        SandboxResult::NotRequested => "not_requested"@,
        SandboxResult::NotApplied { .. } => "not_applied"@,
        SandboxResult::Applied { .. } => "applied"@,
        SandboxResult::Failed { .. } => "failed"@,
    }
}

fn sandbox_name(s: &SandboxResult) -> (r: &'static str)
    ensures
        r@ == sandbox_text(*s),
{
    match s {
        SandboxResult::NotRequested => "not_requested",
        SandboxResult::NotApplied { .. } => "not_applied",
        SandboxResult::Applied { .. } => "applied",
        SandboxResult::Failed { .. } => "failed",
    }
}

/// A resource dimension outcome recorded in metadata.
pub open spec fn dimension_text(d: ResourceDimensionResult) -> Seq<char> {
    match d {
        ResourceDimensionResult::NotRequested => "not_requested"@,
        ResourceDimensionResult::NotApplied { .. } => "not_applied"@,
        ResourceDimensionResult::Applied { .. } => "applied"@,
        ResourceDimensionResult::LimitExceeded { .. } => "limit_exceeded"@,
    }
}

fn dimension_name(d: &ResourceDimensionResult) -> (r: &'static str)
    ensures
        r@ == dimension_text(*d),
{
    match d {
        ResourceDimensionResult::NotRequested => "not_requested",
        ResourceDimensionResult::NotApplied { .. } => "not_applied",
        ResourceDimensionResult::Applied { .. } => "applied",
        ResourceDimensionResult::LimitExceeded { .. } => "limit_exceeded",
    }
}

/// A character allowed in a native identifier: ASCII letters and digits and
/// `-`, `_`, `.`, `:`.
pub open spec fn native_id_char(c: char) -> bool {
    ('a' <= c && c <= 'z') || ('A' <= c && c <= 'Z') || ('0' <= c && c <= '9') || c == '-' || c == '_' || c == '.'
        || c == ':'
}

/// A native identifier: one to 128 allowed characters (so as many bytes).
pub open spec fn native_id_ok(s: Seq<char>) -> bool {
    &&& 0 < s.len() <= 128
    &&& forall|i: int| 0 <= i < s.len() ==> native_id_char(#[trigger] s[i])
}

/// Checks `native_id_ok`.
pub fn native_id_check(s: &str) -> (r: bool)
    ensures
        r == native_id_ok(s@),
{
    let cs = chars_of(s);
    if cs.len() == 0 || cs.len() > 128 {
        return false;
    }
    let mut i: usize = 0;
    while i < cs.len()
        invariant
            i <= cs@.len(),
            cs@ == s@,
            forall|k: int| 0 <= k < i ==> native_id_char(#[trigger] cs@[k]),
        decreases cs.len() - i,
    {
        let c = cs[i];
        if !(('a' <= c && c <= 'z') || ('A' <= c && c <= 'Z') || ('0' <= c && c <= '9') || c == '-' || c == '_'
            || c == '.' || c == ':') {
            assert(!native_id_char(s@[i as int]));
            return false;
        }
        i = i + 1;
    }
    true
}

/// What a snapshot is refused for on its own: an unknown schema version,
/// then a cleanup warning of more than 128 bytes.
pub open spec fn snapshot_fault(s: ExecutionSnapshot) -> Option<Seq<char>> {
    if s.schema_version != 1 {
        Some("unsupported Eggwork schema version"@)
    } else if s.result matches Some(r) && (r.cleanup_warning matches Some(w) && utf8_len(w@) > 128) {
        Some("Eggwork warning exceeds bound"@)
    } else {
        None
    }
}

/// Checks a snapshot on its own (see `snapshot_fault`).
pub fn validate_snapshot(value: &ExecutionSnapshot) -> (r: Result<(), SpiError>)
    ensures
        match r {
            Ok(()) => snapshot_fault(*value) is None,
            Err(e) => snapshot_fault(*value) matches Some(m) && e@ == SpiErrorV::Invalid(m),
        },
{
    if value.schema_version != 1 {
        return Err(SpiError::Invalid("unsupported Eggwork schema version"));
    }
    if let Some(r) = &value.result {
        if let Some(w) = &r.cleanup_warning {
            let cs = chars_of(w.as_str());
            if crate::markdown_text::utf8_longer_than(&cs, 128) {
                return Err(SpiError::Invalid("Eggwork warning exceeds bound"));
            }
        }
    }
    Ok(())
}

/// Sixty-four lowercase hex digits.
pub open spec fn digest_ok(d: Seq<char>) -> bool {
    &&& d.len() == 64
    &&& forall|i: int| 0 <= i < 64 ==> is_lower_hex(#[trigger] d[i])
}

fn digest_check(d: &str) -> (r: bool)
    ensures
        r == digest_ok(d@),
{
    let cs = chars_of(d);
    if cs.len() != 64 {
        return false;
    }
    let mut i: usize = 0;
    while i < 64
        invariant
            i <= 64,
            cs@ == d@,
            cs@.len() == 64,
            forall|k: int| 0 <= k < i ==> is_lower_hex(#[trigger] cs@[k]),
        decreases 64 - i,
    {
        let c = cs[i];
        if !(('0' <= c && c <= '9') || ('a' <= c && c <= 'f')) {
            return false;
        }
        i = i + 1;
    }
    true
}

/// A path segment that is neither empty, `.` nor `..`.
pub open spec fn segment_ok(s: Seq<char>) -> bool {
    &&& s.len() > 0
    &&& !(s.len() == 1 && s[0] == '.')
    &&& !(s.len() == 2 && s[0] == '.' && s[1] == '.')
}

/// A relative artifact path: at most 1024 bytes, no backslash or NUL, and
/// `/`-separated segments that are neither empty, `.` nor `..`.
pub open spec fn path_ok(p: Seq<char>) -> bool {
    &&& p.len() > 0
    &&& utf8_len(p) <= 1024
    &&& p[0] != '/'
    &&& !p.contains('\\')
    &&& !p.contains('\0')
    &&& forall|i: int| 0 <= i < split_by(p, '/').len() ==> segment_ok(#[trigger] split_by(p, '/')[i])
}

fn path_check(p: &str) -> (r: bool)
    ensures
        r == path_ok(p@),
{
    let cs = chars_of(p);
    if cs.len() == 0 || crate::markdown_text::utf8_longer_than(&cs, 1024) || cs[0] == '/' {
        return false;
    }
    let mut i: usize = 0;
    while i < cs.len()
        invariant
            i <= cs@.len(),
            cs@ == p@,
            forall|k: int| 0 <= k < i ==> cs@[k] != '\\' && cs@[k] != '\0',
        decreases cs.len() - i,
    {
        if cs[i] == '\\' || cs[i] == '\0' {
            assert(p@.contains(cs@[i as int]));
            return false;
        }
        i = i + 1;
    }
    let parts = crate::markdown_text::split_chars(&cs, '/');
    let mut j: usize = 0;
    while j < parts.len()
        invariant
            j <= parts@.len(),
            crate::markdown_text::views(parts@) == split_by(p@, '/'),
            forall|k: int| 0 <= k < j ==> segment_ok(#[trigger] split_by(p@, '/')[k]),
        decreases parts.len() - j,
    {
        let s = &parts[j];
        assert(s@ == split_by(p@, '/')[j as int]);
        if s.len() == 0 || (s.len() == 1 && s[0] == '.') || (s.len() == 2 && s[0] == '.' && s[1] == '.') {
            return false;
        }
        j = j + 1;
    }
    true
}

/// An artifact of the snapshot's execution and generation, with a native
/// identifier, an expiry not before its creation, the `File` kind, a
/// lowercase hex digest and a relative path.
pub open spec fn artifact_ok(a: ArtifactRecord, s: ExecutionSnapshot) -> bool {
    &&& a.execution_id@ == s.execution_id@
    &&& a.generation == s.generation
    &&& native_id_ok(a.artifact_id@)
    &&& a.created_unix_ms <= a.expires_unix_ms
    &&& a.kind@ == "File"@
    &&& digest_ok(a.digest@)
    &&& path_ok(a.path@)
}

/// The first `n` artifacts are acceptable and their identifiers distinct.
pub open spec fn artifacts_ok(a: Seq<ArtifactRecord>, s: ExecutionSnapshot, n: int) -> bool {
    forall|k: int|
        0 <= k < n ==> artifact_ok(#[trigger] a[k], s) && (forall|j: int| 0 <= j < k ==> a[j].artifact_id@ != a[k].artifact_id@)
}

fn artifact_check(a: &ArtifactRecord, s: &ExecutionSnapshot) -> (r: bool)
    ensures
        r == artifact_ok(*a, *s),
{
    proof {
        reveal_strlit("File");
    }
    str_eq(a.execution_id.as_str(), s.execution_id.as_str()) && a.generation == s.generation && native_id_check(
        a.artifact_id.as_str(),
    ) && a.created_unix_ms <= a.expires_unix_ms && str_eq(a.kind.as_str(), "File") && digest_check(a.digest.as_str())
        && path_check(a.path.as_str())
}

/// The capabilities Eggwork declares: in-progress results, artifacts and
/// verification binding.
pub open spec fn eggwork_caps() -> Capabilities {
    Capabilities {
        supports_in_progress: true,
        artifacts: true,
        verification_binding: true,
        research_trust_metadata: false,
    }
}

/// The Eggwork adapter: `epp_eggwork`, an execution provider of commands,
/// tests, delegated runs and benchmarks, version `1.0`.
pub open spec fn eggwork_descriptor(d: AdapterDescriptor) -> bool {
    &&& d.schema_version == ADAPTER_SCHEMA_VERSION
    &&& d.provider_id@ == "epp_eggwork"@
    &&& d.provider_class == ProviderClass::Execution
    &&& d.allowed_kinds@ == set![
        EvidenceKind::Command,
        EvidenceKind::Test,
        EvidenceKind::DelegatedRun,
        EvidenceKind::Benchmark,
    ]
    &&& d.adapter_version@ == "1.0"@
    &&& d.capabilities == eggwork_caps()
}

/// The Eggwork adapter descriptor (see `eggwork_descriptor`); it is valid.
pub fn descriptor() -> (d: AdapterDescriptor)
    ensures
        eggwork_descriptor(d),
        adapter_fault(d.schema_version, d.adapter_version@, d.allowed_kinds@) is None,
{
    proof {
        reveal_strlit("epp_eggwork");
        reveal_strlit("epp_");
        reveal_strlit("1.0");
    }
    proof {
        let s = "epp_eggwork"@;
        assert(s.take(4) =~= "epp_"@);
        assert forall|i: int| 4 <= i < s.len() implies crate::identity::is_id_char(#[trigger] s[i]) by {
            assert(i == 4 || i == 5 || i == 6 || i == 7 || i == 8 || i == 9 || i == 10);
        }
        assert(valid_id(s, "epp_"@));
    }
    let provider_id = match EvidenceProviderId::new("epp_eggwork") {
        Ok(p) => p,
        Err(_) => vstd::pervasive::unreached(),
    };
    let kinds = vec![EvidenceKind::Command, EvidenceKind::Test, EvidenceKind::DelegatedRun, EvidenceKind::Benchmark];
    let allowed_kinds = KindSet::from_kinds(&kinds);
    proof {
        assert(kinds@.to_set() =~= set![
            EvidenceKind::Command,
            EvidenceKind::Test,
            EvidenceKind::DelegatedRun,
            EvidenceKind::Benchmark,
        ]) by {
            assert(kinds@[0] == EvidenceKind::Command);
            assert(kinds@[1] == EvidenceKind::Test);
            assert(kinds@[2] == EvidenceKind::DelegatedRun);
            assert(kinds@[3] == EvidenceKind::Benchmark);
        }
        assert(allowed_kinds@.contains(EvidenceKind::Command));
        assert(!"1.0"@.contains('\0')) by {
            if "1.0"@.contains('\0') {
                let k = choose|k: int| 0 <= k < 3 && "1.0"@[k] == '\0';
                assert(k == 0 || k == 1 || k == 2);
            }
        }
    }
    AdapterDescriptor {
        schema_version: ADAPTER_SCHEMA_VERSION,
        provider_id,
        provider_class: ProviderClass::Execution,
        allowed_kinds,
        adapter_version: owned("1.0"),
        capabilities: Capabilities {
            supports_in_progress: true,
            artifacts: true,
            verification_binding: true,
            research_trust_metadata: false,
        },
    }
}

/// A state in which the execution has not finished.
pub open spec fn running(s: ExecutionState) -> bool {
    s == ExecutionState::Accepted || s == ExecutionState::Preparing || s == ExecutionState::Running || s
        == ExecutionState::Cancelling
}

/// The status a state gives before sandbox, resource and finalization
/// outcomes are considered: an unfinished execution is in progress; a
/// finished one without result is inconclusive; success passes, failure
/// and time-out fail, cancellation is skipped, interruption inconclusive.
pub open spec fn base_status(s: ExecutionSnapshot) -> EvidenceStatus {
    if running(s.state) {
        EvidenceStatus::InProgress
    } else if s.result is None {
        EvidenceStatus::Inconclusive
    } else {
        match s.state {
            ExecutionState::Succeeded => EvidenceStatus::Passed,
            ExecutionState::Failed | ExecutionState::TimedOut => EvidenceStatus::Failed,
            ExecutionState::Cancelled => EvidenceStatus::Skipped,
            _ => EvidenceStatus::Inconclusive,
        }
    }
}

/// Some resource dimension exceeded its limit.
pub open spec fn limit_exceeded(v: ResourceResult) -> bool {
    v.memory_bytes is LimitExceeded || v.cpu_millis is LimitExceeded || v.pids is LimitExceeded
}

/// The observation status: a failed finalization is inconclusive, a failed
/// sandbox or an exceeded resource limit fails, otherwise `base_status`.
pub open spec fn eggwork_status(s: ExecutionSnapshot) -> EvidenceStatus {
    match s.result {
        Some(r) => if r.finalization_failure is Some {
            EvidenceStatus::Inconclusive
        } else if (r.sandbox matches Some(b) && b is Failed) || (r.resources matches Some(v) && limit_exceeded(v)) {
            EvidenceStatus::Failed
        } else {
            base_status(s)
        },
        None => base_status(s),
    }
}

/// Decimal text of an integer, with a leading `-` when negative.
pub open spec fn int_text(i: int) -> Seq<char> {
    if i < 0 {
        seq!['-'] + decimal((-i) as nat)
    } else {
        decimal(i as nat)
    }
}

/// Metadata a result adds: output sizes and omissions, the artifact count,
/// the exit code, failure classes, whether a cleanup warning was present,
/// and sandbox and resource outcomes. No output content is recorded.
pub open spec fn result_metadata(m: Map<Seq<char>, Seq<char>>, r: ExecutionResult, n: nat) -> Map<Seq<char>, Seq<char>> {
    let m1 = m.insert("stdout_bytes"@, decimal(r.stdout_bytes as nat)).insert(
        "stderr_bytes"@,
        decimal(r.stderr_bytes as nat),
    ).insert("stdout_omitted"@, decimal(r.stdout_omitted as nat)).insert(
        "stderr_omitted"@,
        decimal(r.stderr_omitted as nat),
    ).insert("artifact_count"@, decimal(n));
    let m2 = match r.exit_code {
        Some(c) => m1.insert("exit_code"@, int_text(c as int)),
        None => m1,
    };
    let m3 = match r.failure {
        Some(f) => m2.insert("failure_class"@, failure_text(f)),
        None => m2,
    };
    let m4 = match r.finalization_failure {
        Some(f) => m3.insert("finalization_failure"@, finalization_text(f)),
        None => m3,
    };
    let m5 = if r.cleanup_warning is Some {
        m4.insert("cleanup_warning"@, "present"@)
    } else {
        m4
    };
    let m6 = match r.sandbox {
        Some(b) => m5.insert("sandbox_outcome"@, sandbox_text(b)),
        None => m5,
    };
    match r.resources {
        Some(v) => m6.insert("resource_memory"@, dimension_text(v.memory_bytes)).insert(
            "resource_cpu"@,
            dimension_text(v.cpu_millis),
        ).insert("resource_pids"@, dimension_text(v.pids)),
        None => m6,
    }
}

/// The metadata of a snapshot with `n` artifacts: execution identity,
/// generation and native state, then the result's metadata.
pub open spec fn eggwork_metadata(s: ExecutionSnapshot, n: nat) -> Map<Seq<char>, Seq<char>> {
    let base = Map::<Seq<char>, Seq<char>>::empty().insert("execution_id"@, s.execution_id@).insert(
        "generation"@,
        decimal(s.generation as nat),
    ).insert("native_state"@, state_text(s.state));
    match s.result {
        Some(r) => result_metadata(base, r, n),
        None => base,
    }
}

/// The digest-bound reference an artifact becomes.
pub open spec fn ref_matches(r: ArtifactRef, a: ArtifactRecord) -> bool {
    &&& r.reference@ == "eggwork:artifact:"@ + a.artifact_id@
    &&& r.digest matches Some(d) && d@ == "sha256:"@ + a.digest@
    &&& r.media_type matches Some(t) && t@ == "application/octet-stream"@
}

/// What normalization refuses, in order: the snapshot on its own; a zero
/// generation, a bad execution identifier or too many artifacts; a context
/// without verification binding; a bad, foreign or repeated artifact; an
/// artifact count other than the result's; a result state other than the
/// snapshot's.
pub open spec fn normalize_fault(s: ExecutionSnapshot, a: Seq<ArtifactRecord>, c: ObservationContext) -> Option<SpiErrorV> {
    if snapshot_fault(s) is Some {
        Some(SpiErrorV::Invalid(snapshot_fault(s)->0))
    } else if s.generation == 0 || !native_id_ok(s.execution_id@) || a.len() > MAX_ARTIFACTS {
        Some(SpiErrorV::Invalid("invalid Eggwork identity or artifact count"@))
    } else if c.verification_digest is None {
        Some(SpiErrorV::MissingVerificationBinding)
    } else if !artifacts_ok(a, s, a.len() as int) {
        Some(SpiErrorV::Invalid("invalid or mismatched Eggwork artifact"@))
    } else if s.result matches Some(r) && r.artifact_count != a.len() {
        Some(SpiErrorV::Invalid("Eggwork artifact count mismatch"@))
    } else if s.result matches Some(r) && r.state != s.state {
        Some(SpiErrorV::Invalid("Eggwork snapshot/result state mismatch"@))
    } else {
        None
    }
}

/// The normalized result normalization finalizes.
pub open spec fn eggwork_result(nr: NormalizedProviderResult, s: ExecutionSnapshot, a: Seq<ArtifactRecord>) -> bool {
    &&& nr.status == eggwork_status(s)
    &&& nr.source_trust is None
    &&& nr.result_metadata@ == sorted_entries(eggwork_metadata(s, a.len()))
    &&& nr.artifacts@.len() == a.len()
    &&& forall|k: int| 0 <= k < a.len() ==> ref_matches(#[trigger] nr.artifacts@[k], a[k])
}

pub(crate) fn decimal_string(n: u64) -> (r: String)
    ensures
        r@ == decimal(n as nat),
{
    let mut out = String::new();
    write_decimal(n, &mut out);
    assert(out@ =~= decimal(n as nat));
    out
}

fn int_string(i: i32) -> (r: String)
    ensures
        r@ == int_text(i as int),
{
    let mut out = String::new();
    if i < 0 {
        out.push('-');
        let m: u64 = (-(i as i64)) as u64;
        write_decimal(m, &mut out);
        assert(out@ =~= seq!['-'] + decimal((-(i as int)) as nat));
    } else {
        write_decimal(i as u64, &mut out);
        assert(out@ =~= decimal(i as nat));
    }
    out
}

pub(crate) fn put(m: &mut TextMap, key: &str, value: String)
    ensures
        entries_map(final(m)@) == entries_map(old(m)@).insert(key@, value@),
{
    let _ = m.insert(owned(key), value);
}

fn result_entries(m: &mut TextMap, r: &ExecutionResult, n: usize)
    ensures
        entries_map(final(m)@) == result_metadata(entries_map(old(m)@), *r, n as nat),
{
    put(m, "stdout_bytes", decimal_string(r.stdout_bytes));
    put(m, "stderr_bytes", decimal_string(r.stderr_bytes));
    put(m, "stdout_omitted", decimal_string(r.stdout_omitted));
    put(m, "stderr_omitted", decimal_string(r.stderr_omitted));
    put(m, "artifact_count", decimal_string(n as u64));
    if let Some(c) = r.exit_code {
        put(m, "exit_code", int_string(c));
    }
    if let Some(f) = r.failure {
        put(m, "failure_class", owned(failure_name(f)));
    }
    if let Some(f) = r.finalization_failure {
        put(m, "finalization_failure", owned(finalization_name(f)));
    }
    if r.cleanup_warning.is_some() {
        put(m, "cleanup_warning", owned("present"));
    }
    if let Some(b) = &r.sandbox {
        put(m, "sandbox_outcome", owned(sandbox_name(b)));
    }
    if let Some(v) = &r.resources {
        put(m, "resource_memory", owned(dimension_name(&v.memory_bytes)));
        put(m, "resource_cpu", owned(dimension_name(&v.cpu_millis)));
        put(m, "resource_pids", owned(dimension_name(&v.pids)));
    }
}

fn status_of(s: &ExecutionSnapshot) -> (r: EvidenceStatus)
    ensures
        r == eggwork_status(*s),
{
    let base = if matches!(s.state, ExecutionState::Accepted | ExecutionState::Preparing | ExecutionState::Running | ExecutionState::Cancelling) {
        EvidenceStatus::InProgress
    } else if s.result.is_none() {
        EvidenceStatus::Inconclusive
    } else {
        match s.state {
            ExecutionState::Succeeded => EvidenceStatus::Passed,
            ExecutionState::Failed | ExecutionState::TimedOut => EvidenceStatus::Failed,
            ExecutionState::Cancelled => EvidenceStatus::Skipped,
            _ => EvidenceStatus::Inconclusive,
        }
    };
    match &s.result {
        Some(r) => {
            if r.finalization_failure.is_some() {
                return EvidenceStatus::Inconclusive;
            }
            let sandbox_failed = match &r.sandbox {
                Some(SandboxResult::Failed { .. }) => true,
                _ => false,
            };
            let resource_failed = match &r.resources {
                Some(v) => matches!(v.memory_bytes, ResourceDimensionResult::LimitExceeded { .. })
                    || matches!(v.cpu_millis, ResourceDimensionResult::LimitExceeded { .. })
                    || matches!(v.pids, ResourceDimensionResult::LimitExceeded { .. }),
                None => false,
            };
            if sandbox_failed || resource_failed {
                EvidenceStatus::Failed
            } else {
                base
            }
        },
        None => base,
    }
}

fn artifact_ref(a: &ArtifactRecord) -> (r: ArtifactRef)
    ensures
        ref_matches(r, *a),
{
    proof {
        reveal_strlit("eggwork:artifact:");
        reveal_strlit("sha256:");
        reveal_strlit("application/octet-stream");
    }
    let mut reference = owned("eggwork:artifact:");
    push_str(&mut reference, a.artifact_id.as_str());
    let mut digest = owned("sha256:");
    push_str(&mut digest, a.digest.as_str());
    ArtifactRef { reference, digest: Some(digest), media_type: Some(owned("application/octet-stream")) }
}

/// Normalizes an Eggwork snapshot and the artifacts the host selected into
/// an observation of the `epp_eggwork` provider: refused as
/// `normalize_fault` says, otherwise finalized from the status of
/// `eggwork_status`, the metadata of `eggwork_metadata` (sizes, never
/// output) and one digest-bound reference per artifact.
pub fn normalize(
    snapshot: &ExecutionSnapshot,
    artifacts: &[ArtifactRecord],
    context: &ObservationContext,
) -> (r: Result<EvidenceObservation, SpiError>)
    ensures
        match normalize_fault(*snapshot, artifacts@, *context) {
            Some(e) => r matches Err(x) && x@ == e,
            None => exists|d: AdapterDescriptor, nr: NormalizedProviderResult|
                #![trigger finalize_outcome(d, *context, nr, r)]
                {
                    &&& eggwork_descriptor(d)
                    &&& eggwork_result(nr, *snapshot, artifacts@)
                    &&& finalize_outcome(d, *context, nr, r)
                },
        },
{
    match validate_snapshot(snapshot) {
        Ok(()) => {},
        Err(e) => {
            return Err(e);
        },
    }
    if snapshot.generation == 0 || !native_id_check(snapshot.execution_id.as_str()) || artifacts.len() > MAX_ARTIFACTS {
        return Err(SpiError::Invalid("invalid Eggwork identity or artifact count"));
    }
    if context.verification_digest.is_none() {
        return Err(SpiError::MissingVerificationBinding);
    }
    let mut refs: Vec<ArtifactRef> = Vec::new();
    let mut k: usize = 0;
    while k < artifacts.len()
        invariant
            k <= artifacts@.len(),
            snapshot_fault(*snapshot) is None,
            snapshot.generation != 0,
            native_id_ok(snapshot.execution_id@),
            artifacts@.len() <= MAX_ARTIFACTS,
            context.verification_digest is Some,
            artifacts_ok(artifacts@, *snapshot, k as int),
            refs@.len() == k,
            forall|x: int| 0 <= x < k ==> ref_matches(#[trigger] refs@[x], artifacts@[x]),
        decreases artifacts.len() - k,
    {
        let a = &artifacts[k];
        let mut fresh = artifact_check(a, snapshot);
        let mut j: usize = 0;
        while fresh && j < k
            invariant
                j <= k,
                k < artifacts@.len(),
                *a == artifacts@[k as int],
                fresh ==> forall|x: int| 0 <= x < j ==> artifacts@[x].artifact_id@ != a.artifact_id@,
                fresh ==> artifact_ok(*a, *snapshot),
                !fresh ==> !artifacts_ok(artifacts@, *snapshot, k + 1),
            decreases k - j,
        {
            if str_eq(artifacts[j].artifact_id.as_str(), a.artifact_id.as_str()) {
                fresh = false;
            }
            j = j + 1;
        }
        if !fresh {
            proof {
                if artifacts_ok(artifacts@, *snapshot, artifacts@.len() as int) {
                    assert forall|x: int| 0 <= x < k + 1 implies artifact_ok(#[trigger] artifacts@[x], *snapshot) && (
                    forall|j: int| 0 <= j < x ==> artifacts@[j].artifact_id@ != artifacts@[x].artifact_id@) by {}
                    assert(artifacts_ok(artifacts@, *snapshot, k + 1));
                }
            }
            return Err(SpiError::Invalid("invalid or mismatched Eggwork artifact"));
        }
        refs.push(artifact_ref(a));
        k = k + 1;
    }
    if let Some(r) = &snapshot.result {
        if r.artifact_count as usize != artifacts.len() {
            return Err(SpiError::Invalid("Eggwork artifact count mismatch"));
        }
        if r.state != snapshot.state {
            return Err(SpiError::Invalid("Eggwork snapshot/result state mismatch"));
        }
    }
    let mut metadata = TextMap::new();
    put(&mut metadata, "execution_id", snapshot.execution_id.clone());
    put(&mut metadata, "generation", decimal_string(snapshot.generation));
    put(&mut metadata, "native_state", owned(state_name(snapshot.state)));
    if let Some(r) = &snapshot.result {
        result_entries(&mut metadata, r, artifacts.len());
    }
    proof {
        assert(entries_map(Seq::<(Seq<char>, Seq<char>)>::empty()) =~= Map::<Seq<char>, Seq<char>>::empty());
    }
    let _ = metadata.entries();
    proof {
        crate::text_map::lemma_view_is_sorted_entries(metadata@);
    }
    let descriptor = descriptor();
    let result = NormalizedProviderResult {
        status: status_of(snapshot),
        source_trust: None,
        result_metadata: metadata,
        artifacts: refs,
    };
    let r = crate::spi::finalize_observation(&descriptor, context, &result);
    assert(eggwork_descriptor(descriptor) && eggwork_result(result, *snapshot, artifacts@) && finalize_outcome(
        descriptor,
        *context,
        result,
        r,
    ));
    r
}

/// Admits a serialized snapshot of `len` bytes.
pub fn check_snapshot_size(len: usize) -> (r: Result<(), SpiError>)
    ensures
        r is Ok <==> len <= MAX_SNAPSHOT_BYTES,
        r matches Err(e) ==> e@ == SpiErrorV::Invalid("Eggwork snapshot exceeds byte limit"@),
{
    if len > MAX_SNAPSHOT_BYTES {
        Err(SpiError::Invalid("Eggwork snapshot exceeds byte limit"))
    } else {
        Ok(())
    }
}

/// Admits a serialized artifact list of `len` bytes.
pub fn check_artifacts_size(len: usize) -> (r: Result<(), SpiError>)
    ensures
        r is Ok <==> len <= MAX_SNAPSHOT_BYTES,
        r matches Err(e) ==> e@ == SpiErrorV::Invalid("Eggwork artifacts exceed byte limit"@),
{
    if len > MAX_SNAPSHOT_BYTES {
        Err(SpiError::Invalid("Eggwork artifacts exceed byte limit"))
    } else {
        Ok(())
    }
}

/// Admits a parsed artifact list of `n` records.
pub fn check_artifact_count(n: usize) -> (r: Result<(), SpiError>)
    ensures
        r is Ok <==> n <= MAX_ARTIFACTS,
        r matches Err(e) ==> e@ == SpiErrorV::Invalid("Eggwork artifact count exceeds limit"@),
{
    if n > MAX_ARTIFACTS {
        Err(SpiError::Invalid("Eggwork artifact count exceeds limit"))
    } else {
        Ok(())
    }
}

} // verus!

verus! {

/// An execution that exceeded any resource limit fails: where a result is
/// present without a finalization failure, a memory, CPU or process-count
/// dimension that exceeded its limit makes the observation Failed,
/// whatever the exit and the other dimensions.
pub proof fn lemma_any_exceeded_limit_fails(s: ExecutionSnapshot)
    requires
        s.result is Some,
        s.result->0.finalization_failure is None,
        s.result->0.resources is Some,
        s.result->0.resources->0.memory_bytes is LimitExceeded || s.result->0.resources->0.cpu_millis is LimitExceeded
            || s.result->0.resources->0.pids is LimitExceeded,
    ensures
        eggwork_status(s) == EvidenceStatus::Failed,
{
}

/// An execution's observation is Passed exactly when it succeeded with a
/// result, finalization did not fail, the sandbox did not fail, and no
/// resource dimension exceeded its limit; a failed finalization is always
/// Inconclusive, and a failed sandbox otherwise always Failed.
pub proof fn lemma_eggwork_passed_exactly(s: ExecutionSnapshot)
    ensures
        eggwork_status(s) == EvidenceStatus::Passed <==> {
            &&& s.state == ExecutionState::Succeeded
            &&& s.result is Some
            &&& s.result->0.finalization_failure is None
            &&& !(s.result->0.sandbox is Some && s.result->0.sandbox->0 is Failed)
            &&& !(s.result->0.resources is Some && (s.result->0.resources->0.memory_bytes is LimitExceeded
                || s.result->0.resources->0.cpu_millis is LimitExceeded || s.result->0.resources->0.pids is LimitExceeded))
        },
        s.result is Some && s.result->0.finalization_failure is Some ==> eggwork_status(s) == EvidenceStatus::Inconclusive,
        s.result is Some && s.result->0.finalization_failure is None && s.result->0.sandbox is Some
            && s.result->0.sandbox->0 is Failed ==> eggwork_status(s) == EvidenceStatus::Failed,
{
}

} // verus!
