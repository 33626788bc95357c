//! One-way compatibility mapping for CodeGG WorkPlan snapshots. The
//! mapping never acquires native evidence or owns CodeGG state: evidence
//! comes from a host resolver and is checked before it is kept.
use crate::assessment::AssessmentStatus;
use crate::digest::{digest_text, is_sha256_text};
use crate::evidence::{EvidenceObservation, ObservationV};
use crate::identity::{PlanId, PlanItemId, VerificationDigest};
use crate::json::{enc, JsonText, JsonV};
use crate::model::{AcceptanceCriterion, EvidenceCardinality, EvidenceKind, EvidenceRequirement, Plan, PlanItem, PlanItemStatus, PlanStatus, SubjectPolicy, SubjectRevision};
use crate::text::{char_count, has_nul, owned};
use vstd::prelude::*;

verus! {

pub const FIXTURE_SCHEMA_VERSION: u32 = 1;
pub const SOURCE_CODEGG_SHA: &'static str = "a3c87fc18ee55aaf630401a562c11bb83112fd82";
pub const MAX_ITEMS: usize = 64;
pub const MAX_ACCEPTANCES_PER_ITEM: usize = 16;
pub const MAX_EVIDENCE_REFS_PER_ITEM: usize = 32;
pub const MAX_TEXT_CHARS: usize = 4_000;
pub const MAX_SOURCE_ID_CHARS: usize = 128;
pub const MAX_DETAIL_CHARS: usize = 2_000;
pub const MAX_FIXTURE_BYTES: usize = 4 * 1024 * 1024;

/// Lifecycle of a CodeGG plan.
#[derive(Debug, Clone, Copy, PartialEq, Eq, Structural)]
pub enum CodeggPlanStatus {
    Active,
    Blocked,
    Completed,
    Cancelled,
}

/// Lifecycle of a CodeGG item.
#[derive(Debug, Clone, Copy, PartialEq, Eq, Structural)]
pub enum CodeggItemStatus {
    Pending,
    Actionable,
    InProgress,
    Blocked,
    Completed,
    Cancelled,
}

/// How CodeGG recorded an acceptance entry.
#[derive(Debug, Clone, Copy, PartialEq, Eq, Structural)]
pub enum AcceptanceDisposition {
    Unmet,
    Satisfied,
    RequiresUserJudgment,
}

/// Kinds of CodeGG evidence references.
#[derive(Debug, Clone, Copy, PartialEq, Eq, Structural)]
pub enum CodeggEvidenceKind {
    TestJob,
    DelegatedRun,
    SchedulerJob,
    AgentRun,
    Artifact,
    Commit,
}

/// A CodeGG acceptance entry.
#[derive(Debug, Clone, PartialEq, Eq)]
pub struct CodeggAcceptance {
    pub description: String,
    pub disposition: AcceptanceDisposition,
    pub note: Option<String>,
}

/// A CodeGG evidence reference.
#[derive(Debug, Clone, PartialEq, Eq)]
pub struct CodeggEvidenceRef {
    pub kind: CodeggEvidenceKind,
    pub ref_id: String,
    pub detail: Option<String>,
}

/// A CodeGG work item.
#[derive(Debug, Clone, PartialEq, Eq)]
pub struct CodeggItemSnapshot {
    pub item_id: String,
    pub position: i64,
    pub parent_item_id: Option<String>,
    pub dependencies: Vec<String>,
    pub status: CodeggItemStatus,
    pub description: String,
    pub acceptance: Vec<CodeggAcceptance>,
    pub evidence: Vec<CodeggEvidenceRef>,
    pub owner_run_id: Option<String>,
    pub owner_job_id: Option<String>,
    pub blocker: Option<String>,
    pub next_action: Option<String>,
}

/// A CodeGG WorkPlan snapshot.
#[derive(Debug, Clone, PartialEq, Eq)]
pub struct CodeggPlanSnapshot {
    pub plan_id: String,
    pub revision: i64,
    pub status: CodeggPlanStatus,
    pub objective: String,
    pub current_phase: Option<String>,
    pub current_item_id: Option<String>,
    pub items: Vec<CodeggItemSnapshot>,
}

/// A pinned CodeGG snapshot with its provenance.
#[derive(Debug, Clone, PartialEq, Eq)]
pub struct Fixture {
    pub schema_version: u32,
    pub source_repository: String,
    pub source_sha: String,
    pub source_case: String,
    pub snapshot: CodeggPlanSnapshot,
}

/// What the mapping does not carry over.
#[derive(Debug, Clone, Copy, PartialEq, Eq, Structural)]
pub enum Loss {
    CompletedPlanNeedsGuardedClose,
    AcceptanceEvidenceAssignmentIsItemScoped,
    OwnerReferencesAreProvenanceOnly,
    SourceRevisionIsProvenanceOnly,
    SerializedDispositionIsNotEvidence,
    AcceptanceNoteOmitted,
    EvidenceDetailOmitted,
}

/// CodeGG's completion families.
#[derive(Debug, Clone, Copy, PartialEq, Eq, Structural)]
pub enum CodeggCompletionFamily {
    Complete,
    ActionableWorkRemaining,
    Blocked,
    AwaitingUserJudgment,
    InFlight,
}

/// The serialized name of a completion family.
pub open spec fn family_text(f: CodeggCompletionFamily) -> Seq<char> {
    match f {
        CodeggCompletionFamily::Complete => "complete"@,
        CodeggCompletionFamily::ActionableWorkRemaining => "actionable_work_remaining"@,
        CodeggCompletionFamily::Blocked => "blocked"@,
        CodeggCompletionFamily::AwaitingUserJudgment => "awaiting_user_judgment"@,
        CodeggCompletionFamily::InFlight => "in_flight"@,
    }
}

impl CodeggCompletionFamily {
    /// The serialized name (see `family_text`).
    pub fn as_str(self) -> (r: &'static str)
        ensures
            r@ == family_text(self),
    {
        match self {
            CodeggCompletionFamily::Complete => "complete",
            CodeggCompletionFamily::ActionableWorkRemaining => "actionable_work_remaining",
            CodeggCompletionFamily::Blocked => "blocked",
            CodeggCompletionFamily::AwaitingUserJudgment => "awaiting_user_judgment",
            CodeggCompletionFamily::InFlight => "in_flight",
        }
    }
}

/// The CodeGG family of an assessment status: failed, missing,
/// inconclusive and invalid evidence fold into actionable work.
pub open spec fn family_of(status: AssessmentStatus) -> CodeggCompletionFamily {
    match status {
        AssessmentStatus::Complete => CodeggCompletionFamily::Complete,
        AssessmentStatus::Blocked => CodeggCompletionFamily::Blocked,
        AssessmentStatus::AwaitingHumanJudgment => CodeggCompletionFamily::AwaitingUserJudgment,
        AssessmentStatus::InFlight => CodeggCompletionFamily::InFlight,
        _ => CodeggCompletionFamily::ActionableWorkRemaining,
    }
}

/// Compatibility display family (see `family_of`). The detailed status and
/// reasons stay in the assessment.
pub fn completion_family(status: AssessmentStatus) -> (r: CodeggCompletionFamily)
    ensures
        r == family_of(status),
{
    match status {
        AssessmentStatus::Complete => CodeggCompletionFamily::Complete,
        AssessmentStatus::Blocked => CodeggCompletionFamily::Blocked,
        AssessmentStatus::AwaitingHumanJudgment => CodeggCompletionFamily::AwaitingUserJudgment,
        AssessmentStatus::InFlight => CodeggCompletionFamily::InFlight,
        AssessmentStatus::ActionableWorkRemaining | AssessmentStatus::EvidenceFailed
        | AssessmentStatus::EvidenceMissingOrUnavailable | AssessmentStatus::Inconclusive
        | AssessmentStatus::InvalidOrStale => CodeggCompletionFamily::ActionableWorkRemaining,
    }
}

/// The evidence kind a CodeGG reference kind maps to.
pub open spec fn kind_of(kind: CodeggEvidenceKind) -> EvidenceKind {
    match kind {
        CodeggEvidenceKind::TestJob => EvidenceKind::Test,
        CodeggEvidenceKind::DelegatedRun => EvidenceKind::DelegatedRun,
        CodeggEvidenceKind::AgentRun => EvidenceKind::DelegatedRun,
        CodeggEvidenceKind::SchedulerJob => EvidenceKind::Command,
        CodeggEvidenceKind::Artifact => EvidenceKind::Artifact,
        CodeggEvidenceKind::Commit => EvidenceKind::Revision,
    }
}

fn map_kind(kind: CodeggEvidenceKind) -> (r: EvidenceKind)
    ensures
        r == kind_of(kind),
{
    match kind {
        CodeggEvidenceKind::TestJob => EvidenceKind::Test,
        CodeggEvidenceKind::DelegatedRun => EvidenceKind::DelegatedRun,
        CodeggEvidenceKind::AgentRun => EvidenceKind::DelegatedRun,
        CodeggEvidenceKind::SchedulerJob => EvidenceKind::Command,
        CodeggEvidenceKind::Artifact => EvidenceKind::Artifact,
        CodeggEvidenceKind::Commit => EvidenceKind::Revision,
    }
}

/// Kinds whose evidence must carry a verification binding.
pub open spec fn needs_binding(kind: EvidenceKind) -> bool {
    kind == EvidenceKind::Command || kind == EvidenceKind::Test || kind == EvidenceKind::StaticAnalysis || kind
        == EvidenceKind::DelegatedRun || kind == EvidenceKind::Benchmark
}

fn requires_verification_binding(kind: EvidenceKind) -> (r: bool)
    ensures
        r == needs_binding(kind),
{
    kind == EvidenceKind::Command || kind == EvidenceKind::Test || kind == EvidenceKind::StaticAnalysis || kind
        == EvidenceKind::DelegatedRun || kind == EvidenceKind::Benchmark
}

/// The item status a CodeGG status maps to, state for state.
pub open spec fn item_status_of(s: CodeggItemStatus) -> PlanItemStatus {
    match s {
        CodeggItemStatus::Pending => PlanItemStatus::Pending,
        CodeggItemStatus::Actionable => PlanItemStatus::Actionable,
        CodeggItemStatus::InProgress => PlanItemStatus::InProgress,
        CodeggItemStatus::Blocked => PlanItemStatus::Blocked,
        CodeggItemStatus::Completed => PlanItemStatus::Completed,
        CodeggItemStatus::Cancelled => PlanItemStatus::Cancelled,
    }
}

fn map_item_status(s: CodeggItemStatus) -> (r: PlanItemStatus)
    ensures
        r == item_status_of(s),
{
    match s {
        CodeggItemStatus::Pending => PlanItemStatus::Pending,
        CodeggItemStatus::Actionable => PlanItemStatus::Actionable,
        CodeggItemStatus::InProgress => PlanItemStatus::InProgress,
        CodeggItemStatus::Blocked => PlanItemStatus::Blocked,
        CodeggItemStatus::Completed => PlanItemStatus::Completed,
        CodeggItemStatus::Cancelled => PlanItemStatus::Cancelled,
    }
}

/// Required text: nonempty, without NUL, at most `MAX_TEXT_CHARS`.
pub open spec fn text_bad(v: Seq<char>) -> bool {
    v.len() == 0 || v.contains('\0') || v.len() > MAX_TEXT_CHARS
}

/// Why a required text field is refused.
pub open spec fn text_fault(v: Seq<char>, field: Seq<char>) -> Option<Seq<char>> {
    if text_bad(v) {
        Some("invalid or oversized "@ + field)
    } else {
        None
    }
}

/// Why a source identifier is refused: as text, then beyond
/// `MAX_SOURCE_ID_CHARS`.
pub open spec fn source_id_fault(v: Seq<char>, field: Seq<char>) -> Option<Seq<char>> {
    if text_bad(v) {
        Some("invalid or oversized "@ + field)
    } else if v.len() > MAX_SOURCE_ID_CHARS {
        Some("oversized "@ + field)
    } else {
        None
    }
}

/// Why an optional detail text is refused: NUL, or beyond
/// `MAX_DETAIL_CHARS`.
pub open spec fn detail_fault(v: Option<Seq<char>>, field: Seq<char>) -> Option<Seq<char>> {
    match v {
        Some(t) => if t.contains('\0') || t.len() > MAX_DETAIL_CHARS {
            Some("invalid or oversized "@ + field)
        } else {
            None
        },
        None => None,
    }
}

/// Why an optional source identifier is refused.
pub open spec fn opt_source_id_fault(v: Option<Seq<char>>, field: Seq<char>) -> Option<Seq<char>> {
    match v {
        Some(t) => source_id_fault(t, field),
        None => None,
    }
}

fn fault_message(prefix: &str, field: &str) -> (r: String)
    ensures
        r@ == prefix@ + field@,
{
    let mut m = owned(prefix);
    crate::text::push_str(&mut m, field);
    m
}

fn check_text(value: &str, field: &str) -> (r: Result<(), String>)
    ensures
        match r {
            Ok(()) => text_fault(value@, field@) is None,
            Err(e) => text_fault(value@, field@) == Some(e@),
        },
{
    let n = char_count(value);
    if n == 0 || has_nul(value) || n > MAX_TEXT_CHARS {
        Err(fault_message("invalid or oversized ", field))
    } else {
        Ok(())
    }
}

fn check_source_id(value: &str, field: &str) -> (r: Result<(), String>)
    ensures
        match r {
            Ok(()) => source_id_fault(value@, field@) is None,
            Err(e) => source_id_fault(value@, field@) == Some(e@),
        },
{
    check_text(value, field)?;
    if char_count(value) > MAX_SOURCE_ID_CHARS {
        Err(fault_message("oversized ", field))
    } else {
        Ok(())
    }
}

/// The text of an optional string.
pub open spec fn opt_text(v: Option<String>) -> Option<Seq<char>> {
    match v {
        Some(s) => Some(s@),
        None => None,
    }
}

fn check_detail(value: &Option<String>, field: &str) -> (r: Result<(), String>)
    ensures
        match r {
            Ok(()) => detail_fault(opt_text(*value), field@) is None,
            Err(e) => detail_fault(opt_text(*value), field@) == Some(e@),
        },
{
    match value {
        Some(v) => {
            if has_nul(v.as_str()) || char_count(v.as_str()) > MAX_DETAIL_CHARS {
                Err(fault_message("invalid or oversized ", field))
            } else {
                Ok(())
            }
        },
        None => Ok(()),
    }
}

fn check_opt_source_id(value: &Option<String>, field: &str) -> (r: Result<(), String>)
    ensures
        match r {
            Ok(()) => opt_source_id_fault(opt_text(*value), field@) is None,
            Err(e) => opt_source_id_fault(opt_text(*value), field@) == Some(e@),
        },
{
    match value {
        Some(v) => check_source_id(v.as_str(), field),
        None => Ok(()),
    }
}

/// The deterministic identifier text of a source identifier in a
/// namespace: 32 hex digits of the digest of the canonical JSON array
/// `["eggplan-codegg-compat", namespace, source]`.
pub open spec fn compat_hash(namespace: Seq<char>, source: Seq<char>) -> Seq<char> {
    digest_text(
        enc(JsonV::Arr(seq![JsonV::Str("eggplan-codegg-compat"@), JsonV::Str(namespace), JsonV::Str(source)])),
    ).subrange(7, 39)
}

/// Computes `compat_hash`.
pub fn hash_id(namespace: &str, source: &str) -> (r: String)
    ensures
        r@ == compat_hash(namespace@, source@),
        r@.len() == 32,
        forall|i: int| 0 <= i < 32 ==> crate::digest::is_lower_hex(#[trigger] r@[i]),
{
    let mut items: Vec<JsonText> = Vec::new();
    assert(crate::json::values_of(items@) =~= Seq::<JsonV>::empty());
    crate::json::push_value(&mut items, JsonText::string("eggplan-codegg-compat"));
    crate::json::push_value(&mut items, JsonText::string(namespace));
    crate::json::push_value(&mut items, JsonText::string(source));
    assert(crate::json::values_of(items@) =~= seq![JsonV::Str("eggplan-codegg-compat"@), JsonV::Str(namespace@), JsonV::Str(source@)]);
    let arr = JsonText::array(items);
    let d = crate::digest::digest_json(&arr);
    let cs = crate::text::chars_of(d.as_str());
    let h = crate::markdown_text::slice(&cs, 7, 39);
    proof {
        assert forall|i: int| 0 <= i < 32 implies crate::digest::is_lower_hex(#[trigger] h@[i]) by {
            assert(h@[i] == d@[i + 7]);
        }
    }
    crate::text::string_of(&h)
}

} // verus!

verus! {

/// The first of two faults.
pub open spec fn or_fault(a: Option<Seq<char>>, b: Option<Seq<char>>) -> Option<Seq<char>> {
    if a is Some {
        a
    } else {
        b
    }
}

/// The first refused reference among the first `n`.
pub open spec fn refs_fault(rs: Seq<String>, n: int) -> Option<Seq<char>>
    decreases n,
{
    if n <= 0 {
        None
    } else {
        or_fault(refs_fault(rs, n - 1), source_id_fault(rs[n - 1]@, "parent or dependency ID"@))
    }
}

/// The first refused acceptance entry among the first `n`.
pub open spec fn acceptances_fault(a: Seq<CodeggAcceptance>, n: int) -> Option<Seq<char>>
    decreases n,
{
    if n <= 0 {
        None
    } else {
        or_fault(
            acceptances_fault(a, n - 1),
            or_fault(
                text_fault(a[n - 1].description@, "acceptance description"@),
                detail_fault(opt_text(a[n - 1].note), "acceptance note"@),
            ),
        )
    }
}

/// The first refused evidence reference among the first `n`.
pub open spec fn evidence_fault(e: Seq<CodeggEvidenceRef>, n: int) -> Option<Seq<char>>
    decreases n,
{
    if n <= 0 {
        None
    } else {
        or_fault(
            evidence_fault(e, n - 1),
            or_fault(
                source_id_fault(e[n - 1].ref_id@, "evidence reference"@),
                detail_fault(opt_text(e[n - 1].detail), "evidence detail"@),
            ),
        )
    }
}

/// The parent, then the dependencies, of an item.
pub open spec fn item_refs(item: CodeggItemSnapshot) -> Seq<String> {
    (match item.parent_item_id {
        Some(p) => seq![p],
        None => Seq::empty(),
    }) + item.dependencies@
}

/// Why an item is refused, checked in order: its identifier, description,
/// position and collection bounds, blocker, next action, parent and
/// dependency identifiers, owner identifiers, acceptance entries and
/// evidence references.
pub open spec fn item_fault(item: CodeggItemSnapshot) -> Option<Seq<char>> {
    or_fault(
        source_id_fault(item.item_id@, "item ID"@),
        or_fault(
            text_fault(item.description@, "item description"@),
            or_fault(
                if item.position < 0 || item.position > u32::MAX || item.acceptance@.len() > MAX_ACCEPTANCES_PER_ITEM
                    || item.evidence@.len() > MAX_EVIDENCE_REFS_PER_ITEM || item.dependencies@.len()
                    > crate::bounds::MAX_DEPENDENCIES {
                    Some("item position or bounded collection limit is invalid"@)
                } else {
                    None
                },
                or_fault(
                    detail_fault(opt_text(item.blocker), "blocker"@),
                    or_fault(
                        detail_fault(opt_text(item.next_action), "next action"@),
                        or_fault(
                            refs_fault(item_refs(item), item_refs(item).len() as int),
                            or_fault(
                                opt_source_id_fault(opt_text(item.owner_run_id), "owner run ID"@),
                                or_fault(
                                    opt_source_id_fault(opt_text(item.owner_job_id), "owner job ID"@),
                                    or_fault(
                                        acceptances_fault(item.acceptance@, item.acceptance@.len() as int),
                                        evidence_fault(item.evidence@, item.evidence@.len() as int),
                                    ),
                                ),
                            ),
                        ),
                    ),
                ),
            ),
        ),
    )
}

/// The mapped identifier of a source item.
pub open spec fn item_id_text(source: Seq<char>) -> Seq<char> {
    "epi_"@ + compat_hash("item"@, source)
}

/// The mapped identifier of a source plan.
pub open spec fn plan_id_text(source: Seq<char>) -> Seq<char> {
    "ep_"@ + compat_hash("plan"@, source)
}

/// The mapped and source identifiers of the first `n` items, refusing an
/// item fault, a repeated mapped identifier, and a repeated source one.
pub open spec fn ids_fold(items: Seq<CodeggItemSnapshot>, n: int) -> Result<(Seq<Seq<char>>, Seq<Seq<char>>), Seq<char>>
    decreases n,
{
    if n <= 0 {
        Ok((Seq::empty(), Seq::empty()))
    } else {
        match ids_fold(items, n - 1) {
            Err(e) => Err(e),
            Ok((ids, sources)) => {
                let item = items[n - 1];
                match item_fault(item) {
                    Some(e) => Err(e),
                    None => {
                        let id = item_id_text(item.item_id@);
                        if ids.contains(id) {
                            Err("deterministic item ID collision"@)
                        } else if sources.contains(item.item_id@) {
                            Err("duplicate source item ID"@)
                        } else {
                            Ok((ids.push(id), sources.push(item.item_id@)))
                        }
                    },
                }
            },
        }
    }
}

/// What a snapshot is refused for before any evidence is resolved, checked
/// in order: revision and item count, plan identifier, objective, current
/// item identifier, current phase, subject, the items, and a current item
/// that is not one of them. Gives the mapped and source item identifiers.
pub open spec fn snapshot_check(s: CodeggPlanSnapshot, subject: SubjectRevision) -> Result<(Seq<Seq<char>>, Seq<Seq<char>>), Seq<char>> {
    if s.revision < 0 || s.items@.len() == 0 || s.items@.len() > MAX_ITEMS {
        Err("invalid snapshot revision or item count"@)
    } else if source_id_fault(s.plan_id@, "plan ID"@) is Some {
        Err(source_id_fault(s.plan_id@, "plan ID"@)->0)
    } else if text_fault(s.objective@, "objective"@) is Some {
        Err(text_fault(s.objective@, "objective"@)->0)
    } else if opt_source_id_fault(opt_text(s.current_item_id), "current item ID"@) is Some {
        Err(opt_source_id_fault(opt_text(s.current_item_id), "current item ID"@)->0)
    } else if detail_fault(opt_text(s.current_phase), "current phase"@) is Some {
        Err(detail_fault(opt_text(s.current_phase), "current phase"@)->0)
    } else if crate::model::subject_error(subject@) is Some {
        Err(crate::model::validation_message(crate::model::subject_error(subject@)->0))
    } else {
        match ids_fold(s.items@, s.items@.len() as int) {
            Err(e) => Err(e),
            Ok((ids, sources)) => if s.current_item_id matches Some(c) && !sources.contains(c@) {
                Err("current item ID does not identify a snapshot item"@)
            } else {
                Ok((ids, sources))
            },
        }
    }
}

fn check_refs(rs: &Vec<String>) -> (r: Result<(), String>)
    ensures
        match r {
            Ok(()) => refs_fault(rs@, rs@.len() as int) is None,
            Err(e) => refs_fault(rs@, rs@.len() as int) == Some(e@),
        },
{
    let mut i: usize = 0;
    while i < rs.len()
        invariant
            i <= rs@.len(),
            refs_fault(rs@, i as int) is None,
        decreases rs.len() - i,
    {
        match check_source_id(rs[i].as_str(), "parent or dependency ID") {
            Ok(()) => {},
            Err(e) => {
                proof {
                    lemma_refs_fault_stable(rs@, i + 1, rs@.len() as int);
                }
                return Err(e);
            },
        }
        i = i + 1;
    }
    Ok(())
}

proof fn lemma_refs_fault_stable(rs: Seq<String>, n: int, m: int)
    requires
        0 <= n <= m,
        refs_fault(rs, n) is Some,
    ensures
        refs_fault(rs, m) == refs_fault(rs, n),
    decreases m - n,
{
    if m > n {
        lemma_refs_fault_stable(rs, n, m - 1);
    }
}

proof fn lemma_acceptances_fault_stable(a: Seq<CodeggAcceptance>, n: int, m: int)
    requires
        0 <= n <= m,
        acceptances_fault(a, n) is Some,
    ensures
        acceptances_fault(a, m) == acceptances_fault(a, n),
    decreases m - n,
{
    if m > n {
        lemma_acceptances_fault_stable(a, n, m - 1);
    }
}

proof fn lemma_evidence_fault_stable(e: Seq<CodeggEvidenceRef>, n: int, m: int)
    requires
        0 <= n <= m,
        evidence_fault(e, n) is Some,
    ensures
        evidence_fault(e, m) == evidence_fault(e, n),
    decreases m - n,
{
    if m > n {
        lemma_evidence_fault_stable(e, n, m - 1);
    }
}

fn check_acceptances(a: &Vec<CodeggAcceptance>) -> (r: Result<(), String>)
    ensures
        match r {
            Ok(()) => acceptances_fault(a@, a@.len() as int) is None,
            Err(e) => acceptances_fault(a@, a@.len() as int) == Some(e@),
        },
{
    let mut i: usize = 0;
    while i < a.len()
        invariant
            i <= a@.len(),
            acceptances_fault(a@, i as int) is None,
        decreases a.len() - i,
    {
        let r1 = check_text(a[i].description.as_str(), "acceptance description");
        let r2 = if r1.is_ok() {
            check_detail(&a[i].note, "acceptance note")
        } else {
            r1
        };
        match r2 {
            Ok(()) => {},
            Err(e) => {
                proof {
                    lemma_acceptances_fault_stable(a@, i + 1, a@.len() as int);
                }
                return Err(e);
            },
        }
        i = i + 1;
    }
    Ok(())
}

fn check_evidence(e: &Vec<CodeggEvidenceRef>) -> (r: Result<(), String>)
    ensures
        match r {
            Ok(()) => evidence_fault(e@, e@.len() as int) is None,
            Err(m) => evidence_fault(e@, e@.len() as int) == Some(m@),
        },
{
    let mut i: usize = 0;
    while i < e.len()
        invariant
            i <= e@.len(),
            evidence_fault(e@, i as int) is None,
        decreases e.len() - i,
    {
        let r1 = check_source_id(e[i].ref_id.as_str(), "evidence reference");
        let r2 = if r1.is_ok() {
            check_detail(&e[i].detail, "evidence detail")
        } else {
            r1
        };
        match r2 {
            Ok(()) => {},
            Err(m) => {
                proof {
                    lemma_evidence_fault_stable(e@, i + 1, e@.len() as int);
                }
                return Err(m);
            },
        }
        i = i + 1;
    }
    Ok(())
}

fn check_item(item: &CodeggItemSnapshot) -> (r: Result<(), String>)
    ensures
        match r {
            Ok(()) => item_fault(*item) is None,
            Err(e) => item_fault(*item) == Some(e@),
        },
{
    check_source_id(item.item_id.as_str(), "item ID")?;
    check_text(item.description.as_str(), "item description")?;
    if item.position < 0 || item.position > 0xffff_ffff || item.acceptance.len() > MAX_ACCEPTANCES_PER_ITEM
        || item.evidence.len() > MAX_EVIDENCE_REFS_PER_ITEM || item.dependencies.len()
        > crate::bounds::MAX_DEPENDENCIES {
        return Err(owned("item position or bounded collection limit is invalid"));
    }
    check_detail(&item.blocker, "blocker")?;
    check_detail(&item.next_action, "next action")?;
    let mut refs: Vec<String> = Vec::new();
    match &item.parent_item_id {
        Some(p) => refs.push(p.clone()),
        None => {},
    }
    let mut i: usize = 0;
    let ghost base = refs@;
    while i < item.dependencies.len()
        invariant
            i <= item.dependencies@.len(),
            refs@ == base + item.dependencies@.take(i as int),
        decreases item.dependencies.len() - i,
    {
        refs.push(item.dependencies[i].clone());
        i = i + 1;
        assert(refs@ =~= base + item.dependencies@.take(i as int));
    }
    assert(item.dependencies@.take(item.dependencies@.len() as int) =~= item.dependencies@);
    assert(refs@ =~= item_refs(*item));
    check_refs(&refs)?;
    check_opt_source_id(&item.owner_run_id, "owner run ID")?;
    check_opt_source_id(&item.owner_job_id, "owner job ID")?;
    check_acceptances(&item.acceptance)?;
    check_evidence(&item.evidence)?;
    Ok(())
}

fn contains_text(v: &Vec<String>, s: &str) -> (r: bool)
    ensures
        r == strings_of(v@).contains(s@),
{
    let mut i: usize = 0;
    while i < v.len()
        invariant
            i <= v@.len(),
            forall|j: int| 0 <= j < i ==> v@[j]@ != s@,
        decreases v.len() - i,
    {
        if crate::text::str_eq(v[i].as_str(), s) {
            assert(strings_of(v@)[i as int] == s@);
            return true;
        }
        i = i + 1;
    }
    proof {
        if strings_of(v@).contains(s@) {
            let j = choose|j: int| 0 <= j < strings_of(v@).len() && strings_of(v@)[j] == s@;
            assert(v@[j]@ == s@);
        }
    }
    false
}

/// A generated identifier: the prefix and 32 lowercase hex digits.
pub open spec fn hex_id(s: Seq<char>, p: Seq<char>) -> bool {
    &&& s.len() == p.len() + 32
    &&& s.take(p.len() as int) == p
    &&& forall|i: int| p.len() <= i < s.len() ==> crate::digest::is_lower_hex(#[trigger] s[i])
}

/// The texts of strings.
pub open spec fn strings_of(v: Seq<String>) -> Seq<Seq<char>> {
    Seq::new(v.len(), |i: int| v[i]@)
}

proof fn lemma_ids_fold_err(items: Seq<CodeggItemSnapshot>, n: int, m: int)
    requires
        0 <= n <= m,
        ids_fold(items, n) is Err,
    ensures
        ids_fold(items, m) == ids_fold(items, n),
    decreases m - n,
{
    if m > n {
        lemma_ids_fold_err(items, n, m - 1);
    }
}

/// Checks a snapshot before any evidence is resolved (see
/// `snapshot_check`), giving the mapped and source item identifiers.
#[verifier::loop_isolation(false)]
fn check_snapshot(s: &CodeggPlanSnapshot, subject: &SubjectRevision) -> (r: Result<(Vec<String>, Vec<String>), String>)
    ensures
        match r {
            Ok((ids, sources)) => snapshot_check(*s, *subject) == Ok::<(Seq<Seq<char>>, Seq<Seq<char>>), Seq<char>>(
                (strings_of(ids@), strings_of(sources@)),
            ) && (forall|j: int| 0 <= j < ids@.len() ==> hex_id(#[trigger] ids@[j]@, "epi_"@)),
            Err(e) => snapshot_check(*s, *subject) == Err::<(Seq<Seq<char>>, Seq<Seq<char>>), Seq<char>>(e@),
        },
{
    if s.revision < 0 || s.items.len() == 0 || s.items.len() > MAX_ITEMS {
        return Err(owned("invalid snapshot revision or item count"));
    }
    check_source_id(s.plan_id.as_str(), "plan ID")?;
    check_text(s.objective.as_str(), "objective")?;
    check_opt_source_id(&s.current_item_id, "current item ID")?;
    check_detail(&s.current_phase, "current phase")?;
    match subject.validate() {
        Ok(()) => {},
        Err(e) => {
            return Err(e.message());
        },
    }
    let mut ids: Vec<String> = Vec::new();
    let mut sources: Vec<String> = Vec::new();
    let mut n: usize = 0;
    assert(strings_of(ids@) =~= Seq::<Seq<char>>::empty());
    assert(strings_of(sources@) =~= Seq::<Seq<char>>::empty());
    while n < s.items.len()
        invariant
            n <= s.items@.len(),
            ids_fold(s.items@, n as int) == Ok::<(Seq<Seq<char>>, Seq<Seq<char>>), Seq<char>>(
                (strings_of(ids@), strings_of(sources@)),
            ),
            forall|j: int| 0 <= j < ids@.len() ==> hex_id(#[trigger] ids@[j]@, "epi_"@),
        decreases s.items.len() - n,
    {
        let item = &s.items[n];
        match check_item(item) {
            Ok(()) => {},
            Err(e) => {
                proof {
                    lemma_ids_fold_err(s.items@, n + 1, s.items@.len() as int);
                }
                return Err(e);
            },
        }
        let h = hash_id("item", item.item_id.as_str());
        let mut id = owned("epi_");
        crate::text::push_str(&mut id, h.as_str());
        proof {
            reveal_strlit("epi_");
            assert(id@.take(4) =~= "epi_"@);
            assert forall|i: int| 4 <= i < id@.len() implies crate::digest::is_lower_hex(#[trigger] id@[i]) by {
                assert(id@[i] == h@[i - 4]);
            }
        }
        if contains_text(&ids, id.as_str()) {
            proof {
                lemma_ids_fold_err(s.items@, n + 1, s.items@.len() as int);
            }
            return Err(owned("deterministic item ID collision"));
        }
        if contains_text(&sources, item.item_id.as_str()) {
            proof {
                lemma_ids_fold_err(s.items@, n + 1, s.items@.len() as int);
            }
            return Err(owned("duplicate source item ID"));
        }
        let ghost i0 = strings_of(ids@);
        let ghost s0 = strings_of(sources@);
        ids.push(id);
        sources.push(item.item_id.clone());
        assert(strings_of(ids@) =~= i0.push(item_id_text(item.item_id@)));
        assert(strings_of(sources@) =~= s0.push(item.item_id@));
        n = n + 1;
    }
    match &s.current_item_id {
        Some(c) => {
            if !contains_text(&sources, c.as_str()) {
                return Err(owned("current item ID does not identify a snapshot item"));
            }
        },
        None => {},
    }
    Ok((ids, sources))
}

} // verus!

verus! {

/// Evidence a host resolved for a reference.
#[derive(Debug, Clone, PartialEq, Eq)]
pub struct ResolvedEvidence {
    /// Host-normalized observation; its provider identity comes from the host.
    pub observation: EvidenceObservation,
    /// The binding the host derived from the authoritative native
    /// verification specification, when the kind needs one.
    pub expected_verification: Option<VerificationDigest>,
}

/// One request made of a resolver: the reference, the subject as a value,
/// and what the resolver answered.
pub type Exchange = (CodeggEvidenceRef, crate::model::SubjectView, Result<ResolvedEvidence, String>);

/// Resolves CodeGG evidence references into host observations.
pub trait EvidenceResolver {
    /// Every request made of this resolver so far, oldest first. A
    /// resolver written in verified code keeps it; one written outside
    /// verified code need not define it, and then nothing is known of it.
    closed spec fn exchanges(&self) -> Seq<Exchange> {
        vstd::pervasive::arbitrary()
    }

    /// Resolves one reference about one subject; the request and its answer
    /// are added to `exchanges`.
    fn resolve(&mut self, reference: &CodeggEvidenceRef, subject: &SubjectRevision) -> (r: Result<ResolvedEvidence, String>)
        ensures
            final(self).exchanges() == old(self).exchanges().push((*reference, subject@, r)),
    ;
}

/// The exchanges of resolving the first `rs.len()` references of `refs`
/// about `subject`, answered by `rs`.
pub open spec fn exchanges_of(
    refs: Seq<CodeggEvidenceRef>,
    subject: crate::model::SubjectView,
    rs: Seq<Result<ResolvedEvidence, String>>,
) -> Seq<Exchange> {
    Seq::new(rs.len(), |i: int| (refs[i], subject, rs[i]))
}

/// What a resolver answered between two states of its exchanges.
pub open spec fn answers_since(before: Seq<Exchange>, after: Seq<Exchange>) -> Seq<Result<ResolvedEvidence, String>> {
    Seq::new((after.len() - before.len()) as nat, |i: int| after[before.len() + i].2)
}

/// Between `before` and `after` the resolver was asked about the first
/// references of `refs` in order, each once and about `subject`, and about
/// nothing else.
pub open spec fn asked_in_order(
    refs: Seq<CodeggEvidenceRef>,
    subject: crate::model::SubjectView,
    before: Seq<Exchange>,
    after: Seq<Exchange>,
) -> bool {
    &&& before.len() <= after.len()
    &&& answers_since(before, after).len() <= refs.len()
    &&& after == before + exchanges_of(refs, subject, answers_since(before, after))
}

/// A source identifier and the identifier it maps to.
#[derive(Debug, Clone, PartialEq, Eq)]
pub struct IdentityMapEntry {
    pub source_id: String,
    pub eggplan_id: String,
}

/// A source evidence reference, kept as provenance.
#[derive(Debug, Clone, PartialEq, Eq)]
pub struct SourceEvidenceRef {
    pub item_id: String,
    pub kind: CodeggEvidenceKind,
    pub ref_id: String,
}

/// Source owner references, kept as provenance.
#[derive(Debug, Clone, PartialEq, Eq)]
pub struct OwnerProvenance {
    pub item_id: String,
    pub owner_run_id: Option<String>,
    pub owner_job_id: Option<String>,
}

/// A source acceptance entry, kept as provenance.
#[derive(Debug, Clone, PartialEq, Eq)]
pub struct SourceAcceptance {
    pub item_id: String,
    pub description: String,
    pub disposition: AcceptanceDisposition,
}

/// What a mapping kept, dropped and generated, with a content digest.
#[derive(Debug, Clone, PartialEq, Eq)]
pub struct MappingManifest {
    pub schema_version: u32,
    pub source_plan_id: String,
    pub source_revision: i64,
    pub id_map: Vec<IdentityMapEntry>,
    pub source_evidence_refs: Vec<SourceEvidenceRef>,
    pub owner_provenance: Vec<OwnerProvenance>,
    pub source_acceptances: Vec<SourceAcceptance>,
    pub losses: Vec<Loss>,
    pub content_digest: String,
}

/// The serialized name of a reference kind.
pub open spec fn ref_kind_text(k: CodeggEvidenceKind) -> Seq<char> {
    match k {
        CodeggEvidenceKind::TestJob => "test_job"@,
        CodeggEvidenceKind::DelegatedRun => "delegated_run"@,
        CodeggEvidenceKind::SchedulerJob => "scheduler_job"@,
        CodeggEvidenceKind::AgentRun => "agent_run"@,
        CodeggEvidenceKind::Artifact => "artifact"@,
        CodeggEvidenceKind::Commit => "commit"@,
    }
}

fn ref_kind_name(k: CodeggEvidenceKind) -> (r: &'static str)
    ensures
        r@ == ref_kind_text(k),
{
    match k {
        CodeggEvidenceKind::TestJob => "test_job",
        CodeggEvidenceKind::DelegatedRun => "delegated_run",
        CodeggEvidenceKind::SchedulerJob => "scheduler_job",
        CodeggEvidenceKind::AgentRun => "agent_run",
        CodeggEvidenceKind::Artifact => "artifact",
        CodeggEvidenceKind::Commit => "commit",
    }
}

/// The debug name of a reference kind.
pub open spec fn ref_kind_debug(k: CodeggEvidenceKind) -> Seq<char> {
    match k {
        CodeggEvidenceKind::TestJob => "TestJob"@,
        CodeggEvidenceKind::DelegatedRun => "DelegatedRun"@,
        CodeggEvidenceKind::SchedulerJob => "SchedulerJob"@,
        CodeggEvidenceKind::AgentRun => "AgentRun"@,
        CodeggEvidenceKind::Artifact => "Artifact"@,
        CodeggEvidenceKind::Commit => "Commit"@,
    }
}

fn ref_kind_debug_name(k: CodeggEvidenceKind) -> (r: &'static str)
    ensures
        r@ == ref_kind_debug(k),
{
    match k {
        CodeggEvidenceKind::TestJob => "TestJob",
        CodeggEvidenceKind::DelegatedRun => "DelegatedRun",
        CodeggEvidenceKind::SchedulerJob => "SchedulerJob",
        CodeggEvidenceKind::AgentRun => "AgentRun",
        CodeggEvidenceKind::Artifact => "Artifact",
        CodeggEvidenceKind::Commit => "Commit",
    }
}

/// The serialized name of a disposition.
pub open spec fn disposition_text(d: AcceptanceDisposition) -> Seq<char> {
    match d {
        AcceptanceDisposition::Unmet => "unmet"@,
        AcceptanceDisposition::Satisfied => "satisfied"@,
        AcceptanceDisposition::RequiresUserJudgment => "requires_user_judgment"@,
    }
}

fn disposition_name(d: AcceptanceDisposition) -> (r: &'static str)
    ensures
        r@ == disposition_text(d),
{
    match d {
        AcceptanceDisposition::Unmet => "unmet",
        AcceptanceDisposition::Satisfied => "satisfied",
        AcceptanceDisposition::RequiresUserJudgment => "requires_user_judgment",
    }
}

/// The serialized code of a loss.
pub open spec fn loss_text(l: Loss) -> Seq<char> {
    match l {
        Loss::CompletedPlanNeedsGuardedClose => "completed_plan_needs_guarded_close"@,
        Loss::AcceptanceEvidenceAssignmentIsItemScoped => "acceptance_evidence_assignment_is_item_scoped"@,
        Loss::OwnerReferencesAreProvenanceOnly => "owner_references_are_provenance_only"@,
        Loss::SourceRevisionIsProvenanceOnly => "source_revision_is_provenance_only"@,
        Loss::SerializedDispositionIsNotEvidence => "serialized_disposition_is_not_evidence"@,
        Loss::AcceptanceNoteOmitted => "acceptance_note_omitted"@,
        Loss::EvidenceDetailOmitted => "evidence_detail_omitted"@,
    }
}

fn loss_name(l: Loss) -> (r: &'static str)
    ensures
        r@ == loss_text(l),
{
    match l {
        Loss::CompletedPlanNeedsGuardedClose => "completed_plan_needs_guarded_close",
        Loss::AcceptanceEvidenceAssignmentIsItemScoped => "acceptance_evidence_assignment_is_item_scoped",
        Loss::OwnerReferencesAreProvenanceOnly => "owner_references_are_provenance_only",
        Loss::SourceRevisionIsProvenanceOnly => "source_revision_is_provenance_only",
        Loss::SerializedDispositionIsNotEvidence => "serialized_disposition_is_not_evidence",
        Loss::AcceptanceNoteOmitted => "acceptance_note_omitted",
        Loss::EvidenceDetailOmitted => "evidence_detail_omitted",
    }
}

/// An optional text as JSON.
pub open spec fn opt_json(v: Option<String>) -> JsonV {
    match v {
        Some(s) => JsonV::Str(s@),
        None => JsonV::Null,
    }
}

/// The JSON of the manifest content: every field but the digest, in order,
/// as an array.
pub open spec fn manifest_json(m: MappingManifest) -> JsonV {
    JsonV::Arr(
        seq![
            JsonV::Nat(m.schema_version as nat),
            JsonV::Str(m.source_plan_id@),
            JsonV::Int(m.source_revision as int),
            JsonV::Arr(
                Seq::new(
                    m.id_map@.len(),
                    |i: int|
                        JsonV::Obj(
                            seq![
                                ("source_id"@, JsonV::Str(m.id_map@[i].source_id@)),
                                ("eggplan_id"@, JsonV::Str(m.id_map@[i].eggplan_id@)),
                            ],
                        ),
                ),
            ),
            JsonV::Arr(
                Seq::new(
                    m.source_evidence_refs@.len(),
                    |i: int|
                        JsonV::Obj(
                            seq![
                                ("item_id"@, JsonV::Str(m.source_evidence_refs@[i].item_id@)),
                                ("kind"@, JsonV::Str(ref_kind_text(m.source_evidence_refs@[i].kind))),
                                ("ref_id"@, JsonV::Str(m.source_evidence_refs@[i].ref_id@)),
                            ],
                        ),
                ),
            ),
            JsonV::Arr(
                Seq::new(
                    m.owner_provenance@.len(),
                    |i: int|
                        JsonV::Obj(
                            seq![
                                ("item_id"@, JsonV::Str(m.owner_provenance@[i].item_id@)),
                                ("owner_run_id"@, opt_json(m.owner_provenance@[i].owner_run_id)),
                                ("owner_job_id"@, opt_json(m.owner_provenance@[i].owner_job_id)),
                            ],
                        ),
                ),
            ),
            JsonV::Arr(
                Seq::new(
                    m.source_acceptances@.len(),
                    |i: int|
                        JsonV::Obj(
                            seq![
                                ("item_id"@, JsonV::Str(m.source_acceptances@[i].item_id@)),
                                ("description"@, JsonV::Str(m.source_acceptances@[i].description@)),
                                ("disposition"@, JsonV::Str(disposition_text(m.source_acceptances@[i].disposition))),
                            ],
                        ),
                ),
            ),
            JsonV::Arr(
                Seq::new(m.losses@.len(), |i: int| JsonV::Obj(seq![("code"@, JsonV::Str(loss_text(m.losses@[i])))])),
            ),
        ],
    )
}

/// The digest a manifest's content has.
pub open spec fn manifest_digest(m: MappingManifest) -> Seq<char> {
    crate::digest::json_digest(manifest_json(m))
}

/// Some source identifier, or some mapped one, occurs twice.
pub open spec fn duplicate_identities(m: Seq<IdentityMapEntry>) -> bool {
    exists|i: int, j: int|
        #![trigger m[i], m[j]]
        0 <= i < j < m.len() && (m[i].source_id@ == m[j].source_id@ || m[i].eggplan_id@ == m[j].eggplan_id@)
}

fn push_str_field(fields: &mut Vec<(String, JsonText)>, name: &str, value: &str)
    requires
        forall|i: int| 0 <= i < old(fields)@.len() ==> #[trigger] old(fields)@[i].1.wf(),
    ensures
        crate::json::fields_of(final(fields)@) == crate::json::fields_of(old(fields)@).push((name@, JsonV::Str(value@))),
        forall|i: int| 0 <= i < final(fields)@.len() ==> #[trigger] final(fields)@[i].1.wf(),
{
    crate::json::push_field(fields, name, JsonText::string(value));
}

fn manifest_content(m: &MappingManifest) -> (r: JsonText)
    ensures
        r.wf(),
        r.value@ == manifest_json(*m),
{
    let mut ids: Vec<JsonText> = Vec::new();
    let mut i: usize = 0;
    while i < m.id_map.len()
        invariant
            i <= m.id_map@.len(),
            forall|k: int| 0 <= k < ids@.len() ==> #[trigger] ids@[k].wf(),
            crate::json::values_of(ids@) == manifest_json(*m)->Arr_0[3]->Arr_0.take(i as int),
        decreases m.id_map.len() - i,
    {
        let mut f: Vec<(String, JsonText)> = Vec::new();
        assert(crate::json::fields_of(f@) =~= Seq::<(Seq<char>, JsonV)>::empty());
        push_str_field(&mut f, "source_id", m.id_map[i].source_id.as_str());
        push_str_field(&mut f, "eggplan_id", m.id_map[i].eggplan_id.as_str());
        assert(crate::json::fields_of(f@) =~= manifest_json(*m)->Arr_0[3]->Arr_0[i as int]->Obj_0);
        let o = JsonText::object(f);
        crate::json::push_value(&mut ids, o);
        i = i + 1;
        assert(crate::json::values_of(ids@) =~= manifest_json(*m)->Arr_0[3]->Arr_0.take(i as int));
    }
    let mut refs: Vec<JsonText> = Vec::new();
    let mut i: usize = 0;
    while i < m.source_evidence_refs.len()
        invariant
            i <= m.source_evidence_refs@.len(),
            forall|k: int| 0 <= k < refs@.len() ==> #[trigger] refs@[k].wf(),
            crate::json::values_of(refs@) == manifest_json(*m)->Arr_0[4]->Arr_0.take(i as int),
        decreases m.source_evidence_refs.len() - i,
    {
        let mut f: Vec<(String, JsonText)> = Vec::new();
        assert(crate::json::fields_of(f@) =~= Seq::<(Seq<char>, JsonV)>::empty());
        push_str_field(&mut f, "item_id", m.source_evidence_refs[i].item_id.as_str());
        push_str_field(&mut f, "kind", ref_kind_name(m.source_evidence_refs[i].kind));
        push_str_field(&mut f, "ref_id", m.source_evidence_refs[i].ref_id.as_str());
        assert(crate::json::fields_of(f@) =~= manifest_json(*m)->Arr_0[4]->Arr_0[i as int]->Obj_0);
        let o = JsonText::object(f);
        crate::json::push_value(&mut refs, o);
        i = i + 1;
        assert(crate::json::values_of(refs@) =~= manifest_json(*m)->Arr_0[4]->Arr_0.take(i as int));
    }
    let mut owners: Vec<JsonText> = Vec::new();
    let mut i: usize = 0;
    while i < m.owner_provenance.len()
        invariant
            i <= m.owner_provenance@.len(),
            forall|k: int| 0 <= k < owners@.len() ==> #[trigger] owners@[k].wf(),
            crate::json::values_of(owners@) == manifest_json(*m)->Arr_0[5]->Arr_0.take(i as int),
        decreases m.owner_provenance.len() - i,
    {
        let mut f: Vec<(String, JsonText)> = Vec::new();
        assert(crate::json::fields_of(f@) =~= Seq::<(Seq<char>, JsonV)>::empty());
        push_str_field(&mut f, "item_id", m.owner_provenance[i].item_id.as_str());
        crate::json::push_field(&mut f, "owner_run_id", JsonText::opt_string(&m.owner_provenance[i].owner_run_id));
        crate::json::push_field(&mut f, "owner_job_id", JsonText::opt_string(&m.owner_provenance[i].owner_job_id));
        assert(crate::json::fields_of(f@) =~= manifest_json(*m)->Arr_0[5]->Arr_0[i as int]->Obj_0);
        let o = JsonText::object(f);
        crate::json::push_value(&mut owners, o);
        i = i + 1;
        assert(crate::json::values_of(owners@) =~= manifest_json(*m)->Arr_0[5]->Arr_0.take(i as int));
    }
    let mut accs: Vec<JsonText> = Vec::new();
    let mut i: usize = 0;
    while i < m.source_acceptances.len()
        invariant
            i <= m.source_acceptances@.len(),
            forall|k: int| 0 <= k < accs@.len() ==> #[trigger] accs@[k].wf(),
            crate::json::values_of(accs@) == manifest_json(*m)->Arr_0[6]->Arr_0.take(i as int),
        decreases m.source_acceptances.len() - i,
    {
        let mut f: Vec<(String, JsonText)> = Vec::new();
        assert(crate::json::fields_of(f@) =~= Seq::<(Seq<char>, JsonV)>::empty());
        push_str_field(&mut f, "item_id", m.source_acceptances[i].item_id.as_str());
        push_str_field(&mut f, "description", m.source_acceptances[i].description.as_str());
        push_str_field(&mut f, "disposition", disposition_name(m.source_acceptances[i].disposition));
        assert(crate::json::fields_of(f@) =~= manifest_json(*m)->Arr_0[6]->Arr_0[i as int]->Obj_0);
        let o = JsonText::object(f);
        crate::json::push_value(&mut accs, o);
        i = i + 1;
        assert(crate::json::values_of(accs@) =~= manifest_json(*m)->Arr_0[6]->Arr_0.take(i as int));
    }
    let mut losses: Vec<JsonText> = Vec::new();
    let mut i: usize = 0;
    while i < m.losses.len()
        invariant
            i <= m.losses@.len(),
            forall|k: int| 0 <= k < losses@.len() ==> #[trigger] losses@[k].wf(),
            crate::json::values_of(losses@) == manifest_json(*m)->Arr_0[7]->Arr_0.take(i as int),
        decreases m.losses.len() - i,
    {
        let mut f: Vec<(String, JsonText)> = Vec::new();
        assert(crate::json::fields_of(f@) =~= Seq::<(Seq<char>, JsonV)>::empty());
        push_str_field(&mut f, "code", loss_name(m.losses[i]));
        let o = JsonText::object(f);
        crate::json::push_value(&mut losses, o);
        i = i + 1;
        assert(crate::json::values_of(losses@) =~= manifest_json(*m)->Arr_0[7]->Arr_0.take(i as int));
    }
    let mut top: Vec<JsonText> = Vec::new();
    assert(crate::json::values_of(top@) =~= Seq::<JsonV>::empty());
    crate::json::push_value(&mut top, JsonText::natural(m.schema_version as u64));
    crate::json::push_value(&mut top, JsonText::string(m.source_plan_id.as_str()));
    crate::json::push_value(&mut top, JsonText::integer(m.source_revision));
    crate::json::push_value(&mut top, JsonText::array(ids));
    crate::json::push_value(&mut top, JsonText::array(refs));
    crate::json::push_value(&mut top, JsonText::array(owners));
    crate::json::push_value(&mut top, JsonText::array(accs));
    crate::json::push_value(&mut top, JsonText::array(losses));
    proof {
        let want = manifest_json(*m)->Arr_0;
        assert(want[3]->Arr_0.take(m.id_map@.len() as int) =~= want[3]->Arr_0);
        assert(want[4]->Arr_0.take(m.source_evidence_refs@.len() as int) =~= want[4]->Arr_0);
        assert(want[5]->Arr_0.take(m.owner_provenance@.len() as int) =~= want[5]->Arr_0);
        assert(want[6]->Arr_0.take(m.source_acceptances@.len() as int) =~= want[6]->Arr_0);
        assert(want[7]->Arr_0.take(m.losses@.len() as int) =~= want[7]->Arr_0);
        assert(crate::json::values_of(top@) =~= want);
    }
    JsonText::array(top)
}

impl MappingManifest {
    /// Checks the manifest: version 1 and a nonnegative revision, no
    /// repeated identity on either side, and a digest that matches the
    /// content.
    #[verifier::loop_isolation(false)]
    pub fn validate(&self) -> (r: Result<(), String>)
        ensures
            match r {
                Ok(()) => self.schema_version == 1 && self.source_revision >= 0 && !duplicate_identities(self.id_map@)
                    && self.content_digest@ == manifest_digest(*self),
                Err(e) => if self.schema_version != 1 || self.source_revision < 0 {
                    e@ == "unsupported mapping manifest version or revision"@
                } else if duplicate_identities(self.id_map@) {
                    e@ == "mapping manifest contains duplicate identities"@
                } else {
                    self.content_digest@ != manifest_digest(*self) && e@ == "mapping manifest digest mismatch"@
                },
            },
    {
        if self.schema_version != 1 || self.source_revision < 0 {
            return Err(owned("unsupported mapping manifest version or revision"));
        }
        let m = &self.id_map;
        let mut j: usize = 0;
        while j < m.len()
            invariant
                j <= m@.len(),
                forall|a: int, b: int|
                    #![trigger m@[a], m@[b]]
                    0 <= a < b < j ==> !(m@[a].source_id@ == m@[b].source_id@ || m@[a].eggplan_id@ == m@[b].eggplan_id@),
            decreases m.len() - j,
        {
            let mut a: usize = 0;
            while a < j
                invariant
                    j < m@.len(),
                    a <= j,
                    forall|x: int| 0 <= x < a ==> !(m@[x].source_id@ == m@[j as int].source_id@ || m@[x].eggplan_id@
                        == m@[j as int].eggplan_id@),
                decreases j - a,
            {
                if crate::text::str_eq(m[a].source_id.as_str(), m[j].source_id.as_str()) || crate::text::str_eq(
                    m[a].eggplan_id.as_str(),
                    m[j].eggplan_id.as_str(),
                ) {
                    assert(duplicate_identities(self.id_map@)) by {
                        assert(m@[a as int].source_id@ == m@[j as int].source_id@ || m@[a as int].eggplan_id@
                            == m@[j as int].eggplan_id@);
                    }
                    return Err(owned("mapping manifest contains duplicate identities"));
                }
                a = a + 1;
            }
            j = j + 1;
        }
        let content = manifest_content(self);
        let expected = crate::digest::digest_json(&content);
        if !crate::text::str_eq(expected.as_str(), self.content_digest.as_str()) {
            return Err(owned("mapping manifest digest mismatch"));
        }
        Ok(())
    }
}

} // verus!

verus! {

/// A requirement drafted from a resolved reference: any one observation of
/// the mapped kind on the exact subject, bound as the host said.
pub struct ReqV {
    pub description: Seq<char>,
    pub kind: EvidenceKind,
    pub expected: Option<Seq<char>>,
}

/// The description of a requirement drafted from a reference.
pub open spec fn req_description(r: CodeggEvidenceRef) -> Seq<char> {
    "CodeGG "@ + ref_kind_debug(r.kind) + " ref "@ + r.ref_id@
}

/// Why a resolution is refused: an observation on another subject, of
/// another kind, or with an identifier already used; or, for kinds that
/// need a binding, no expected binding or one the observation does not
/// carry.
pub open spec fn resolution_fault(
    reference: CodeggEvidenceRef,
    subject: SubjectRevision,
    seen: Seq<Seq<char>>,
    re: ResolvedEvidence,
) -> Option<Seq<char>> {
    let o = re.observation@;
    let kind = kind_of(reference.kind);
    if o.subject != subject@ || o.kind != kind || seen.contains(o.id) {
        Some("resolver returned stale, mismatched, or reused evidence"@)
    } else if needs_binding(kind) && (re.expected_verification is None || crate::evidence::opt_vd(
        re.expected_verification,
    ) != o.verification_digest) {
        Some("execution evidence lacks the authoritative matching verification binding"@)
    } else {
        None
    }
}

/// The requirements, observations and used observation identifiers after
/// the first `k` references of an item, taking resolutions from `at`.
pub struct RefsV {
    pub reqs: Seq<ReqV>,
    pub obs: Seq<EvidenceObservation>,
    pub seen: Seq<Seq<char>>,
}

/// The first `k` references of an item, resolved in order; the first
/// failed or refused resolution is the refusal.
pub open spec fn refs_fold(
    refs: Seq<CodeggEvidenceRef>,
    subject: SubjectRevision,
    rs: Seq<Result<ResolvedEvidence, String>>,
    at: int,
    seen0: Seq<Seq<char>>,
    k: int,
) -> Result<RefsV, Seq<char>>
    decreases k,
{
    if k <= 0 {
        Ok(RefsV { reqs: Seq::empty(), obs: Seq::empty(), seen: seen0 })
    } else {
        match refs_fold(refs, subject, rs, at, seen0, k - 1) {
            Err(e) => Err(e),
            Ok(st) => match rs[at + k - 1] {
                Err(e) => Err(e@),
                Ok(re) => match resolution_fault(refs[k - 1], subject, st.seen, re) {
                    Some(m) => Err(m),
                    None => Ok(
                        RefsV {
                            reqs: st.reqs.push(
                                ReqV {
                                    description: req_description(refs[k - 1]),
                                    kind: kind_of(refs[k - 1].kind),
                                    expected: crate::evidence::opt_vd(re.expected_verification),
                                },
                            ),
                            obs: st.obs.push(re.observation),
                            seen: st.seen.push(re.observation@.id),
                        },
                    ),
                },
            },
        }
    }
}

/// The mapped identifier of a source item among the first `n`.
pub open spec fn lookup_id(sources: Seq<Seq<char>>, ids: Seq<Seq<char>>, s: Seq<char>, n: int) -> Option<Seq<char>>
    decreases n,
{
    if n <= 0 {
        None
    } else {
        match lookup_id(sources, ids, s, n - 1) {
            Some(x) => Some(x),
            None => if sources[n - 1] == s {
                Some(ids[n - 1])
            } else {
                None
            },
        }
    }
}

/// The mapped dependencies of the first `m` source dependencies.
pub open spec fn deps_fold(sources: Seq<Seq<char>>, ids: Seq<Seq<char>>, deps: Seq<String>, m: int) -> Result<Seq<Seq<char>>, Seq<char>>
    decreases m,
{
    if m <= 0 {
        Ok(Seq::empty())
    } else {
        match deps_fold(sources, ids, deps, m - 1) {
            Err(e) => Err(e),
            Ok(v) => match lookup_id(sources, ids, deps[m - 1]@, sources.len() as int) {
                None => Err("missing dependency item "@ + deps[m - 1]@),
                Some(x) => Ok(v.push(x)),
            },
        }
    }
}

/// Four lowercase hex digits.
pub open spec fn hex4(i: nat) -> Seq<char> {
    seq![
        crate::json::hex_digit((i / 4096) % 16),
        crate::json::hex_digit((i / 256) % 16),
        crate::json::hex_digit((i / 16) % 16),
        crate::json::hex_digit(i % 16),
    ]
}

/// A mapped acceptance criterion.
pub struct MappedCritV {
    pub id: Seq<char>,
    pub statement: Seq<char>,
    pub human: bool,
    pub reqs: Seq<ReqV>,
}

/// A mapped item.
pub struct MappedItemV {
    pub id: Seq<char>,
    pub position: nat,
    pub parent: Option<Seq<char>>,
    pub deps: Seq<Seq<char>>,
    pub status: PlanItemStatus,
    pub description: Seq<char>,
    pub criteria: Seq<MappedCritV>,
    pub blocker: Option<Seq<char>>,
    pub next_action: Option<Seq<char>>,
}

/// The criteria of an item: one per acceptance entry, numbered; entries
/// that require user judgment allow human judgment and carry no
/// requirement, the others carry every requirement of the item.
pub open spec fn criteria_of(acc: Seq<CodeggAcceptance>, reqs: Seq<ReqV>) -> Seq<MappedCritV> {
    Seq::new(
        acc.len(),
        |i: int|
            MappedCritV {
                id: "epc_"@ + hex4(i as nat),
                statement: acc[i].description@,
                human: acc[i].disposition == AcceptanceDisposition::RequiresUserJudgment,
                reqs: if acc[i].disposition == AcceptanceDisposition::RequiresUserJudgment {
                    Seq::empty()
                } else {
                    reqs
                },
            },
    )
}

/// The mapping after the first `n` items: where the next resolution is
/// taken from, used observation identifiers, kept observations, and the
/// mapped items.
pub struct ProcV {
    pub cursor: int,
    pub seen: Seq<Seq<char>>,
    pub obs: Seq<EvidenceObservation>,
    pub items: Seq<MappedItemV>,
}

/// Maps the first `n` items in order: an item's references are resolved,
/// then its parent and dependencies are looked up.
pub open spec fn proc_fold(
    items: Seq<CodeggItemSnapshot>,
    subject: SubjectRevision,
    rs: Seq<Result<ResolvedEvidence, String>>,
    ids: Seq<Seq<char>>,
    sources: Seq<Seq<char>>,
    n: int,
) -> Result<ProcV, Seq<char>>
    decreases n,
{
    if n <= 0 {
        Ok(ProcV { cursor: 0, seen: Seq::empty(), obs: Seq::empty(), items: Seq::empty() })
    } else {
        match proc_fold(items, subject, rs, ids, sources, n - 1) {
            Err(e) => Err(e),
            Ok(st) => {
                let item = items[n - 1];
                match refs_fold(item.evidence@, subject, rs, st.cursor, st.seen, item.evidence@.len() as int) {
                    Err(e) => Err(e),
                    Ok(rv) => {
                        let parent = match item.parent_item_id {
                            None => Ok(None),
                            Some(p) => match lookup_id(sources, ids, p@, sources.len() as int) {
                                Some(x) => Ok(Some(x)),
                                None => Err("missing parent item "@ + p@),
                            },
                        };
                        match parent {
                            Err(e) => Err(e),
                            Ok(par) => match deps_fold(sources, ids, item.dependencies@, item.dependencies@.len() as int) {
                                Err(e) => Err(e),
                                Ok(deps) => Ok(
                                    ProcV {
                                        cursor: st.cursor + item.evidence@.len(),
                                        seen: rv.seen,
                                        obs: st.obs + rv.obs,
                                        items: st.items.push(
                                            MappedItemV {
                                                id: ids[n - 1],
                                                position: item.position as nat,
                                                parent: par,
                                                deps,
                                                status: item_status_of(item.status),
                                                description: item.description@,
                                                criteria: criteria_of(item.acceptance@, rv.reqs),
                                                blocker: opt_text(item.blocker),
                                                next_action: opt_text(item.next_action),
                                            },
                                        ),
                                    },
                                ),
                            },
                        }
                    },
                }
            },
        }
    }
}

} // verus!

verus! {

proof fn lemma_refs_fold_prefix(
    refs: Seq<CodeggEvidenceRef>,
    subject: SubjectRevision,
    rs: Seq<Result<ResolvedEvidence, String>>,
    rs2: Seq<Result<ResolvedEvidence, String>>,
    at: int,
    seen0: Seq<Seq<char>>,
    k: int,
)
    requires
        0 <= at,
        0 <= k,
        at + k <= rs.len(),
        at + k <= rs2.len(),
        forall|i: int| 0 <= i < at + k ==> rs[i] == rs2[i],
    ensures
        refs_fold(refs, subject, rs, at, seen0, k) == refs_fold(refs, subject, rs2, at, seen0, k),
    decreases k,
{
    if k > 0 {
        lemma_refs_fold_prefix(refs, subject, rs, rs2, at, seen0, k - 1);
    }
}

proof fn lemma_refs_fold_cursor(
    refs: Seq<CodeggEvidenceRef>,
    subject: SubjectRevision,
    rs: Seq<Result<ResolvedEvidence, String>>,
    at: int,
    seen0: Seq<Seq<char>>,
    k: int,
)
    requires
        0 <= k <= refs.len(),
        refs_fold(refs, subject, rs, at, seen0, k) is Err,
    ensures
        refs_fold(refs, subject, rs, at, seen0, refs.len() as int) == refs_fold(refs, subject, rs, at, seen0, k),
{
    lemma_refs_fold_err_down(refs, subject, rs, at, seen0, k, refs.len() as int);
}

proof fn lemma_refs_fold_err_down(
    refs: Seq<CodeggEvidenceRef>,
    subject: SubjectRevision,
    rs: Seq<Result<ResolvedEvidence, String>>,
    at: int,
    seen0: Seq<Seq<char>>,
    n: int,
    k: int,
)
    requires
        0 <= n <= k,
        refs_fold(refs, subject, rs, at, seen0, n) is Err,
    ensures
        refs_fold(refs, subject, rs, at, seen0, k) == refs_fold(refs, subject, rs, at, seen0, n),
    decreases k - n,
{
    if k > n {
        lemma_refs_fold_err_down(refs, subject, rs, at, seen0, n, k - 1);
    }
}

/// The cursor after the first `n` items: their references in total.
pub open spec fn refs_before(items: Seq<CodeggItemSnapshot>, n: int) -> int
    decreases n,
{
    if n <= 0 {
        0
    } else {
        refs_before(items, n - 1) + items[n - 1].evidence@.len()
    }
}

proof fn lemma_proc_fold_prefix(
    items: Seq<CodeggItemSnapshot>,
    subject: SubjectRevision,
    rs: Seq<Result<ResolvedEvidence, String>>,
    rs2: Seq<Result<ResolvedEvidence, String>>,
    ids: Seq<Seq<char>>,
    sources: Seq<Seq<char>>,
    n: int,
)
    requires
        0 <= n <= items.len(),
        refs_before(items, n) <= rs.len(),
        refs_before(items, n) <= rs2.len(),
        forall|i: int| 0 <= i < refs_before(items, n) ==> rs[i] == rs2[i],
    ensures
        proc_fold(items, subject, rs, ids, sources, n) == proc_fold(items, subject, rs2, ids, sources, n),
        proc_fold(items, subject, rs, ids, sources, n) matches Ok(p) ==> p.cursor == refs_before(items, n),
    decreases n,
{
    if n > 0 {
        lemma_refs_before_mono(items, n - 1);
        lemma_proc_fold_prefix(items, subject, rs, rs2, ids, sources, n - 1);
        match proc_fold(items, subject, rs, ids, sources, n - 1) {
            Ok(st) => {
                let item = items[n - 1];
                lemma_refs_fold_prefix(item.evidence@, subject, rs, rs2, st.cursor, st.seen, item.evidence@.len() as int);
            },
            Err(_) => {},
        }
    }
}

proof fn lemma_refs_before_le(items: Seq<CodeggItemSnapshot>, n: int, m: int)
    requires
        0 <= n <= m <= items.len(),
    ensures
        refs_before(items, n) <= refs_before(items, m),
    decreases m - n,
{
    if m > n {
        lemma_refs_before_le(items, n, m - 1);
        lemma_refs_before_mono(items, m - 1);
    }
}

/// Where folding over resolutions `rs` fails at item `n`, having read
/// exactly the resolutions before that failure, any longer sequence that
/// starts with `rs` fails in the same way.
proof fn lemma_proc_fold_feed_err(
    items: Seq<CodeggItemSnapshot>,
    subject: SubjectRevision,
    rs: Seq<Result<ResolvedEvidence, String>>,
    g: Seq<Result<ResolvedEvidence, String>>,
    ids: Seq<Seq<char>>,
    sources: Seq<Seq<char>>,
    n: int,
    k: int,
)
    requires
        0 <= n < items.len(),
        0 <= k <= items[n].evidence@.len(),
        rs.len() == refs_before(items, n) + k,
        rs.len() <= g.len(),
        forall|i: int| 0 <= i < rs.len() ==> rs[i] == g[i],
        proc_fold(items, subject, rs, ids, sources, n) is Ok,
        refs_fold(
            items[n].evidence@,
            subject,
            rs,
            refs_before(items, n),
            proc_fold(items, subject, rs, ids, sources, n)->Ok_0.seen,
            k,
        ) is Err || k == items[n].evidence@.len(),
        proc_fold(items, subject, rs, ids, sources, n + 1) is Err,
    ensures
        proc_fold(items, subject, g, ids, sources, items.len() as int) == proc_fold(items, subject, rs, ids, sources, n + 1),
{
    lemma_refs_before_mono(items, n);
    lemma_proc_fold_prefix(items, subject, rs, g, ids, sources, n);
    let st = proc_fold(items, subject, rs, ids, sources, n)->Ok_0;
    let ev = items[n].evidence@;
    lemma_refs_fold_prefix(ev, subject, rs, g, st.cursor, st.seen, k);
    if refs_fold(ev, subject, rs, st.cursor, st.seen, k) is Err {
        lemma_refs_fold_cursor(ev, subject, rs, st.cursor, st.seen, k);
        lemma_refs_fold_cursor(ev, subject, g, st.cursor, st.seen, k);
    }
    assert(proc_fold(items, subject, g, ids, sources, n + 1) == proc_fold(items, subject, rs, ids, sources, n + 1));
    lemma_proc_fold_err(items, subject, g, ids, sources, n + 1, items.len() as int);
}

proof fn lemma_refs_before_mono(items: Seq<CodeggItemSnapshot>, n: int)
    requires
        0 <= n < items.len(),
    ensures
        refs_before(items, n) <= refs_before(items, n + 1),
        refs_before(items, n) >= 0,
    decreases n,
{
    if n > 0 {
        lemma_refs_before_mono(items, n - 1);
    }
}

proof fn lemma_proc_fold_err(
    items: Seq<CodeggItemSnapshot>,
    subject: SubjectRevision,
    rs: Seq<Result<ResolvedEvidence, String>>,
    ids: Seq<Seq<char>>,
    sources: Seq<Seq<char>>,
    n: int,
    m: int,
)
    requires
        0 <= n <= m,
        proc_fold(items, subject, rs, ids, sources, n) is Err,
    ensures
        proc_fold(items, subject, rs, ids, sources, m) == proc_fold(items, subject, rs, ids, sources, n),
    decreases m - n,
{
    if m > n {
        lemma_proc_fold_err(items, subject, rs, ids, sources, n, m - 1);
    }
}

/// A requirement as a value.
pub open spec fn req_view(r: EvidenceRequirement) -> ReqV {
    ReqV { description: r.description@, kind: r.kind, expected: crate::evidence::opt_vd(r.expected_verification_digest) }
}

/// The values of requirements.
pub open spec fn req_views(v: Seq<EvidenceRequirement>) -> Seq<ReqV> {
    Seq::new(v.len(), |i: int| req_view(v[i]))
}

/// A drafted requirement: no provider, the exact subject, any one
/// observation, no human judgment.
pub open spec fn req_fixed(r: EvidenceRequirement) -> bool {
    &&& r.provider is None
    &&& r.subject_policy == crate::model::SubjectPolicy::Exact
    &&& r.cardinality == crate::model::EvidenceCardinality::Any
    &&& r.min_count == 1
    &&& !r.allow_human_judgment
}

/// The values of item identifiers.
pub open spec fn id_views(v: Seq<PlanItemId>) -> Seq<Seq<char>> {
    Seq::new(v.len(), |i: int| v[i]@)
}

/// An optional item identifier as a value.
pub open spec fn opt_id(v: Option<PlanItemId>) -> Option<Seq<char>> {
    match v {
        Some(x) => Some(x@),
        None => None,
    }
}

struct Piece {
    parent: Option<PlanItemId>,
    deps: Vec<PlanItemId>,
    reqs: Vec<EvidenceRequirement>,
}

spec fn piece_matches(p: Piece, v: MappedItemV, item: CodeggItemSnapshot) -> bool {
    &&& opt_id(p.parent) == v.parent
    &&& id_views(p.deps@) == v.deps
    &&& criteria_of(item.acceptance@, req_views(p.reqs@)) == v.criteria
    &&& forall|i: int| 0 <= i < p.reqs@.len() ==> req_fixed(#[trigger] p.reqs@[i])
}

fn item_id_from(s: &String) -> (r: PlanItemId)
    requires
        hex_id(s@, "epi_"@),
    ensures
        r@ == s@,
{
    proof {
        reveal_strlit("epi_");
        assert forall|i: int| 4 <= i < s@.len() implies crate::identity::is_id_char(#[trigger] s@[i]) by {}
    }
    match PlanItemId::new(s.as_str()) {
        Ok(id) => id,
        Err(_) => {
            proof {
                assert(false);
            }
            PlanItemId::generate()
        },
    }
}

fn lookup_source(sources: &Vec<String>, ids: &Vec<String>, s: &str) -> (r: Option<usize>)
    requires
        sources@.len() == ids@.len(),
    ensures
        match r {
            Some(j) => j < ids@.len() && lookup_id(strings_of(sources@), strings_of(ids@), s@, sources@.len() as int) == Some(
                ids@[j as int]@,
            ),
            None => lookup_id(strings_of(sources@), strings_of(ids@), s@, sources@.len() as int) is None,
        },
{
    let mut j: usize = 0;
    while j < sources.len()
        invariant
            j <= sources@.len(),
            sources@.len() == ids@.len(),
            lookup_id(strings_of(sources@), strings_of(ids@), s@, j as int) is None,
        decreases sources.len() - j,
    {
        if crate::text::str_eq(sources[j].as_str(), s) {
            proof {
                lemma_lookup_found(strings_of(sources@), strings_of(ids@), s@, j + 1, sources@.len() as int);
            }
            return Some(j);
        }
        j = j + 1;
    }
    None
}

proof fn lemma_lookup_found(sources: Seq<Seq<char>>, ids: Seq<Seq<char>>, s: Seq<char>, n: int, m: int)
    requires
        0 <= n <= m,
        lookup_id(sources, ids, s, n) is Some,
    ensures
        lookup_id(sources, ids, s, m) == lookup_id(sources, ids, s, n),
    decreases m - n,
{
    if m > n {
        lemma_lookup_found(sources, ids, s, n, m - 1);
    }
}

proof fn lemma_deps_fold_err(sources: Seq<Seq<char>>, ids: Seq<Seq<char>>, deps: Seq<String>, n: int, m: int)
    requires
        0 <= n <= m,
        deps_fold(sources, ids, deps, n) is Err,
    ensures
        deps_fold(sources, ids, deps, m) == deps_fold(sources, ids, deps, n),
    decreases m - n,
{
    if m > n {
        lemma_deps_fold_err(sources, ids, deps, n, m - 1);
    }
}

} // verus!

verus! {

fn requirement_description(reference: &CodeggEvidenceRef) -> (r: String)
    ensures
        r@ == req_description(*reference),
{
    let mut d = owned("CodeGG ");
    crate::text::push_str(&mut d, ref_kind_debug_name(reference.kind));
    crate::text::push_str(&mut d, " ref ");
    crate::text::push_str(&mut d, reference.ref_id.as_str());
    d
}

fn seen_has(seen: &Vec<crate::identity::EvidenceObservationId>, id: &crate::identity::EvidenceObservationId) -> (r: bool)
    ensures
        r == Seq::new(seen@.len(), |i: int| seen@[i]@).contains(id@),
{
    let ghost sv = Seq::new(seen@.len(), |i: int| seen@[i]@);
    let mut i: usize = 0;
    while i < seen.len()
        invariant
            i <= seen@.len(),
            sv == Seq::new(seen@.len(), |i: int| seen@[i]@),
            forall|j: int| 0 <= j < i ==> seen@[j]@ != id@,
        decreases seen.len() - i,
    {
        if seen[i].same(id) {
            assert(sv[i as int] == id@);
            return true;
        }
        i = i + 1;
    }
    false
}

proof fn lemma_snapshot_ref_at(items: Seq<CodeggItemSnapshot>, n: int, k: int, m: int)
    requires
        0 <= n < m <= items.len(),
        0 <= k < items[n].evidence@.len(),
    ensures
        refs_before(items, n) + k < snapshot_refs(items, m).len(),
        snapshot_refs(items, m)[refs_before(items, n) + k] == items[n].evidence@[k],
    decreases m,
{
    lemma_snapshot_refs_len(items, m - 1);
    lemma_snapshot_refs_len(items, m);
    lemma_snapshot_refs_len(items, n);
    if m > n + 1 {
        lemma_snapshot_ref_at(items, n, k, m - 1);
    }
}

/// Resolves every reference of the items in order and looks up parents
/// and dependencies (see `proc_fold`); gives the per-item pieces, the
/// kept observations, and the resolutions the resolver gave.
#[verifier::loop_isolation(false)]
#[verifier::rlimit(60)]
fn resolve_items<R: EvidenceResolver>(
    s: &CodeggPlanSnapshot,
    subject: &SubjectRevision,
    resolver: &mut R,
    given: &mut Vec<Result<ResolvedEvidence, String>>,
    feed: bool,
    ids: &Vec<String>,
    sources: &Vec<String>,
) -> (r: (Result<(Vec<Piece>, Vec<EvidenceObservation>), String>, Ghost<Seq<Result<ResolvedEvidence, String>>>))
    requires
        ids@.len() == s.items@.len(),
        sources@.len() == s.items@.len(),
        forall|j: int| 0 <= j < ids@.len() ==> hex_id(#[trigger] ids@[j]@, "epi_"@),
        feed ==> old(given)@.len() >= refs_before(s.items@, s.items@.len() as int),
    ensures
        feed ==> proc_fold(s.items@, *subject, r.1@, strings_of(ids@), strings_of(sources@), s.items@.len() as int)
            == proc_fold(s.items@, *subject, old(given)@, strings_of(ids@), strings_of(sources@), s.items@.len() as int),
        r.1@.len() <= refs_before(s.items@, s.items@.len() as int),
        r.0 is Ok ==> r.1@.len() == refs_before(s.items@, s.items@.len() as int),
        feed ==> final(resolver).exchanges() == old(resolver).exchanges(),
        !feed ==> final(resolver).exchanges() == old(resolver).exchanges() + exchanges_of(
            snapshot_refs(s.items@, s.items@.len() as int),
            subject@,
            r.1@,
        ),
        match r.0 {
            Ok((pieces, obs)) => proc_fold(s.items@, *subject, r.1@, strings_of(ids@), strings_of(sources@), s.items@.len() as int) matches Ok(
                pv,
            ) && pv.obs == obs@ && pv.items.len() == pieces@.len() && pieces@.len() == s.items@.len() && (forall|j: int|
                0 <= j < pieces@.len() ==> piece_matches(#[trigger] pieces@[j], pv.items[j], s.items@[j]))
                && (forall|j: int| 0 <= j < pieces@.len() ==> pv.items[j].id == ids@[j]@),
            Err(e) => proc_fold(s.items@, *subject, r.1@, strings_of(ids@), strings_of(sources@), s.items@.len() as int)
                == Err::<ProcV, Seq<char>>(e@),
        },
{
    let ghost iv = strings_of(ids@);
    let ghost sv = strings_of(sources@);
    let ghost g0 = given@;
    let ghost all = snapshot_refs(s.items@, s.items@.len() as int);
    let ghost x0 = resolver.exchanges();
    let ghost sj = subject@;
    let ghost mut rs: Seq<Result<ResolvedEvidence, String>> = Seq::empty();
    assert(exchanges_of(all, sj, rs) =~= Seq::<Exchange>::empty());
    assert(x0 + exchanges_of(all, sj, rs) =~= x0);
    proof {
        lemma_snapshot_refs_len(s.items@, s.items@.len() as int);
    }
    let mut pieces: Vec<Piece> = Vec::new();
    let mut obs: Vec<EvidenceObservation> = Vec::new();
    let mut seen: Vec<crate::identity::EvidenceObservationId> = Vec::new();
    let mut n: usize = 0;
    while n < s.items.len()
        invariant
            n <= s.items@.len(),
            rs.len() == refs_before(s.items@, n as int),
            feed ==> g0.len() >= refs_before(s.items@, s.items@.len() as int),
            feed ==> rs == g0.take(rs.len() as int) && given@ == g0.skip(rs.len() as int),
            feed ==> resolver.exchanges() == x0,
            !feed ==> resolver.exchanges() == x0 + exchanges_of(all, sj, rs),
            all.len() == refs_before(s.items@, s.items@.len() as int),
            proc_fold(s.items@, *subject, rs, iv, sv, n as int) matches Ok(pv) && pv.obs == obs@ && pv.seen == Seq::new(
                seen@.len(),
                |i: int| seen@[i]@,
            ) && pv.items.len() == n && pieces@.len() == n && (forall|j: int|
                0 <= j < n ==> piece_matches(#[trigger] pieces@[j], pv.items[j], s.items@[j])) && (forall|j: int|
                0 <= j < n ==> pv.items[j].id == ids@[j]@),
        decreases s.items.len() - n,
    {
        let item = &s.items[n];
        let ghost pv0 = proc_fold(s.items@, *subject, rs, iv, sv, n as int)->Ok_0;
        let ghost at = rs.len() as int;
        let ghost seen0 = pv0.seen;
        let ghost obs0 = obs@;
        let mut reqs: Vec<EvidenceRequirement> = Vec::new();
        let mut k: usize = 0;
        proof {
            lemma_proc_fold_prefix(s.items@, *subject, rs, rs, iv, sv, n as int);
            lemma_refs_before_le(s.items@, n + 1, s.items@.len() as int);
        }
        while k < item.evidence.len()
            invariant
                k <= item.evidence@.len(),
                rs.len() == at + k,
                at + item.evidence@.len() == refs_before(s.items@, n + 1),
                feed ==> g0.len() >= refs_before(s.items@, n + 1),
                feed ==> rs == g0.take(rs.len() as int) && given@ == g0.skip(rs.len() as int),
                feed ==> resolver.exchanges() == x0,
                !feed ==> resolver.exchanges() == x0 + exchanges_of(all, sj, rs),
                at == refs_before(s.items@, n as int),
                proc_fold(s.items@, *subject, rs, iv, sv, n as int) == Ok::<ProcV, Seq<char>>(pv0),
                pv0.cursor == at,
                refs_fold(item.evidence@, *subject, rs, at, seen0, k as int) matches Ok(rv) && req_views(reqs@) == rv.reqs
                    && obs@ == obs0 + rv.obs && Seq::new(seen@.len(), |i: int| seen@[i]@) == rv.seen,
                forall|i: int| 0 <= i < reqs@.len() ==> req_fixed(#[trigger] reqs@[i]),
            decreases item.evidence.len() - k,
        {
            let reference = &item.evidence[k];
            let res = if feed {
                given.remove(0)
            } else {
                resolver.resolve(reference, subject)
            };
            let ghost before = rs;
            proof {
                rs = rs.push(res);
                if feed {
                    assert(rs =~= g0.take(rs.len() as int));
                    assert(given@ =~= g0.skip(rs.len() as int));
                } else {
                    lemma_snapshot_ref_at(s.items@, n as int, k as int, s.items@.len() as int);
                    assert(exchanges_of(all, sj, rs) =~= exchanges_of(all, sj, before).push((all[before.len() as int], sj, res)));
                    assert(x0 + exchanges_of(all, sj, rs) =~= (x0 + exchanges_of(all, sj, before)).push(
                        (all[before.len() as int], sj, res),
                    ));
                }
                lemma_refs_fold_prefix(item.evidence@, *subject, before, rs, at, seen0, k as int);
                lemma_proc_fold_prefix(s.items@, *subject, before, rs, iv, sv, n as int);
            }
            let re = match res {
                Ok(re) => re,
                Err(e) => {
                    proof {
                        assert(refs_fold(item.evidence@, *subject, rs, at, seen0, k + 1) is Err);
                        lemma_refs_fold_cursor(item.evidence@, *subject, rs, at, seen0, k + 1);
                        assert(proc_fold(s.items@, *subject, rs, iv, sv, n + 1) == Err::<ProcV, Seq<char>>(e@));
                        lemma_proc_fold_err(s.items@, *subject, rs, iv, sv, n + 1, s.items@.len() as int);
                        if feed {
                            lemma_proc_fold_feed_err(s.items@, *subject, rs, g0, iv, sv, n as int, k + 1);
                        }
                    }
                    return (Err(e), Ghost(rs));
                },
            };
            let kind = map_kind(reference.kind);
            let o = &re.observation;
            if !o.subject().same(subject) || o.kind() != kind || seen_has(&seen, o.id()) {
                proof {
                    assert(refs_fold(item.evidence@, *subject, rs, at, seen0, k + 1) is Err);
                    lemma_refs_fold_cursor(item.evidence@, *subject, rs, at, seen0, k + 1);
                    lemma_proc_fold_err(s.items@, *subject, rs, iv, sv, n + 1, s.items@.len() as int);
                    if feed {
                        lemma_proc_fold_feed_err(s.items@, *subject, rs, g0, iv, sv, n as int, k + 1);
                    }
                }
                return (Err(owned("resolver returned stale, mismatched, or reused evidence")), Ghost(rs));
            }
            if requires_verification_binding(kind) {
                let bound = match (&re.expected_verification, o.verification_digest()) {
                    (Some(e), Some(d)) => e.same(d),
                    _ => false,
                };
                if !bound {
                    proof {
                        assert(refs_fold(item.evidence@, *subject, rs, at, seen0, k + 1) is Err);
                        lemma_refs_fold_cursor(item.evidence@, *subject, rs, at, seen0, k + 1);
                        lemma_proc_fold_err(s.items@, *subject, rs, iv, sv, n + 1, s.items@.len() as int);
                        if feed {
                            lemma_proc_fold_feed_err(s.items@, *subject, rs, g0, iv, sv, n as int, k + 1);
                        }
                    }
                    return (
                        Err(owned("execution evidence lacks the authoritative matching verification binding")),
                        Ghost(rs),
                    );
                }
            }
            let ResolvedEvidence { observation, expected_verification } = re;
            let ghost rv0 = refs_fold(item.evidence@, *subject, before, at, seen0, k as int)->Ok_0;
            let ghost sv0 = Seq::new(seen@.len(), |i: int| seen@[i]@);
            let ghost rq0 = req_views(reqs@);
            seen.push(observation.id().duplicate());
            reqs.push(
                EvidenceRequirement {
                    description: requirement_description(reference),
                    kind,
                    provider: None,
                    subject_policy: SubjectPolicy::Exact,
                    cardinality: EvidenceCardinality::Any,
                    min_count: 1,
                    allow_human_judgment: false,
                    expected_verification_digest: expected_verification,
                },
            );
            obs.push(observation);
            proof {
                assert(Seq::new(seen@.len(), |i: int| seen@[i]@) =~= sv0.push(observation@.id));
                assert(req_views(reqs@) =~= rq0.push(req_view(reqs@.last())));
            }
            k = k + 1;
        }
        assert(item.evidence@.len() == k);
        let ghost rv = refs_fold(item.evidence@, *subject, rs, at, seen0, k as int)->Ok_0;
        let parent = match &item.parent_item_id {
            None => None,
            Some(p) => match lookup_source(sources, ids, p.as_str()) {
                Some(j) => Some(item_id_from(&ids[j])),
                None => {
                    let mut m = owned("missing parent item ");
                    crate::text::push_str(&mut m, p.as_str());
                    proof {
                        assert(proc_fold(s.items@, *subject, rs, iv, sv, n + 1) == Err::<ProcV, Seq<char>>(m@));
                        lemma_proc_fold_err(s.items@, *subject, rs, iv, sv, n + 1, s.items@.len() as int);
                        if feed {
                            lemma_proc_fold_feed_err(s.items@, *subject, rs, g0, iv, sv, n as int, item.evidence@.len() as int);
                        }
                    }
                    return (Err(m), Ghost(rs));
                },
            },
        };
        let mut deps: Vec<PlanItemId> = Vec::new();
        let mut d: usize = 0;
        assert(id_views(deps@) =~= Seq::<Seq<char>>::empty());
        while d < item.dependencies.len()
            invariant
                d <= item.dependencies@.len(),
                deps_fold(sv, iv, item.dependencies@, d as int) == Ok::<Seq<Seq<char>>, Seq<char>>(id_views(deps@)),
            decreases item.dependencies.len() - d,
        {
            match lookup_source(sources, ids, item.dependencies[d].as_str()) {
                Some(j) => {
                    let ghost before = id_views(deps@);
                    deps.push(item_id_from(&ids[j]));
                    assert(id_views(deps@) =~= before.push(ids@[j as int]@));
                },
                None => {
                    let mut m = owned("missing dependency item ");
                    crate::text::push_str(&mut m, item.dependencies[d].as_str());
                    proof {
                        assert(deps_fold(sv, iv, item.dependencies@, d + 1) == Err::<Seq<Seq<char>>, Seq<char>>(m@));
                        lemma_deps_fold_err(sv, iv, item.dependencies@, d + 1, item.dependencies@.len() as int);
                        assert(proc_fold(s.items@, *subject, rs, iv, sv, n + 1) == Err::<ProcV, Seq<char>>(m@));
                        lemma_proc_fold_err(s.items@, *subject, rs, iv, sv, n + 1, s.items@.len() as int);
                        if feed {
                            lemma_proc_fold_feed_err(s.items@, *subject, rs, g0, iv, sv, n as int, item.evidence@.len() as int);
                        }
                    }
                    return (Err(m), Ghost(rs));
                },
            }
            d = d + 1;
        }
        let piece = Piece { parent, deps, reqs };
        pieces.push(piece);
        proof {
            let pv1 = proc_fold(s.items@, *subject, rs, iv, sv, n + 1)->Ok_0;
            assert(proc_fold(s.items@, *subject, rs, iv, sv, n + 1) is Ok);
            assert(pv1.obs =~= obs@);
            assert(piece_matches(pieces@[n as int], pv1.items[n as int], s.items@[n as int]));
        }
        n = n + 1;
    }
    proof {
        if feed {
            lemma_proc_fold_prefix(s.items@, *subject, rs, g0, iv, sv, s.items@.len() as int);
        }
    }
    (Ok((pieces, obs)), Ghost(rs))
}

} // verus!

verus! {

/// A mapping of a snapshot: a Draft plan of the snapshot's intent at
/// revision zero, the kept observations, and the manifest.
#[derive(Debug, Clone)]
pub struct MappedPlan {
    /// Snapshot intent at revision zero.
    pub plan: Plan,
    pub observations: Vec<EvidenceObservation>,
    pub manifest: MappingManifest,
    pub source_status: CodeggPlanStatus,
    pub source_current_item_id: Option<String>,
}

impl MappedPlan {
    /// The CodeGG status of the mapped snapshot.
    pub fn source_status(&self) -> (r: CodeggPlanStatus)
        ensures
            r == self.source_status,
    {
        self.source_status
    }
}

/// Sort keys of mapped items: position, then identifier.
pub open spec fn item_keys(items: Seq<MappedItemV>) -> Seq<crate::sort::KeyV> {
    Seq::new(
        items.len(),
        |i: int| crate::sort::KeyV { rank: items[i].position, first: items[i].id, second: Seq::empty() },
    )
}

/// The mapped items in (position, identifier) order.
pub open spec fn sorted_items(items: Seq<MappedItemV>) -> Seq<MappedItemV> {
    let perm = crate::sort::stable_perm(item_keys(items));
    Seq::new(perm.len(), |k: int| items[perm[k] as int])
}

/// The identity map before sorting: the plan, then each item.
pub open spec fn id_entries(s: CodeggPlanSnapshot, ids: Seq<Seq<char>>, sources: Seq<Seq<char>>) -> Seq<(Seq<char>, Seq<char>)> {
    seq![(s.plan_id@, plan_id_text(s.plan_id@))] + Seq::new(sources.len(), |i: int| (sources[i], ids[i]))
}

/// Sort keys of identity entries: the source identifier.
pub open spec fn entry_keys(e: Seq<(Seq<char>, Seq<char>)>) -> Seq<crate::sort::KeyV> {
    Seq::new(e.len(), |i: int| crate::sort::KeyV { rank: 0, first: e[i].0, second: Seq::empty() })
}

/// The identity map in source-identifier order.
pub open spec fn sorted_entries(e: Seq<(Seq<char>, Seq<char>)>) -> Seq<(Seq<char>, Seq<char>)> {
    let perm = crate::sort::stable_perm(entry_keys(e));
    Seq::new(perm.len(), |k: int| e[perm[k] as int])
}

/// The evidence references of the first `n` items, with their item.
pub open spec fn refs_of(items: Seq<CodeggItemSnapshot>, n: int) -> Seq<(Seq<char>, CodeggEvidenceKind, Seq<char>)>
    decreases n,
{
    if n <= 0 {
        Seq::empty()
    } else {
        let it = items[n - 1];
        refs_of(items, n - 1) + Seq::new(
            it.evidence@.len(),
            |k: int| (it.item_id@, it.evidence@[k].kind, it.evidence@[k].ref_id@),
        )
    }
}

/// The owner references of the first `n` items that have one.
pub open spec fn owners_of(items: Seq<CodeggItemSnapshot>, n: int) -> Seq<(Seq<char>, Option<Seq<char>>, Option<Seq<char>>)>
    decreases n,
{
    if n <= 0 {
        Seq::empty()
    } else {
        let it = items[n - 1];
        if it.owner_run_id is Some || it.owner_job_id is Some {
            owners_of(items, n - 1).push((it.item_id@, opt_text(it.owner_run_id), opt_text(it.owner_job_id)))
        } else {
            owners_of(items, n - 1)
        }
    }
}

/// The acceptance entries of the first `n` items, with their item.
pub open spec fn accs_of(items: Seq<CodeggItemSnapshot>, n: int) -> Seq<(Seq<char>, Seq<char>, AcceptanceDisposition)>
    decreases n,
{
    if n <= 0 {
        Seq::empty()
    } else {
        let it = items[n - 1];
        accs_of(items, n - 1) + Seq::new(
            it.acceptance@.len(),
            |k: int| (it.item_id@, it.acceptance@[k].description@, it.acceptance@[k].disposition),
        )
    }
}

/// Some item matches.
pub open spec fn any_item(items: Seq<CodeggItemSnapshot>, p: spec_fn(CodeggItemSnapshot) -> bool) -> bool {
    exists|i: int| 0 <= i < items.len() && p(#[trigger] items[i])
}

/// The losses of a mapping, in declaration order: a completed plan needs a
/// guarded close; several acceptance entries share an item's evidence;
/// owners, the source revision, serialized dispositions, acceptance notes
/// and evidence details are not carried as authority.
pub open spec fn losses_of(s: CodeggPlanSnapshot) -> Seq<Loss> {
    let items = s.items@;
    (if s.status == CodeggPlanStatus::Completed {
        seq![Loss::CompletedPlanNeedsGuardedClose]
    } else {
        Seq::empty()
    }) + (if any_item(items, |it: CodeggItemSnapshot| it.acceptance@.len() > 1 && it.evidence@.len() > 0) {
        seq![Loss::AcceptanceEvidenceAssignmentIsItemScoped]
    } else {
        Seq::empty()
    }) + (if any_item(items, |it: CodeggItemSnapshot| it.owner_run_id is Some || it.owner_job_id is Some) {
        seq![Loss::OwnerReferencesAreProvenanceOnly]
    } else {
        Seq::empty()
    }) + seq![Loss::SourceRevisionIsProvenanceOnly] + (if any_item(
        items,
        |it: CodeggItemSnapshot|
            exists|k: int|
                0 <= k < it.acceptance@.len() && (#[trigger] it.acceptance@[k]).disposition
                    == AcceptanceDisposition::Satisfied,
    ) {
        seq![Loss::SerializedDispositionIsNotEvidence]
    } else {
        Seq::empty()
    }) + (if any_item(
        items,
        |it: CodeggItemSnapshot|
            exists|k: int|
                0 <= k < it.acceptance@.len() && ((#[trigger] it.acceptance@[k]).note matches Some(n) && n@.len() > 0),
    ) {
        seq![Loss::AcceptanceNoteOmitted]
    } else {
        Seq::empty()
    }) + if any_item(
        items,
        |it: CodeggItemSnapshot|
            exists|k: int| 0 <= k < it.evidence@.len() && ((#[trigger] it.evidence@[k]).detail matches Some(d) && d@.len() > 0),
    ) {
        seq![Loss::EvidenceDetailOmitted]
    } else {
        Seq::empty()
    }
}

/// The provenance of a mapped plan: source plan and revision, and the
/// current item and phase when given.
pub open spec fn compat_provenance(s: CodeggPlanSnapshot) -> Map<Seq<char>, Seq<char>> {
    let m = Map::empty().insert("codegg_source_plan"@, s.plan_id@).insert(
        "codegg_source_revision"@,
        crate::json::decimal(s.revision as nat),
    );
    let m = match s.current_item_id {
        Some(c) => m.insert("codegg_current_item"@, c@),
        None => m,
    };
    match s.current_phase {
        Some(p) => m.insert("codegg_current_phase"@, p@),
        None => m,
    }
}

/// A mapped criterion.
pub open spec fn crit_matches(c: AcceptanceCriterion, v: MappedCritV) -> bool {
    &&& c.id@ == v.id
    &&& c.statement@ == v.statement
    &&& c.human_judgment_allowed == v.human
    &&& req_views(c.requirements@) == v.reqs
    &&& forall|i: int| 0 <= i < c.requirements@.len() ==> req_fixed(#[trigger] c.requirements@[i])
}

/// A mapped plan item.
pub open spec fn plan_item_matches(p: PlanItem, v: MappedItemV) -> bool {
    &&& p.id@ == v.id
    &&& p.position == v.position
    &&& opt_id(p.parent) == v.parent
    &&& id_views(p.dependencies@) == v.deps
    &&& p.status == v.status
    &&& p.description@ == v.description
    &&& p.criteria@.len() == v.criteria.len()
    &&& forall|k: int| 0 <= k < v.criteria.len() ==> crit_matches(#[trigger] p.criteria@[k], v.criteria[k])
    &&& opt_text(p.blocker) == v.blocker
    &&& opt_text(p.next_action) == v.next_action
}

/// Plan items that are the mapped items.
pub open spec fn plan_items_match(items: Seq<PlanItem>, vs: Seq<MappedItemV>) -> bool {
    items.len() == vs.len() && forall|j: int| 0 <= j < vs.len() ==> plan_item_matches(#[trigger] items[j], vs[j])
}

/// The mapped plan of a snapshot: a Draft at revision zero with the
/// current schema, the mapped identifier, the objective, the exact subject,
/// the provenance, and the mapped items in (position, identifier) order.
pub open spec fn mapped_plan_is(p: Plan, s: CodeggPlanSnapshot, subject: SubjectRevision, pv: ProcV) -> bool {
    &&& p.schema_version == crate::SCHEMA_VERSION
    &&& p.id@ == plan_id_text(s.plan_id@)
    &&& p.revision == 0
    &&& p.objective@ == s.objective@
    &&& p.status == PlanStatus::Draft
    &&& p.subject == Some(subject)
    &&& crate::text_map::entries_map(p.provenance@) == compat_provenance(s)
    &&& plan_items_match(p.items@, sorted_items(pv.items))
}

/// The manifest of a mapping.
pub open spec fn manifest_is(m: MappingManifest, s: CodeggPlanSnapshot, ids: Seq<Seq<char>>, sources: Seq<Seq<char>>) -> bool {
    &&& m.schema_version == 1
    &&& m.source_plan_id@ == s.plan_id@
    &&& m.source_revision == s.revision
    &&& Seq::new(m.id_map@.len(), |i: int| (m.id_map@[i].source_id@, m.id_map@[i].eggplan_id@)) == sorted_entries(
        id_entries(s, ids, sources),
    )
    &&& Seq::new(
        m.source_evidence_refs@.len(),
        |i: int|
            (m.source_evidence_refs@[i].item_id@, m.source_evidence_refs@[i].kind, m.source_evidence_refs@[i].ref_id@),
    ) == refs_of(s.items@, s.items@.len() as int)
    &&& Seq::new(
        m.owner_provenance@.len(),
        |i: int|
            (m.owner_provenance@[i].item_id@, opt_text(m.owner_provenance@[i].owner_run_id), opt_text(
                m.owner_provenance@[i].owner_job_id,
            )),
    ) == owners_of(s.items@, s.items@.len() as int)
    &&& Seq::new(
        m.source_acceptances@.len(),
        |i: int|
            (m.source_acceptances@[i].item_id@, m.source_acceptances@[i].description@, m.source_acceptances@[i].disposition),
    ) == accs_of(s.items@, s.items@.len() as int)
    &&& m.losses@ == losses_of(s)
    &&& m.content_digest@ == manifest_digest(m)
}

/// A mapping of a snapshot whose checks and resolutions passed.
pub open spec fn mapped_is(
    m: MappedPlan,
    s: CodeggPlanSnapshot,
    subject: SubjectRevision,
    ids: Seq<Seq<char>>,
    sources: Seq<Seq<char>>,
    pv: ProcV,
) -> bool {
    &&& mapped_plan_is(m.plan, s, subject, pv)
    &&& crate::assessment::obs_views(m.observations@) == crate::assessment::permuted(
        crate::assessment::obs_views(pv.obs),
        crate::sort::stable_perm(crate::assessment::obs_keys(crate::assessment::obs_views(pv.obs))),
    )
    &&& manifest_is(m.manifest, s, ids, sources)
    &&& m.source_status == s.status
    &&& opt_text(m.source_current_item_id) == opt_text(s.current_item_id)
}

/// The outcome of mapping a snapshot with the resolutions `rs`, one per
/// evidence reference in order: the checks, then the resolutions and
/// lookups, then plan validation.
pub open spec fn normalize_outcome(
    s: CodeggPlanSnapshot,
    subject: SubjectRevision,
    rs: Seq<Result<ResolvedEvidence, String>>,
    r: Result<MappedPlan, String>,
) -> bool {
    match snapshot_check(s, subject) {
        Err(e) => r matches Err(x) && x@ == e,
        Ok((ids, sources)) => match proc_fold(s.items@, subject, rs, ids, sources, s.items@.len() as int) {
            Err(e) => r matches Err(x) && x@ == e,
            Ok(pv) => match r {
                Ok(m) => mapped_is(m, s, subject, ids, sources, pv) && crate::model::plan_error(m.plan) is None,
                Err(x) => exists|e: crate::model::ValidationError|
                    x@ == crate::model::validation_message(e) && ((exists|items: Seq<PlanItem>|
                        plan_items_match(items, sorted_items(pv.items)) && crate::model::plan_parts_error(
                            crate::SCHEMA_VERSION,
                            s.objective@,
                            items,
                            Seq::empty(),
                            None,
                        ) == Some(e)) || (exists|p: Plan|
                        mapped_plan_is(p, s, subject, pv) && #[trigger] crate::model::plan_error(p) == Some(e))),
            },
        },
    }
}

} // verus!

verus! {

proof fn lemma_ids_fold_ok(items: Seq<CodeggItemSnapshot>, n: int)
    requires
        0 <= n <= items.len(),
        ids_fold(items, n) is Ok,
    ensures
        forall|j: int| 0 <= j < n ==> item_fault(#[trigger] items[j]) is None,
        ids_fold(items, n)->Ok_0.0.len() == n,
        ids_fold(items, n)->Ok_0.1.len() == n,
    decreases n,
{
    if n > 0 {
        lemma_ids_fold_ok(items, n - 1);
    }
}

fn criterion_id_of(i: usize) -> (r: crate::identity::CriterionId)
    requires
        i < 65536,
    ensures
        r@ == "epc_"@ + hex4(i as nat),
{
    let mut t = owned("epc_");
    let d0 = hex_char(((i / 4096) % 16) as u32);
    let d1 = hex_char(((i / 256) % 16) as u32);
    let d2 = hex_char(((i / 16) % 16) as u32);
    let d3 = hex_char((i % 16) as u32);
    t.push(d0);
    t.push(d1);
    t.push(d2);
    t.push(d3);
    proof {
        reveal_strlit("epc_");
        assert(t@ =~= "epc_"@ + hex4(i as nat));
        assert forall|k: int| 4 <= k < t@.len() implies crate::identity::is_id_char(#[trigger] t@[k]) by {}
        assert(t@.take(4) =~= "epc_"@);
    }
    match crate::identity::CriterionId::new(t.as_str()) {
        Ok(id) => id,
        Err(_) => {
            proof {
                assert(false);
            }
            crate::identity::CriterionId::generate()
        },
    }
}

fn hex_char(d: u32) -> (c: char)
    requires
        d < 16,
    ensures
        c == crate::json::hex_digit(d as nat),
        ('0' <= c && c <= '9') || ('a' <= c && c <= 'f'),
{
    if d < 10 {
        crate::text::char_from_ascii_code(48 + d)
    } else {
        crate::text::char_from_ascii_code(87 + d)
    }
}

fn copy_reqs(v: &Vec<EvidenceRequirement>) -> (r: Vec<EvidenceRequirement>)
    ensures
        r@ == v@,
{
    let mut out: Vec<EvidenceRequirement> = Vec::new();
    let mut i: usize = 0;
    while i < v.len()
        invariant
            i <= v@.len(),
            out@ == v@.take(i as int),
        decreases v.len() - i,
    {
        out.push(v[i].duplicate());
        i = i + 1;
        assert(out@ =~= v@.take(i as int));
    }
    assert(v@.take(v@.len() as int) =~= v@);
    out
}

fn copy_ids(v: &Vec<PlanItemId>) -> (r: Vec<PlanItemId>)
    ensures
        r@ == v@,
{
    let mut out: Vec<PlanItemId> = Vec::new();
    let mut i: usize = 0;
    while i < v.len()
        invariant
            i <= v@.len(),
            out@ == v@.take(i as int),
        decreases v.len() - i,
    {
        out.push(v[i].duplicate());
        i = i + 1;
        assert(out@ =~= v@.take(i as int));
    }
    assert(v@.take(v@.len() as int) =~= v@);
    out
}

fn copy_opt_id(v: &Option<PlanItemId>) -> (r: Option<PlanItemId>)
    ensures
        r == *v,
{
    match v {
        Some(x) => Some(x.duplicate()),
        None => None,
    }
}

fn mapped_criteria(acc: &Vec<CodeggAcceptance>, reqs: &Vec<EvidenceRequirement>) -> (r: Vec<AcceptanceCriterion>)
    requires
        acc@.len() <= MAX_ACCEPTANCES_PER_ITEM,
        forall|i: int| 0 <= i < reqs@.len() ==> req_fixed(#[trigger] reqs@[i]),
    ensures
        r@.len() == criteria_of(acc@, req_views(reqs@)).len(),
        forall|k: int| 0 <= k < r@.len() ==> crit_matches(#[trigger] r@[k], criteria_of(acc@, req_views(reqs@))[k]),
{
    let mut out: Vec<AcceptanceCriterion> = Vec::new();
    let mut i: usize = 0;
    while i < acc.len()
        invariant
            i <= acc@.len() <= MAX_ACCEPTANCES_PER_ITEM,
            forall|j: int| 0 <= j < reqs@.len() ==> req_fixed(#[trigger] reqs@[j]),
            out@.len() == i,
            forall|k: int| 0 <= k < i ==> crit_matches(#[trigger] out@[k], criteria_of(acc@, req_views(reqs@))[k]),
        decreases acc.len() - i,
    {
        let human = acc[i].disposition == AcceptanceDisposition::RequiresUserJudgment;
        let requirements = if human {
            Vec::new()
        } else {
            copy_reqs(reqs)
        };
        let c = AcceptanceCriterion {
            id: criterion_id_of(i),
            statement: acc[i].description.clone(),
            human_judgment_allowed: human,
            requirements,
        };
        proof {
            if human {
                assert(req_views(c.requirements@) =~= Seq::<ReqV>::empty());
            }
        }
        out.push(c);
        i = i + 1;
    }
    out
}

/// The mapped items in (position, identifier) order.
fn build_items(
    s: &CodeggPlanSnapshot,
    ids: &Vec<String>,
    pieces: &Vec<Piece>,
    Ghost(pv): Ghost<ProcV>,
) -> (r: Vec<PlanItem>)
    requires
        ids@.len() == s.items@.len(),
        pieces@.len() == s.items@.len(),
        pv.items.len() == s.items@.len(),
        forall|j: int| 0 <= j < ids@.len() ==> hex_id(#[trigger] ids@[j]@, "epi_"@),
        forall|j: int| 0 <= j < pieces@.len() ==> piece_matches(#[trigger] pieces@[j], pv.items[j], s.items@[j]),
        forall|j: int| 0 <= j < pieces@.len() ==> pv.items[j].id == ids@[j]@,
        forall|j: int| 0 <= j < s.items@.len() ==> item_fault(#[trigger] s.items@[j]) is None,
        forall|j: int|
            0 <= j < s.items@.len() ==> (#[trigger] pv.items[j]).position == s.items@[j].position as nat
                && pv.items[j].status == item_status_of(s.items@[j].status) && pv.items[j].description
                == s.items@[j].description@ && pv.items[j].blocker == opt_text(s.items@[j].blocker)
                && pv.items[j].next_action == opt_text(s.items@[j].next_action),
    ensures
        plan_items_match(r@, sorted_items(pv.items)),
{
    let mut keys: Vec<crate::sort::SortKey> = Vec::new();
    let mut j: usize = 0;
    while j < s.items.len()
        invariant
            j <= s.items@.len(),
            ids@.len() == s.items@.len(),
            pv.items.len() == s.items@.len(),
            forall|a: int| 0 <= a < s.items@.len() ==> item_fault(#[trigger] s.items@[a]) is None,
            forall|a: int| 0 <= a < pieces@.len() ==> pv.items[a].id == ids@[a]@,
            pieces@.len() == s.items@.len(),
            forall|a: int|
                0 <= a < s.items@.len() ==> (#[trigger] pv.items[a]).position == s.items@[a].position as nat,
            keys@.len() == j,
            forall|a: int| 0 <= a < j ==> (#[trigger] keys@[a])@ == item_keys(pv.items)[a],
        decreases s.items.len() - j,
    {
        assert(item_fault(s.items@[j as int]) is None);
        keys.push(crate::sort::SortKey { rank: s.items[j].position as u64, first: ids[j].clone(), second: String::new() });
        j = j + 1;
    }
    assert(crate::sort::key_views(keys@) =~= item_keys(pv.items));
    let perm = crate::sort::stable_order(&keys);
    proof {
        crate::sort::lemma_stable_perm(item_keys(pv.items), perm@);
    }
    let mut out: Vec<PlanItem> = Vec::new();
    let mut k: usize = 0;
    while k < perm.len()
        invariant
            k <= perm@.len(),
            perm@ == crate::sort::stable_perm(item_keys(pv.items)),
            crate::sort::stably_sorted(item_keys(pv.items), perm@),
            ids@.len() == s.items@.len(),
            pieces@.len() == s.items@.len(),
            pv.items.len() == s.items@.len(),
            forall|j: int| 0 <= j < ids@.len() ==> hex_id(#[trigger] ids@[j]@, "epi_"@),
            forall|j: int| 0 <= j < pieces@.len() ==> piece_matches(#[trigger] pieces@[j], pv.items[j], s.items@[j]),
            forall|j: int| 0 <= j < pieces@.len() ==> pv.items[j].id == ids@[j]@,
            forall|j: int| 0 <= j < s.items@.len() ==> item_fault(#[trigger] s.items@[j]) is None,
            forall|j: int|
                0 <= j < s.items@.len() ==> (#[trigger] pv.items[j]).position == s.items@[j].position as nat
                    && pv.items[j].status == item_status_of(s.items@[j].status) && pv.items[j].description
                    == s.items@[j].description@ && pv.items[j].blocker == opt_text(s.items@[j].blocker)
                    && pv.items[j].next_action == opt_text(s.items@[j].next_action),
            out@.len() == k,
            forall|a: int| 0 <= a < k ==> plan_item_matches(#[trigger] out@[a], sorted_items(pv.items)[a]),
        decreases perm.len() - k,
    {
        let j = perm[k];
        assert(j < s.items@.len());
        let it = &s.items[j];
        let pc = &pieces[j];
        assert(item_fault(s.items@[j as int]) is None);
        assert(piece_matches(pieces@[j as int], pv.items[j as int], s.items@[j as int]));
        let item = PlanItem {
            id: item_id_from(&ids[j]),
            position: it.position as u32,
            parent: copy_opt_id(&pc.parent),
            dependencies: copy_ids(&pc.deps),
            status: map_item_status(it.status),
            description: it.description.clone(),
            criteria: mapped_criteria(&it.acceptance, &pc.reqs),
            blocker: crate::model::copy_opt_string(&it.blocker),
            next_action: crate::model::copy_opt_string(&it.next_action),
        };
        assert(sorted_items(pv.items)[k as int] == pv.items[j as int]);
        assert(plan_item_matches(item, sorted_items(pv.items)[k as int]));
        out.push(item);
        k = k + 1;
    }
    out
}

} // verus!

verus! {

fn build_provenance(s: &CodeggPlanSnapshot) -> (r: crate::text_map::TextMap)
    requires
        s.revision >= 0,
    ensures
        crate::text_map::entries_map(r@) == compat_provenance(*s),
{
    let mut m = crate::text_map::TextMap::new();
    assert(crate::text_map::entries_map(m@) =~= Map::<Seq<char>, Seq<char>>::empty());
    m.insert(owned("codegg_source_plan"), s.plan_id.clone());
    let mut rev = String::new();
    crate::json::write_decimal(s.revision as u64, &mut rev);
    m.insert(owned("codegg_source_revision"), rev);
    match &s.current_item_id {
        Some(c) => {
            m.insert(owned("codegg_current_item"), c.clone());
        },
        None => {},
    }
    match &s.current_phase {
        Some(p) => {
            m.insert(owned("codegg_current_phase"), p.clone());
        },
        None => {},
    }
    assert(crate::text_map::entries_map(m@) =~= compat_provenance(*s));
    m
}

proof fn lemma_refs_of_step(items: Seq<CodeggItemSnapshot>, n: int)
    requires
        0 < n <= items.len(),
    ensures
        refs_of(items, n) == refs_of(items, n - 1) + Seq::new(
            items[n - 1].evidence@.len(),
            |k: int| (items[n - 1].item_id@, items[n - 1].evidence@[k].kind, items[n - 1].evidence@[k].ref_id@),
        ),
{
}

/// The manifest of a mapping (see `manifest_is`).
#[verifier::rlimit(40)]
fn build_manifest(s: &CodeggPlanSnapshot, ids: &Vec<String>, sources: &Vec<String>, plan_id: &String) -> (r: MappingManifest)
    requires
        ids@.len() == sources@.len(),
        plan_id@ == plan_id_text(s.plan_id@),
    ensures
        manifest_is(r, *s, strings_of(ids@), strings_of(sources@)),
{
    let ghost entries = id_entries(*s, strings_of(ids@), strings_of(sources@));
    let mut pairs: Vec<(String, String)> = Vec::new();
    let mut keys: Vec<crate::sort::SortKey> = Vec::new();
    pairs.push((s.plan_id.clone(), plan_id.clone()));
    keys.push(crate::sort::SortKey { rank: 0, first: s.plan_id.clone(), second: String::new() });
    let mut j: usize = 0;
    while j < sources.len()
        invariant
            j <= sources@.len(),
            ids@.len() == sources@.len(),
            entries == id_entries(*s, strings_of(ids@), strings_of(sources@)),
            pairs@.len() == j + 1,
            keys@.len() == j + 1,
            forall|a: int| 0 <= a <= j ==> (#[trigger] pairs@[a]).0@ == entries[a].0 && pairs@[a].1@ == entries[a].1,
            forall|a: int| 0 <= a <= j ==> (#[trigger] keys@[a])@ == entry_keys(entries)[a],
        decreases sources.len() - j,
    {
        pairs.push((sources[j].clone(), ids[j].clone()));
        keys.push(crate::sort::SortKey { rank: 0, first: sources[j].clone(), second: String::new() });
        j = j + 1;
    }
    assert(crate::sort::key_views(keys@) =~= entry_keys(entries));
    let perm = crate::sort::stable_order(&keys);
    proof {
        crate::sort::lemma_stable_perm(entry_keys(entries), perm@);
    }
    let mut id_map: Vec<IdentityMapEntry> = Vec::new();
    let mut k: usize = 0;
    while k < perm.len()
        invariant
            k <= perm@.len(),
            perm@ == crate::sort::stable_perm(entry_keys(entries)),
            crate::sort::stably_sorted(entry_keys(entries), perm@),
            pairs@.len() == entries.len(),
            forall|a: int| 0 <= a < entries.len() ==> (#[trigger] pairs@[a]).0@ == entries[a].0 && pairs@[a].1@ == entries[a].1,
            id_map@.len() == k,
            forall|a: int|
                0 <= a < k ==> ((#[trigger] id_map@[a]).source_id@, id_map@[a].eggplan_id@) == sorted_entries(entries)[a],
        decreases perm.len() - k,
    {
        let p = &pairs[perm[k]];
        id_map.push(IdentityMapEntry { source_id: p.0.clone(), eggplan_id: p.1.clone() });
        k = k + 1;
    }
    let mut refs: Vec<SourceEvidenceRef> = Vec::new();
    let mut owners: Vec<OwnerProvenance> = Vec::new();
    let mut accs: Vec<SourceAcceptance> = Vec::new();
    let mut scoped = false;
    let mut owned_any = false;
    let mut satisfied = false;
    let mut noted = false;
    let mut detailed = false;
    let ghost items = s.items@;
    let mut n: usize = 0;
    while n < s.items.len()
        invariant
            n <= items.len(),
            items == s.items@,
            Seq::new(refs@.len(), |i: int| (refs@[i].item_id@, refs@[i].kind, refs@[i].ref_id@)) == refs_of(items, n as int),
            Seq::new(
                owners@.len(),
                |i: int| (owners@[i].item_id@, opt_text(owners@[i].owner_run_id), opt_text(owners@[i].owner_job_id)),
            ) == owners_of(items, n as int),
            Seq::new(accs@.len(), |i: int| (accs@[i].item_id@, accs@[i].description@, accs@[i].disposition)) == accs_of(
                items,
                n as int,
            ),
            scoped == any_item(items.take(n as int), |it: CodeggItemSnapshot| it.acceptance@.len() > 1 && it.evidence@.len() > 0),
            owned_any == any_item(items.take(n as int), |it: CodeggItemSnapshot| it.owner_run_id is Some || it.owner_job_id is Some),
            satisfied == any_item(
                items.take(n as int),
                |it: CodeggItemSnapshot|
                    exists|k: int|
                        0 <= k < it.acceptance@.len() && (#[trigger] it.acceptance@[k]).disposition
                            == AcceptanceDisposition::Satisfied,
            ),
            noted == any_item(
                items.take(n as int),
                |it: CodeggItemSnapshot|
                    exists|k: int|
                        0 <= k < it.acceptance@.len() && ((#[trigger] it.acceptance@[k]).note matches Some(n) && n@.len() > 0),
            ),
            detailed == any_item(
                items.take(n as int),
                |it: CodeggItemSnapshot|
                    exists|k: int| 0 <= k < it.evidence@.len() && ((#[trigger] it.evidence@[k]).detail matches Some(d) && d@.len() > 0),
            ),
        decreases s.items.len() - n,
    {
        let it = &s.items[n];
        let ghost r0 = Seq::new(refs@.len(), |i: int| (refs@[i].item_id@, refs@[i].kind, refs@[i].ref_id@));
        let mut e: usize = 0;
        let mut any_detail = false;
        while e < it.evidence.len()
            invariant
                n < items.len(),
                it == &items[n as int],
                e <= it.evidence@.len(),
                Seq::new(refs@.len(), |i: int| (refs@[i].item_id@, refs@[i].kind, refs@[i].ref_id@)) == r0 + Seq::new(
                    e as nat,
                    |k: int| (it.item_id@, it.evidence@[k].kind, it.evidence@[k].ref_id@),
                ),
                any_detail == exists|k: int| 0 <= k < e && ((#[trigger] it.evidence@[k]).detail matches Some(d) && d@.len() > 0),
            decreases it.evidence.len() - e,
        {
            let ghost before = Seq::new(refs@.len(), |i: int| (refs@[i].item_id@, refs@[i].kind, refs@[i].ref_id@));
            refs.push(SourceEvidenceRef { item_id: it.item_id.clone(), kind: it.evidence[e].kind, ref_id: it.evidence[e].ref_id.clone() });
            assert(Seq::new(refs@.len(), |i: int| (refs@[i].item_id@, refs@[i].kind, refs@[i].ref_id@)) =~= before.push(
                (it.item_id@, it.evidence@[e as int].kind, it.evidence@[e as int].ref_id@),
            ));
            match &it.evidence[e].detail {
                Some(d) => {
                    if char_count(d.as_str()) > 0 {
                        any_detail = true;
                    }
                },
                None => {},
            }
            e = e + 1;
            assert(Seq::new(refs@.len(), |i: int| (refs@[i].item_id@, refs@[i].kind, refs@[i].ref_id@)) =~= r0 + Seq::new(
                e as nat,
                |k: int| (it.item_id@, it.evidence@[k].kind, it.evidence@[k].ref_id@),
            ));
        }
        if it.owner_run_id.is_some() || it.owner_job_id.is_some() {
            let ghost before = Seq::new(
                owners@.len(),
                |i: int| (owners@[i].item_id@, opt_text(owners@[i].owner_run_id), opt_text(owners@[i].owner_job_id)),
            );
            owners.push(
                OwnerProvenance {
                    item_id: it.item_id.clone(),
                    owner_run_id: crate::model::copy_opt_string(&it.owner_run_id),
                    owner_job_id: crate::model::copy_opt_string(&it.owner_job_id),
                },
            );
            assert(Seq::new(
                owners@.len(),
                |i: int| (owners@[i].item_id@, opt_text(owners@[i].owner_run_id), opt_text(owners@[i].owner_job_id)),
            ) =~= before.push((it.item_id@, opt_text(it.owner_run_id), opt_text(it.owner_job_id))));
            owned_any = true;
        }
        let ghost a0 = Seq::new(accs@.len(), |i: int| (accs@[i].item_id@, accs@[i].description@, accs@[i].disposition));
        let mut a: usize = 0;
        let mut any_sat = false;
        let mut any_note = false;
        while a < it.acceptance.len()
            invariant
                n < items.len(),
                it == &items[n as int],
                a <= it.acceptance@.len(),
                Seq::new(accs@.len(), |i: int| (accs@[i].item_id@, accs@[i].description@, accs@[i].disposition)) == a0
                    + Seq::new(a as nat, |k: int| (it.item_id@, it.acceptance@[k].description@, it.acceptance@[k].disposition)),
                any_sat == exists|k: int|
                    0 <= k < a && (#[trigger] it.acceptance@[k]).disposition == AcceptanceDisposition::Satisfied,
                any_note == exists|k: int| 0 <= k < a && ((#[trigger] it.acceptance@[k]).note matches Some(n) && n@.len() > 0),
            decreases it.acceptance.len() - a,
        {
            let ghost before = Seq::new(accs@.len(), |i: int| (accs@[i].item_id@, accs@[i].description@, accs@[i].disposition));
            accs.push(
                SourceAcceptance {
                    item_id: it.item_id.clone(),
                    description: it.acceptance[a].description.clone(),
                    disposition: it.acceptance[a].disposition,
                },
            );
            assert(Seq::new(accs@.len(), |i: int| (accs@[i].item_id@, accs@[i].description@, accs@[i].disposition))
                =~= before.push((it.item_id@, it.acceptance@[a as int].description@, it.acceptance@[a as int].disposition)));
            if it.acceptance[a].disposition == AcceptanceDisposition::Satisfied {
                any_sat = true;
            }
            match &it.acceptance[a].note {
                Some(t) => {
                    if char_count(t.as_str()) > 0 {
                        any_note = true;
                    }
                },
                None => {},
            }
            a = a + 1;
            assert(Seq::new(accs@.len(), |i: int| (accs@[i].item_id@, accs@[i].description@, accs@[i].disposition)) =~= a0
                + Seq::new(a as nat, |k: int| (it.item_id@, it.acceptance@[k].description@, it.acceptance@[k].disposition)));
        }
        if it.acceptance.len() > 1 && it.evidence.len() > 0 {
            scoped = true;
        }
        satisfied = satisfied || any_sat;
        noted = noted || any_note;
        detailed = detailed || any_detail;
        proof {
            let t0 = items.take(n as int);
            let t1 = items.take(n + 1);
            assert(t1 =~= t0.push(items[n as int]));
            assert(t1[n as int] == items[n as int]);
            assert forall|i: int| 0 <= i < t0.len() implies t1[i] == #[trigger] t0[i] by {}
            assert(Seq::new(e as nat, |k: int| (it.item_id@, it.evidence@[k].kind, it.evidence@[k].ref_id@)) =~= Seq::new(
                it.evidence@.len(),
                |k: int| (it.item_id@, it.evidence@[k].kind, it.evidence@[k].ref_id@),
            ));
            assert(Seq::new(a as nat, |k: int| (it.item_id@, it.acceptance@[k].description@, it.acceptance@[k].disposition))
                =~= Seq::new(
                it.acceptance@.len(),
                |k: int| (it.item_id@, it.acceptance@[k].description@, it.acceptance@[k].disposition),
            ));
        }
        n = n + 1;
    }
    let mut losses: Vec<Loss> = Vec::new();
    if s.status == CodeggPlanStatus::Completed {
        losses.push(Loss::CompletedPlanNeedsGuardedClose);
    }
    if scoped {
        losses.push(Loss::AcceptanceEvidenceAssignmentIsItemScoped);
    }
    if owned_any {
        losses.push(Loss::OwnerReferencesAreProvenanceOnly);
    }
    losses.push(Loss::SourceRevisionIsProvenanceOnly);
    if satisfied {
        losses.push(Loss::SerializedDispositionIsNotEvidence);
    }
    if noted {
        losses.push(Loss::AcceptanceNoteOmitted);
    }
    if detailed {
        losses.push(Loss::EvidenceDetailOmitted);
    }
    assert(items.take(items.len() as int) =~= items);
    assert(losses@ =~= losses_of(*s));
    let mut manifest = MappingManifest {
        schema_version: 1,
        source_plan_id: s.plan_id.clone(),
        source_revision: s.revision,
        id_map,
        source_evidence_refs: refs,
        owner_provenance: owners,
        source_acceptances: accs,
        losses,
        content_digest: String::new(),
    };
    let content = manifest_content(&manifest);
    manifest.content_digest = crate::digest::digest_json(&content);
    assert(manifest_json(manifest) == content.value@);
    assert(Seq::new(manifest.id_map@.len(), |i: int| (manifest.id_map@[i].source_id@, manifest.id_map@[i].eggplan_id@))
        =~= sorted_entries(entries));
    manifest
}

} // verus!

verus! {

fn sorted_observations(obs: &Vec<EvidenceObservation>) -> (r: Vec<EvidenceObservation>)
    ensures
        crate::assessment::obs_views(r@) == crate::assessment::permuted(
            crate::assessment::obs_views(obs@),
            crate::sort::stable_perm(crate::assessment::obs_keys(crate::assessment::obs_views(obs@))),
        ),
{
    let (sorted, Ghost(perm)) = crate::assessment::sort_observations(obs.as_slice());
    proof {
        crate::sort::lemma_stable_perm(crate::assessment::obs_keys(crate::assessment::obs_views(obs@)), perm);
    }
    sorted
}

/// Maps a snapshot, taking each evidence resolution, in reference order,
/// from the resolver or (with `feed`) from the front of `given`; the result
/// is `normalize_outcome` of the resolutions taken, and with `feed` that of
/// all of `given`.
#[verifier::rlimit(40)]
fn normalize_with<R: EvidenceResolver>(
    snapshot: &CodeggPlanSnapshot,
    subject: SubjectRevision,
    resolver: &mut R,
    given: &mut Vec<Result<ResolvedEvidence, String>>,
    feed: bool,
) -> (r: (Result<MappedPlan, String>, Ghost<Seq<Result<ResolvedEvidence, String>>>))
    requires
        feed ==> old(given)@.len() >= refs_before(snapshot.items@, snapshot.items@.len() as int),
    ensures
        normalize_outcome(*snapshot, subject, r.1@, r.0),
        feed ==> normalize_outcome(*snapshot, subject, old(given)@, r.0),
        r.1@.len() <= snapshot_refs(snapshot.items@, snapshot.items@.len() as int).len(),
        r.0 is Ok ==> r.1@.len() == snapshot_refs(snapshot.items@, snapshot.items@.len() as int).len(),
        snapshot_check(*snapshot, subject) is Err ==> r.1@.len() == 0,
        feed ==> final(resolver).exchanges() == old(resolver).exchanges(),
        !feed ==> final(resolver).exchanges() == old(resolver).exchanges() + exchanges_of(
            snapshot_refs(snapshot.items@, snapshot.items@.len() as int),
            subject@,
            r.1@,
        ),
{
    proof {
        lemma_snapshot_refs_len(snapshot.items@, snapshot.items@.len() as int);
    }
    let (ids, sources) = match check_snapshot(snapshot, &subject) {
        Ok(x) => x,
        Err(e) => {
            assert(normalize_outcome(*snapshot, subject, Seq::empty(), Err(e)));
            assert(old(resolver).exchanges() + exchanges_of(
                snapshot_refs(snapshot.items@, snapshot.items@.len() as int),
                subject@,
                Seq::empty(),
            ) =~= old(resolver).exchanges());
            return (Err(e), Ghost(Seq::empty()));
        },
    };
    proof {
        let (iv, sv) = snapshot_check(*snapshot, subject)->Ok_0;
        lemma_ids_fold_ok(snapshot.items@, snapshot.items@.len() as int);
    }
    let ghost g0 = given@;
    let (res, Ghost(rs)) = resolve_items(snapshot, &subject, resolver, given, feed, &ids, &sources);
    let (pieces, obs) = match res {
        Ok(x) => x,
        Err(e) => {
            assert(normalize_outcome(*snapshot, subject, rs, Err(e)));
            return (Err(e), Ghost(rs));
        },
    };
    let ghost pv = proc_fold(snapshot.items@, subject, rs, strings_of(ids@), strings_of(sources@), snapshot.items@.len() as int)->Ok_0;
    proof {
        lemma_proc_items(snapshot.items@, subject, rs, strings_of(ids@), strings_of(sources@), snapshot.items@.len() as int);
    }
    let items = build_items(snapshot, &ids, &pieces, Ghost(pv));
    let ghost items_v = items@;
    let h = hash_id("plan", snapshot.plan_id.as_str());
    let mut pid = owned("ep_");
    crate::text::push_str(&mut pid, h.as_str());
    proof {
        reveal_strlit("ep_");
        assert(pid@.take(3) =~= "ep_"@);
        assert forall|i: int| 3 <= i < pid@.len() implies crate::identity::is_id_char(#[trigger] pid@[i]) by {
            assert(pid@[i] == h@[i - 3]);
        }
    }
    let plan_id = match PlanId::new(pid.as_str()) {
        Ok(id) => id,
        Err(_) => {
            proof {
                assert(false);
            }
            PlanId::generate()
        },
    };
    let mut plan = match Plan::new(plan_id, snapshot.objective.as_str(), items) {
        Ok(p) => p,
        Err(e) => {
            let m = e.message();
            proof {
                assert(plan_items_match(items_v, sorted_items(pv.items)));
                assert(crate::model::plan_parts_error(crate::SCHEMA_VERSION, snapshot.objective@, items_v, Seq::empty(), None)
                    == Some(e));
                assert(normalize_outcome(*snapshot, subject, rs, Err(m)));
            }
            return (Err(m), Ghost(rs));
        },
    };
    plan.subject = Some(subject.duplicate());
    plan.provenance = build_provenance(snapshot);
    match plan.validate() {
        Ok(()) => {},
        Err(e) => {
            let m = e.message();
            proof {
                assert(mapped_plan_is(plan, *snapshot, subject, pv));
                assert(crate::model::plan_error(plan) == Some(e));
                assert(normalize_outcome(*snapshot, subject, rs, Err(m)));
            }
            return (Err(m), Ghost(rs));
        },
    }
    let manifest = build_manifest(snapshot, &ids, &sources, &pid);
    let observations = sorted_observations(&obs);
    let mapped = MappedPlan {
        plan,
        observations,
        manifest,
        source_status: snapshot.status,
        source_current_item_id: crate::model::copy_opt_string(&snapshot.current_item_id),
    };
    assert(normalize_outcome(*snapshot, subject, rs, Ok(mapped)));
    (Ok(mapped), Ghost(rs))
}


/// A resolver that is never asked: resolutions are supplied up front.
struct NoResolver {
    asked: Ghost<Seq<Exchange>>,
}

impl EvidenceResolver for NoResolver {
    closed spec fn exchanges(&self) -> Seq<Exchange> {
        self.asked@
    }

    fn resolve(&mut self, reference: &CodeggEvidenceRef, subject: &SubjectRevision) -> (r: Result<ResolvedEvidence, String>) {
        let r: Result<ResolvedEvidence, String> = Err(String::new());
        self.asked = Ghost(self.asked@.push((*reference, subject@, r)));
        r
    }
}

/// Maps a live CodeGG snapshot. A snapshot that `snapshot_check` refuses
/// is refused before the resolver is asked anything. Otherwise the
/// resolver is asked once for each evidence reference, in the order of
/// `evidence_requests`, with `subject`, until a resolution or a check
/// fails; the result is `normalize_outcome` of the snapshot with the
/// answers the resolver gave (see `normalize_resolved`), and a mapped plan
/// comes only after every reference was resolved.
pub fn normalize_snapshot<R: EvidenceResolver>(
    snapshot: &CodeggPlanSnapshot,
    subject: SubjectRevision,
    resolver: &mut R,
) -> (r: Result<MappedPlan, String>)
    ensures
        asked_in_order(
            snapshot_refs(snapshot.items@, snapshot.items@.len() as int),
            subject@,
            old(resolver).exchanges(),
            final(resolver).exchanges(),
        ),
        normalize_outcome(*snapshot, subject, answers_since(old(resolver).exchanges(), final(resolver).exchanges()), r),
        r is Ok ==> answers_since(old(resolver).exchanges(), final(resolver).exchanges()).len() == snapshot_refs(
            snapshot.items@,
            snapshot.items@.len() as int,
        ).len(),
        snapshot_check(*snapshot, subject) is Err ==> final(resolver).exchanges() == old(resolver).exchanges(),
{
    let ghost x0 = resolver.exchanges();
    let mut none: Vec<Result<ResolvedEvidence, String>> = Vec::new();
    let (r, Ghost(rs)) = normalize_with(snapshot, subject, resolver, &mut none, false);
    proof {
        let refs = snapshot_refs(snapshot.items@, snapshot.items@.len() as int);
        let x1 = resolver.exchanges();
        assert(x1.len() == x0.len() + rs.len());
        assert(answers_since(x0, x1) =~= rs) by {
            assert forall|i: int| 0 <= i < rs.len() implies answers_since(x0, x1)[i] == rs[i] by {
                assert(x1[x0.len() + i] == exchanges_of(refs, subject@, rs)[i]);
            }
        }
    }
    r
}

/// The evidence references of a snapshot in the order they are resolved:
/// items in order, and each item's references in order.
pub open spec fn snapshot_refs(items: Seq<CodeggItemSnapshot>, n: int) -> Seq<CodeggEvidenceRef>
    decreases n,
{
    if n <= 0 {
        Seq::empty()
    } else {
        snapshot_refs(items, n - 1) + items[n - 1].evidence@
    }
}

proof fn lemma_snapshot_refs_len(items: Seq<CodeggItemSnapshot>, n: int)
    requires
        0 <= n <= items.len(),
    ensures
        snapshot_refs(items, n).len() == refs_before(items, n),
    decreases n,
{
    if n > 0 {
        lemma_snapshot_refs_len(items, n - 1);
    }
}

fn copy_ref(r: &CodeggEvidenceRef) -> (c: CodeggEvidenceRef)
    ensures
        c == *r,
{
    CodeggEvidenceRef {
        kind: r.kind,
        ref_id: r.ref_id.clone(),
        detail: match &r.detail {
            Some(d) => Some(d.clone()),
            None => None,
        },
    }
}

/// The evidence references a snapshot asks the resolver for, in order
/// (see `snapshot_refs`).
pub fn evidence_requests(snapshot: &CodeggPlanSnapshot) -> (r: Vec<CodeggEvidenceRef>)
    ensures
        r@ == snapshot_refs(snapshot.items@, snapshot.items@.len() as int),
        r@.len() == refs_before(snapshot.items@, snapshot.items@.len() as int),
{
    let mut out: Vec<CodeggEvidenceRef> = Vec::new();
    let mut n: usize = 0;
    while n < snapshot.items.len()
        invariant
            n <= snapshot.items@.len(),
            out@ == snapshot_refs(snapshot.items@, n as int),
        decreases snapshot.items.len() - n,
    {
        let ev = &snapshot.items[n].evidence;
        let ghost base = out@;
        let mut k: usize = 0;
        while k < ev.len()
            invariant
                k <= ev@.len(),
                ev == snapshot.items@[n as int].evidence,
                out@ == base + ev@.take(k as int),
            decreases ev.len() - k,
        {
            out.push(copy_ref(&ev[k]));
            k = k + 1;
            assert(out@ =~= base + ev@.take(k as int));
        }
        assert(ev@.take(ev@.len() as int) =~= ev@);
        n = n + 1;
    }
    proof {
        lemma_snapshot_refs_len(snapshot.items@, snapshot.items@.len() as int);
    }
    out
}

/// Maps a snapshot with resolutions already obtained, one per reference
/// of `evidence_requests` in that order: exactly `normalize_outcome`.
pub fn normalize_resolved(
    snapshot: &CodeggPlanSnapshot,
    subject: SubjectRevision,
    resolutions: Vec<Result<ResolvedEvidence, String>>,
) -> (r: Result<MappedPlan, String>)
    requires
        resolutions@.len() == snapshot_refs(snapshot.items@, snapshot.items@.len() as int).len(),
    ensures
        normalize_outcome(*snapshot, subject, resolutions@, r),
{
    proof {
        lemma_snapshot_refs_len(snapshot.items@, snapshot.items@.len() as int);
    }
    let mut given = resolutions;
    let mut none = NoResolver { asked: Ghost(Seq::empty()) };
    let (r, Ghost(rs)) = normalize_with(snapshot, subject, &mut none, &mut given, true);
    r
}

proof fn lemma_proc_items(
    items: Seq<CodeggItemSnapshot>,
    subject: SubjectRevision,
    rs: Seq<Result<ResolvedEvidence, String>>,
    ids: Seq<Seq<char>>,
    sources: Seq<Seq<char>>,
    n: int,
)
    requires
        0 <= n <= items.len(),
        proc_fold(items, subject, rs, ids, sources, n) is Ok,
    ensures
        proc_fold(items, subject, rs, ids, sources, n)->Ok_0.items.len() == n,
        forall|j: int|
            0 <= j < n ==> (#[trigger] proc_fold(items, subject, rs, ids, sources, n)->Ok_0.items[j]).position
                == items[j].position as nat && proc_fold(items, subject, rs, ids, sources, n)->Ok_0.items[j].status
                == item_status_of(items[j].status) && proc_fold(items, subject, rs, ids, sources, n)->Ok_0.items[j].description
                == items[j].description@ && proc_fold(items, subject, rs, ids, sources, n)->Ok_0.items[j].blocker == opt_text(
                items[j].blocker,
            ) && proc_fold(items, subject, rs, ids, sources, n)->Ok_0.items[j].next_action == opt_text(items[j].next_action),
    decreases n,
{
    if n > 0 {
        lemma_proc_items(items, subject, rs, ids, sources, n - 1);
    }
}

/// Maps a pinned fixture: version 1 from the pinned CodeGG source, with a
/// valid repository and case name; then as `normalize_snapshot`. A refused
/// fixture is refused before the resolver is asked anything.
pub fn normalize_fixture<R: EvidenceResolver>(fixture: &Fixture, subject: SubjectRevision, resolver: &mut R) -> (r: Result<
    MappedPlan,
    String,
>)
    ensures
        if fixture.schema_version != FIXTURE_SCHEMA_VERSION || fixture.source_repository@ != "codegg"@
            || fixture.source_sha@ != SOURCE_CODEGG_SHA@ {
            r matches Err(e) && e@ == "unsupported fixture version, repository, or source SHA"@
        } else if text_fault(fixture.source_repository@, "source repository"@) is Some {
            r matches Err(e) && Some(e@) == text_fault(fixture.source_repository@, "source repository"@)
        } else if text_fault(fixture.source_case@, "source case"@) is Some {
            r matches Err(e) && Some(e@) == text_fault(fixture.source_case@, "source case"@)
        } else {
            &&& asked_in_order(
                snapshot_refs(fixture.snapshot.items@, fixture.snapshot.items@.len() as int),
                subject@,
                old(resolver).exchanges(),
                final(resolver).exchanges(),
            )
            &&& normalize_outcome(
                fixture.snapshot,
                subject,
                answers_since(old(resolver).exchanges(), final(resolver).exchanges()),
                r,
            )
            &&& r is Ok ==> answers_since(old(resolver).exchanges(), final(resolver).exchanges()).len()
                == snapshot_refs(fixture.snapshot.items@, fixture.snapshot.items@.len() as int).len()
            &&& snapshot_check(fixture.snapshot, subject) is Err ==> final(resolver).exchanges() == old(
                resolver,
            ).exchanges()
        },
        (fixture.schema_version != FIXTURE_SCHEMA_VERSION || fixture.source_repository@ != "codegg"@
            || fixture.source_sha@ != SOURCE_CODEGG_SHA@ || text_fault(fixture.source_repository@, "source repository"@)
            is Some || text_fault(fixture.source_case@, "source case"@) is Some) ==> final(resolver).exchanges() == old(
            resolver,
        ).exchanges(),
{
    if fixture.schema_version != FIXTURE_SCHEMA_VERSION || !crate::text::str_eq(fixture.source_repository.as_str(), "codegg")
        || !crate::text::str_eq(fixture.source_sha.as_str(), SOURCE_CODEGG_SHA) {
        return Err(owned("unsupported fixture version, repository, or source SHA"));
    }
    check_text(fixture.source_repository.as_str(), "source repository")?;
    check_text(fixture.source_case.as_str(), "source case")?;
    normalize_snapshot(&fixture.snapshot, subject, resolver)
}


/// Maps a pinned fixture with resolutions already obtained, one per
/// reference of `evidence_requests` of its snapshot: the fixture checks of
/// `normalize_fixture`, then exactly `normalize_outcome`.
pub fn normalize_fixture_resolved(
    fixture: &Fixture,
    subject: SubjectRevision,
    resolutions: Vec<Result<ResolvedEvidence, String>>,
) -> (r: Result<
    MappedPlan,
    String,
>)
    requires
        resolutions@.len() == snapshot_refs(fixture.snapshot.items@, fixture.snapshot.items@.len() as int).len(),
    ensures
        if fixture.schema_version != FIXTURE_SCHEMA_VERSION || fixture.source_repository@ != "codegg"@
            || fixture.source_sha@ != SOURCE_CODEGG_SHA@ {
            r matches Err(e) && e@ == "unsupported fixture version, repository, or source SHA"@
        } else if text_fault(fixture.source_repository@, "source repository"@) is Some {
            r matches Err(e) && Some(e@) == text_fault(fixture.source_repository@, "source repository"@)
        } else if text_fault(fixture.source_case@, "source case"@) is Some {
            r matches Err(e) && Some(e@) == text_fault(fixture.source_case@, "source case"@)
        } else {
            normalize_outcome(fixture.snapshot, subject, resolutions@, r)
        },
{
    if fixture.schema_version != FIXTURE_SCHEMA_VERSION || !crate::text::str_eq(fixture.source_repository.as_str(), "codegg")
        || !crate::text::str_eq(fixture.source_sha.as_str(), SOURCE_CODEGG_SHA) {
        return Err(owned("unsupported fixture version, repository, or source SHA"));
    }
    check_text(fixture.source_repository.as_str(), "source repository")?;
    check_text(fixture.source_case.as_str(), "source case")?;
    normalize_resolved(&fixture.snapshot, subject, resolutions)
}

} // verus!

verus! {

/// The outcome of the assessment bridge.
#[derive(Debug, Clone)]
pub struct CodeggAssessmentBridgeResult {
    pub plan: Plan,
    pub manifest: MappingManifest,
    pub assessment: crate::assessment::PlanAssessment,
    pub completion_family: CodeggCompletionFamily,
    pub reason_codes: Vec<String>,
}

/// The plan status a CodeGG status is assessed under: a completed CodeGG
/// plan is assessed as Active, never as Closed.
pub open spec fn bridge_status(s: CodeggPlanStatus) -> PlanStatus {
    match s {
        CodeggPlanStatus::Active => PlanStatus::Active,
        CodeggPlanStatus::Completed => PlanStatus::Active,
        CodeggPlanStatus::Blocked => PlanStatus::Blocked,
        CodeggPlanStatus::Cancelled => PlanStatus::Cancelled,
    }
}

/// The reasons of the criteria of an item, in order.
pub open spec fn criteria_reasons(cs: Seq<crate::assessment::CriterionV>) -> Seq<crate::assessment::ReasonV>
    decreases cs.len(),
{
    if cs.len() == 0 {
        Seq::empty()
    } else {
        criteria_reasons(cs.drop_last()) + cs.last().reasons
    }
}

/// The reasons of the items, each followed by its criteria's reasons.
pub open spec fn items_reasons(items: Seq<crate::assessment::ItemV>) -> Seq<crate::assessment::ReasonV>
    decreases items.len(),
{
    if items.len() == 0 {
        Seq::empty()
    } else {
        items_reasons(items.drop_last()) + items.last().reasons + criteria_reasons(items.last().criteria)
    }
}

/// Every reason of an assessment: the plan's, then each item's and its
/// criteria's.
pub open spec fn all_reasons(a: crate::assessment::PlanAssessmentV) -> Seq<crate::assessment::ReasonV> {
    a.reasons + items_reasons(a.items)
}

pub(crate) fn push_reasons(out: &mut Vec<crate::assessment::AssessmentReason>, rs: &Vec<crate::assessment::AssessmentReason>)
    ensures
        crate::assessment::reason_views(final(out)@) == crate::assessment::reason_views(old(out)@)
            + crate::assessment::reason_views(rs@),
{
    let ghost start = crate::assessment::reason_views(out@);
    let mut i: usize = 0;
    while i < rs.len()
        invariant
            i <= rs@.len(),
            crate::assessment::reason_views(out@) == start + crate::assessment::reason_views(rs@).take(i as int),
        decreases rs.len() - i,
    {
        let ghost before = crate::assessment::reason_views(out@);
        let d = rs[i].duplicate();
        out.push(d);
        assert(crate::assessment::reason_views(out@) =~= before.push(rs@[i as int]@));
        assert(crate::assessment::reason_views(rs@).take(i + 1) =~= crate::assessment::reason_views(rs@).take(i as int).push(
            rs@[i as int]@,
        ));
        i = i + 1;
    }
    assert(crate::assessment::reason_views(rs@).take(rs@.len() as int) =~= crate::assessment::reason_views(rs@));
}

fn collect_reasons(a: &crate::assessment::PlanAssessment) -> (r: Vec<crate::assessment::AssessmentReason>)
    ensures
        crate::assessment::reason_views(r@) == all_reasons(a@),
{
    let mut out: Vec<crate::assessment::AssessmentReason> = Vec::new();
    assert(crate::assessment::reason_views(out@) =~= Seq::<crate::assessment::ReasonV>::empty());
    push_reasons(&mut out, &a.reasons);
    let ghost iv = a@.items;
    let mut i: usize = 0;
    while i < a.items.len()
        invariant
            i <= a.items@.len(),
            iv == a@.items,
            crate::assessment::reason_views(out@) == a@.reasons + items_reasons(iv.take(i as int)),
        decreases a.items.len() - i,
    {
        let it = &a.items[i];
        push_reasons(&mut out, &it.reasons);
        let ghost cv = it@.criteria;
        let ghost mid = crate::assessment::reason_views(out@);
        let mut c: usize = 0;
        while c < it.criteria.len()
            invariant
                c <= it.criteria@.len(),
                cv == it@.criteria,
                crate::assessment::reason_views(out@) == mid + criteria_reasons(cv.take(c as int)),
            decreases it.criteria.len() - c,
        {
            push_reasons(&mut out, &it.criteria[c].reasons);
            c = c + 1;
            assert(cv.take(c as int).drop_last() =~= cv.take(c - 1));
            assert(crate::assessment::reason_views(out@) =~= mid + criteria_reasons(cv.take(c as int)));
        }
        assert(cv.take(cv.len() as int) =~= cv);
        i = i + 1;
        assert(iv.take(i as int).drop_last() =~= iv.take(i - 1));
        assert(crate::assessment::reason_views(out@) =~= a@.reasons + items_reasons(iv.take(i as int)));
    }
    assert(iv.take(iv.len() as int) =~= iv);
    out
}

/// The bridge result of a mapped snapshot: the plan under the status the
/// CodeGG status maps to (`bridge_status`), its assessment, the completion
/// family and the distinct reason codes of every reason.
pub open spec fn bridged(
    snapshot: CodeggPlanSnapshot,
    subject: SubjectRevision,
    m: MappedPlan,
    providers: Seq<crate::evidence::DescriptorV>,
    b: CodeggAssessmentBridgeResult,
) -> bool {
    &&& b.plan == (Plan { status: bridge_status(snapshot.status), ..m.plan })
    &&& b.manifest == m.manifest
    &&& b.assessment@ == crate::assessment::plan_spec(
        b.plan,
        subject@,
        providers,
        crate::assessment::permuted(
            crate::assessment::obs_views(m.observations@),
            crate::sort::stable_perm(crate::assessment::obs_keys(crate::assessment::obs_views(m.observations@))),
        ),
    )
    &&& b.completion_family == family_of(b.assessment.status)
    &&& strings_of(b.reason_codes@) == crate::projection::distinct_codes(all_reasons(b.assessment@), 21)
}

/// Assesses a mapped snapshot (see `bridged`).
pub fn assess_mapped(
    snapshot: &CodeggPlanSnapshot,
    subject: &SubjectRevision,
    mapped: MappedPlan,
    providers: &crate::evidence::ProviderRegistry,
) -> (r: CodeggAssessmentBridgeResult)
    requires
        mapped.source_status == snapshot.status,
    ensures
        bridged(*snapshot, *subject, mapped, providers@, r),
{
    let ghost m0 = mapped;
    let mut mapped = mapped;
    mapped.plan.status = match mapped.source_status {
        CodeggPlanStatus::Active | CodeggPlanStatus::Completed => PlanStatus::Active,
        CodeggPlanStatus::Blocked => PlanStatus::Blocked,
        CodeggPlanStatus::Cancelled => PlanStatus::Cancelled,
    };
    let assessment = crate::assessment::assess_plan(&mapped.plan, subject, mapped.observations.as_slice(), providers);
    let completion_family = completion_family(assessment.status);
    let all = collect_reasons(&assessment);
    let reason_codes = crate::projection::sorted_reason_codes(&all);
    assert(strings_of(reason_codes@) =~= crate::projection::distinct_codes(all_reasons(assessment@), 21));
    let MappedPlan { plan, observations: _, manifest, source_status: _, source_current_item_id: _ } = mapped;
    CodeggAssessmentBridgeResult { plan, manifest, assessment, completion_family, reason_codes }
}

/// Pure live assessment bridge: maps the snapshot as `normalize_snapshot`
/// does, asking the resolver as it does, then assesses it as
/// `assess_mapped` does (see `assess_codegg_resolved`).
pub fn assess_codegg_snapshot<R: EvidenceResolver>(
    snapshot: &CodeggPlanSnapshot,
    subject: SubjectRevision,
    resolver: &mut R,
    providers: &crate::evidence::ProviderRegistry,
) -> (r: Result<CodeggAssessmentBridgeResult, String>)
    ensures
        asked_in_order(
            snapshot_refs(snapshot.items@, snapshot.items@.len() as int),
            subject@,
            old(resolver).exchanges(),
            final(resolver).exchanges(),
        ),
        snapshot_check(*snapshot, subject) is Err ==> final(resolver).exchanges() == old(resolver).exchanges(),
        match r {
            Err(e) => normalize_outcome(
                *snapshot,
                subject,
                answers_since(old(resolver).exchanges(), final(resolver).exchanges()),
                Err(e),
            ),
            Ok(b) => answers_since(old(resolver).exchanges(), final(resolver).exchanges()).len() == snapshot_refs(
                snapshot.items@,
                snapshot.items@.len() as int,
            ).len() && exists|m: MappedPlan|
                #![trigger normalize_outcome(*snapshot, subject, answers_since(old(resolver).exchanges(), final(resolver).exchanges()), Ok(m))]
                {
                    &&& normalize_outcome(
                        *snapshot,
                        subject,
                        answers_since(old(resolver).exchanges(), final(resolver).exchanges()),
                        Ok(m),
                    )
                    &&& bridged(*snapshot, subject, m, providers@, b)
                },
        },
{
    let subject_copy = subject.duplicate();
    let mapped = normalize_snapshot(snapshot, subject_copy, resolver)?;
    Ok(assess_mapped(snapshot, &subject, mapped, providers))
}

/// The bridge with resolutions already obtained, one per reference of
/// `evidence_requests`: exactly `normalize_outcome`, then `bridged`.
pub fn assess_codegg_resolved(
    snapshot: &CodeggPlanSnapshot,
    subject: SubjectRevision,
    resolutions: Vec<Result<ResolvedEvidence, String>>,
    providers: &crate::evidence::ProviderRegistry,
) -> (r: Result<CodeggAssessmentBridgeResult, String>)
    requires
        resolutions@.len() == snapshot_refs(snapshot.items@, snapshot.items@.len() as int).len(),
    ensures
        match r {
            Err(e) => normalize_outcome(*snapshot, subject, resolutions@, Err(e)),
            Ok(b) => exists|m: MappedPlan|
                #![trigger normalize_outcome(*snapshot, subject, resolutions@, Ok(m))]
                normalize_outcome(*snapshot, subject, resolutions@, Ok(m)) && bridged(*snapshot, subject, m, providers@, b),
        },
{
    let subject_copy = subject.duplicate();
    let mapped = normalize_resolved(snapshot, subject_copy, resolutions)?;
    Ok(assess_mapped(snapshot, &subject, mapped, providers))
}

} // verus!

verus! {

/// An item of the bounded projection.
#[derive(Debug, Clone, PartialEq, Eq)]
pub struct CompatItemSummary {
    pub id: String,
    pub source_id: String,
    pub position: u32,
    pub status: PlanItemStatus,
    pub description: String,
    pub blocker: Option<String>,
    pub next_action: Option<String>,
}

/// The bounded CodeGG projection of a mapping.
#[derive(Debug, Clone, PartialEq, Eq)]
pub struct CompatProjection {
    pub schema_version: u32,
    pub assessment_reason_code: String,
    pub total_items: usize,
    pub completed_items: usize,
    pub actionable_count: usize,
    pub blocked_count: usize,
    pub in_progress_count: usize,
    pub truncated: bool,
    pub current_item_id: Option<String>,
    pub items: Vec<CompatItemSummary>,
}

/// `v` clamped into `lo..=hi`.
pub open spec fn clamp(v: nat, lo: nat, hi: nat) -> nat {
    if v < lo {
        lo
    } else if v > hi {
        hi
    } else {
        v
    }
}

/// At most `n` characters of a text.
pub open spec fn take_chars(s: Seq<char>, n: nat) -> Seq<char> {
    if s.len() > n {
        s.take(n as int)
    } else {
        s
    }
}

/// The source identifier the first identity entry for a mapped
/// identifier names.
pub open spec fn source_of(map: Seq<IdentityMapEntry>, id: Seq<char>) -> Option<Seq<char>>
    decreases map.len(),
{
    if map.len() == 0 {
        None
    } else {
        match source_of(map.drop_last(), id) {
            Some(x) => Some(x),
            None => if map.last().eggplan_id@ == id {
                Some(map.last().source_id@)
            } else {
                None
            },
        }
    }
}

/// The mapped identifier the first identity entry for a source identifier
/// names.
pub open spec fn target_of(map: Seq<IdentityMapEntry>, source: Seq<char>) -> Option<Seq<char>>
    decreases map.len(),
{
    if map.len() == 0 {
        None
    } else {
        match target_of(map.drop_last(), source) {
            Some(x) => Some(x),
            None => if map.last().source_id@ == source {
                Some(map.last().eggplan_id@)
            } else {
                None
            },
        }
    }
}

/// Completed or Cancelled.
pub open spec fn terminal(s: PlanItemStatus) -> bool {
    s == PlanItemStatus::Completed || s == PlanItemStatus::Cancelled
}

/// Open work first, then in progress, blocked, finished.
pub open spec fn status_rank(s: PlanItemStatus) -> nat {
    match s {
        PlanItemStatus::Pending => 0,
        PlanItemStatus::Actionable => 0,
        PlanItemStatus::InProgress => 1,
        PlanItemStatus::Blocked => 2,
        PlanItemStatus::Completed => 3,
        PlanItemStatus::Cancelled => 3,
    }
}

/// The projection order of an item as one number: the source current item
/// first, then by status rank, then by position.
pub open spec fn proj_rank(m: MappedPlan, it: PlanItem) -> nat {
    (if source_of(m.manifest.id_map@, it.id@) != opt_text(m.source_current_item_id) {
        0x4_0000_0000nat
    } else {
        0nat
    }) + status_rank(it.status) * 0x1_0000_0000 + it.position as nat
}

/// Projection sort keys: the projection order, then the identifier.
pub open spec fn proj_keys(m: MappedPlan) -> Seq<crate::sort::KeyV> {
    Seq::new(
        m.plan.items@.len(),
        |i: int| crate::sort::KeyV { rank: proj_rank(m, m.plan.items@[i]), first: m.plan.items@[i].id@, second: Seq::empty() },
    )
}

/// The items in projection order.
pub open spec fn candidates(m: MappedPlan) -> Seq<PlanItem> {
    let perm = crate::sort::stable_perm(proj_keys(m));
    Seq::new(perm.len(), |k: int| m.plan.items@[perm[k] as int])
}

/// The items among the first `n` that are not finished.
pub open spec fn open_items(items: Seq<PlanItem>, n: int) -> Seq<PlanItem>
    decreases n,
{
    if n <= 0 {
        Seq::empty()
    } else if terminal(items[n - 1].status) {
        open_items(items, n - 1)
    } else {
        open_items(items, n - 1).push(items[n - 1])
    }
}

/// The summary of an item, its texts cut to `max` characters.
pub open spec fn summary_is(sm: CompatItemSummary, it: PlanItem, m: MappedPlan, max: nat) -> bool {
    &&& sm.id@ == it.id@
    &&& sm.source_id@ == match source_of(m.manifest.id_map@, it.id@) {
        Some(x) => x,
        None => Seq::empty(),
    }
    &&& sm.position == it.position
    &&& sm.status == it.status
    &&& sm.description@ == take_chars(it.description@, max)
    &&& opt_text(sm.blocker) == match it.blocker {
        Some(b) => Some(take_chars(b@, max)),
        None => None,
    }
    &&& opt_text(sm.next_action) == match it.next_action {
        Some(b) => Some(take_chars(b@, max)),
        None => None,
    }
}

/// The first item with an identifier.
pub open spec fn item_with_id(items: Seq<PlanItem>, id: Seq<char>) -> Option<PlanItem>
    decreases items.len(),
{
    if items.len() == 0 {
        None
    } else {
        match item_with_id(items.drop_last(), id) {
            Some(x) => Some(x),
            None => if items.last().id@ == id {
                Some(items.last())
            } else {
                None
            },
        }
    }
}

/// The current item of the projection: the source current item when it
/// maps to an unfinished item, else the first unfinished item.
pub open spec fn projected_current(m: MappedPlan) -> Option<Seq<char>> {
    let via = match m.source_current_item_id {
        Some(c) => match target_of(m.manifest.id_map@, c@) {
            Some(eid) => match item_with_id(m.plan.items@, eid) {
                Some(it) => if terminal(it.status) {
                    None
                } else {
                    Some(it.id@)
                },
                None => None,
            },
            None => None,
        },
        None => None,
    };
    match via {
        Some(x) => Some(x),
        None => {
            let open = open_items(m.plan.items@, m.plan.items@.len() as int);
            if open.len() > 0 {
                Some(open[0].id@)
            } else {
                None
            }
        },
    }
}

} // verus!

verus! {

fn source_index(map: &Vec<IdentityMapEntry>, id: &str) -> (r: Option<usize>)
    ensures
        match r {
            Some(j) => j < map@.len() && source_of(map@, id@) == Some(map@[j as int].source_id@),
            None => source_of(map@, id@) is None,
        },
{
    let mut j: usize = 0;
    while j < map.len()
        invariant
            j <= map@.len(),
            source_of(map@.take(j as int), id@) is None,
        decreases map.len() - j,
    {
        assert(map@.take(j + 1).drop_last() =~= map@.take(j as int));
        if crate::text::str_eq(map[j].eggplan_id.as_str(), id) {
            proof {
                lemma_source_of_prefix(map@, id@, j + 1);
            }
            return Some(j);
        }
        j = j + 1;
    }
    assert(map@.take(map@.len() as int) =~= map@);
    None
}

proof fn lemma_source_of_prefix(map: Seq<IdentityMapEntry>, id: Seq<char>, n: int)
    requires
        0 <= n <= map.len(),
        source_of(map.take(n), id) is Some,
    ensures
        source_of(map, id) == source_of(map.take(n), id),
    decreases map.len() - n,
{
    if n < map.len() {
        assert(map.take(n + 1).drop_last() =~= map.take(n));
        lemma_source_of_prefix(map, id, n + 1);
    } else {
        assert(map.take(n) =~= map);
    }
}

fn target_index(map: &Vec<IdentityMapEntry>, source: &str) -> (r: Option<usize>)
    ensures
        match r {
            Some(j) => j < map@.len() && target_of(map@, source@) == Some(map@[j as int].eggplan_id@),
            None => target_of(map@, source@) is None,
        },
{
    let mut j: usize = 0;
    while j < map.len()
        invariant
            j <= map@.len(),
            target_of(map@.take(j as int), source@) is None,
        decreases map.len() - j,
    {
        assert(map@.take(j + 1).drop_last() =~= map@.take(j as int));
        if crate::text::str_eq(map[j].source_id.as_str(), source) {
            proof {
                lemma_target_of_prefix(map@, source@, j + 1);
            }
            return Some(j);
        }
        j = j + 1;
    }
    assert(map@.take(map@.len() as int) =~= map@);
    None
}

proof fn lemma_target_of_prefix(map: Seq<IdentityMapEntry>, s: Seq<char>, n: int)
    requires
        0 <= n <= map.len(),
        target_of(map.take(n), s) is Some,
    ensures
        target_of(map, s) == target_of(map.take(n), s),
    decreases map.len() - n,
{
    if n < map.len() {
        assert(map.take(n + 1).drop_last() =~= map.take(n));
        lemma_target_of_prefix(map, s, n + 1);
    } else {
        assert(map.take(n) =~= map);
    }
}

pub(crate) fn item_index(items: &Vec<PlanItem>, id: &str) -> (r: Option<usize>)
    ensures
        match r {
            Some(j) => j < items@.len() && item_with_id(items@, id@) == Some(items@[j as int]),
            None => item_with_id(items@, id@) is None,
        },
{
    let mut j: usize = 0;
    while j < items.len()
        invariant
            j <= items@.len(),
            item_with_id(items@.take(j as int), id@) is None,
        decreases items.len() - j,
    {
        assert(items@.take(j + 1).drop_last() =~= items@.take(j as int));
        if crate::text::str_eq(items[j].id.as_str(), id) {
            proof {
                lemma_item_with_id_prefix(items@, id@, j + 1);
            }
            return Some(j);
        }
        j = j + 1;
    }
    assert(items@.take(items@.len() as int) =~= items@);
    None
}

proof fn lemma_item_with_id_prefix(items: Seq<PlanItem>, id: Seq<char>, n: int)
    requires
        0 <= n <= items.len(),
        item_with_id(items.take(n), id) is Some,
    ensures
        item_with_id(items, id) == item_with_id(items.take(n), id),
    decreases items.len() - n,
{
    if n < items.len() {
        assert(items.take(n + 1).drop_last() =~= items.take(n));
        lemma_item_with_id_prefix(items, id, n + 1);
    } else {
        assert(items.take(n) =~= items);
    }
}

fn take_text(s: &String, n: usize) -> (r: String)
    ensures
        r@ == take_chars(s@, n as nat),
{
    let cs = crate::text::chars_of(s.as_str());
    if cs.len() > n {
        let t = crate::markdown_text::slice(&cs, 0, n);
        assert(t@ =~= s@.take(n as int));
        crate::text::string_of(&t)
    } else {
        s.clone()
    }
}

fn take_opt(s: &Option<String>, n: usize) -> (r: Option<String>)
    ensures
        opt_text(r) == match *s {
            Some(b) => Some(take_chars(b@, n as nat)),
            None => None,
        },
{
    match s {
        Some(b) => Some(take_text(b, n)),
        None => None,
    }
}

fn status_rank_of(s: PlanItemStatus) -> (r: u64)
    ensures
        r == status_rank(s),
{
    match s {
        PlanItemStatus::Pending => 0,
        PlanItemStatus::Actionable => 0,
        PlanItemStatus::InProgress => 1,
        PlanItemStatus::Blocked => 2,
        PlanItemStatus::Completed => 3,
        PlanItemStatus::Cancelled => 3,
    }
}

fn count_unstarted(items: &Vec<PlanItem>) -> (c: usize)
    ensures
        c == crate::projection::count_status(items@, PlanItemStatus::Pending, items@.len() as int)
            + crate::projection::count_status(items@, PlanItemStatus::Actionable, items@.len() as int),
{
    let mut c: usize = 0;
    let mut i: usize = 0;
    while i < items.len()
        invariant
            i <= items@.len(),
            c == crate::projection::count_status(items@, PlanItemStatus::Pending, i as int)
                + crate::projection::count_status(items@, PlanItemStatus::Actionable, i as int),
            c <= i,
        decreases items.len() - i,
    {
        if items[i].status == PlanItemStatus::Pending || items[i].status == PlanItemStatus::Actionable {
            c = c + 1;
        }
        i = i + 1;
    }
    c
}

fn count_items(items: &Vec<PlanItem>, s: PlanItemStatus) -> (c: usize)
    ensures
        c == crate::projection::count_status(items@, s, items@.len() as int),
{
    let mut c: usize = 0;
    let mut i: usize = 0;
    while i < items.len()
        invariant
            i <= items@.len(),
            c == crate::projection::count_status(items@, s, i as int),
            c <= i,
        decreases items.len() - i,
    {
        if items[i].status == s {
            c = c + 1;
        }
        i = i + 1;
    }
    c
}

/// The bounded current-work projection of a mapping (see `candidates`,
/// `open_items`, `summary_is` and `projected_current`): between one and
/// eight unfinished items in projection order, texts cut to between one
/// and 200 characters, status counts over all items.
#[verifier::loop_isolation(false)]
pub fn project_bounded(
    mapped: &MappedPlan,
    assessment_status: AssessmentStatus,
    max_items: usize,
    max_text_chars: usize,
) -> (r: CompatProjection)
    ensures
        r.schema_version == 1,
        r.assessment_reason_code@ == family_text(family_of(assessment_status)),
        r.total_items == mapped.plan.items@.len(),
        r.completed_items == crate::projection::count_status(
            mapped.plan.items@,
            PlanItemStatus::Completed,
            mapped.plan.items@.len() as int,
        ),
        r.actionable_count == crate::projection::count_status(
            mapped.plan.items@,
            PlanItemStatus::Pending,
            mapped.plan.items@.len() as int,
        ) + crate::projection::count_status(mapped.plan.items@, PlanItemStatus::Actionable, mapped.plan.items@.len() as int),
        r.blocked_count == crate::projection::count_status(
            mapped.plan.items@,
            PlanItemStatus::Blocked,
            mapped.plan.items@.len() as int,
        ),
        r.in_progress_count == crate::projection::count_status(
            mapped.plan.items@,
            PlanItemStatus::InProgress,
            mapped.plan.items@.len() as int,
        ),
        ({
            let open = open_items(candidates(*mapped), mapped.plan.items@.len() as int);
            &&& r.items@.len() == if open.len() > clamp(max_items as nat, 1, 8) {
                clamp(max_items as nat, 1, 8)
            } else {
                open.len()
            }
            &&& forall|k: int|
                0 <= k < r.items@.len() ==> summary_is(
                    #[trigger] r.items@[k],
                    open[k],
                    *mapped,
                    clamp(max_text_chars as nat, 1, 200),
                )
            &&& r.truncated == (open.len() > r.items@.len())
        }),
        opt_text(r.current_item_id) == projected_current(*mapped),
{
    let max_items = if max_items < 1 {
        1
    } else if max_items > 8 {
        8
    } else {
        max_items
    };
    let max_text = if max_text_chars < 1 {
        1
    } else if max_text_chars > 200 {
        200
    } else {
        max_text_chars
    };
    let items = &mapped.plan.items;
    let map = &mapped.manifest.id_map;
    let mut keys: Vec<crate::sort::SortKey> = Vec::new();
    let mut i: usize = 0;
    while i < items.len()
        invariant
            i <= items@.len(),
            keys@.len() == i,
            forall|a: int| 0 <= a < i ==> (#[trigger] keys@[a])@ == proj_keys(*mapped)[a],
        decreases items.len() - i,
    {
        let src = source_index(map, items[i].id.as_str());
        let same = match (src, &mapped.source_current_item_id) {
            (Some(j), Some(c)) => crate::text::str_eq(map[j].source_id.as_str(), c.as_str()),
            (None, None) => true,
            _ => false,
        };
        let flag: u64 = if same {
            0
        } else {
            0x4_0000_0000
        };
        let rank = flag + status_rank_of(items[i].status) * 0x1_0000_0000 + items[i].position as u64;
        keys.push(crate::sort::SortKey { rank, first: items[i].id.to_string(), second: String::new() });
        i = i + 1;
    }
    assert(crate::sort::key_views(keys@) =~= proj_keys(*mapped));
    let perm = crate::sort::stable_order(&keys);
    proof {
        crate::sort::lemma_stable_perm(proj_keys(*mapped), perm@);
    }
    let ghost cand = candidates(*mapped);
    let mut out: Vec<CompatItemSummary> = Vec::new();
    let mut open_count: usize = 0;
    let mut k: usize = 0;
    while k < perm.len()
        invariant
            k <= perm@.len(),
            perm@ == crate::sort::stable_perm(proj_keys(*mapped)),
            crate::sort::stably_sorted(proj_keys(*mapped), perm@),
            cand == candidates(*mapped),
            open_count == open_items(cand, k as int).len(),
            open_count <= k,
            out@.len() == if open_count > max_items {
                max_items as nat
            } else {
                open_count as nat
            },
            forall|a: int| 0 <= a < out@.len() ==> summary_is(#[trigger] out@[a], open_items(cand, k as int)[a], *mapped, max_text as nat),
        decreases perm.len() - k,
    {
        let it = &items[perm[k]];
        assert(cand[k as int] == *it);
        proof {
            lemma_open_items_prefix(cand, k as int);
        }
        if !(it.status == PlanItemStatus::Completed || it.status == PlanItemStatus::Cancelled) {
            if out.len() < max_items {
                let source_id = match source_index(map, it.id.as_str()) {
                    Some(j) => map[j].source_id.clone(),
                    None => String::new(),
                };
                let sm = CompatItemSummary {
                    id: it.id.to_string(),
                    source_id,
                    position: it.position,
                    status: it.status,
                    description: take_text(&it.description, max_text),
                    blocker: take_opt(&it.blocker, max_text),
                    next_action: take_opt(&it.next_action, max_text),
                };
                out.push(sm);
            }
            open_count = open_count + 1;
        }
        k = k + 1;
    }
    let completed_items = count_items(items, PlanItemStatus::Completed);
    let actionable_count = count_unstarted(items);
    let blocked_count = count_items(items, PlanItemStatus::Blocked);
    let in_progress_count = count_items(items, PlanItemStatus::InProgress);
    let via: Option<String> = match &mapped.source_current_item_id {
        Some(c) => match target_index(map, c.as_str()) {
            Some(t) => match item_index(items, map[t].eggplan_id.as_str()) {
                Some(x) => if items[x].status == PlanItemStatus::Completed || items[x].status == PlanItemStatus::Cancelled {
                    None
                } else {
                    Some(items[x].id.to_string())
                },
                None => None,
            },
            None => None,
        },
        None => None,
    };
    let current_item_id = match via {
        Some(x) => Some(x),
        None => {
            let mut found: Option<String> = None;
            let mut i: usize = 0;
            while i < items.len()
                invariant
                    i <= items@.len(),
                    found is None ==> open_items(items@, i as int).len() == 0,
                    found matches Some(f) ==> open_items(items@, i as int).len() > 0 && f@ == open_items(items@, i as int)[0].id@,
                decreases items.len() - i,
            {
                proof {
                    lemma_open_items_prefix(items@, i as int);
                }
                if found.is_none() && !(items[i].status == PlanItemStatus::Completed || items[i].status
                    == PlanItemStatus::Cancelled) {
                    found = Some(items[i].id.to_string());
                }
                i = i + 1;
            }
            found
        },
    };
    let family = completion_family(assessment_status);
    CompatProjection {
        schema_version: 1,
        assessment_reason_code: owned(family.as_str()),
        total_items: items.len(),
        completed_items,
        actionable_count,
        blocked_count,
        in_progress_count,
        truncated: open_count > out.len(),
        current_item_id,
        items: out,
    }
}

proof fn lemma_open_items_prefix(items: Seq<PlanItem>, n: int)
    requires
        0 <= n < items.len(),
    ensures
        open_items(items, n + 1) == if terminal(items[n].status) {
            open_items(items, n)
        } else {
            open_items(items, n).push(items[n])
        },
        forall|a: int| 0 <= a < open_items(items, n).len() ==> open_items(items, n + 1)[a] == open_items(items, n)[a],
{
}

} // verus!

verus! {

/// A resolution refused whatever was resolved before it: the resolver
/// failed, or the observation belongs to another subject or kind, or
/// execution evidence carries no matching binding.
pub open spec fn refused_alone(
    reference: CodeggEvidenceRef,
    subject: SubjectRevision,
    resolution: Result<ResolvedEvidence, String>,
) -> bool {
    match resolution {
        Err(_) => true,
        Ok(re) => resolution_fault(reference, subject, Seq::empty(), re) is Some,
    }
}

proof fn lemma_refs_fold_refused(
    refs: Seq<CodeggEvidenceRef>,
    subject: SubjectRevision,
    rs: Seq<Result<ResolvedEvidence, String>>,
    at: int,
    seen0: Seq<Seq<char>>,
    k: int,
    i: int,
)
    requires
        0 <= i < k <= refs.len(),
        refused_alone(refs[i], subject, rs[at + i]),
    ensures
        refs_fold(refs, subject, rs, at, seen0, k) is Err,
    decreases k,
{
    if i < k - 1 {
        lemma_refs_fold_refused(refs, subject, rs, at, seen0, k - 1, i);
    }
}

proof fn lemma_refs_fold_seen(
    refs: Seq<CodeggEvidenceRef>,
    subject: SubjectRevision,
    rs: Seq<Result<ResolvedEvidence, String>>,
    at: int,
    seen0: Seq<Seq<char>>,
    k: int,
)
    requires
        0 <= k <= refs.len(),
        refs_fold(refs, subject, rs, at, seen0, k) is Ok,
    ensures
        forall|x: Seq<char>| seen0.contains(x) ==> refs_fold(refs, subject, rs, at, seen0, k)->Ok_0.seen.contains(x),
        forall|i: int|
            0 <= i < k ==> (#[trigger] rs[at + i]) is Ok && refs_fold(refs, subject, rs, at, seen0, k)->Ok_0.seen.contains(
                rs[at + i]->Ok_0.observation@.id,
            ),
    decreases k,
{
    if k > 0 {
        lemma_refs_fold_seen(refs, subject, rs, at, seen0, k - 1);
        let st = refs_fold(refs, subject, rs, at, seen0, k - 1)->Ok_0;
        let rv = refs_fold(refs, subject, rs, at, seen0, k)->Ok_0;
        assert(rv.seen == st.seen.push(rs[at + k - 1]->Ok_0.observation@.id));
        assert forall|x: Seq<char>| st.seen.contains(x) implies rv.seen.contains(x) by {
            let w = choose|w: int| 0 <= w < st.seen.len() && st.seen[w] == x;
            assert(rv.seen[w] == x);
        }
        assert(rv.seen[st.seen.len() as int] == rs[at + k - 1]->Ok_0.observation@.id);
    }
}

proof fn lemma_refs_fold_reused(
    refs: Seq<CodeggEvidenceRef>,
    subject: SubjectRevision,
    rs: Seq<Result<ResolvedEvidence, String>>,
    at: int,
    seen0: Seq<Seq<char>>,
    k: int,
    id: Seq<char>,
)
    requires
        0 <= k < refs.len(),
        rs[at + k] is Ok,
        rs[at + k]->Ok_0.observation@.id == id,
        seen0.contains(id) || exists|i: int|
            0 <= i < k && (#[trigger] rs[at + i]) is Ok && rs[at + i]->Ok_0.observation@.id == id,
    ensures
        refs_fold(refs, subject, rs, at, seen0, k + 1) is Err,
{
    if refs_fold(refs, subject, rs, at, seen0, k) is Ok {
        lemma_refs_fold_seen(refs, subject, rs, at, seen0, k);
        let rv = refs_fold(refs, subject, rs, at, seen0, k)->Ok_0;
        assert(rv.seen.contains(id));
    }
}

proof fn lemma_proc_fold_seen(
    items: Seq<CodeggItemSnapshot>,
    subject: SubjectRevision,
    rs: Seq<Result<ResolvedEvidence, String>>,
    ids: Seq<Seq<char>>,
    sources: Seq<Seq<char>>,
    n: int,
)
    requires
        0 <= n <= items.len(),
        proc_fold(items, subject, rs, ids, sources, n) is Ok,
    ensures
        proc_fold(items, subject, rs, ids, sources, n)->Ok_0.cursor == refs_before(items, n),
        forall|i: int|
            0 <= i < refs_before(items, n) ==> (#[trigger] rs[i]) is Ok && proc_fold(
                items,
                subject,
                rs,
                ids,
                sources,
                n,
            )->Ok_0.seen.contains(rs[i]->Ok_0.observation@.id),
    decreases n,
{
    if n > 0 {
        lemma_proc_fold_seen(items, subject, rs, ids, sources, n - 1);
        let st = proc_fold(items, subject, rs, ids, sources, n - 1)->Ok_0;
        let ev = items[n - 1].evidence@;
        lemma_refs_fold_seen(ev, subject, rs, st.cursor, st.seen, ev.len() as int);
        let rv = refs_fold(ev, subject, rs, st.cursor, st.seen, ev.len() as int)->Ok_0;
        assert forall|i: int| 0 <= i < refs_before(items, n) implies (#[trigger] rs[i]) is Ok
            && proc_fold(items, subject, rs, ids, sources, n)->Ok_0.seen.contains(rs[i]->Ok_0.observation@.id) by {
            if i >= st.cursor {
                assert(rs[st.cursor + (i - st.cursor)] == rs[i]);
            }
        }
    }
}

proof fn lemma_item_of_ref(items: Seq<CodeggItemSnapshot>, n: int, j: int) -> (m: int)
    requires
        0 <= n <= items.len(),
        0 <= j < refs_before(items, n),
    ensures
        0 <= m < n,
        refs_before(items, m) <= j < refs_before(items, m + 1),
        snapshot_refs(items, n)[j] == items[m].evidence@[j - refs_before(items, m)],
    decreases n,
{
    lemma_snapshot_refs_len(items, n - 1);
    lemma_refs_before_mono(items, n - 1);
    if j < refs_before(items, n - 1) {
        let m = lemma_item_of_ref(items, n - 1, j);
        assert(snapshot_refs(items, n)[j] == snapshot_refs(items, n - 1)[j]);
        m
    } else {
        n - 1
    }
}

/// Stale, mismatched or unbound evidence fails closed: where the
/// resolution for some evidence reference is a failure, an observation of
/// another subject or kind, or execution evidence without its matching
/// binding, mapping the snapshot gives no plan.
pub proof fn lemma_refused_resolution_fails(
    s: CodeggPlanSnapshot,
    subject: SubjectRevision,
    rs: Seq<Result<ResolvedEvidence, String>>,
    j: int,
    r: Result<MappedPlan, String>,
)
    requires
        0 <= j < snapshot_refs(s.items@, s.items@.len() as int).len(),
        refused_alone(snapshot_refs(s.items@, s.items@.len() as int)[j], subject, rs[j]),
        normalize_outcome(s, subject, rs, r),
    ensures
        r is Err,
{
    let items = s.items@;
    let len = items.len() as int;
    if let Ok((ids, sources)) = snapshot_check(s, subject) {
        lemma_snapshot_refs_len(items, len);
        let m = lemma_item_of_ref(items, len, j);
        if proc_fold(items, subject, rs, ids, sources, m) is Ok {
            lemma_proc_fold_seen(items, subject, rs, ids, sources, m);
            let st = proc_fold(items, subject, rs, ids, sources, m)->Ok_0;
            let ev = items[m].evidence@;
            let k = j - refs_before(items, m);
            assert(rs[st.cursor + k] == rs[j]);
            lemma_refs_fold_refused(ev, subject, rs, st.cursor, st.seen, ev.len() as int, k);
        }
        lemma_proc_fold_err(items, subject, rs, ids, sources, m + 1, len);
    }
}

/// Reused evidence fails closed: where two evidence references are
/// resolved to observations with the same identifier, mapping the snapshot
/// gives no plan.
pub proof fn lemma_reused_observation_fails(
    s: CodeggPlanSnapshot,
    subject: SubjectRevision,
    rs: Seq<Result<ResolvedEvidence, String>>,
    i: int,
    j: int,
    r: Result<MappedPlan, String>,
)
    requires
        0 <= i < j < snapshot_refs(s.items@, s.items@.len() as int).len(),
        rs[i] is Ok,
        rs[j] is Ok,
        rs[i]->Ok_0.observation@.id == rs[j]->Ok_0.observation@.id,
        normalize_outcome(s, subject, rs, r),
    ensures
        r is Err,
{
    let items = s.items@;
    let len = items.len() as int;
    if let Ok((ids, sources)) = snapshot_check(s, subject) {
        lemma_snapshot_refs_len(items, len);
        let m = lemma_item_of_ref(items, len, j);
        let id = rs[j]->Ok_0.observation@.id;
        if proc_fold(items, subject, rs, ids, sources, m) is Ok {
            lemma_proc_fold_seen(items, subject, rs, ids, sources, m);
            let st = proc_fold(items, subject, rs, ids, sources, m)->Ok_0;
            let ev = items[m].evidence@;
            let k = j - refs_before(items, m);
            assert(rs[st.cursor + k] == rs[j]);
            if i < st.cursor {
                assert(st.seen.contains(id));
            } else {
                assert(rs[st.cursor + (i - st.cursor)] == rs[i]);
            }
            lemma_refs_fold_reused(ev, subject, rs, st.cursor, st.seen, k, id);
            lemma_refs_fold_err_down(ev, subject, rs, st.cursor, st.seen, k + 1, ev.len() as int);
        }
        lemma_proc_fold_err(items, subject, rs, ids, sources, m + 1, len);
    }
}

} // verus!
