//! Plan, item, criterion and evidence requirement data, their validation,
//! and the plan and item lifecycle transition rules.
use crate::bounds::{ARTIFACT_REF_CHARS, BLOCKER_CHARS, CRITERION_CHARS, DESCRIPTION_CHARS, ID_CHARS, MAX_CRITERIA, MAX_DEPENDENCIES, MAX_EXTENSION_ENTRIES, MAX_ITEMS, MAX_REQUIREMENTS, NEXT_ACTION_CHARS, OBJECTIVE_CHARS, PROVENANCE_CHARS, REQUIREMENT_CHARS};
use crate::digest::{is_sha256_text, valid_sha256};
use crate::graph::{graph_error, validate_graph, GraphError};
use crate::identity::{CriterionId, EvidenceProviderId, PlanId, PlanItemId, VerificationDigest};
use crate::json::{decimal, write_decimal};
use crate::text::{owned, push_str, text_ok, valid_text};
use crate::text_map::TextMap;
use vstd::prelude::*;

verus! {

/// Lifecycle of a plan.
#[derive(Debug, Clone, Copy, PartialEq, Eq, Structural, Hash)]
pub enum PlanStatus {
    Draft,
    Active,
    Blocked,
    Closed,
    Cancelled,
}

/// Lifecycle of a plan item.
#[derive(Debug, Clone, Copy, PartialEq, Eq, Structural, Hash)]
pub enum PlanItemStatus {
    Pending,
    Actionable,
    InProgress,
    Blocked,
    Completed,
    Cancelled,
}

/// Kinds of evidence.
#[derive(Debug, Clone, Copy, PartialEq, Eq, Structural, PartialOrd, Ord, Hash)]
pub enum EvidenceKind {
    Command,
    Test,
    StaticAnalysis,
    Revision,
    Artifact,
    DelegatedRun,
    Benchmark,
    Research,
    HumanJudgment,
    Attestation,
}

/// Whether a subject worktree has uncommitted changes.
#[derive(Debug, Clone, Copy, PartialEq, Eq, Structural, Hash)]
pub enum SubjectState {
    Clean,
    Dirty,
}

/// How evidence must relate to the subject.
#[derive(Debug, Clone, Copy, PartialEq, Eq, Structural, Hash)]
pub enum SubjectPolicy {
    Exact,
}

/// Whether any or all matching observations must pass.
#[derive(Debug, Clone, Copy, PartialEq, Eq, Structural, Hash)]
pub enum EvidenceCardinality {
    Any,
    All,
}

/// Execution-derived kinds, which bind to a verification digest.
pub open spec fn is_execution_kind(kind: EvidenceKind) -> bool {
    kind == EvidenceKind::Command || kind == EvidenceKind::Test || kind == EvidenceKind::StaticAnalysis
        || kind == EvidenceKind::DelegatedRun || kind == EvidenceKind::Benchmark
}

/// Checks `is_execution_kind`.
pub fn is_execution_evidence(kind: EvidenceKind) -> (r: bool)
    ensures
        r == is_execution_kind(kind),
{
    match kind {
        EvidenceKind::Command | EvidenceKind::Test | EvidenceKind::StaticAnalysis
        | EvidenceKind::DelegatedRun | EvidenceKind::Benchmark => true,
        _ => false,
    }
}

/// Position of a kind in the declared order of kinds.
pub open spec fn kind_index(k: EvidenceKind) -> int {
    match k {
        EvidenceKind::Command => 0,
        EvidenceKind::Test => 1,
        EvidenceKind::StaticAnalysis => 2,
        EvidenceKind::Revision => 3,
        EvidenceKind::Artifact => 4,
        EvidenceKind::DelegatedRun => 5,
        EvidenceKind::Benchmark => 6,
        EvidenceKind::Research => 7,
        EvidenceKind::HumanJudgment => 8,
        EvidenceKind::Attestation => 9,
    }
}

/// Every kind, in declared order.
pub open spec fn all_kinds_seq() -> Seq<EvidenceKind> {
    seq![
        EvidenceKind::Command,
        EvidenceKind::Test,
        EvidenceKind::StaticAnalysis,
        EvidenceKind::Revision,
        EvidenceKind::Artifact,
        EvidenceKind::DelegatedRun,
        EvidenceKind::Benchmark,
        EvidenceKind::Research,
        EvidenceKind::HumanJudgment,
        EvidenceKind::Attestation,
    ]
}

/// Every kind, in declared order.
pub fn all_kinds() -> (r: Vec<EvidenceKind>)
    ensures
        r@ == all_kinds_seq(),
        forall|i: int| 0 <= i < 10 ==> kind_index(#[trigger] r@[i]) == i,
{
    let r = vec![
        EvidenceKind::Command,
        EvidenceKind::Test,
        EvidenceKind::StaticAnalysis,
        EvidenceKind::Revision,
        EvidenceKind::Artifact,
        EvidenceKind::DelegatedRun,
        EvidenceKind::Benchmark,
        EvidenceKind::Research,
        EvidenceKind::HumanJudgment,
        EvidenceKind::Attestation,
    ];
    assert(r@ =~= all_kinds_seq());
    r
}

/// The serialized name of a kind.
pub open spec fn kind_text(k: EvidenceKind) -> Seq<char> {
    match k {
        EvidenceKind::Command => "command"@,
        EvidenceKind::Test => "test"@,
        EvidenceKind::StaticAnalysis => "static_analysis"@,
        EvidenceKind::Revision => "revision"@,
        EvidenceKind::Artifact => "artifact"@,
        EvidenceKind::DelegatedRun => "delegated_run"@,
        EvidenceKind::Benchmark => "benchmark"@,
        EvidenceKind::Research => "research"@,
        EvidenceKind::HumanJudgment => "human_judgment"@,
        EvidenceKind::Attestation => "attestation"@,
    }
}

/// The serialized name of a kind (see `kind_text`).
pub fn kind_name(k: EvidenceKind) -> (r: &'static str)
    ensures
        r@ == kind_text(k),
{
    match k {
        EvidenceKind::Command => "command",
        EvidenceKind::Test => "test",
        EvidenceKind::StaticAnalysis => "static_analysis",
        EvidenceKind::Revision => "revision",
        EvidenceKind::Artifact => "artifact",
        EvidenceKind::DelegatedRun => "delegated_run",
        EvidenceKind::Benchmark => "benchmark",
        EvidenceKind::Research => "research",
        EvidenceKind::HumanJudgment => "human_judgment",
        EvidenceKind::Attestation => "attestation",
    }
}

/// The serialized name of a plan status.
pub open spec fn plan_status_text(s: PlanStatus) -> Seq<char> {
    match s {
        PlanStatus::Draft => "draft"@,
        PlanStatus::Active => "active"@,
        PlanStatus::Blocked => "blocked"@,
        PlanStatus::Closed => "closed"@,
        PlanStatus::Cancelled => "cancelled"@,
    }
}

/// The serialized name of a plan status (see `plan_status_text`).
pub fn plan_status_name(s: PlanStatus) -> (r: &'static str)
    ensures
        r@ == plan_status_text(s),
{
    match s {
        PlanStatus::Draft => "draft",
        PlanStatus::Active => "active",
        PlanStatus::Blocked => "blocked",
        PlanStatus::Closed => "closed",
        PlanStatus::Cancelled => "cancelled",
    }
}

/// The serialized name of an item status.
pub open spec fn item_status_text(s: PlanItemStatus) -> Seq<char> {
    match s {
        PlanItemStatus::Pending => "pending"@,
        PlanItemStatus::Actionable => "actionable"@,
        PlanItemStatus::InProgress => "in_progress"@,
        PlanItemStatus::Blocked => "blocked"@,
        PlanItemStatus::Completed => "completed"@,
        PlanItemStatus::Cancelled => "cancelled"@,
    }
}

/// The serialized name of an item status (see `item_status_text`).
pub fn item_status_name(s: PlanItemStatus) -> (r: &'static str)
    ensures
        r@ == item_status_text(s),
{
    match s {
        PlanItemStatus::Pending => "pending",
        PlanItemStatus::Actionable => "actionable",
        PlanItemStatus::InProgress => "in_progress",
        PlanItemStatus::Blocked => "blocked",
        PlanItemStatus::Completed => "completed",
        PlanItemStatus::Cancelled => "cancelled",
    }
}

/// The serialized name of a subject state.
pub open spec fn subject_state_text(s: SubjectState) -> Seq<char> {
    match s {
        SubjectState::Clean => "clean"@,
        SubjectState::Dirty => "dirty"@,
    }
}

/// The serialized name of a subject state (see `subject_state_text`).
pub fn subject_state_name(s: SubjectState) -> (r: &'static str)
    ensures
        r@ == subject_state_text(s),
{
    match s {
        SubjectState::Clean => "clean",
        SubjectState::Dirty => "dirty",
    }
}

/// A set of evidence kinds, kept in declared order without repeats.
#[derive(Debug, PartialEq, Eq, Hash)]
pub struct KindSet {
    kinds: Vec<EvidenceKind>,
}

/// Kinds strictly increasing in declared order.
pub open spec fn kinds_ordered(ks: Seq<EvidenceKind>) -> bool {
    forall|i: int, j: int| 0 <= i < j < ks.len() ==> kind_index(#[trigger] ks[i]) < kind_index(#[trigger] ks[j])
}

impl View for KindSet {
    type V = Set<EvidenceKind>;

    closed spec fn view(&self) -> Set<EvidenceKind> {
        Set::new(|k: EvidenceKind| self.kinds@.contains(k))
    }
}

impl KindSet {
    #[verifier::type_invariant]
    spec fn inv(self) -> bool {
        kinds_ordered(self.kinds@)
    }

    /// The kinds of `candidates` that satisfy membership, in declared order.
    fn collect(candidates: &Vec<EvidenceKind>, extra: Option<EvidenceKind>) -> (r: KindSet)
        ensures
            forall|k: EvidenceKind| r@.contains(k) <==> (candidates@.contains(k) || extra == Some(k)),
    {
        let all = all_kinds();
        let mut kinds: Vec<EvidenceKind> = Vec::new();
        let mut i: usize = 0;
        while i < 10
            invariant
                i <= 10,
                all@ == all_kinds_seq(),
                forall|t: int| 0 <= t < 10 ==> kind_index(#[trigger] all@[t]) == t,
                kinds_ordered(kinds@),
                forall|a: int| 0 <= a < kinds@.len() ==> kind_index(#[trigger] kinds@[a]) < i,
                forall|k: EvidenceKind| #[trigger] kinds@.contains(k) <==> (kind_index(k) < i && (candidates@.contains(k) || extra == Some(k))),
            decreases 10 - i,
        {
            let k = all[i];
            let mut member = match extra {
                Some(e) => e == k,
                None => false,
            };
            let mut j: usize = 0;
            while j < candidates.len()
                invariant
                    j <= candidates.len(),
                    member == ((extra == Some(k)) || exists|t: int| 0 <= t < j && candidates@[t] == k),
                decreases candidates.len() - j,
            {
                if candidates[j] == k {
                    member = true;
                }
                j = j + 1;
            }
            if member {
                let ghost prev = kinds@;
                kinds.push(k);
                proof {
                    assert forall|q: EvidenceKind| #[trigger] kinds@.contains(q) <==> (prev.contains(q) || q == k) by {
                        if q == k {
                            assert(kinds@[kinds@.len() - 1] == k);
                        }
                        if kinds@.contains(q) && q != k {
                            let a = choose|a: int| 0 <= a < kinds@.len() && kinds@[a] == q;
                            assert(prev[a] == q);
                        }
                        if prev.contains(q) {
                            let a = choose|a: int| 0 <= a < prev.len() && prev[a] == q;
                            assert(kinds@[a] == q);
                        }
                    }
                }
            } else {
                proof {
                    if candidates@.contains(k) {
                        let t = choose|t: int| 0 <= t < candidates@.len() && candidates@[t] == k;
                        assert(false);
                    }
                }
            }
            proof {
                assert forall|q: EvidenceKind| #[trigger] kinds@.contains(q) <==> (kind_index(q) < i + 1 && (candidates@.contains(q) || extra == Some(q))) by {
                    if kind_index(q) == i {
                        assert(q == k);
                    }
                }
            }
            i = i + 1;
        }
        proof {
            assert forall|q: EvidenceKind| kind_index(q) < 10 by {}
        }
        KindSet { kinds }
    }

    /// An empty set.
    pub fn new() -> (r: KindSet)
        ensures
            r@ == Set::<EvidenceKind>::empty(),
    {
        let r = KindSet { kinds: Vec::new() };
        assert(r@ =~= Set::<EvidenceKind>::empty());
        r
    }

    /// The set of the given kinds.
    pub fn from_kinds(kinds: &Vec<EvidenceKind>) -> (r: KindSet)
        ensures
            r@ == kinds@.to_set(),
    {
        let r = KindSet::collect(kinds, None);
        assert(r@ =~= kinds@.to_set());
        r
    }

    /// Adds a kind; true when it was not yet present.
    pub fn insert(&mut self, k: EvidenceKind) -> (added: bool)
        ensures
            final(self)@ == old(self)@.insert(k),
            added == !old(self)@.contains(k),
    {
        let added = !self.contains(k);
        let r = KindSet::collect(&self.kinds, Some(k));
        proof {
            assert(r@ =~= old(self)@.insert(k));
        }
        *self = r;
        added
    }

    /// Whether `k` is in the set.
    pub fn contains(&self, k: EvidenceKind) -> (r: bool)
        ensures
            r == self@.contains(k),
    {
        let mut i: usize = 0;
        while i < self.kinds.len()
            invariant
                i <= self.kinds.len(),
                forall|t: int| 0 <= t < i ==> self.kinds@[t] != k,
            decreases self.kinds.len() - i,
        {
            if self.kinds[i] == k {
                return true;
            }
            i = i + 1;
        }
        false
    }

    /// Number of kinds.
    pub fn len(&self) -> (n: usize)
        ensures
            n == self@.len(),
    {
        proof {
            use_type_invariant(self);
            self.lemma_len();
        }
        self.kinds.len()
    }

    /// Whether the set is empty.
    pub fn is_empty(&self) -> (b: bool)
        ensures
            b == (self@.len() == 0),
    {
        self.len() == 0
    }

    /// The kinds in declared order.
    pub fn kinds(&self) -> (r: &Vec<EvidenceKind>)
        ensures
            r@.to_set() == self@,
            kinds_ordered(r@),
    {
        proof {
            use_type_invariant(self);
        }
        assert(self.kinds@.to_set() =~= self@);
        &self.kinds
    }

    proof fn lemma_len(&self)
        requires
            kinds_ordered(self.kinds@),
        ensures
            self@.len() == self.kinds@.len(),
            self@.finite(),
    {
        assert(self.kinds@.no_duplicates()) by {
            assert forall|i: int, j: int| 0 <= i < self.kinds@.len() && 0 <= j < self.kinds@.len() && i != j implies self.kinds@[i] != self.kinds@[j] by {
                if i < j {
                    assert(kind_index(self.kinds@[i]) < kind_index(self.kinds@[j]));
                } else {
                    assert(kind_index(self.kinds@[j]) < kind_index(self.kinds@[i]));
                }
            }
        }
        self.kinds@.unique_seq_to_set();
        assert(self@ =~= self.kinds@.to_set());
    }
}

impl Clone for KindSet {
    fn clone(&self) -> (r: Self)
        ensures
            r@ == self@,
    {
        proof {
            use_type_invariant(self);
        }
        KindSet { kinds: self.kinds.clone() }
    }
}

/// The exact revision of the thing being planned against.
#[derive(Debug, PartialEq, Eq, Hash)]
pub struct SubjectRevision {
    pub subject_kind: String,
    pub repository_id: String,
    pub revision: String,
    pub state: SubjectState,
    pub dirty_digest: Option<String>,
}

/// Value of a subject revision.
pub struct SubjectView {
    pub subject_kind: Seq<char>,
    pub repository_id: Seq<char>,
    pub revision: Seq<char>,
    pub state: SubjectState,
    pub dirty_digest: Option<Seq<char>>,
}

/// View of an optional string.
pub open spec fn opt_chars(s: Option<String>) -> Option<Seq<char>> {
    match s {
        Some(v) => Some(v@),
        None => None,
    }
}

impl View for SubjectRevision {
    type V = SubjectView;

    open spec fn view(&self) -> SubjectView {
        SubjectView {
            subject_kind: self.subject_kind@,
            repository_id: self.repository_id@,
            revision: self.revision@,
            state: self.state,
            dirty_digest: opt_chars(self.dirty_digest),
        }
    }
}

/// A copy of an optional string.
pub fn copy_opt_string(s: &Option<String>) -> (r: Option<String>)
    ensures
        opt_chars(r) == opt_chars(*s),
        r == *s,
{
    match s {
        Some(v) => Some(v.clone()),
        None => None,
    }
}

/// Equality of optional strings by their characters.
pub fn opt_string_eq(a: &Option<String>, b: &Option<String>) -> (r: bool)
    ensures
        r == (opt_chars(*a) == opt_chars(*b)),
{
    match (a, b) {
        (Some(x), Some(y)) => *x == *y,
        (None, None) => true,
        _ => false,
    }
}

impl SubjectRevision {
    /// A copy of the subject.
    pub fn duplicate(&self) -> (r: SubjectRevision)
        ensures
            r@ == self@,
            r == *self,
    {
        SubjectRevision {
            subject_kind: self.subject_kind.clone(),
            repository_id: self.repository_id.clone(),
            revision: self.revision.clone(),
            state: self.state,
            dirty_digest: copy_opt_string(&self.dirty_digest),
        }
    }

    /// Equality of subjects by value.
    pub fn same(&self, other: &SubjectRevision) -> (r: bool)
        ensures
            r == (self@ == other@),
    {
        self.subject_kind == other.subject_kind && self.repository_id == other.repository_id
            && self.revision == other.revision && self.state == other.state && opt_string_eq(
            &self.dirty_digest,
            &other.dirty_digest,
        )
    }

    /// Validates the subject (see `subject_error`).
    pub fn validate(&self) -> (r: Result<(), ValidationError>)
        ensures
            r == as_result(subject_error(self@)),
    {
        check_text(self.subject_kind.as_str(), "subject.kind", 64)?;
        check_text(self.repository_id.as_str(), "subject.repository_id", 256)?;
        check_text(self.revision.as_str(), "subject.revision", 256)?;
        let ok = match (&self.state, &self.dirty_digest) {
            (SubjectState::Clean, None) => true,
            (SubjectState::Dirty, Some(d)) => valid_sha256(d.as_str()),
            _ => false,
        };
        if ok {
            Ok(())
        } else {
            Err(
                ValidationError::Invalid(
                    "clean subjects omit dirty digest; dirty subjects require sha256 digest",
                ),
            )
        }
    }
}

impl Clone for SubjectRevision {
    fn clone(&self) -> (r: Self)
        ensures
            r == *self,
    {
        self.duplicate()
    }
}

/// A reference to a produced artifact.
#[derive(Debug, PartialEq, Eq, Hash)]
pub struct ArtifactRef {
    pub reference: String,
    pub digest: Option<String>,
    pub media_type: Option<String>,
}

impl ArtifactRef {
    /// A copy of the reference.
    pub fn duplicate(&self) -> (r: ArtifactRef)
        ensures
            r == *self,
    {
        ArtifactRef {
            reference: self.reference.clone(),
            digest: copy_opt_string(&self.digest),
            media_type: copy_opt_string(&self.media_type),
        }
    }

    /// Validates the reference (see `artifact_error`).
    pub fn validate(&self) -> (r: Result<(), ValidationError>)
        ensures
            r == as_result(artifact_error(*self)),
    {
        check_text(self.reference.as_str(), "artifact.reference", ARTIFACT_REF_CHARS)?;
        if let Some(d) = &self.digest {
            if !valid_sha256(d.as_str()) {
                return Err(ValidationError::Invalid("artifact digest must be sha256:<64 lowercase hex>"));
            }
        }
        if let Some(m) = &self.media_type {
            check_text(m.as_str(), "artifact.media_type", 128)?;
        }
        Ok(())
    }
}

impl Clone for ArtifactRef {
    fn clone(&self) -> (r: Self)
        ensures
            r == *self,
    {
        self.duplicate()
    }
}

/// What evidence must be observed for a criterion.
#[derive(Debug, PartialEq, Eq, Hash)]
pub struct EvidenceRequirement {
    pub description: String,
    pub kind: EvidenceKind,
    pub provider: Option<EvidenceProviderId>,
    pub subject_policy: SubjectPolicy,
    pub cardinality: EvidenceCardinality,
    pub min_count: u16,
    pub allow_human_judgment: bool,
    pub expected_verification_digest: Option<VerificationDigest>,
}

/// View of an optional provider identifier.
pub open spec fn opt_provider(p: Option<EvidenceProviderId>) -> Option<Seq<char>> {
    match p {
        Some(v) => Some(v@),
        None => None,
    }
}

/// View of an optional verification digest.
pub open spec fn opt_digest(d: Option<VerificationDigest>) -> Option<Seq<char>> {
    match d {
        Some(v) => Some(v@),
        None => None,
    }
}

/// Two requirements are the same constraint: every field is equal.
pub open spec fn same_requirement(a: EvidenceRequirement, b: EvidenceRequirement) -> bool {
    &&& a.description@ == b.description@
    &&& a.kind == b.kind
    &&& opt_provider(a.provider) == opt_provider(b.provider)
    &&& a.subject_policy == b.subject_policy
    &&& a.cardinality == b.cardinality
    &&& a.min_count == b.min_count
    &&& a.allow_human_judgment == b.allow_human_judgment
    &&& opt_digest(a.expected_verification_digest) == opt_digest(b.expected_verification_digest)
}

impl EvidenceRequirement {
    /// A copy of the requirement.
    pub fn duplicate(&self) -> (r: EvidenceRequirement)
        ensures
            r == *self,
    {
        EvidenceRequirement {
            description: self.description.clone(),
            kind: self.kind,
            provider: match &self.provider {
                Some(p) => Some(p.duplicate()),
                None => None,
            },
            subject_policy: self.subject_policy,
            cardinality: self.cardinality,
            min_count: self.min_count,
            allow_human_judgment: self.allow_human_judgment,
            expected_verification_digest: match &self.expected_verification_digest {
                Some(d) => Some(d.duplicate()),
                None => None,
            },
        }
    }

    /// Checks `same_requirement`.
    pub fn same(&self, other: &EvidenceRequirement) -> (r: bool)
        ensures
            r == same_requirement(*self, *other),
    {
        let p = match (&self.provider, &other.provider) {
            (Some(a), Some(b)) => a.same(b),
            (None, None) => true,
            _ => false,
        };
        let d = match (&self.expected_verification_digest, &other.expected_verification_digest) {
            (Some(a), Some(b)) => a.same(b),
            (None, None) => true,
            _ => false,
        };
        self.description == other.description && self.kind == other.kind && p && self.subject_policy
            == other.subject_policy && self.cardinality == other.cardinality && self.min_count
            == other.min_count && self.allow_human_judgment == other.allow_human_judgment && d
    }

    /// Validates the requirement (see `requirement_error`).
    pub fn validate(&self) -> (r: Result<(), ValidationError>)
        ensures
            r == as_result(requirement_error(*self)),
    {
        check_text(self.description.as_str(), "requirement.description", REQUIREMENT_CHARS)?;
        if self.min_count == 0 {
            return Err(ValidationError::Invalid("requirement min_count must be positive"));
        }
        if self.kind == EvidenceKind::HumanJudgment && !self.allow_human_judgment {
            return Err(ValidationError::Invalid("human judgment kind must be explicitly allowed"));
        }
        Ok(())
    }
}

impl Clone for EvidenceRequirement {
    fn clone(&self) -> (r: Self)
        ensures
            r == *self,
    {
        self.duplicate()
    }
}

/// A statement that must hold for an item, with the evidence it needs.
#[derive(Debug, Clone, PartialEq, Eq, Hash)]
pub struct AcceptanceCriterion {
    pub id: CriterionId,
    pub statement: String,
    pub human_judgment_allowed: bool,
    pub requirements: Vec<EvidenceRequirement>,
}

impl AcceptanceCriterion {
    /// Validates the criterion (see `criterion_error`).
    #[verifier::loop_isolation(false)]
    pub fn validate(&self) -> (r: Result<(), ValidationError>)
        ensures
            r == as_result(criterion_error(*self)),
    {
        check_text(self.statement.as_str(), "criterion.statement", CRITERION_CHARS)?;
        check_count(self.requirements.len(), "criterion.requirements", MAX_REQUIREMENTS)?;
        let mut i: usize = 0;
        while i < self.requirements.len()
            invariant
                i <= self.requirements.len(),
                requirements_error(self.requirements@, i as int) is None,
            decreases self.requirements.len() - i,
        {
            proof {
                lemma_requirements_error_stable(self.requirements@, i + 1, self.requirements@.len() as int);
            }
            self.requirements[i].validate()?;
            let mut j: usize = 0;
            while j < i
                invariant
                    j <= i < self.requirements.len(),
                    forall|k: int| 0 <= k < j ==> !same_requirement(
                        #[trigger] self.requirements@[k],
                        self.requirements@[i as int],
                    ),
                decreases i - j,
            {
                if self.requirements[j].same(&self.requirements[i]) {
                    proof {
                        lemma_requirements_error_stable(self.requirements@, i + 1, self.requirements@.len() as int);
                    }
                    return Err(ValidationError::Duplicate("evidence requirement"));
                }
                j = j + 1;
            }
            i = i + 1;
        }
        Ok(())
    }
}

/// One unit of planned work.
#[derive(Debug, Clone, PartialEq, Eq, Hash)]
pub struct PlanItem {
    pub id: PlanItemId,
    pub position: u32,
    pub parent: Option<PlanItemId>,
    pub dependencies: Vec<PlanItemId>,
    pub status: PlanItemStatus,
    pub description: String,
    pub criteria: Vec<AcceptanceCriterion>,
    pub blocker: Option<String>,
    pub next_action: Option<String>,
}

impl PlanItem {
    /// Validates the item on its own (see `item_error`).
    #[verifier::loop_isolation(false)]
    pub fn validate(&self) -> (r: Result<(), ValidationError>)
        ensures
            r == as_result(item_error(*self)),
    {
        check_text(self.description.as_str(), "item.description", DESCRIPTION_CHARS)?;
        check_count(self.dependencies.len(), "item.dependencies", MAX_DEPENDENCIES)?;
        check_count(self.criteria.len(), "item.criteria", MAX_CRITERIA)?;
        let mut i: usize = 0;
        while i < self.dependencies.len()
            invariant
                i <= self.dependencies.len(),
                forall|k: int| 0 <= k < i ==> (#[trigger] self.dependencies@[k])@ != self.id@,
            decreases self.dependencies.len() - i,
        {
            if self.dependencies[i].same(&self.id) {
                return Err(ValidationError::Invalid("self dependency"));
            }
            i = i + 1;
        }
        if let Some(p) = &self.parent {
            if p.same(&self.id) {
                return Err(ValidationError::Invalid("self parent"));
            }
        }
        if let Some(b) = &self.blocker {
            check_text(b.as_str(), "item.blocker", BLOCKER_CHARS)?;
        }
        if let Some(n) = &self.next_action {
            check_text(n.as_str(), "item.next_action", NEXT_ACTION_CHARS)?;
        }
        if self.status == PlanItemStatus::Blocked && self.blocker.is_none() {
            return Err(ValidationError::Invalid("blocked item requires blocker"));
        }
        if self.status != PlanItemStatus::Blocked && self.blocker.is_some() {
            return Err(ValidationError::Invalid("blocker requires blocked item"));
        }
        let mut i: usize = 0;
        while i < self.criteria.len()
            invariant
                i <= self.criteria.len(),
                criteria_error(self.criteria@, i as int) is None,
            decreases self.criteria.len() - i,
        {
            proof {
                lemma_criteria_error_stable(self.criteria@, i + 1, self.criteria@.len() as int);
            }
            self.criteria[i].validate()?;
            let mut j: usize = 0;
            while j < i
                invariant
                    j <= i < self.criteria.len(),
                    forall|k: int| 0 <= k < j ==> (#[trigger] self.criteria@[k]).id@ != self.criteria@[i as int].id@,
                decreases i - j,
            {
                if self.criteria[j].id.same(&self.criteria[i].id) {
                    proof {
                        lemma_criteria_error_stable(self.criteria@, i + 1, self.criteria@.len() as int);
                    }
                    return Err(ValidationError::Duplicate("criterion id"));
                }
                j = j + 1;
            }
            i = i + 1;
        }
        let mut i: usize = 0;
        while i < self.dependencies.len()
            invariant
                i <= self.dependencies.len(),
                first_duplicate_id(self.dependencies@, i as int) is None,
            decreases self.dependencies.len() - i,
        {
            let mut j: usize = 0;
            while j < i
                invariant
                    j <= i < self.dependencies.len(),
                    forall|k: int| 0 <= k < j ==> (#[trigger] self.dependencies@[k])@ != self.dependencies@[i as int]@,
                decreases i - j,
            {
                if self.dependencies[j].same(&self.dependencies[i]) {
                    proof {
                        lemma_first_duplicate_id_stable(self.dependencies@, i + 1, self.dependencies@.len() as int);
                    }
                    return Err(ValidationError::Duplicate("dependency"));
                }
                j = j + 1;
            }
            i = i + 1;
        }
        Ok(())
    }
}

/// A bounded plan: objective, ordered items, provenance and lifecycle.
#[derive(Debug, Clone, PartialEq, Eq, Hash)]
pub struct Plan {
    pub schema_version: u32,
    pub id: PlanId,
    pub revision: u64,
    pub objective: String,
    pub status: PlanStatus,
    pub provenance: TextMap,
    pub items: Vec<PlanItem>,
    pub subject: Option<SubjectRevision>,
}

/// Why a plan or one of its parts is invalid.
#[derive(Debug, Clone, Copy, PartialEq, Eq)]
pub enum ValidationError {
    /// A text field is empty, holds NUL, or is longer than `max` scalar values.
    Text { field: &'static str, max: usize },
    /// A collection holds more than `max` entries.
    Count { field: &'static str, actual: usize, max: usize },
    /// A value occurs twice.
    Duplicate(&'static str),
    /// A constraint between fields is violated.
    Invalid(&'static str),
    /// The schema version is not 1 or 2.
    UnknownSchema(u32),
    /// The dependency or parent graph has a cycle.
    Graph(GraphError),
}

/// The message of a validation error, as it is displayed.
pub open spec fn validation_message(e: ValidationError) -> Seq<char> {
    match e {
        ValidationError::Text { field, max } => "text field "@ + field@
            + " is empty, contains NUL, or exceeds "@ + decimal(max as nat) + " Unicode scalar values"@,
        ValidationError::Count { field, actual, max } => field@ + " contains "@ + decimal(actual as nat)
            + " entries; maximum is "@ + decimal(max as nat),
        ValidationError::Duplicate(what) => "duplicate "@ + what@,
        ValidationError::Invalid(what) => "invalid value: "@ + what@,
        ValidationError::UnknownSchema(v) => "unknown schema version "@ + decimal(v as nat),
        ValidationError::Graph(GraphError::DependencyCycle) => "dependency graph contains a cycle"@,
        ValidationError::Graph(GraphError::ParentCycle) => "parent graph contains a cycle"@,
    }
}

impl ValidationError {
    /// Human readable message (see `validation_message`).
    pub fn message(&self) -> (m: String)
        ensures
            m@ == validation_message(*self),
    {
        match self {
            ValidationError::Text { field, max } => {
                let mut m = owned("text field ");
                push_str(&mut m, field);
                push_str(&mut m, " is empty, contains NUL, or exceeds ");
                write_decimal(*max as u64, &mut m);
                push_str(&mut m, " Unicode scalar values");
                m
            },
            ValidationError::Count { field, actual, max } => {
                let mut m = owned(field);
                push_str(&mut m, " contains ");
                write_decimal(*actual as u64, &mut m);
                push_str(&mut m, " entries; maximum is ");
                write_decimal(*max as u64, &mut m);
                m
            },
            ValidationError::Duplicate(what) => {
                let mut m = owned("duplicate ");
                push_str(&mut m, what);
                m
            },
            ValidationError::Invalid(what) => {
                let mut m = owned("invalid value: ");
                push_str(&mut m, what);
                m
            },
            ValidationError::UnknownSchema(v) => {
                let mut m = owned("unknown schema version ");
                write_decimal(*v as u64, &mut m);
                m
            },
            ValidationError::Graph(GraphError::DependencyCycle) => owned("dependency graph contains a cycle"),
            ValidationError::Graph(GraphError::ParentCycle) => owned("parent graph contains a cycle"),
        }
    }
}

/// `Ok` when no error, else the error.
pub open spec fn as_result(e: Option<ValidationError>) -> Result<(), ValidationError> {
    match e {
        Some(x) => Err(x),
        None => Ok(()),
    }
}

/// The first of two possible errors.
pub open spec fn first(a: Option<ValidationError>, b: Option<ValidationError>) -> Option<ValidationError> {
    if a is Some {
        a
    } else {
        b
    }
}

/// The text error of a field.
pub open spec fn text_error(s: Seq<char>, field: &'static str, max: usize) -> Option<ValidationError> {
    if valid_text(s, max as nat) {
        None
    } else {
        Some(ValidationError::Text { field, max })
    }
}

/// The text error of an optional field.
pub open spec fn opt_text_error(s: Option<String>, field: &'static str, max: usize) -> Option<ValidationError> {
    match s {
        Some(v) => text_error(v@, field, max),
        None => None,
    }
}

/// The count error of a collection.
pub open spec fn count_error(len: usize, field: &'static str, max: usize) -> Option<ValidationError> {
    if len > max {
        Some(ValidationError::Count { field, actual: len, max })
    } else {
        None
    }
}

/// Validates bounded text.
pub fn check_text(s: &str, field: &'static str, max: usize) -> (r: Result<(), ValidationError>)
    ensures
        r == as_result(text_error(s@, field, max)),
{
    if text_ok(s, max) {
        Ok(())
    } else {
        Err(ValidationError::Text { field, max })
    }
}

/// Validates a collection size.
pub fn check_count(len: usize, field: &'static str, max: usize) -> (r: Result<(), ValidationError>)
    ensures
        r == as_result(count_error(len, field, max)),
{
    if len > max {
        Err(ValidationError::Count { field, actual: len, max })
    } else {
        Ok(())
    }
}

/// The first error of a subject revision.
pub open spec fn subject_error(s: SubjectView) -> Option<ValidationError> {
    first(
        text_error(s.subject_kind, "subject.kind", 64),
        first(
            text_error(s.repository_id, "subject.repository_id", 256),
            first(
                text_error(s.revision, "subject.revision", 256),
                if (s.state == SubjectState::Clean && s.dirty_digest is None) || (s.state
                    == SubjectState::Dirty && s.dirty_digest is Some && is_sha256_text(
                    s.dirty_digest->0,
                )) {
                    None
                } else {
                    Some(
                        ValidationError::Invalid(
                            "clean subjects omit dirty digest; dirty subjects require sha256 digest",
                        ),
                    )
                },
            ),
        ),
    )
}

/// The first error of an artifact reference.
pub open spec fn artifact_error(a: ArtifactRef) -> Option<ValidationError> {
    first(
        text_error(a.reference@, "artifact.reference", ARTIFACT_REF_CHARS),
        first(
            if a.digest is Some && !is_sha256_text(a.digest->0@) {
                Some(ValidationError::Invalid("artifact digest must be sha256:<64 lowercase hex>"))
            } else {
                None
            },
            opt_text_error(a.media_type, "artifact.media_type", 128),
        ),
    )
}

/// The first error of an evidence requirement.
pub open spec fn requirement_error(r: EvidenceRequirement) -> Option<ValidationError> {
    first(
        text_error(r.description@, "requirement.description", REQUIREMENT_CHARS),
        if r.min_count == 0 {
            Some(ValidationError::Invalid("requirement min_count must be positive"))
        } else if r.kind == EvidenceKind::HumanJudgment && !r.allow_human_judgment {
            Some(ValidationError::Invalid("human judgment kind must be explicitly allowed"))
        } else {
            None
        },
    )
}

/// The first error among the first `n` requirements: each is validated, then
/// compared with those before it.
pub open spec fn requirements_error(reqs: Seq<EvidenceRequirement>, n: int) -> Option<ValidationError>
    decreases n,
{
    if n <= 0 {
        None
    } else {
        first(
            requirements_error(reqs, n - 1),
            first(
                requirement_error(reqs[n - 1]),
                if exists|k: int| 0 <= k < n - 1 && same_requirement(#[trigger] reqs[k], reqs[n - 1]) {
                    Some(ValidationError::Duplicate("evidence requirement"))
                } else {
                    None
                },
            ),
        )
    }
}

/// The first error of an acceptance criterion.
pub open spec fn criterion_error(c: AcceptanceCriterion) -> Option<ValidationError> {
    first(
        text_error(c.statement@, "criterion.statement", CRITERION_CHARS),
        first(
            count_error(c.requirements.len(), "criterion.requirements", MAX_REQUIREMENTS),
            requirements_error(c.requirements@, c.requirements@.len() as int),
        ),
    )
}

/// The first error among the first `n` criteria: each is validated, then its
/// identifier is compared with those before it.
pub open spec fn criteria_error(cs: Seq<AcceptanceCriterion>, n: int) -> Option<ValidationError>
    decreases n,
{
    if n <= 0 {
        None
    } else {
        first(
            criteria_error(cs, n - 1),
            first(
                criterion_error(cs[n - 1]),
                if exists|k: int| 0 <= k < n - 1 && (#[trigger] cs[k]).id@ == cs[n - 1].id@ {
                    Some(ValidationError::Duplicate("criterion id"))
                } else {
                    None
                },
            ),
        )
    }
}

/// `Some` when one of the first `n` identifiers repeats an earlier one.
pub open spec fn first_duplicate_id(ids: Seq<PlanItemId>, n: int) -> Option<ValidationError>
    decreases n,
{
    if n <= 0 {
        None
    } else {
        first(
            first_duplicate_id(ids, n - 1),
            if exists|k: int| 0 <= k < n - 1 && (#[trigger] ids[k])@ == ids[n - 1]@ {
                Some(ValidationError::Duplicate("dependency"))
            } else {
                None
            },
        )
    }
}

/// The first error of an item on its own.
pub open spec fn item_error(i: PlanItem) -> Option<ValidationError> {
    first(
        text_error(i.description@, "item.description", DESCRIPTION_CHARS),
        first(
            count_error(i.dependencies.len(), "item.dependencies", MAX_DEPENDENCIES),
            first(
                count_error(i.criteria.len(), "item.criteria", MAX_CRITERIA),
                first(
                    if exists|k: int| 0 <= k < i.dependencies@.len() && (#[trigger] i.dependencies@[k])@ == i.id@ {
                        Some(ValidationError::Invalid("self dependency"))
                    } else {
                        None
                    },
                    first(
                        if i.parent is Some && i.parent->0@ == i.id@ {
                            Some(ValidationError::Invalid("self parent"))
                        } else {
                            None
                        },
                        first(
                            opt_text_error(i.blocker, "item.blocker", BLOCKER_CHARS),
                            first(
                                opt_text_error(i.next_action, "item.next_action", NEXT_ACTION_CHARS),
                                first(
                                    if i.status == PlanItemStatus::Blocked && i.blocker is None {
                                        Some(ValidationError::Invalid("blocked item requires blocker"))
                                    } else if i.status != PlanItemStatus::Blocked && i.blocker is Some {
                                        Some(ValidationError::Invalid("blocker requires blocked item"))
                                    } else {
                                        None
                                    },
                                    first(
                                        criteria_error(i.criteria@, i.criteria@.len() as int),
                                        first_duplicate_id(i.dependencies@, i.dependencies@.len() as int),
                                    ),
                                ),
                            ),
                        ),
                    ),
                ),
            ),
        ),
    )
}

/// The first error among the first `n` provenance entries.
pub open spec fn provenance_error(e: Seq<(Seq<char>, Seq<char>)>, n: int) -> Option<ValidationError>
    decreases n,
{
    if n <= 0 {
        None
    } else {
        first(
            provenance_error(e, n - 1),
            first(
                text_error(e[n - 1].0, "plan.provenance.key", ID_CHARS),
                text_error(e[n - 1].1, "plan.provenance.value", PROVENANCE_CHARS),
            ),
        )
    }
}

/// The first error among the first `n` items: each is validated, then its
/// identifier is compared with those before it.
pub open spec fn items_error(items: Seq<PlanItem>, n: int) -> Option<ValidationError>
    decreases n,
{
    if n <= 0 {
        None
    } else {
        first(
            items_error(items, n - 1),
            first(
                item_error(items[n - 1]),
                if exists|k: int| 0 <= k < n - 1 && (#[trigger] items[k]).id@ == items[n - 1].id@ {
                    Some(ValidationError::Duplicate("item id"))
                } else {
                    None
                },
            ),
        )
    }
}

/// Some item carries this identifier.
pub open spec fn has_item_id(items: Seq<PlanItem>, id: Seq<char>) -> bool {
    exists|k: int| 0 <= k < items.len() && (#[trigger] items[k]).id@ == id
}

/// The first dangling dependency among the first `n` of an item.
pub open spec fn dangling_dependency(items: Seq<PlanItem>, deps: Seq<PlanItemId>, n: int) -> bool
    decreases n,
{
    if n <= 0 {
        false
    } else {
        dangling_dependency(items, deps, n - 1) || !has_item_id(items, deps[n - 1]@)
    }
}

/// The first dangling reference among the first `n` items.
pub open spec fn references_error(items: Seq<PlanItem>, n: int) -> Option<ValidationError>
    decreases n,
{
    if n <= 0 {
        None
    } else {
        first(
            references_error(items, n - 1),
            if dangling_dependency(items, items[n - 1].dependencies@, items[n - 1].dependencies@.len() as int) {
                Some(ValidationError::Invalid("missing dependency"))
            } else if items[n - 1].parent is Some && !has_item_id(items, items[n - 1].parent->0@) {
                Some(ValidationError::Invalid("missing parent"))
            } else {
                None
            },
        )
    }
}

/// The first error of a plan.
pub open spec fn plan_error(p: Plan) -> Option<ValidationError> {
    plan_parts_error(p.schema_version, p.objective@, p.items@, p.provenance@, p.subject)
}

/// The first error of a plan with these parts.
pub open spec fn plan_parts_error(
    schema_version: u32,
    objective: Seq<char>,
    items: Seq<PlanItem>,
    provenance: Seq<(Seq<char>, Seq<char>)>,
    subject: Option<SubjectRevision>,
) -> Option<ValidationError> {
    if !(schema_version == 1 || schema_version == 2) {
        Some(ValidationError::UnknownSchema(schema_version))
    } else {
        first(
            text_error(objective, "plan.objective", OBJECTIVE_CHARS),
            first(
                count_error(items.len() as usize, "plan.items", MAX_ITEMS),
                first(
                    count_error(provenance.len() as usize, "plan.provenance", MAX_EXTENSION_ENTRIES),
                    first(
                        provenance_error(provenance, provenance.len() as int),
                        first(
                            items_error(items, items.len() as int),
                            first(
                                references_error(items, items.len() as int),
                                first(
                                    match graph_error(items) {
                                        Some(g) => Some(ValidationError::Graph(g)),
                                        None => None,
                                    },
                                    match subject {
                                        Some(s) => subject_error(s@),
                                        None => None,
                                    },
                                ),
                            ),
                        ),
                    ),
                ),
            ),
        )
    }
}

/// Checks whether some item carries `id`.
pub fn find_item_id(items: &Vec<PlanItem>, id: &PlanItemId) -> (r: bool)
    ensures
        r == has_item_id(items@, id@),
{
    let mut k: usize = 0;
    while k < items.len()
        invariant
            k <= items.len(),
            forall|j: int| 0 <= j < k ==> (#[trigger] items@[j]).id@ != id@,
        decreases items.len() - k,
    {
        if items[k].id.same(id) {
            return true;
        }
        k = k + 1;
    }
    false
}

impl Plan {
    /// A new Draft plan at revision zero with the current schema, validated.
    pub fn new(id: PlanId, objective: &str, items: Vec<PlanItem>) -> (r: Result<Plan, ValidationError>)
        ensures
            match r {
                Ok(p) => {
                    &&& p.schema_version == crate::SCHEMA_VERSION
                    &&& p.id == id
                    &&& p.revision == 0
                    &&& p.objective@ == objective@
                    &&& p.status == PlanStatus::Draft
                    &&& p.provenance@.len() == 0
                    &&& p.items == items
                    &&& p.subject is None
                    &&& plan_error(p) is None
                },
                Err(e) => plan_parts_error(
                    crate::SCHEMA_VERSION,
                    objective@,
                    items@,
                    Seq::empty(),
                    None,
                ) == Some(e),
            },
    {
        let plan = Plan {
            schema_version: crate::SCHEMA_VERSION,
            id,
            revision: 0,
            objective: owned(objective),
            status: PlanStatus::Draft,
            provenance: TextMap::new(),
            items,
            subject: None,
        };
        match plan.validate() {
            Ok(()) => Ok(plan),
            Err(e) => Err(e),
        }
    }

    /// Validates the plan (see `plan_error`).
    #[verifier::loop_isolation(false)]
    pub fn validate(&self) -> (r: Result<(), ValidationError>)
        ensures
            r == as_result(plan_error(*self)),
    {
        if !(self.schema_version == 1 || self.schema_version == 2) {
            return Err(ValidationError::UnknownSchema(self.schema_version));
        }
        check_text(self.objective.as_str(), "plan.objective", OBJECTIVE_CHARS)?;
        check_count(self.items.len(), "plan.items", MAX_ITEMS)?;
        check_count(self.provenance.len(), "plan.provenance", MAX_EXTENSION_ENTRIES)?;
        let entries = self.provenance.entries();
        let mut i: usize = 0;
        while i < entries.len()
            invariant
                i <= entries.len(),
                crate::text_map::entry_views(entries@) == self.provenance@,
                provenance_error(self.provenance@, i as int) is None,
            decreases entries.len() - i,
        {
            proof {
                lemma_provenance_error_stable(self.provenance@, i + 1, self.provenance@.len() as int);
            }
            check_text(entries[i].0.as_str(), "plan.provenance.key", ID_CHARS)?;
            check_text(entries[i].1.as_str(), "plan.provenance.value", PROVENANCE_CHARS)?;
            i = i + 1;
        }
        let mut i: usize = 0;
        while i < self.items.len()
            invariant
                i <= self.items.len(),
                items_error(self.items@, i as int) is None,
            decreases self.items.len() - i,
        {
            proof {
                lemma_items_error_stable(self.items@, i + 1, self.items@.len() as int);
            }
            self.items[i].validate()?;
            let mut j: usize = 0;
            while j < i
                invariant
                    j <= i < self.items.len(),
                    forall|k: int| 0 <= k < j ==> (#[trigger] self.items@[k]).id@ != self.items@[i as int].id@,
                decreases i - j,
            {
                if self.items[j].id.same(&self.items[i].id) {
                    proof {
                        lemma_items_error_stable(self.items@, i + 1, self.items@.len() as int);
                    }
                    return Err(ValidationError::Duplicate("item id"));
                }
                j = j + 1;
            }
            i = i + 1;
        }
        let mut i: usize = 0;
        while i < self.items.len()
            invariant
                i <= self.items.len(),
                references_error(self.items@, i as int) is None,
            decreases self.items.len() - i,
        {
            let item = &self.items[i];
            let mut d: usize = 0;
            while d < item.dependencies.len()
                invariant
                    d <= item.dependencies.len(),
                    *item == self.items@[i as int],
                    !dangling_dependency(self.items@, item.dependencies@, d as int),
                decreases item.dependencies.len() - d,
            {
                if !find_item_id(&self.items, &item.dependencies[d]) {
                    proof {
                        lemma_dangling_stable(self.items@, item.dependencies@, d + 1, item.dependencies@.len() as int);
                        lemma_references_error_stable(self.items@, i + 1, self.items@.len() as int);
                    }
                    return Err(ValidationError::Invalid("missing dependency"));
                }
                d = d + 1;
            }
            if let Some(p) = &item.parent {
                if !find_item_id(&self.items, p) {
                    proof {
                        lemma_references_error_stable(self.items@, i + 1, self.items@.len() as int);
                    }
                    return Err(ValidationError::Invalid("missing parent"));
                }
            }
            i = i + 1;
        }
        match validate_graph(&self.items) {
            Ok(()) => {},
            Err(g) => {
                return Err(ValidationError::Graph(g));
            },
        }
        if let Some(s) = &self.subject {
            s.validate()?;
        }
        Ok(())
    }
}

/// Plan lifecycle transitions that mutations may make.
pub open spec fn plan_transition(from: PlanStatus, to: PlanStatus) -> bool {
    ||| (from == PlanStatus::Draft && to == PlanStatus::Active)
    ||| (from == PlanStatus::Draft && to == PlanStatus::Cancelled)
    ||| (from == PlanStatus::Active && to == PlanStatus::Blocked)
    ||| (from == PlanStatus::Active && to == PlanStatus::Closed)
    ||| (from == PlanStatus::Active && to == PlanStatus::Cancelled)
    ||| (from == PlanStatus::Blocked && to == PlanStatus::Active)
    ||| (from == PlanStatus::Blocked && to == PlanStatus::Cancelled)
}

/// Item lifecycle transitions that mutations may make.
pub open spec fn item_transition(from: PlanItemStatus, to: PlanItemStatus) -> bool {
    ||| (from == PlanItemStatus::Pending && (to == PlanItemStatus::Actionable || to
        == PlanItemStatus::Blocked || to == PlanItemStatus::Cancelled))
    ||| (from == PlanItemStatus::Actionable && (to == PlanItemStatus::InProgress || to
        == PlanItemStatus::Blocked || to == PlanItemStatus::Cancelled))
    ||| (from == PlanItemStatus::InProgress && (to == PlanItemStatus::Actionable || to
        == PlanItemStatus::Blocked || to == PlanItemStatus::Completed || to
        == PlanItemStatus::Cancelled))
    ||| (from == PlanItemStatus::Blocked && (to == PlanItemStatus::Pending || to
        == PlanItemStatus::Actionable || to == PlanItemStatus::Cancelled))
}

/// Whether a plan may move from `from` to `to`.
pub fn plan_transition_allowed(from: &PlanStatus, to: &PlanStatus) -> (r: bool)
    ensures
        r == plan_transition(*from, *to),
{
    match (from, to) {
        (PlanStatus::Draft, PlanStatus::Active) | (PlanStatus::Draft, PlanStatus::Cancelled) | (
            PlanStatus::Active,
            PlanStatus::Blocked,
        ) | (PlanStatus::Active, PlanStatus::Closed) | (PlanStatus::Active, PlanStatus::Cancelled) | (
            PlanStatus::Blocked,
            PlanStatus::Active,
        ) | (PlanStatus::Blocked, PlanStatus::Cancelled) => true,
        _ => false,
    }
}

/// Whether an item may move from `from` to `to`.
pub fn item_transition_allowed(from: &PlanItemStatus, to: &PlanItemStatus) -> (r: bool)
    ensures
        r == item_transition(*from, *to),
{
    match (from, to) {
        (PlanItemStatus::Pending, PlanItemStatus::Actionable) | (
            PlanItemStatus::Pending,
            PlanItemStatus::Blocked,
        ) | (PlanItemStatus::Pending, PlanItemStatus::Cancelled) | (
            PlanItemStatus::Actionable,
            PlanItemStatus::InProgress,
        ) | (PlanItemStatus::Actionable, PlanItemStatus::Blocked) | (
            PlanItemStatus::Actionable,
            PlanItemStatus::Cancelled,
        ) | (PlanItemStatus::InProgress, PlanItemStatus::Actionable) | (
            PlanItemStatus::InProgress,
            PlanItemStatus::Blocked,
        ) | (PlanItemStatus::InProgress, PlanItemStatus::Completed) | (
            PlanItemStatus::InProgress,
            PlanItemStatus::Cancelled,
        ) | (PlanItemStatus::Blocked, PlanItemStatus::Pending) | (
            PlanItemStatus::Blocked,
            PlanItemStatus::Actionable,
        ) | (PlanItemStatus::Blocked, PlanItemStatus::Cancelled) => true,
        _ => false,
    }
}

/// Closed and Cancelled plans never move again.
pub proof fn lemma_terminal_plan_states(to: PlanStatus)
    ensures
        !plan_transition(PlanStatus::Closed, to),
        !plan_transition(PlanStatus::Cancelled, to),
{
}

/// Completed and Cancelled items never move again.
pub proof fn lemma_terminal_item_states(to: PlanItemStatus)
    ensures
        !item_transition(PlanItemStatus::Completed, to),
        !item_transition(PlanItemStatus::Cancelled, to),
{
}

/// No status moves to itself.
pub proof fn lemma_transitions_change_state(p: PlanStatus, i: PlanItemStatus)
    ensures
        !plan_transition(p, p),
        !item_transition(i, i),
{
}

/// An error found among the first `n` requirements is the error of every longer prefix.
pub proof fn lemma_requirements_error_stable(reqs: Seq<EvidenceRequirement>, n: int, m: int)
    requires
        0 <= n <= m,
    ensures
        requirements_error(reqs, n) is Some ==> requirements_error(reqs, m) == requirements_error(reqs, n),
    decreases m - n,
{
    if m > n {
        lemma_requirements_error_stable(reqs, n, m - 1);
    }
}

/// An error found among the first `n` criteria is the error of every longer prefix.
pub proof fn lemma_criteria_error_stable(cs: Seq<AcceptanceCriterion>, n: int, m: int)
    requires
        0 <= n <= m,
    ensures
        criteria_error(cs, n) is Some ==> criteria_error(cs, m) == criteria_error(cs, n),
    decreases m - n,
{
    if m > n {
        lemma_criteria_error_stable(cs, n, m - 1);
    }
}

/// A duplicate found among the first `n` identifiers stays found.
pub proof fn lemma_first_duplicate_id_stable(ids: Seq<PlanItemId>, n: int, m: int)
    requires
        0 <= n <= m,
    ensures
        first_duplicate_id(ids, n) is Some ==> first_duplicate_id(ids, m) == first_duplicate_id(ids, n),
    decreases m - n,
{
    if m > n {
        lemma_first_duplicate_id_stable(ids, n, m - 1);
    }
}

/// An error found among the first `n` provenance entries stays the first.
pub proof fn lemma_provenance_error_stable(e: Seq<(Seq<char>, Seq<char>)>, n: int, m: int)
    requires
        0 <= n <= m,
    ensures
        provenance_error(e, n) is Some ==> provenance_error(e, m) == provenance_error(e, n),
    decreases m - n,
{
    if m > n {
        lemma_provenance_error_stable(e, n, m - 1);
    }
}

/// An error found among the first `n` items stays the first.
pub proof fn lemma_items_error_stable(items: Seq<PlanItem>, n: int, m: int)
    requires
        0 <= n <= m,
    ensures
        items_error(items, n) is Some ==> items_error(items, m) == items_error(items, n),
    decreases m - n,
{
    if m > n {
        lemma_items_error_stable(items, n, m - 1);
    }
}

/// A dangling dependency found among the first `n` stays found.
pub proof fn lemma_dangling_stable(items: Seq<PlanItem>, deps: Seq<PlanItemId>, n: int, m: int)
    requires
        0 <= n <= m,
    ensures
        dangling_dependency(items, deps, n) ==> dangling_dependency(items, deps, m),
    decreases m - n,
{
    if m > n {
        lemma_dangling_stable(items, deps, n, m - 1);
    }
}

/// A dangling reference found among the first `n` items stays the first.
pub proof fn lemma_references_error_stable(items: Seq<PlanItem>, n: int, m: int)
    requires
        0 <= n <= m,
    ensures
        references_error(items, n) is Some ==> references_error(items, m) == references_error(items, n),
    decreases m - n,
{
    if m > n {
        lemma_references_error_stable(items, n, m - 1);
    }
}

} // verus!

verus! {

/// An item is completed only from InProgress: no other status moves to
/// Completed.
pub proof fn lemma_completion_only_from_in_progress(from: PlanItemStatus)
    ensures
        item_transition(from, PlanItemStatus::Completed) <==> from == PlanItemStatus::InProgress,
{
}

/// A plan is closed only from Active, and activated only from Draft or
/// Blocked.
pub proof fn lemma_plan_entry_states(from: PlanStatus)
    ensures
        plan_transition(from, PlanStatus::Closed) <==> from == PlanStatus::Active,
        plan_transition(from, PlanStatus::Active) <==> (from == PlanStatus::Draft || from == PlanStatus::Blocked),
        !plan_transition(from, PlanStatus::Draft),
{
}

} // verus!
