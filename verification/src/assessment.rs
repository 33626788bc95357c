//! Deterministic assessment of a plan against evidence observations, the
//! current subject, and the explicit registry of trusted providers.
use crate::digest::json_digest;
use crate::evidence::{
    content_json, fields_fault, lookup_provider, DescriptorV, EvidenceObservation, EvidenceStatus, ObservationV,
    ProviderRegistry,
};
use crate::identity::{CriterionId, EvidenceObservationId, EvidenceProviderId, PlanId, PlanItemId};
use crate::model::{
    is_execution_evidence, is_execution_kind, plan_error, subject_error, AcceptanceCriterion, EvidenceCardinality,
    EvidenceKind, EvidenceRequirement, Plan, PlanItem, PlanItemStatus, PlanStatus, SubjectRevision, SubjectView,
};
use crate::sort::{key_eq, key_lt, key_views, stable_order, stably_sorted, KeyV, SortKey};
use crate::text::{lemma_seq_lt_asymmetric, lemma_seq_lt_irreflexive, seq_lt};
use vstd::set_lib::{lemma_int_range, lemma_subset_equality, set_int_range};
use vstd::prelude::*;

verus! {

/// Overall standing of a requirement, criterion, item or plan.
#[derive(Debug, Clone, Copy, PartialEq, Eq, Structural, PartialOrd, Ord, Hash)]
pub enum AssessmentStatus {
    Complete,
    ActionableWorkRemaining,
    Blocked,
    EvidenceFailed,
    EvidenceMissingOrUnavailable,
    InFlight,
    AwaitingHumanJudgment,
    Inconclusive,
    InvalidOrStale,
}

/// Why an assessment came out as it did.
#[derive(Debug, Clone, PartialEq, Eq)]
pub enum AssessmentReason {
    MissingObservation,
    NoAcceptanceCriteria,
    NoEvidenceRequirement,
    HumanJudgmentRequired,
    StaleSubject(EvidenceObservationId),
    UntrustedProvider(EvidenceProviderId),
    ProviderKindNotAllowed(EvidenceProviderId),
    ProviderMismatch(EvidenceProviderId),
    LegacyUnboundExecutionRequirement,
    ObservationMissingVerificationBinding(EvidenceObservationId),
    VerificationDigestMismatch(EvidenceObservationId),
    EvidenceStatus(EvidenceObservationId, EvidenceStatus),
    HumanJudgmentNotAllowed,
    InvalidObservation(EvidenceObservationId),
    DuplicateObservationId(EvidenceObservationId),
    PlanNotActive,
    InvalidPlan,
    ItemNotCompleted(PlanItemStatus),
    PlanBlocked,
    PlanCancelled,
    NoPlanItems,
}

/// Value of a reason.
pub enum ReasonV {
    MissingObservation,
    NoAcceptanceCriteria,
    NoEvidenceRequirement,
    HumanJudgmentRequired,
    StaleSubject(Seq<char>),
    UntrustedProvider(Seq<char>),
    ProviderKindNotAllowed(Seq<char>),
    ProviderMismatch(Seq<char>),
    LegacyUnboundExecutionRequirement,
    ObservationMissingVerificationBinding(Seq<char>),
    VerificationDigestMismatch(Seq<char>),
    EvidenceStatus(Seq<char>, EvidenceStatus),
    HumanJudgmentNotAllowed,
    InvalidObservation(Seq<char>),
    DuplicateObservationId(Seq<char>),
    PlanNotActive,
    InvalidPlan,
    ItemNotCompleted(PlanItemStatus),
    PlanBlocked,
    PlanCancelled,
    NoPlanItems,
}

impl View for AssessmentReason {
    type V = ReasonV;

    open spec fn view(&self) -> ReasonV {
        match self {
            AssessmentReason::MissingObservation => ReasonV::MissingObservation,
            AssessmentReason::NoAcceptanceCriteria => ReasonV::NoAcceptanceCriteria,
            AssessmentReason::NoEvidenceRequirement => ReasonV::NoEvidenceRequirement,
            AssessmentReason::HumanJudgmentRequired => ReasonV::HumanJudgmentRequired,
            AssessmentReason::StaleSubject(i) => ReasonV::StaleSubject(i@),
            AssessmentReason::UntrustedProvider(i) => ReasonV::UntrustedProvider(i@),
            AssessmentReason::ProviderKindNotAllowed(i) => ReasonV::ProviderKindNotAllowed(i@),
            AssessmentReason::ProviderMismatch(i) => ReasonV::ProviderMismatch(i@),
            AssessmentReason::LegacyUnboundExecutionRequirement => ReasonV::LegacyUnboundExecutionRequirement,
            AssessmentReason::ObservationMissingVerificationBinding(i) => ReasonV::ObservationMissingVerificationBinding(i@),
            AssessmentReason::VerificationDigestMismatch(i) => ReasonV::VerificationDigestMismatch(i@),
            AssessmentReason::EvidenceStatus(i, s) => ReasonV::EvidenceStatus(i@, *s),
            AssessmentReason::HumanJudgmentNotAllowed => ReasonV::HumanJudgmentNotAllowed,
            AssessmentReason::InvalidObservation(i) => ReasonV::InvalidObservation(i@),
            AssessmentReason::DuplicateObservationId(i) => ReasonV::DuplicateObservationId(i@),
            AssessmentReason::PlanNotActive => ReasonV::PlanNotActive,
            AssessmentReason::InvalidPlan => ReasonV::InvalidPlan,
            AssessmentReason::ItemNotCompleted(s) => ReasonV::ItemNotCompleted(*s),
            AssessmentReason::PlanBlocked => ReasonV::PlanBlocked,
            AssessmentReason::PlanCancelled => ReasonV::PlanCancelled,
            AssessmentReason::NoPlanItems => ReasonV::NoPlanItems,
        }
    }
}

/// The values of reasons.
pub open spec fn reason_views(rs: Seq<AssessmentReason>) -> Seq<ReasonV> {
    Seq::new(rs.len(), |i: int| rs[i]@)
}

/// The values of identifiers.
pub open spec fn obs_id_views(ids: Seq<EvidenceObservationId>) -> Seq<Seq<char>> {
    Seq::new(ids.len(), |i: int| ids[i]@)
}

/// Assessment of one evidence requirement.
#[derive(Debug, Clone, PartialEq, Eq)]
pub struct RequirementAssessment {
    pub status: AssessmentStatus,
    pub requirement_kind: EvidenceKind,
    pub satisfying_observation_ids: Vec<EvidenceObservationId>,
    pub reasons: Vec<AssessmentReason>,
}

/// Value of a requirement assessment.
pub struct RequirementV {
    pub status: AssessmentStatus,
    pub kind: EvidenceKind,
    pub satisfying: Seq<Seq<char>>,
    pub reasons: Seq<ReasonV>,
}

impl View for RequirementAssessment {
    type V = RequirementV;

    open spec fn view(&self) -> RequirementV {
        RequirementV {
            status: self.status,
            kind: self.requirement_kind,
            satisfying: obs_id_views(self.satisfying_observation_ids@),
            reasons: reason_views(self.reasons@),
        }
    }
}

/// Assessment of one acceptance criterion.
#[derive(Debug, Clone, PartialEq, Eq)]
pub struct CriterionAssessment {
    pub criterion_id: CriterionId,
    pub status: AssessmentStatus,
    pub requirements: Vec<RequirementAssessment>,
    pub reasons: Vec<AssessmentReason>,
}

/// Value of a criterion assessment.
pub struct CriterionV {
    pub criterion_id: Seq<char>,
    pub status: AssessmentStatus,
    pub requirements: Seq<RequirementV>,
    pub reasons: Seq<ReasonV>,
}

impl View for CriterionAssessment {
    type V = CriterionV;

    open spec fn view(&self) -> CriterionV {
        CriterionV {
            criterion_id: self.criterion_id@,
            status: self.status,
            requirements: Seq::new(self.requirements@.len(), |i: int| self.requirements@[i]@),
            reasons: reason_views(self.reasons@),
        }
    }
}

/// Assessment of one plan item.
#[derive(Debug, Clone, PartialEq, Eq)]
pub struct ItemAssessment {
    pub item_id: PlanItemId,
    pub status: AssessmentStatus,
    pub criteria: Vec<CriterionAssessment>,
    pub reasons: Vec<AssessmentReason>,
}

/// Value of an item assessment.
pub struct ItemV {
    pub item_id: Seq<char>,
    pub status: AssessmentStatus,
    pub criteria: Seq<CriterionV>,
    pub reasons: Seq<ReasonV>,
}

impl View for ItemAssessment {
    type V = ItemV;

    open spec fn view(&self) -> ItemV {
        ItemV {
            item_id: self.item_id@,
            status: self.status,
            criteria: Seq::new(self.criteria@.len(), |i: int| self.criteria@[i]@),
            reasons: reason_views(self.reasons@),
        }
    }
}

/// Assessment of a whole plan.
#[derive(Debug, Clone, PartialEq, Eq)]
pub struct PlanAssessment {
    pub plan_id: PlanId,
    pub plan_revision: u64,
    pub subject: SubjectRevision,
    pub status: AssessmentStatus,
    pub items: Vec<ItemAssessment>,
    pub reasons: Vec<AssessmentReason>,
}

/// Value of a plan assessment.
pub struct PlanAssessmentV {
    pub plan_id: Seq<char>,
    pub plan_revision: u64,
    pub subject: SubjectView,
    pub status: AssessmentStatus,
    pub items: Seq<ItemV>,
    pub reasons: Seq<ReasonV>,
}

impl View for PlanAssessment {
    type V = PlanAssessmentV;

    open spec fn view(&self) -> PlanAssessmentV {
        PlanAssessmentV {
            plan_id: self.plan_id@,
            plan_revision: self.plan_revision,
            subject: self.subject@,
            status: self.status,
            items: Seq::new(self.items@.len(), |i: int| self.items@[i]@),
            reasons: reason_views(self.reasons@),
        }
    }
}

/// Severity of a status: the higher one wins when statuses combine.
pub open spec fn severity(s: AssessmentStatus) -> int {
    match s {
        AssessmentStatus::InvalidOrStale => 9,
        AssessmentStatus::EvidenceFailed => 8,
        AssessmentStatus::Blocked => 7,
        AssessmentStatus::InFlight => 6,
        AssessmentStatus::EvidenceMissingOrUnavailable => 5,
        AssessmentStatus::AwaitingHumanJudgment => 4,
        AssessmentStatus::Inconclusive => 3,
        AssessmentStatus::ActionableWorkRemaining => 2,
        AssessmentStatus::Complete => 1,
    }
}

/// The most severe status of a sequence; `Complete` when it is empty.
pub open spec fn highest(s: Seq<AssessmentStatus>) -> AssessmentStatus
    decreases s.len(),
{
    if s.len() == 0 {
        AssessmentStatus::Complete
    } else {
        let h = highest(s.drop_last());
        if severity(s.last()) >= severity(h) {
            s.last()
        } else {
            h
        }
    }
}

/// The most severe status wins, and it is one of the statuses (or Complete).
pub proof fn lemma_highest(s: Seq<AssessmentStatus>)
    ensures
        forall|i: int| 0 <= i < s.len() ==> severity(#[trigger] s[i]) <= severity(highest(s)),
        s.len() == 0 ==> highest(s) == AssessmentStatus::Complete,
        s.len() > 0 ==> s.contains(highest(s)),
        highest(s) == AssessmentStatus::Complete <==> forall|i: int| 0 <= i < s.len() ==> #[trigger] s[i]
            == AssessmentStatus::Complete,
    decreases s.len(),
{
    if s.len() > 0 {
        lemma_highest(s.drop_last());
        assert forall|i: int| 0 <= i < s.len() implies severity(#[trigger] s[i]) <= severity(highest(s)) by {
            if i < s.len() - 1 {
                assert(s.drop_last()[i] == s[i]);
            }
        }
        if s.drop_last().len() > 0 {
            let h = highest(s.drop_last());
            let k = choose|k: int| 0 <= k < s.drop_last().len() && s.drop_last()[k] == h;
            assert(s[k] == h);
        }
        assert(s[s.len() - 1] == s.last());
        if highest(s) == AssessmentStatus::Complete {
            assert forall|i: int| 0 <= i < s.len() implies #[trigger] s[i] == AssessmentStatus::Complete by {
                assert(severity(s[i]) <= 1);
            }
        }
        if forall|i: int| 0 <= i < s.len() ==> #[trigger] s[i] == AssessmentStatus::Complete {
            assert forall|i: int| 0 <= i < s.drop_last().len() implies #[trigger] s.drop_last()[i]
                == AssessmentStatus::Complete by {
                assert(s.drop_last()[i] == s[i]);
            }
        }
    }
}

/// Combines statuses (see `highest`).
pub fn highest_of(statuses: &Vec<AssessmentStatus>) -> (r: AssessmentStatus)
    ensures
        r == highest(statuses@),
{
    let mut h = AssessmentStatus::Complete;
    let mut i: usize = 0;
    while i < statuses.len()
        invariant
            i <= statuses.len(),
            h == highest(statuses@.take(i as int)),
        decreases statuses.len() - i,
    {
        let ghost t = statuses@.take(i + 1);
        assert(t.drop_last() =~= statuses@.take(i as int));
        if severity_of(statuses[i]) >= severity_of(h) {
            h = statuses[i];
        }
        i = i + 1;
    }
    assert(statuses@.take(statuses.len() as int) =~= statuses@);
    h
}

/// Severity of a status (see `severity`).
pub fn severity_of(s: AssessmentStatus) -> (r: u8)
    ensures
        r == severity(s),
{
    match s {
        AssessmentStatus::InvalidOrStale => 9,
        AssessmentStatus::EvidenceFailed => 8,
        AssessmentStatus::Blocked => 7,
        AssessmentStatus::InFlight => 6,
        AssessmentStatus::EvidenceMissingOrUnavailable => 5,
        AssessmentStatus::AwaitingHumanJudgment => 4,
        AssessmentStatus::Inconclusive => 3,
        AssessmentStatus::ActionableWorkRemaining => 2,
        AssessmentStatus::Complete => 1,
    }
}

/// An observation passes its own checks: field rules and recorded digest.
pub open spec fn observation_valid(o: ObservationV) -> bool {
    fields_fault(o) is None && o.content_digest == json_digest(content_json(o))
}

/// What screening does with one observation for one requirement.
pub enum Screen {
    /// Another kind: not considered.
    Skip,
    /// Excluded with a reason; `true` when the exclusion makes the result invalid.
    Reject(ReasonV, bool),
    /// Counted toward the requirement.
    Eligible,
}

/// Screening of an observation against a requirement, in the order the
/// checks apply.
pub open spec fn screen(
    req: EvidenceRequirement,
    criterion_allows_human: bool,
    current: SubjectView,
    registry: Seq<DescriptorV>,
    o: ObservationV,
) -> Screen {
    if o.kind != req.kind {
        Screen::Skip
    } else {
        match lookup_provider(registry, o.provider_id) {
            None => Screen::Reject(ReasonV::UntrustedProvider(o.provider_id), true),
            Some(d) => if !d.allowed_kinds.contains(o.kind) {
                Screen::Reject(ReasonV::ProviderKindNotAllowed(d.id), true)
            } else if req.provider is Some && req.provider->0@ != o.provider_id {
                Screen::Reject(ReasonV::ProviderMismatch(o.provider_id), false)
            } else if o.kind == EvidenceKind::HumanJudgment && (!req.allow_human_judgment || !criterion_allows_human
                || d.class != "human"@) {
                Screen::Reject(ReasonV::HumanJudgmentNotAllowed, true)
            } else if !observation_valid(o) {
                Screen::Reject(ReasonV::InvalidObservation(o.id), true)
            } else if o.subject != current {
                Screen::Reject(ReasonV::StaleSubject(o.id), false)
            } else if req.expected_verification_digest is Some && o.verification_digest is None {
                Screen::Reject(ReasonV::ObservationMissingVerificationBinding(o.id), false)
            } else if req.expected_verification_digest is Some && o.verification_digest->0
                != req.expected_verification_digest->0@ {
                Screen::Reject(ReasonV::VerificationDigestMismatch(o.id), false)
            } else {
                Screen::Eligible
            },
        }
    }
}

/// Result of screening a prefix of observations.
pub struct ScanV {
    pub reasons: Seq<ReasonV>,
    pub eligible: Seq<(Seq<char>, EvidenceStatus)>,
    pub invalid: bool,
}

/// Screening of the first `n` observations.
pub open spec fn scan(
    req: EvidenceRequirement,
    criterion_allows_human: bool,
    current: SubjectView,
    registry: Seq<DescriptorV>,
    obs: Seq<ObservationV>,
    n: int,
) -> ScanV
    decreases n,
{
    if n <= 0 {
        ScanV { reasons: Seq::empty(), eligible: Seq::empty(), invalid: false }
    } else {
        let p = scan(req, criterion_allows_human, current, registry, obs, n - 1);
        match screen(req, criterion_allows_human, current, registry, obs[n - 1]) {
            Screen::Skip => p,
            Screen::Reject(r, bad) => ScanV { reasons: p.reasons.push(r), eligible: p.eligible, invalid: p.invalid || bad },
            Screen::Eligible => ScanV {
                reasons: p.reasons,
                eligible: p.eligible.push((obs[n - 1].id, obs[n - 1].status)),
                invalid: p.invalid,
            },
        }
    }
}

/// Identifiers of the passed entries, in order.
pub open spec fn passed_ids(e: Seq<(Seq<char>, EvidenceStatus)>) -> Seq<Seq<char>>
    decreases e.len(),
{
    if e.len() == 0 {
        Seq::empty()
    } else if e.last().1 == EvidenceStatus::Passed {
        passed_ids(e.drop_last()).push(e.last().0)
    } else {
        passed_ids(e.drop_last())
    }
}

/// Some entry has the status.
pub open spec fn any_status(e: Seq<(Seq<char>, EvidenceStatus)>, s: EvidenceStatus) -> bool {
    exists|i: int| 0 <= i < e.len() && (#[trigger] e[i]).1 == s
}

/// Every entry passed.
pub open spec fn all_passed(e: Seq<(Seq<char>, EvidenceStatus)>) -> bool {
    forall|i: int| 0 <= i < e.len() ==> (#[trigger] e[i]).1 == EvidenceStatus::Passed
}

/// Some reason reports a stale subject.
pub open spec fn any_stale(rs: Seq<ReasonV>) -> bool {
    exists|i: int| 0 <= i < rs.len() && (#[trigger] rs[i]) is StaleSubject
}

/// The eligible observations satisfy the requirement's cardinality.
pub open spec fn satisfied(req: EvidenceRequirement, e: Seq<(Seq<char>, EvidenceStatus)>) -> bool {
    match req.cardinality {
        EvidenceCardinality::Any => passed_ids(e).len() >= req.min_count,
        EvidenceCardinality::All => e.len() >= req.min_count && all_passed(e),
    }
}

/// Status of a requirement from its screening.
pub open spec fn requirement_status(req: EvidenceRequirement, s: ScanV) -> AssessmentStatus {
    if satisfied(req, s.eligible) {
        AssessmentStatus::Complete
    } else if s.invalid {
        AssessmentStatus::InvalidOrStale
    } else if any_status(s.eligible, EvidenceStatus::Failed) {
        AssessmentStatus::EvidenceFailed
    } else if any_status(s.eligible, EvidenceStatus::Blocked) {
        AssessmentStatus::Blocked
    } else if any_status(s.eligible, EvidenceStatus::InProgress) {
        AssessmentStatus::InFlight
    } else if any_status(s.eligible, EvidenceStatus::Inconclusive) {
        AssessmentStatus::Inconclusive
    } else if any_status(s.eligible, EvidenceStatus::NotRun) || any_status(s.eligible, EvidenceStatus::Skipped)
        || any_status(s.eligible, EvidenceStatus::Unavailable) {
        AssessmentStatus::EvidenceMissingOrUnavailable
    } else if any_stale(s.reasons) {
        AssessmentStatus::InvalidOrStale
    } else {
        AssessmentStatus::EvidenceMissingOrUnavailable
    }
}

/// One status reason per eligible observation.
pub open spec fn status_reasons(e: Seq<(Seq<char>, EvidenceStatus)>) -> Seq<ReasonV> {
    Seq::new(e.len(), |i: int| ReasonV::EvidenceStatus(e[i].0, e[i].1))
}

/// The assessment of one requirement over (sorted) observations.
pub open spec fn requirement_spec(
    req: EvidenceRequirement,
    criterion_allows_human: bool,
    current: SubjectView,
    registry: Seq<DescriptorV>,
    obs: Seq<ObservationV>,
) -> RequirementV {
    if is_execution_kind(req.kind) && req.expected_verification_digest is None {
        RequirementV {
            status: AssessmentStatus::InvalidOrStale,
            kind: req.kind,
            satisfying: Seq::empty(),
            reasons: seq![ReasonV::LegacyUnboundExecutionRequirement],
        }
    } else {
        let s = scan(req, criterion_allows_human, current, registry, obs, obs.len() as int);
        RequirementV {
            status: requirement_status(req, s),
            kind: req.kind,
            satisfying: if satisfied(req, s.eligible) {
                passed_ids(s.eligible)
            } else {
                Seq::empty()
            },
            reasons: s.reasons + status_reasons(s.eligible) + if s.eligible.len() == 0 && s.reasons.len() == 0 {
                seq![ReasonV::MissingObservation]
            } else {
                Seq::empty()
            },
        }
    }
}

/// The values of observations.
pub open spec fn obs_views(obs: Seq<EvidenceObservation>) -> Seq<ObservationV> {
    Seq::new(obs.len(), |i: int| obs[i]@)
}

/// Screens one observation (see `screen`).
fn screen_observation(
    req: &EvidenceRequirement,
    criterion_allows_human: bool,
    current: &SubjectRevision,
    providers: &ProviderRegistry,
    o: &EvidenceObservation,
) -> (r: Option<(AssessmentReason, bool)>)
    requires
        o@.kind == req.kind,
    ensures
        match screen(*req, criterion_allows_human, current@, providers@, o@) {
            Screen::Skip => false,
            Screen::Reject(reason, bad) => r matches Some(x) && x.0@ == reason && x.1 == bad,
            Screen::Eligible => r is None,
        },
{
    let provider = match providers.get(o.provider_id()) {
        None => {
            return Some((AssessmentReason::UntrustedProvider(o.provider_id().duplicate()), true));
        },
        Some(d) => d,
    };
    if !provider.allowed_kinds().contains(o.kind()) {
        return Some((AssessmentReason::ProviderKindNotAllowed(provider.id().duplicate()), true));
    }
    if let Some(required) = &req.provider {
        if !required.same(o.provider_id()) {
            return Some((AssessmentReason::ProviderMismatch(o.provider_id().duplicate()), false));
        }
    }
    if o.kind() == EvidenceKind::HumanJudgment && (!req.allow_human_judgment || !criterion_allows_human
        || !crate::text::str_eq(provider.class(), "human")) {
        return Some((AssessmentReason::HumanJudgmentNotAllowed, true));
    }
    if o.validate().is_err() {
        return Some((AssessmentReason::InvalidObservation(o.id().duplicate()), true));
    }
    if !o.subject().same(current) {
        return Some((AssessmentReason::StaleSubject(o.id().duplicate()), false));
    }
    if let Some(expected) = &req.expected_verification_digest {
        match o.verification_digest() {
            None => {
                return Some((AssessmentReason::ObservationMissingVerificationBinding(o.id().duplicate()), false));
            },
            Some(actual) => {
                if !actual.same(expected) {
                    return Some((AssessmentReason::VerificationDigestMismatch(o.id().duplicate()), false));
                }
            },
        }
    }
    None
}

impl AssessmentReason {
    /// A copy of the reason.
    pub fn duplicate(&self) -> (r: AssessmentReason)
        ensures
            r@ == self@,
    {
        match self {
            AssessmentReason::MissingObservation => AssessmentReason::MissingObservation,
            AssessmentReason::NoAcceptanceCriteria => AssessmentReason::NoAcceptanceCriteria,
            AssessmentReason::NoEvidenceRequirement => AssessmentReason::NoEvidenceRequirement,
            AssessmentReason::HumanJudgmentRequired => AssessmentReason::HumanJudgmentRequired,
            AssessmentReason::StaleSubject(i) => AssessmentReason::StaleSubject(i.duplicate()),
            AssessmentReason::UntrustedProvider(i) => AssessmentReason::UntrustedProvider(i.duplicate()),
            AssessmentReason::ProviderKindNotAllowed(i) => AssessmentReason::ProviderKindNotAllowed(i.duplicate()),
            AssessmentReason::ProviderMismatch(i) => AssessmentReason::ProviderMismatch(i.duplicate()),
            AssessmentReason::LegacyUnboundExecutionRequirement => AssessmentReason::LegacyUnboundExecutionRequirement,
            AssessmentReason::ObservationMissingVerificationBinding(i) => AssessmentReason::ObservationMissingVerificationBinding(
                i.duplicate(),
            ),
            AssessmentReason::VerificationDigestMismatch(i) => AssessmentReason::VerificationDigestMismatch(i.duplicate()),
            AssessmentReason::EvidenceStatus(i, s) => AssessmentReason::EvidenceStatus(i.duplicate(), *s),
            AssessmentReason::HumanJudgmentNotAllowed => AssessmentReason::HumanJudgmentNotAllowed,
            AssessmentReason::InvalidObservation(i) => AssessmentReason::InvalidObservation(i.duplicate()),
            AssessmentReason::DuplicateObservationId(i) => AssessmentReason::DuplicateObservationId(i.duplicate()),
            AssessmentReason::PlanNotActive => AssessmentReason::PlanNotActive,
            AssessmentReason::InvalidPlan => AssessmentReason::InvalidPlan,
            AssessmentReason::ItemNotCompleted(s) => AssessmentReason::ItemNotCompleted(*s),
            AssessmentReason::PlanBlocked => AssessmentReason::PlanBlocked,
            AssessmentReason::PlanCancelled => AssessmentReason::PlanCancelled,
            AssessmentReason::NoPlanItems => AssessmentReason::NoPlanItems,
        }
    }
}

/// Appends copies of reasons.
fn extend_reasons(out: &mut Vec<AssessmentReason>, rs: &Vec<AssessmentReason>)
    ensures
        reason_views(final(out)@) == reason_views(old(out)@) + reason_views(rs@),
{
    let ghost start = reason_views(out@);
    let mut i: usize = 0;
    while i < rs.len()
        invariant
            i <= rs.len(),
            reason_views(out@) == start + reason_views(rs@).take(i as int),
        decreases rs.len() - i,
    {
        let ghost before = out@;
        out.push(rs[i].duplicate());
        proof {
            assert(reason_views(out@) =~= reason_views(before).push(rs@[i as int]@));
            assert(reason_views(rs@).take(i + 1) =~= reason_views(rs@).take(i as int).push(rs@[i as int]@));
        }
        i = i + 1;
    }
    assert(reason_views(rs@).take(rs.len() as int) =~= reason_views(rs@));
}

/// Appends one reason.
fn push_reason(out: &mut Vec<AssessmentReason>, r: AssessmentReason)
    ensures
        reason_views(final(out)@) == reason_views(old(out)@).push(r@),
{
    let ghost before = out@;
    out.push(r);
    assert(reason_views(out@) =~= reason_views(before).push(r@));
}

/// The values of eligible entries.
pub open spec fn elig_views(e: Seq<(EvidenceObservationId, EvidenceStatus)>) -> Seq<(Seq<char>, EvidenceStatus)> {
    Seq::new(e.len(), |i: int| (e[i].0@, e[i].1))
}

fn has_status(e: &Vec<(EvidenceObservationId, EvidenceStatus)>, s: EvidenceStatus) -> (r: bool)
    ensures
        r == any_status(elig_views(e@), s),
{
    let mut i: usize = 0;
    while i < e.len()
        invariant
            i <= e.len(),
            forall|k: int| 0 <= k < i ==> (#[trigger] elig_views(e@)[k]).1 != s,
        decreases e.len() - i,
    {
        if e[i].1 == s {
            assert(elig_views(e@)[i as int].1 == s);
            return true;
        }
        i = i + 1;
    }
    false
}

fn all_pass(e: &Vec<(EvidenceObservationId, EvidenceStatus)>) -> (r: bool)
    ensures
        r == all_passed(elig_views(e@)),
{
    let mut i: usize = 0;
    while i < e.len()
        invariant
            i <= e.len(),
            forall|k: int| 0 <= k < i ==> (#[trigger] elig_views(e@)[k]).1 == EvidenceStatus::Passed,
        decreases e.len() - i,
    {
        if e[i].1 != EvidenceStatus::Passed {
            assert(elig_views(e@)[i as int].1 != EvidenceStatus::Passed);
            return false;
        }
        i = i + 1;
    }
    true
}

pub(crate) fn has_stale(rs: &Vec<AssessmentReason>) -> (r: bool)
    ensures
        r == any_stale(reason_views(rs@)),
{
    let mut i: usize = 0;
    while i < rs.len()
        invariant
            i <= rs.len(),
            forall|k: int| 0 <= k < i ==> !((#[trigger] reason_views(rs@)[k]) is StaleSubject),
        decreases rs.len() - i,
    {
        if let AssessmentReason::StaleSubject(_) = &rs[i] {
            assert(reason_views(rs@)[i as int] is StaleSubject);
            return true;
        }
        i = i + 1;
    }
    false
}

fn passed_of(e: &Vec<(EvidenceObservationId, EvidenceStatus)>) -> (r: Vec<EvidenceObservationId>)
    ensures
        obs_id_views(r@) == passed_ids(elig_views(e@)),
{
    let mut r: Vec<EvidenceObservationId> = Vec::new();
    let mut i: usize = 0;
    while i < e.len()
        invariant
            i <= e.len(),
            obs_id_views(r@) == passed_ids(elig_views(e@).take(i as int)),
        decreases e.len() - i,
    {
        let ghost t = elig_views(e@).take(i + 1);
        assert(t.drop_last() =~= elig_views(e@).take(i as int));
        let ghost before = r@;
        if e[i].1 == EvidenceStatus::Passed {
            r.push(e[i].0.duplicate());
            assert(obs_id_views(r@) =~= obs_id_views(before).push(e@[i as int].0@));
        }
        i = i + 1;
    }
    assert(elig_views(e@).take(e.len() as int) =~= elig_views(e@));
    r
}

/// Assesses one requirement (see `requirement_spec`).
#[verifier::loop_isolation(false)]
fn assess_requirement(
    req: &EvidenceRequirement,
    criterion_allows_human: bool,
    current: &SubjectRevision,
    obs: &Vec<EvidenceObservation>,
    providers: &ProviderRegistry,
) -> (r: RequirementAssessment)
    ensures
        r@ == requirement_spec(*req, criterion_allows_human, current@, providers@, obs_views(obs@)),
{
    if is_execution_evidence(req.kind) && req.expected_verification_digest.is_none() {
        let mut reasons: Vec<AssessmentReason> = Vec::new();
        push_reason(&mut reasons, AssessmentReason::LegacyUnboundExecutionRequirement);
        let r = RequirementAssessment {
            status: AssessmentStatus::InvalidOrStale,
            requirement_kind: req.kind,
            satisfying_observation_ids: Vec::new(),
            reasons,
        };
        assert(obs_id_views(r.satisfying_observation_ids@) =~= Seq::<Seq<char>>::empty());
        assert(reason_views(r.reasons@) =~= seq![ReasonV::LegacyUnboundExecutionRequirement]);
        return r;
    }
    let ghost ov = obs_views(obs@);
    let mut reasons: Vec<AssessmentReason> = Vec::new();
    let mut eligible: Vec<(EvidenceObservationId, EvidenceStatus)> = Vec::new();
    let mut invalid = false;
    let mut i: usize = 0;
    proof {
        assert(reason_views(reasons@) =~= Seq::<ReasonV>::empty());
        assert(elig_views(eligible@) =~= Seq::<(Seq<char>, EvidenceStatus)>::empty());
    }
    while i < obs.len()
        invariant
            i <= obs.len(),
            ov == obs_views(obs@),
            reason_views(reasons@) == scan(*req, criterion_allows_human, current@, providers@, ov, i as int).reasons,
            elig_views(eligible@) == scan(*req, criterion_allows_human, current@, providers@, ov, i as int).eligible,
            invalid == scan(*req, criterion_allows_human, current@, providers@, ov, i as int).invalid,
        decreases obs.len() - i,
    {
        let o = &obs[i];
        if o.kind() == req.kind {
            match screen_observation(req, criterion_allows_human, current, providers, o) {
                Some((reason, bad)) => {
                    push_reason(&mut reasons, reason);
                    if bad {
                        invalid = true;
                    }
                },
                None => {
                    let ghost before = eligible@;
                    eligible.push((o.id().duplicate(), o.status()));
                    assert(elig_views(eligible@) =~= elig_views(before).push((o@.id, o@.status)));
                },
            }
        }
        i = i + 1;
    }
    let ghost sc = scan(*req, criterion_allows_human, current@, providers@, ov, ov.len() as int);
    let passed = passed_of(&eligible);
    let ok = match req.cardinality {
        EvidenceCardinality::Any => passed.len() >= req.min_count as usize,
        EvidenceCardinality::All => eligible.len() >= req.min_count as usize && all_pass(&eligible),
    };
    proof {
        assert(obs_id_views(passed@).len() == passed@.len());
    }
    let status = if ok {
        AssessmentStatus::Complete
    } else if invalid {
        AssessmentStatus::InvalidOrStale
    } else if has_status(&eligible, EvidenceStatus::Failed) {
        AssessmentStatus::EvidenceFailed
    } else if has_status(&eligible, EvidenceStatus::Blocked) {
        AssessmentStatus::Blocked
    } else if has_status(&eligible, EvidenceStatus::InProgress) {
        AssessmentStatus::InFlight
    } else if has_status(&eligible, EvidenceStatus::Inconclusive) {
        AssessmentStatus::Inconclusive
    } else if has_status(&eligible, EvidenceStatus::NotRun) || has_status(&eligible, EvidenceStatus::Skipped)
        || has_status(&eligible, EvidenceStatus::Unavailable) {
        AssessmentStatus::EvidenceMissingOrUnavailable
    } else if has_stale(&reasons) {
        AssessmentStatus::InvalidOrStale
    } else {
        AssessmentStatus::EvidenceMissingOrUnavailable
    };
    let scan_reasons_empty = reasons.len() == 0;
    let ghost mid = reason_views(reasons@);
    let mut k: usize = 0;
    while k < eligible.len()
        invariant
            k <= eligible.len(),
            reason_views(reasons@) == mid + status_reasons(elig_views(eligible@)).take(k as int),
        decreases eligible.len() - k,
    {
        push_reason(&mut reasons, AssessmentReason::EvidenceStatus(eligible[k].0.duplicate(), eligible[k].1));
        assert(status_reasons(elig_views(eligible@)).take(k + 1) =~= status_reasons(elig_views(eligible@)).take(
            k as int,
        ).push(ReasonV::EvidenceStatus(eligible@[k as int].0@, eligible@[k as int].1)));
        k = k + 1;
    }
    assert(status_reasons(elig_views(eligible@)).take(eligible.len() as int) =~= status_reasons(elig_views(eligible@)));
    let no_eligible = eligible.len() == 0;
    if no_eligible && scan_reasons_empty {
        push_reason(&mut reasons, AssessmentReason::MissingObservation);
    }
    proof {
        assert(reason_views(reasons@) =~= sc.reasons + status_reasons(sc.eligible) + if sc.eligible.len() == 0
            && sc.reasons.len() == 0 {
            seq![ReasonV::MissingObservation]
        } else {
            Seq::<ReasonV>::empty()
        });
    }
    let satisfying = if ok {
        passed
    } else {
        Vec::new()
    };
    proof {
        if !ok {
            assert(obs_id_views(satisfying@) =~= Seq::<Seq<char>>::empty());
        }
    }
    RequirementAssessment { status, requirement_kind: req.kind, satisfying_observation_ids: satisfying, reasons }
}

/// Concatenation of reason lists.
pub open spec fn concat(rss: Seq<Seq<ReasonV>>) -> Seq<ReasonV>
    decreases rss.len(),
{
    if rss.len() == 0 {
        Seq::empty()
    } else {
        concat(rss.drop_last()) + rss.last()
    }
}

/// The stand-in assessment of a criterion that names no requirement.
pub open spec fn empty_requirement(human: bool) -> RequirementV {
    RequirementV {
        status: if human {
            AssessmentStatus::AwaitingHumanJudgment
        } else {
            AssessmentStatus::EvidenceMissingOrUnavailable
        },
        kind: EvidenceKind::HumanJudgment,
        satisfying: Seq::empty(),
        reasons: seq![
            if human {
                ReasonV::HumanJudgmentRequired
            } else {
                ReasonV::NoEvidenceRequirement
            },
        ],
    }
}

/// The requirement assessments of a criterion.
pub open spec fn criterion_requirements(
    c: AcceptanceCriterion,
    current: SubjectView,
    registry: Seq<DescriptorV>,
    obs: Seq<ObservationV>,
) -> Seq<RequirementV> {
    if c.requirements@.len() == 0 {
        seq![empty_requirement(c.human_judgment_allowed)]
    } else {
        Seq::new(
            c.requirements@.len(),
            |i: int| requirement_spec(c.requirements@[i], c.human_judgment_allowed, current, registry, obs),
        )
    }
}

/// The assessment of a criterion over (sorted) observations.
pub open spec fn criterion_spec(
    c: AcceptanceCriterion,
    current: SubjectView,
    registry: Seq<DescriptorV>,
    obs: Seq<ObservationV>,
) -> CriterionV {
    let reqs = criterion_requirements(c, current, registry, obs);
    CriterionV {
        criterion_id: c.id@,
        status: highest(Seq::new(reqs.len(), |i: int| reqs[i].status)),
        requirements: reqs,
        reasons: concat(Seq::new(reqs.len(), |i: int| reqs[i].reasons)),
    }
}

/// Status of an item from its own status and its criteria.
pub open spec fn item_status(status: PlanItemStatus, crits: Seq<CriterionV>) -> AssessmentStatus {
    if crits.len() == 0 {
        AssessmentStatus::EvidenceMissingOrUnavailable
    } else {
        let cs = highest(Seq::new(crits.len(), |i: int| crits[i].status));
        match status {
            PlanItemStatus::Blocked => AssessmentStatus::Blocked,
            PlanItemStatus::InProgress => if cs == AssessmentStatus::Complete {
                AssessmentStatus::InFlight
            } else {
                cs
            },
            PlanItemStatus::Pending | PlanItemStatus::Actionable => if cs == AssessmentStatus::Complete {
                AssessmentStatus::ActionableWorkRemaining
            } else {
                cs
            },
            PlanItemStatus::Completed => cs,
            PlanItemStatus::Cancelled => if cs == AssessmentStatus::Complete {
                AssessmentStatus::ActionableWorkRemaining
            } else {
                cs
            },
        }
    }
}

/// The assessment of an item over (sorted) observations.
pub open spec fn item_spec(
    item: PlanItem,
    current: SubjectView,
    registry: Seq<DescriptorV>,
    obs: Seq<ObservationV>,
) -> ItemV {
    let crits = Seq::new(item.criteria@.len(), |i: int| criterion_spec(item.criteria@[i], current, registry, obs));
    ItemV {
        item_id: item.id@,
        status: item_status(item.status, crits),
        criteria: crits,
        reasons: concat(Seq::new(crits.len(), |i: int| crits[i].reasons)) + (if crits.len() == 0 {
            seq![ReasonV::NoAcceptanceCriteria]
        } else {
            Seq::empty()
        }) + (if item.status != PlanItemStatus::Completed {
            seq![ReasonV::ItemNotCompleted(item.status)]
        } else {
            Seq::empty()
        }),
    }
}

/// Assesses one criterion (see `criterion_spec`).
fn assess_criterion(
    c: &AcceptanceCriterion,
    current: &SubjectRevision,
    obs: &Vec<EvidenceObservation>,
    providers: &ProviderRegistry,
) -> (r: CriterionAssessment)
    ensures
        r@ == criterion_spec(*c, current@, providers@, obs_views(obs@)),
{
    let ghost reqs = criterion_requirements(*c, current@, providers@, obs_views(obs@));
    let mut requirements: Vec<RequirementAssessment> = Vec::new();
    if c.requirements.len() == 0 {
        let mut rs: Vec<AssessmentReason> = Vec::new();
        if c.human_judgment_allowed {
            push_reason(&mut rs, AssessmentReason::HumanJudgmentRequired);
        } else {
            push_reason(&mut rs, AssessmentReason::NoEvidenceRequirement);
        }
        let ra = RequirementAssessment {
            status: if c.human_judgment_allowed {
                AssessmentStatus::AwaitingHumanJudgment
            } else {
                AssessmentStatus::EvidenceMissingOrUnavailable
            },
            requirement_kind: EvidenceKind::HumanJudgment,
            satisfying_observation_ids: Vec::new(),
            reasons: rs,
        };
        assert(obs_id_views(ra.satisfying_observation_ids@) =~= Seq::<Seq<char>>::empty());
        assert(reason_views(ra.reasons@) =~= empty_requirement(c.human_judgment_allowed).reasons);
        assert(ra@ == empty_requirement(c.human_judgment_allowed));
        requirements.push(ra);
    } else {
        let mut i: usize = 0;
        while i < c.requirements.len()
            invariant
                i <= c.requirements.len(),
                c.requirements@.len() > 0,
                reqs == criterion_requirements(*c, current@, providers@, obs_views(obs@)),
                requirements@.len() == i,
                forall|k: int| 0 <= k < i ==> (#[trigger] requirements@[k])@ == reqs[k],
            decreases c.requirements.len() - i,
        {
            let ra = assess_requirement(&c.requirements[i], c.human_judgment_allowed, current, obs, providers);
            requirements.push(ra);
            i = i + 1;
        }
    }
    let ghost rv = Seq::new(requirements@.len(), |i: int| requirements@[i]@);
    assert(rv =~= reqs);
    let mut statuses: Vec<AssessmentStatus> = Vec::new();
    let mut reasons: Vec<AssessmentReason> = Vec::new();
    let mut i: usize = 0;
    while i < requirements.len()
        invariant
            i <= requirements.len(),
            rv == Seq::new(requirements@.len(), |i: int| requirements@[i]@),
            statuses@ == Seq::new(rv.len(), |i: int| rv[i].status).take(i as int),
            reason_views(reasons@) == concat(Seq::new(rv.len(), |i: int| rv[i].reasons).take(i as int)),
        decreases requirements.len() - i,
    {
        statuses.push(requirements[i].status);
        extend_reasons(&mut reasons, &requirements[i].reasons);
        proof {
            let all = Seq::new(rv.len(), |i: int| rv[i].reasons);
            assert(all.take(i + 1).drop_last() =~= all.take(i as int));
            assert(statuses@ =~= Seq::new(rv.len(), |i: int| rv[i].status).take(i + 1));
        }
        i = i + 1;
    }
    proof {
        assert(Seq::new(rv.len(), |i: int| rv[i].status).take(rv.len() as int) =~= Seq::new(rv.len(), |i: int| rv[i].status));
        assert(Seq::new(rv.len(), |i: int| rv[i].reasons).take(rv.len() as int) =~= Seq::new(rv.len(), |i: int| rv[i].reasons));
    }
    let status = highest_of(&statuses);
    CriterionAssessment { criterion_id: c.id.duplicate(), status, requirements, reasons }
}

/// Assesses one item (see `item_spec`).
fn assess_item(
    item: &PlanItem,
    current: &SubjectRevision,
    obs: &Vec<EvidenceObservation>,
    providers: &ProviderRegistry,
) -> (r: ItemAssessment)
    ensures
        r@ == item_spec(*item, current@, providers@, obs_views(obs@)),
{
    let ghost crits = Seq::new(
        item.criteria@.len(),
        |i: int| criterion_spec(item.criteria@[i], current@, providers@, obs_views(obs@)),
    );
    let mut criteria: Vec<CriterionAssessment> = Vec::new();
    let mut statuses: Vec<AssessmentStatus> = Vec::new();
    let mut reasons: Vec<AssessmentReason> = Vec::new();
    let mut i: usize = 0;
    while i < item.criteria.len()
        invariant
            i <= item.criteria.len(),
            crits == Seq::new(
                item.criteria@.len(),
                |i: int| criterion_spec(item.criteria@[i], current@, providers@, obs_views(obs@)),
            ),
            criteria@.len() == i,
            forall|k: int| 0 <= k < i ==> (#[trigger] criteria@[k])@ == crits[k],
            statuses@ == Seq::new(crits.len(), |i: int| crits[i].status).take(i as int),
            reason_views(reasons@) == concat(Seq::new(crits.len(), |i: int| crits[i].reasons).take(i as int)),
        decreases item.criteria.len() - i,
    {
        let ca = assess_criterion(&item.criteria[i], current, obs, providers);
        statuses.push(ca.status);
        extend_reasons(&mut reasons, &ca.reasons);
        criteria.push(ca);
        proof {
            let all = Seq::new(crits.len(), |i: int| crits[i].reasons);
            assert(all.take(i + 1).drop_last() =~= all.take(i as int));
            assert(statuses@ =~= Seq::new(crits.len(), |i: int| crits[i].status).take(i + 1));
        }
        i = i + 1;
    }
    proof {
        assert(Seq::new(crits.len(), |i: int| crits[i].status).take(crits.len() as int) =~= Seq::new(crits.len(), |i: int| crits[i].status));
        assert(Seq::new(crits.len(), |i: int| crits[i].reasons).take(crits.len() as int) =~= Seq::new(crits.len(), |i: int| crits[i].reasons));
        assert(Seq::new(criteria@.len(), |i: int| criteria@[i]@) =~= crits);
    }
    let ghost base = reason_views(reasons@);
    let status = if item.criteria.len() == 0 {
        push_reason(&mut reasons, AssessmentReason::NoAcceptanceCriteria);
        AssessmentStatus::EvidenceMissingOrUnavailable
    } else {
        let cs = highest_of(&statuses);
        match item.status {
            PlanItemStatus::Blocked => AssessmentStatus::Blocked,
            PlanItemStatus::InProgress => if cs == AssessmentStatus::Complete {
                AssessmentStatus::InFlight
            } else {
                cs
            },
            PlanItemStatus::Pending | PlanItemStatus::Actionable => if cs == AssessmentStatus::Complete {
                AssessmentStatus::ActionableWorkRemaining
            } else {
                cs
            },
            PlanItemStatus::Completed => cs,
            PlanItemStatus::Cancelled => if cs == AssessmentStatus::Complete {
                AssessmentStatus::ActionableWorkRemaining
            } else {
                cs
            },
        }
    };
    let ghost mid = reason_views(reasons@);
    if item.status != PlanItemStatus::Completed {
        push_reason(&mut reasons, AssessmentReason::ItemNotCompleted(item.status));
    }
    proof {
        let spec_r = item_spec(*item, current@, providers@, obs_views(obs@)).reasons;
        if item.criteria.len() == 0 {
            assert(mid =~= base + seq![ReasonV::NoAcceptanceCriteria]);
        } else {
            assert(mid =~= base + Seq::<ReasonV>::empty());
        }
        if item.status != PlanItemStatus::Completed {
            assert(reason_views(reasons@) =~= mid + seq![ReasonV::ItemNotCompleted(item.status)]);
        } else {
            assert(reason_views(reasons@) =~= mid + Seq::<ReasonV>::empty());
        }
        assert(reason_views(reasons@) =~= spec_r);
    }
    ItemAssessment { item_id: item.id.duplicate(), status, criteria, reasons }
}

/// Sort keys of observations: by identifier.
pub open spec fn obs_keys(obs: Seq<ObservationV>) -> Seq<KeyV> {
    Seq::new(obs.len(), |i: int| KeyV { rank: 0, first: obs[i].id, second: Seq::empty() })
}

/// Observations taken in the order of a permutation.
pub open spec fn permuted(obs: Seq<ObservationV>, perm: Seq<usize>) -> Seq<ObservationV> {
    Seq::new(perm.len(), |i: int| obs[perm[i] as int])
}

/// One reason for each observation whose identifier occurred earlier.
pub open spec fn dup_reasons(obs: Seq<ObservationV>, n: int) -> Seq<ReasonV>
    decreases n,
{
    if n <= 0 {
        Seq::empty()
    } else {
        dup_reasons(obs, n - 1) + if exists|k: int| 0 <= k < n - 1 && (#[trigger] obs[k]).id == obs[n - 1].id {
            seq![ReasonV::DuplicateObservationId(obs[n - 1].id)]
        } else {
            Seq::empty()
        }
    }
}

/// The plan and the current subject both pass validation.
pub open spec fn plan_valid(plan: Plan, current: SubjectView) -> bool {
    plan_error(plan) is None && subject_error(current) is None
}

/// The status a plan's lifecycle contributes.
pub open spec fn lifecycle_candidates(s: PlanStatus) -> Seq<AssessmentStatus> {
    match s {
        PlanStatus::Blocked => seq![AssessmentStatus::Blocked],
        PlanStatus::Cancelled => seq![AssessmentStatus::InvalidOrStale],
        PlanStatus::Draft => seq![AssessmentStatus::ActionableWorkRemaining],
        _ => Seq::empty(),
    }
}

/// The reason a plan's lifecycle contributes.
pub open spec fn lifecycle_reasons(s: PlanStatus) -> Seq<ReasonV> {
    match s {
        PlanStatus::Blocked => seq![ReasonV::PlanBlocked],
        PlanStatus::Cancelled => seq![ReasonV::PlanCancelled],
        PlanStatus::Draft => seq![ReasonV::PlanNotActive],
        _ => Seq::empty(),
    }
}

/// Every item assessment is Complete.
pub open spec fn all_items_complete(items: Seq<ItemV>) -> bool {
    forall|i: int| 0 <= i < items.len() ==> (#[trigger] items[i]).status == AssessmentStatus::Complete
}

/// A sequence of one status when `b` holds, else empty.
pub open spec fn when(b: bool, s: AssessmentStatus) -> Seq<AssessmentStatus> {
    if b {
        seq![s]
    } else {
        Seq::empty()
    }
}

/// A sequence of one reason when `b` holds, else empty.
pub open spec fn reason_when(b: bool, r: ReasonV) -> Seq<ReasonV> {
    if b {
        seq![r]
    } else {
        Seq::empty()
    }
}

/// The item assessments of a plan over sorted observations.
pub open spec fn plan_items_spec(plan: Plan, current: SubjectView, registry: Seq<DescriptorV>, sorted: Seq<ObservationV>) -> Seq<ItemV> {
    Seq::new(plan.items@.len(), |i: int| item_spec(plan.items@[i], current, registry, sorted))
}

/// The statuses that combine into the plan status.
pub open spec fn plan_candidates(plan: Plan, current: SubjectView, registry: Seq<DescriptorV>, sorted: Seq<ObservationV>) -> Seq<AssessmentStatus> {
    let valid = plan_valid(plan, current);
    let items = plan_items_spec(plan, current, registry, sorted);
    Seq::new(items.len(), |i: int| items[i].status) + when(!valid, AssessmentStatus::InvalidOrStale) + when(
        dup_reasons(sorted, sorted.len() as int).len() > 0,
        AssessmentStatus::InvalidOrStale,
    ) + lifecycle_candidates(plan.status) + when(items.len() == 0, AssessmentStatus::ActionableWorkRemaining)
        + when(
        plan.status == PlanStatus::Closed && all_items_complete(items) && valid && items.len() > 0,
        AssessmentStatus::Complete,
    )
}

/// The assessment of a plan over observations sorted by identifier.
pub open spec fn plan_spec(plan: Plan, current: SubjectView, registry: Seq<DescriptorV>, sorted: Seq<ObservationV>) -> PlanAssessmentV {
    let valid = plan_valid(plan, current);
    PlanAssessmentV {
        plan_id: plan.id@,
        plan_revision: plan.revision,
        subject: current,
        status: highest(plan_candidates(plan, current, registry, sorted)),
        items: plan_items_spec(plan, current, registry, sorted),
        reasons: reason_when(!valid, ReasonV::InvalidPlan) + dup_reasons(sorted, sorted.len() as int) + lifecycle_reasons(
            plan.status,
        ) + reason_when(plan.items@.len() == 0, ReasonV::NoPlanItems),
    }
}

fn push_status(out: &mut Vec<AssessmentStatus>, b: bool, s: AssessmentStatus)
    ensures
        final(out)@ == old(out)@ + when(b, s),
{
    if b {
        out.push(s);
    }
    assert(out@ =~= old(out)@ + when(b, s));
}

/// The observations in stable identifier order, and that order.
pub fn sort_observations(observations: &[EvidenceObservation]) -> (r: (Vec<EvidenceObservation>, Ghost<Seq<usize>>))
    ensures
        stably_sorted(obs_keys(obs_views(observations@)), r.1@),
        obs_views(r.0@) == permuted(obs_views(observations@), r.1@),
{
    let ghost ov = obs_views(observations@);
    let mut keys: Vec<SortKey> = Vec::new();
    let mut i: usize = 0;
    while i < observations.len()
        invariant
            i <= observations.len(),
            ov == obs_views(observations@),
            keys@.len() == i,
            forall|k: int| 0 <= k < i ==> (#[trigger] keys@[k])@ == obs_keys(ov)[k],
        decreases observations.len() - i,
    {
        keys.push(SortKey { rank: 0, first: observations[i].id().to_string(), second: String::new() });
        i = i + 1;
    }
    assert(key_views(keys@) =~= obs_keys(ov));
    let perm = stable_order(&keys);
    let mut sorted: Vec<EvidenceObservation> = Vec::new();
    let mut i: usize = 0;
    while i < perm.len()
        invariant
            i <= perm.len(),
            ov == obs_views(observations@),
            stably_sorted(obs_keys(ov), perm@),
            sorted@.len() == i,
            forall|k: int| 0 <= k < i ==> (#[trigger] sorted@[k])@ == permuted(ov, perm@)[k],
        decreases perm.len() - i,
    {
        sorted.push(observations[perm[i]].duplicate());
        i = i + 1;
    }
    assert(obs_views(sorted@) =~= permuted(ov, perm@));
    (sorted, Ghost(perm@))
}

/// Appends a reason for each observation whose identifier occurred earlier.
fn push_duplicate_reasons(reasons: &mut Vec<AssessmentReason>, sorted: &Vec<EvidenceObservation>) -> (found: bool)
    ensures
        reason_views(final(reasons)@) == reason_views(old(reasons)@) + dup_reasons(obs_views(sorted@), sorted@.len() as int),
        found == (dup_reasons(obs_views(sorted@), sorted@.len() as int).len() > 0),
{
    let ghost sv = obs_views(sorted@);
    let ghost r0 = reason_views(reasons@);
    let mut found = false;
    let mut i: usize = 0;
    while i < sorted.len()
        invariant
            i <= sorted.len(),
            sv == obs_views(sorted@),
            reason_views(reasons@) == r0 + dup_reasons(sv, i as int),
            found == (dup_reasons(sv, i as int).len() > 0),
        decreases sorted.len() - i,
    {
        let mut seen = false;
        let mut j: usize = 0;
        while j < i
            invariant
                j <= i < sorted.len(),
                sv == obs_views(sorted@),
                seen == exists|k: int| 0 <= k < j && (#[trigger] sv[k]).id == sv[i as int].id,
            decreases i - j,
        {
            proof {
                assert(sv[j as int] == sorted@[j as int]@);
                assert(sv[i as int] == sorted@[i as int]@);
            }
            if sorted[j].id().same(sorted[i].id()) {
                seen = true;
            }
            proof {
                if seen && !(exists|k: int| 0 <= k < j && (#[trigger] sv[k]).id == sv[i as int].id) {
                    assert(sv[j as int].id == sv[i as int].id);
                }
                if exists|k: int| 0 <= k < j + 1 && (#[trigger] sv[k]).id == sv[i as int].id {
                    let k = choose|k: int| 0 <= k < j + 1 && (#[trigger] sv[k]).id == sv[i as int].id;
                    if k == j {
                        assert(seen);
                    }
                }
            }
            j = j + 1;
        }
        let ghost before = reason_views(reasons@);
        if seen {
            push_reason(reasons, AssessmentReason::DuplicateObservationId(sorted[i].id().duplicate()));
            found = true;
        }
        proof {
            assert(sv[i as int] == sorted@[i as int]@);
            if seen {
                assert(reason_views(reasons@) =~= r0 + dup_reasons(sv, i + 1));
            } else {
                assert(dup_reasons(sv, i + 1) =~= dup_reasons(sv, i as int));
            }
        }
        i = i + 1;
    }
    found
}

/// Assesses every item; returns the assessments, their statuses, and whether all are Complete.
fn assess_items(
    plan: &Plan,
    current_subject: &SubjectRevision,
    sorted: &Vec<EvidenceObservation>,
    providers: &ProviderRegistry,
) -> (r: (Vec<ItemAssessment>, Vec<AssessmentStatus>, bool))
    ensures
        Seq::new(r.0@.len(), |k: int| r.0@[k]@) == plan_items_spec(*plan, current_subject@, providers@, obs_views(sorted@)),
        r.1@ == Seq::new(
            plan_items_spec(*plan, current_subject@, providers@, obs_views(sorted@)).len(),
            |k: int| plan_items_spec(*plan, current_subject@, providers@, obs_views(sorted@))[k].status,
        ),
        r.2 == all_items_complete(plan_items_spec(*plan, current_subject@, providers@, obs_views(sorted@))),
{
    let ghost items_spec = plan_items_spec(*plan, current_subject@, providers@, obs_views(sorted@));
    let mut items: Vec<ItemAssessment> = Vec::new();
    let mut candidates: Vec<AssessmentStatus> = Vec::new();
    let mut all_complete = true;
    let mut i: usize = 0;
    while i < plan.items.len()
        invariant
            i <= plan.items.len(),
            items_spec == plan_items_spec(*plan, current_subject@, providers@, obs_views(sorted@)),
            items@.len() == i,
            forall|k: int| 0 <= k < i ==> (#[trigger] items@[k])@ == items_spec[k],
            candidates@ == Seq::new(items_spec.len(), |k: int| items_spec[k].status).take(i as int),
            all_complete == forall|k: int| 0 <= k < i ==> (#[trigger] items_spec[k]).status == AssessmentStatus::Complete,
        decreases plan.items.len() - i,
    {
        let ia = assess_item(&plan.items[i], current_subject, sorted, providers);
        proof {
            assert(ia@ == items_spec[i as int]);
        }
        candidates.push(ia.status);
        if ia.status != AssessmentStatus::Complete {
            all_complete = false;
        }
        items.push(ia);
        proof {
            assert(candidates@ =~= Seq::new(items_spec.len(), |k: int| items_spec[k].status).take(i + 1));
        }
        i = i + 1;
    }
    assert(Seq::new(items_spec.len(), |k: int| items_spec[k].status).take(items_spec.len() as int) =~= Seq::new(items_spec.len(), |k: int| items_spec[k].status));
    assert(Seq::new(items@.len(), |k: int| items@[k]@) =~= items_spec);
    (items, candidates, all_complete)
}

/// Pure deterministic assessment. The provider registry is explicit host
/// policy: observation text cannot add or widen trusted providers.
/// Observations are considered in stable identifier order.
#[verifier::rlimit(60)]
#[verifier::spinoff_prover]
pub fn assess_plan(
    plan: &Plan,
    current_subject: &SubjectRevision,
    observations: &[EvidenceObservation],
    providers: &ProviderRegistry,
) -> (r: PlanAssessment)
    ensures
        r@ == plan_spec(
            *plan,
            current_subject@,
            providers@,
            permuted(obs_views(observations@), crate::sort::stable_perm(obs_keys(obs_views(observations@)))),
        ),
{
    let valid = plan.validate().is_ok() && current_subject.validate().is_ok();
    let (sorted, Ghost(perm)) = sort_observations(observations);
    proof {
        crate::sort::lemma_stable_perm(obs_keys(obs_views(observations@)), perm);
    }
    let ghost sv = obs_views(sorted@);
    let mut reasons: Vec<AssessmentReason> = Vec::new();
    if !valid {
        push_reason(&mut reasons, AssessmentReason::InvalidPlan);
    }
    assert(reason_views(reasons@) =~= reason_when(!valid, ReasonV::InvalidPlan));
    let duplicate_ids = push_duplicate_reasons(&mut reasons, &sorted);
    let (items, mut candidates, all_complete) = assess_items(plan, current_subject, &sorted, providers);
    push_status(&mut candidates, !valid, AssessmentStatus::InvalidOrStale);
    push_status(&mut candidates, duplicate_ids, AssessmentStatus::InvalidOrStale);
    let ghost r1 = reason_views(reasons@);
    let ghost c1 = candidates@;
    match plan.status {
        PlanStatus::Blocked => {
            push_reason(&mut reasons, AssessmentReason::PlanBlocked);
            candidates.push(AssessmentStatus::Blocked);
        },
        PlanStatus::Cancelled => {
            push_reason(&mut reasons, AssessmentReason::PlanCancelled);
            candidates.push(AssessmentStatus::InvalidOrStale);
        },
        PlanStatus::Draft => {
            push_reason(&mut reasons, AssessmentReason::PlanNotActive);
            candidates.push(AssessmentStatus::ActionableWorkRemaining);
        },
        PlanStatus::Active | PlanStatus::Closed => {},
    }
    assert(reason_views(reasons@) =~= r1 + lifecycle_reasons(plan.status));
    assert(candidates@ =~= c1 + lifecycle_candidates(plan.status));
    let no_items = plan.items.len() == 0;
    let ghost r2 = reason_views(reasons@);
    if no_items {
        push_reason(&mut reasons, AssessmentReason::NoPlanItems);
    }
    assert(reason_views(reasons@) =~= r2 + reason_when(no_items, ReasonV::NoPlanItems));
    push_status(&mut candidates, no_items, AssessmentStatus::ActionableWorkRemaining);
    push_status(
        &mut candidates,
        plan.status == PlanStatus::Closed && all_complete && valid && !no_items,
        AssessmentStatus::Complete,
    );
    proof {
        assert(candidates@ =~= plan_candidates(*plan, current_subject@, providers@, sv));
        assert(reason_views(reasons@) =~= plan_spec(*plan, current_subject@, providers@, sv).reasons);
    }
    let status = highest_of(&candidates);
    let r = PlanAssessment {
        plan_id: plan.id.duplicate(),
        plan_revision: plan.revision,
        subject: current_subject.duplicate(),
        status,
        items,
        reasons,
    };
    assert(r@ == plan_spec(*plan, current_subject@, providers@, sv));
    r
}

/// A plan assessment is Complete only when every item assessment is
/// Complete, the plan and subject are valid, no observation identifier
/// repeats, the plan has items, and it is Active or Closed.
pub proof fn lemma_complete_plan_conditions(
    plan: Plan,
    current: SubjectView,
    registry: Seq<DescriptorV>,
    sorted: Seq<ObservationV>,
)
    requires
        plan_spec(plan, current, registry, sorted).status == AssessmentStatus::Complete,
    ensures
        all_items_complete(plan_items_spec(plan, current, registry, sorted)),
        plan_valid(plan, current),
        dup_reasons(sorted, sorted.len() as int).len() == 0,
        plan.items@.len() > 0,
        plan.status == PlanStatus::Active || plan.status == PlanStatus::Closed,
{
    let c = plan_candidates(plan, current, registry, sorted);
    let items = plan_items_spec(plan, current, registry, sorted);
    let st = Seq::new(items.len(), |i: int| items[i].status);
    lemma_highest(c);
    assert forall|i: int| 0 <= i < items.len() implies (#[trigger] items[i]).status == AssessmentStatus::Complete by {
        assert(c[i] == st[i]);
    }
    let tail1 = when(!plan_valid(plan, current), AssessmentStatus::InvalidOrStale);
    if !plan_valid(plan, current) {
        assert(c[st.len() as int] == AssessmentStatus::InvalidOrStale);
    }
    let tail2 = when(dup_reasons(sorted, sorted.len() as int).len() > 0, AssessmentStatus::InvalidOrStale);
    if dup_reasons(sorted, sorted.len() as int).len() > 0 {
        assert(c[(st.len() + tail1.len()) as int] == AssessmentStatus::InvalidOrStale);
    }
    let tail3 = lifecycle_candidates(plan.status);
    if tail3.len() > 0 {
        assert(c[(st.len() + tail1.len() + tail2.len()) as int] == tail3[0]);
    }
    if items.len() == 0 {
        assert(c[(st.len() + tail1.len() + tail2.len() + tail3.len()) as int] == AssessmentStatus::ActionableWorkRemaining);
    }
}

/// An item assessment is Complete only when the item is Completed, it has
/// criteria, and every criterion assessment is Complete.
pub proof fn lemma_complete_item_conditions(
    item: PlanItem,
    current: SubjectView,
    registry: Seq<DescriptorV>,
    obs: Seq<ObservationV>,
)
    requires
        item_spec(item, current, registry, obs).status == AssessmentStatus::Complete,
    ensures
        item.status == PlanItemStatus::Completed,
        item.criteria@.len() > 0,
        forall|i: int| 0 <= i < item.criteria@.len() ==> (#[trigger] item_spec(item, current, registry, obs).criteria[i]).status
            == AssessmentStatus::Complete,
{
    let crits = item_spec(item, current, registry, obs).criteria;
    let st = Seq::new(crits.len(), |i: int| crits[i].status);
    lemma_highest(st);
    assert forall|i: int| 0 <= i < item.criteria@.len() implies (#[trigger] crits[i]).status == AssessmentStatus::Complete by {
        assert(st[i] == crits[i].status);
    }
}

/// A criterion assessment is Complete only when every requirement
/// assessment is Complete; a criterion without requirements never is.
pub proof fn lemma_complete_criterion_conditions(
    c: AcceptanceCriterion,
    current: SubjectView,
    registry: Seq<DescriptorV>,
    obs: Seq<ObservationV>,
)
    requires
        criterion_spec(c, current, registry, obs).status == AssessmentStatus::Complete,
    ensures
        c.requirements@.len() > 0,
        forall|i: int| 0 <= i < c.requirements@.len() ==> (#[trigger] criterion_spec(c, current, registry, obs).requirements[i]).status
            == AssessmentStatus::Complete,
{
    let reqs = criterion_requirements(c, current, registry, obs);
    let st = Seq::new(reqs.len(), |i: int| reqs[i].status);
    lemma_highest(st);
    if c.requirements@.len() == 0 {
        assert(st[0] == empty_requirement(c.human_judgment_allowed).status);
    }
    assert forall|i: int| 0 <= i < c.requirements@.len() implies (#[trigger] reqs[i]).status == AssessmentStatus::Complete by {
        assert(st[i] == reqs[i].status);
    }
}

/// An observation is counted toward a requirement only when its provider is
/// registered and allowed its kind, it names the required provider (if
/// any), it passes its own checks, it is about the current subject, and it
/// carries the expected verification binding (if any); human judgment
/// counts only where the requirement and criterion allow it and the
/// provider's class is `human`.
pub proof fn lemma_eligible_means_trusted(
    req: EvidenceRequirement,
    criterion_allows_human: bool,
    current: SubjectView,
    registry: Seq<DescriptorV>,
    o: ObservationV,
)
    requires
        screen(req, criterion_allows_human, current, registry, o) is Eligible,
    ensures
        o.kind == req.kind,
        lookup_provider(registry, o.provider_id) is Some,
        lookup_provider(registry, o.provider_id)->0.allowed_kinds.contains(o.kind),
        req.provider is Some ==> req.provider->0@ == o.provider_id,
        o.kind == EvidenceKind::HumanJudgment ==> req.allow_human_judgment && criterion_allows_human
            && lookup_provider(registry, o.provider_id)->0.class == "human"@,
        observation_valid(o),
        o.subject == current,
        req.expected_verification_digest is Some ==> o.verification_digest == Some(req.expected_verification_digest->0@),
{
}

/// Every eligible entry comes from an observation that screened eligible.
pub proof fn lemma_scan_eligible_source(
    req: EvidenceRequirement,
    criterion_allows_human: bool,
    current: SubjectView,
    registry: Seq<DescriptorV>,
    obs: Seq<ObservationV>,
    n: int,
)
    requires
        0 <= n <= obs.len(),
    ensures
        forall|e: int| 0 <= e < scan(req, criterion_allows_human, current, registry, obs, n).eligible.len() ==> exists|k: int|
            0 <= k < n && obs[k].id == (#[trigger] scan(req, criterion_allows_human, current, registry, obs, n).eligible[e]).0
                && obs[k].status == scan(req, criterion_allows_human, current, registry, obs, n).eligible[e].1 && screen(
                req,
                criterion_allows_human,
                current,
                registry,
                #[trigger] obs[k],
            ) is Eligible,
    decreases n,
{
    if n > 0 {
        lemma_scan_eligible_source(req, criterion_allows_human, current, registry, obs, n - 1);
        let p = scan(req, criterion_allows_human, current, registry, obs, n - 1);
        let q = scan(req, criterion_allows_human, current, registry, obs, n);
        assert forall|e: int| 0 <= e < q.eligible.len() implies exists|k: int|
            0 <= k < n && obs[k].id == (#[trigger] q.eligible[e]).0 && obs[k].status == q.eligible[e].1 && screen(
                req,
                criterion_allows_human,
                current,
                registry,
                #[trigger] obs[k],
            ) is Eligible by {
            if e < p.eligible.len() {
                assert(q.eligible[e] == p.eligible[e]);
                let k = choose|k: int|
                    0 <= k < n - 1 && obs[k].id == (#[trigger] p.eligible[e]).0 && obs[k].status == p.eligible[e].1
                        && screen(req, criterion_allows_human, current, registry, #[trigger] obs[k]) is Eligible;
                assert(obs[k].id == q.eligible[e].0);
            } else {
                assert(screen(req, criterion_allows_human, current, registry, obs[n - 1]) is Eligible);
                assert(q.eligible[e] == (obs[n - 1].id, obs[n - 1].status));
            }
        }
    }
}

/// A requirement assessment is Complete only when the requirement is bound
/// (or not execution-derived) and the eligible observations satisfy its
/// cardinality and minimum count.
pub proof fn lemma_complete_requirement_conditions(
    req: EvidenceRequirement,
    criterion_allows_human: bool,
    current: SubjectView,
    registry: Seq<DescriptorV>,
    obs: Seq<ObservationV>,
)
    requires
        requirement_spec(req, criterion_allows_human, current, registry, obs).status == AssessmentStatus::Complete,
    ensures
        !(is_execution_kind(req.kind) && req.expected_verification_digest is None),
        satisfied(req, scan(req, criterion_allows_human, current, registry, obs, obs.len() as int).eligible),
{
}

/// Observation identifiers are pairwise distinct.
pub open spec fn distinct_ids(obs: Seq<ObservationV>) -> bool {
    forall|i: int, j: int| 0 <= i < obs.len() && 0 <= j < obs.len() && i != j ==> (#[trigger] obs[i]).id != (#[trigger] obs[j]).id
}

/// Identifiers strictly increase along the sequence.
pub open spec fn ids_increasing(s: Seq<ObservationV>) -> bool {
    forall|i: int, j: int| 0 <= i < j < s.len() ==> seq_lt((#[trigger] s[i]).id, (#[trigger] s[j]).id)
}

proof fn lemma_sorted_ids_increase(a: Seq<ObservationV>, pa: Seq<usize>)
    requires
        distinct_ids(a),
        stably_sorted(obs_keys(a), pa),
    ensures
        ids_increasing(permuted(a, pa)),
{
    let s = permuted(a, pa);
    let keys = obs_keys(a);
    assert forall|i: int, j: int| 0 <= i < j < s.len() implies seq_lt((#[trigger] s[i]).id, (#[trigger] s[j]).id) by {
        let p = pa[i] as int;
        let q = pa[j] as int;
        assert(crate::sort::index_lt(keys, p, q));
        lemma_seq_lt_irreflexive(Seq::<char>::empty());
        lemma_seq_lt_irreflexive(a[p].id);
        if p != q {
            assert(a[p].id != a[q].id);
        }
        assert(keys[p].first == a[p].id);
        assert(keys[q].first == a[q].id);
    }
}

proof fn lemma_sorted_covers(a: Seq<ObservationV>, pa: Seq<usize>)
    requires
        stably_sorted(obs_keys(a), pa),
    ensures
        forall|z: ObservationV| a.contains(z) <==> permuted(a, pa).contains(z),
{
    let n = a.len() as int;
    let keys = obs_keys(a);
    let t = Seq::new(pa.len(), |i: int| pa[i] as int);
    assert(t.no_duplicates()) by {
        assert forall|i: int, j: int| 0 <= i < t.len() && 0 <= j < t.len() && i != j implies t[i] != t[j] by {
            lemma_seq_lt_irreflexive(a[pa[i] as int].id);
            lemma_seq_lt_irreflexive(Seq::<char>::empty());
            if i < j {
                assert(crate::sort::index_lt(keys, pa[i] as int, pa[j] as int));
            } else {
                assert(crate::sort::index_lt(keys, pa[j] as int, pa[i] as int));
            }
        }
    }
    t.unique_seq_to_set();
    lemma_int_range(0, n);
    assert(t.to_set().subset_of(set_int_range(0, n)));
    lemma_subset_equality(t.to_set(), set_int_range(0, n));
    let s = permuted(a, pa);
    assert forall|z: ObservationV| a.contains(z) <==> s.contains(z) by {
        if a.contains(z) {
            let j = choose|j: int| 0 <= j < a.len() && a[j] == z;
            assert(set_int_range(0, n).contains(j));
            assert(t.to_set().contains(j));
            let i = choose|i: int| 0 <= i < t.len() && t[i] == j;
            assert(s[i] == z);
        }
        if s.contains(z) {
            let i = choose|i: int| 0 <= i < s.len() && s[i] == z;
            assert(a[pa[i] as int] == z);
        }
    }
}

proof fn lemma_sorted_unique(x: Seq<ObservationV>, y: Seq<ObservationV>)
    requires
        ids_increasing(x),
        ids_increasing(y),
        forall|z: ObservationV| x.contains(z) <==> y.contains(z),
    ensures
        x == y,
    decreases x.len(),
{
    if x.len() == 0 {
        if y.len() > 0 {
            assert(y.contains(y[0]));
        }
        assert(x =~= y);
    } else {
        assert(x.contains(x[0]));
        let j = choose|j: int| 0 <= j < y.len() && y[j] == x[0];
        assert(y.contains(y[0]));
        let k = choose|k: int| 0 <= k < x.len() && x[k] == y[0];
        if j > 0 {
            assert(seq_lt(y[0].id, y[j].id));
            lemma_seq_lt_irreflexive(x[0].id);
            if k > 0 {
                assert(seq_lt(x[0].id, x[k].id));
                lemma_seq_lt_asymmetric(x[0].id, x[k].id);
            }
            assert(false);
        }
        let xt = x.drop_first();
        let yt = y.drop_first();
        assert forall|z: ObservationV| xt.contains(z) <==> yt.contains(z) by {
            if xt.contains(z) {
                let a = choose|a: int| 0 <= a < xt.len() && xt[a] == z;
                assert(x[a + 1] == z);
                assert(seq_lt(x[0].id, x[a + 1].id));
                lemma_seq_lt_irreflexive(z.id);
                assert(y.contains(z));
                let b = choose|b: int| 0 <= b < y.len() && y[b] == z;
                assert(b != 0);
                assert(yt[b - 1] == z);
            }
            if yt.contains(z) {
                let a = choose|a: int| 0 <= a < yt.len() && yt[a] == z;
                assert(y[a + 1] == z);
                assert(seq_lt(y[0].id, y[a + 1].id));
                lemma_seq_lt_irreflexive(z.id);
                assert(x.contains(z));
                let b = choose|b: int| 0 <= b < x.len() && x[b] == z;
                assert(b != 0);
                assert(xt[b - 1] == z);
            }
        }
        assert forall|i: int, j2: int| 0 <= i < j2 < xt.len() implies seq_lt((#[trigger] xt[i]).id, (#[trigger] xt[j2]).id) by {
            assert(xt[i] == x[i + 1] && xt[j2] == x[j2 + 1]);
        }
        assert forall|i: int, j2: int| 0 <= i < j2 < yt.len() implies seq_lt((#[trigger] yt[i]).id, (#[trigger] yt[j2]).id) by {
            assert(yt[i] == y[i + 1] && yt[j2] == y[j2 + 1]);
        }
        lemma_sorted_unique(xt, yt);
        assert(x =~= y) by {
            assert forall|i: int| 0 <= i < x.len() implies x[i] == y[i] by {
                if i > 0 {
                    assert(x[i] == xt[i - 1]);
                    assert(y[i] == yt[i - 1]);
                }
            }
        }
    }
}

/// `assess_plan` does not depend on the order of its observations: two
/// lists holding the same observations, with distinct identifiers, give
/// the same assessment, reasons and their order included.
pub proof fn lemma_assess_plan_order_free(
    plan: Plan,
    current: SubjectView,
    registry: Seq<DescriptorV>,
    a: Seq<ObservationV>,
    b: Seq<ObservationV>,
)
    requires
        a.len() <= usize::MAX,
        b.len() <= usize::MAX,
        distinct_ids(a),
        distinct_ids(b),
        forall|z: ObservationV| a.contains(z) <==> b.contains(z),
    ensures
        plan_spec(plan, current, registry, permuted(a, crate::sort::stable_perm(obs_keys(a)))) == plan_spec(
            plan,
            current,
            registry,
            permuted(b, crate::sort::stable_perm(obs_keys(b))),
        ),
{
    crate::sort::lemma_stable_perm_sorts(obs_keys(a));
    crate::sort::lemma_stable_perm_sorts(obs_keys(b));
    lemma_assessment_order_independent(
        plan,
        current,
        registry,
        a,
        b,
        crate::sort::stable_perm(obs_keys(a)),
        crate::sort::stable_perm(obs_keys(b)),
    );
}

/// The assessment does not depend on the order in which observations are
/// given: two lists holding the same observations, with distinct
/// identifiers, are assessed alike.
pub proof fn lemma_assessment_order_independent(
    plan: Plan,
    current: SubjectView,
    registry: Seq<DescriptorV>,
    a: Seq<ObservationV>,
    b: Seq<ObservationV>,
    pa: Seq<usize>,
    pb: Seq<usize>,
)
    requires
        distinct_ids(a),
        distinct_ids(b),
        forall|z: ObservationV| a.contains(z) <==> b.contains(z),
        stably_sorted(obs_keys(a), pa),
        stably_sorted(obs_keys(b), pb),
    ensures
        plan_spec(plan, current, registry, permuted(a, pa)) == plan_spec(plan, current, registry, permuted(b, pb)),
{
    lemma_sorted_ids_increase(a, pa);
    lemma_sorted_ids_increase(b, pb);
    lemma_sorted_covers(a, pa);
    lemma_sorted_covers(b, pb);
    assert forall|z: ObservationV| permuted(a, pa).contains(z) <==> permuted(b, pb).contains(z) by {
        assert(a.contains(z) <==> permuted(a, pa).contains(z));
        assert(b.contains(z) <==> permuted(b, pb).contains(z));
        assert(a.contains(z) <==> b.contains(z));
    }
    lemma_sorted_unique(permuted(a, pa), permuted(b, pb));
}

impl AssessmentReason {
    /// Equality of reasons by value.
    pub fn same(&self, other: &AssessmentReason) -> (r: bool)
        ensures
            r == (self@ == other@),
    {
        match (self, other) {
            (AssessmentReason::MissingObservation, AssessmentReason::MissingObservation) => true,
            (AssessmentReason::NoAcceptanceCriteria, AssessmentReason::NoAcceptanceCriteria) => true,
            (AssessmentReason::NoEvidenceRequirement, AssessmentReason::NoEvidenceRequirement) => true,
            (AssessmentReason::HumanJudgmentRequired, AssessmentReason::HumanJudgmentRequired) => true,
            (AssessmentReason::StaleSubject(a), AssessmentReason::StaleSubject(b)) => a.same(b),
            (AssessmentReason::UntrustedProvider(a), AssessmentReason::UntrustedProvider(b)) => a.same(b),
            (AssessmentReason::ProviderKindNotAllowed(a), AssessmentReason::ProviderKindNotAllowed(b)) => a.same(b),
            (AssessmentReason::ProviderMismatch(a), AssessmentReason::ProviderMismatch(b)) => a.same(b),
            (
                AssessmentReason::LegacyUnboundExecutionRequirement,
                AssessmentReason::LegacyUnboundExecutionRequirement,
            ) => true,
            (
                AssessmentReason::ObservationMissingVerificationBinding(a),
                AssessmentReason::ObservationMissingVerificationBinding(b),
            ) => a.same(b),
            (AssessmentReason::VerificationDigestMismatch(a), AssessmentReason::VerificationDigestMismatch(b)) => a.same(b),
            (AssessmentReason::EvidenceStatus(a, x), AssessmentReason::EvidenceStatus(b, y)) => a.same(b) && *x == *y,
            (AssessmentReason::HumanJudgmentNotAllowed, AssessmentReason::HumanJudgmentNotAllowed) => true,
            (AssessmentReason::InvalidObservation(a), AssessmentReason::InvalidObservation(b)) => a.same(b),
            (AssessmentReason::DuplicateObservationId(a), AssessmentReason::DuplicateObservationId(b)) => a.same(b),
            (AssessmentReason::PlanNotActive, AssessmentReason::PlanNotActive) => true,
            (AssessmentReason::InvalidPlan, AssessmentReason::InvalidPlan) => true,
            (AssessmentReason::ItemNotCompleted(x), AssessmentReason::ItemNotCompleted(y)) => *x == *y,
            (AssessmentReason::PlanBlocked, AssessmentReason::PlanBlocked) => true,
            (AssessmentReason::PlanCancelled, AssessmentReason::PlanCancelled) => true,
            (AssessmentReason::NoPlanItems, AssessmentReason::NoPlanItems) => true,
            _ => false,
        }
    }
}

fn reasons_same(a: &Vec<AssessmentReason>, b: &Vec<AssessmentReason>) -> (r: bool)
    ensures
        r == (reason_views(a@) == reason_views(b@)),
{
    if a.len() != b.len() {
        assert(reason_views(a@).len() != reason_views(b@).len());
        return false;
    }
    let mut i: usize = 0;
    while i < a.len()
        invariant
            i <= a@.len(),
            a@.len() == b@.len(),
            forall|k: int| 0 <= k < i ==> (#[trigger] a@[k])@ == b@[k]@,
        decreases a.len() - i,
    {
        if !a[i].same(&b[i]) {
            assert(reason_views(a@)[i as int] != reason_views(b@)[i as int]);
            return false;
        }
        i = i + 1;
    }
    assert(reason_views(a@) =~= reason_views(b@));
    true
}

fn ids_same(a: &Vec<EvidenceObservationId>, b: &Vec<EvidenceObservationId>) -> (r: bool)
    ensures
        r == (obs_id_views(a@) == obs_id_views(b@)),
{
    if a.len() != b.len() {
        assert(obs_id_views(a@).len() != obs_id_views(b@).len());
        return false;
    }
    let mut i: usize = 0;
    while i < a.len()
        invariant
            i <= a@.len(),
            a@.len() == b@.len(),
            forall|k: int| 0 <= k < i ==> (#[trigger] a@[k])@ == b@[k]@,
        decreases a.len() - i,
    {
        if !a[i].same(&b[i]) {
            assert(obs_id_views(a@)[i as int] != obs_id_views(b@)[i as int]);
            return false;
        }
        i = i + 1;
    }
    assert(obs_id_views(a@) =~= obs_id_views(b@));
    true
}

impl RequirementAssessment {
    /// Equality of requirement assessments by value.
    pub fn same(&self, other: &RequirementAssessment) -> (r: bool)
        ensures
            r == (self@ == other@),
    {
        self.status == other.status && self.requirement_kind == other.requirement_kind && ids_same(
            &self.satisfying_observation_ids,
            &other.satisfying_observation_ids,
        ) && reasons_same(&self.reasons, &other.reasons)
    }
}

fn requirements_same(a: &Vec<RequirementAssessment>, b: &Vec<RequirementAssessment>) -> (r: bool)
    ensures
        r == (Seq::new(a@.len(), |i: int| a@[i]@) == Seq::new(b@.len(), |i: int| b@[i]@)),
{
    let ghost va = Seq::new(a@.len(), |i: int| a@[i]@);
    let ghost vb = Seq::new(b@.len(), |i: int| b@[i]@);
    if a.len() != b.len() {
        assert(va.len() != vb.len());
        return false;
    }
    let mut i: usize = 0;
    while i < a.len()
        invariant
            i <= a@.len(),
            a@.len() == b@.len(),
            va == Seq::new(a@.len(), |i: int| a@[i]@),
            vb == Seq::new(b@.len(), |i: int| b@[i]@),
            forall|k: int| 0 <= k < i ==> (#[trigger] a@[k])@ == b@[k]@,
        decreases a.len() - i,
    {
        if !a[i].same(&b[i]) {
            assert(va[i as int] != vb[i as int]);
            return false;
        }
        i = i + 1;
    }
    assert(va =~= vb);
    true
}

impl CriterionAssessment {
    /// Equality of criterion assessments by value.
    pub fn same(&self, other: &CriterionAssessment) -> (r: bool)
        ensures
            r == (self@ == other@),
    {
        self.criterion_id.same(&other.criterion_id) && self.status == other.status && requirements_same(
            &self.requirements,
            &other.requirements,
        ) && reasons_same(&self.reasons, &other.reasons)
    }
}

fn criteria_same(a: &Vec<CriterionAssessment>, b: &Vec<CriterionAssessment>) -> (r: bool)
    ensures
        r == (Seq::new(a@.len(), |i: int| a@[i]@) == Seq::new(b@.len(), |i: int| b@[i]@)),
{
    let ghost va = Seq::new(a@.len(), |i: int| a@[i]@);
    let ghost vb = Seq::new(b@.len(), |i: int| b@[i]@);
    if a.len() != b.len() {
        assert(va.len() != vb.len());
        return false;
    }
    let mut i: usize = 0;
    while i < a.len()
        invariant
            i <= a@.len(),
            a@.len() == b@.len(),
            va == Seq::new(a@.len(), |i: int| a@[i]@),
            vb == Seq::new(b@.len(), |i: int| b@[i]@),
            forall|k: int| 0 <= k < i ==> (#[trigger] a@[k])@ == b@[k]@,
        decreases a.len() - i,
    {
        if !a[i].same(&b[i]) {
            assert(va[i as int] != vb[i as int]);
            return false;
        }
        i = i + 1;
    }
    assert(va =~= vb);
    true
}

impl ItemAssessment {
    /// Equality of item assessments by value.
    pub fn same(&self, other: &ItemAssessment) -> (r: bool)
        ensures
            r == (self@ == other@),
    {
        self.item_id.same(&other.item_id) && self.status == other.status && criteria_same(&self.criteria, &other.criteria)
            && reasons_same(&self.reasons, &other.reasons)
    }
}

fn items_same(a: &Vec<ItemAssessment>, b: &Vec<ItemAssessment>) -> (r: bool)
    ensures
        r == (Seq::new(a@.len(), |i: int| a@[i]@) == Seq::new(b@.len(), |i: int| b@[i]@)),
{
    let ghost va = Seq::new(a@.len(), |i: int| a@[i]@);
    let ghost vb = Seq::new(b@.len(), |i: int| b@[i]@);
    if a.len() != b.len() {
        assert(va.len() != vb.len());
        return false;
    }
    let mut i: usize = 0;
    while i < a.len()
        invariant
            i <= a@.len(),
            a@.len() == b@.len(),
            va == Seq::new(a@.len(), |i: int| a@[i]@),
            vb == Seq::new(b@.len(), |i: int| b@[i]@),
            forall|k: int| 0 <= k < i ==> (#[trigger] a@[k])@ == b@[k]@,
        decreases a.len() - i,
    {
        if !a[i].same(&b[i]) {
            assert(va[i as int] != vb[i as int]);
            return false;
        }
        i = i + 1;
    }
    assert(va =~= vb);
    true
}

impl PlanAssessment {
    /// Equality of plan assessments by value.
    pub fn same(&self, other: &PlanAssessment) -> (r: bool)
        ensures
            r == (self@ == other@),
    {
        self.plan_id.same(&other.plan_id) && self.plan_revision == other.plan_revision && self.subject.same(
            &other.subject,
        ) && self.status == other.status && items_same(&self.items, &other.items) && reasons_same(
            &self.reasons,
            &other.reasons,
        )
    }
}

} // verus!

verus! {

proof fn lemma_passed_ids_source(e: Seq<(Seq<char>, EvidenceStatus)>)
    ensures
        passed_ids(e).len() <= e.len(),
        all_passed(e) ==> passed_ids(e).len() == e.len(),
        forall|i: int|
            0 <= i < passed_ids(e).len() ==> exists|j: int|
                0 <= j < e.len() && e[j].0 == (#[trigger] passed_ids(e)[i]) && e[j].1 == EvidenceStatus::Passed,
    decreases e.len(),
{
    if e.len() > 0 {
        let d = e.drop_last();
        lemma_passed_ids_source(d);
        if all_passed(e) {
            assert(all_passed(d)) by {
                assert forall|i: int| 0 <= i < d.len() implies (#[trigger] d[i]).1 == EvidenceStatus::Passed by {
                    assert(d[i] == e[i]);
                }
            }
            assert(e[e.len() - 1].1 == EvidenceStatus::Passed);
        }
        assert forall|i: int| 0 <= i < passed_ids(e).len() implies exists|j: int|
            0 <= j < e.len() && e[j].0 == (#[trigger] passed_ids(e)[i]) && e[j].1 == EvidenceStatus::Passed by {
            if i < passed_ids(d).len() {
                assert(passed_ids(e)[i] == passed_ids(d)[i]);
                let j = choose|j: int| 0 <= j < d.len() && d[j].0 == passed_ids(d)[i] && d[j].1 == EvidenceStatus::Passed;
                assert(e[j] == d[j]);
            } else {
                assert(e[e.len() - 1].0 == passed_ids(e)[i]);
            }
        }
    }
}

/// A requirement is Complete only on enough passing evidence: it names at
/// least its minimum count of satisfying observations, and each satisfying
/// identifier is that of a given observation that passed and was eligible
/// (a trusted provider allowed the kind, about the current subject, with
/// the expected binding). With cardinality Any, fewer passing observations
/// than `min_count` never make it Complete.
pub proof fn lemma_complete_requirement_counts_passed(
    req: EvidenceRequirement,
    criterion_allows_human: bool,
    current: SubjectView,
    registry: Seq<DescriptorV>,
    obs: Seq<ObservationV>,
)
    requires
        requirement_spec(req, criterion_allows_human, current, registry, obs).status == AssessmentStatus::Complete,
    ensures
        requirement_spec(req, criterion_allows_human, current, registry, obs).satisfying.len() >= req.min_count,
        forall|i: int|
            0 <= i < requirement_spec(req, criterion_allows_human, current, registry, obs).satisfying.len() ==> exists|k: int|
                0 <= k < obs.len() && obs[k].id == (#[trigger] requirement_spec(
                    req,
                    criterion_allows_human,
                    current,
                    registry,
                    obs,
                ).satisfying[i]) && obs[k].status == EvidenceStatus::Passed && screen(
                    req,
                    criterion_allows_human,
                    current,
                    registry,
                    obs[k],
                ) is Eligible,
{
    let s = scan(req, criterion_allows_human, current, registry, obs, obs.len() as int);
    let r = requirement_spec(req, criterion_allows_human, current, registry, obs);
    lemma_passed_ids_source(s.eligible);
    lemma_scan_eligible_source(req, criterion_allows_human, current, registry, obs, obs.len() as int);
    assert(r.satisfying == passed_ids(s.eligible));
    assert forall|i: int| 0 <= i < r.satisfying.len() implies exists|k: int|
        0 <= k < obs.len() && obs[k].id == (#[trigger] r.satisfying[i]) && obs[k].status == EvidenceStatus::Passed && screen(
            req,
            criterion_allows_human,
            current,
            registry,
            obs[k],
        ) is Eligible by {
        let j = choose|j: int|
            0 <= j < s.eligible.len() && s.eligible[j].0 == passed_ids(s.eligible)[i] && s.eligible[j].1
                == EvidenceStatus::Passed;
        assert(exists|k: int|
            0 <= k < obs.len() && obs[k].id == s.eligible[j].0 && obs[k].status == s.eligible[j].1 && screen(
                req,
                criterion_allows_human,
                current,
                registry,
                obs[k],
            ) is Eligible);
    }
}

proof fn lemma_scan_covers_eligible(
    req: EvidenceRequirement,
    criterion_allows_human: bool,
    current: SubjectView,
    registry: Seq<DescriptorV>,
    obs: Seq<ObservationV>,
    n: int,
)
    requires
        0 <= n <= obs.len(),
    ensures
        forall|k: int|
            0 <= k < n && screen(req, criterion_allows_human, current, registry, #[trigger] obs[k]) is Eligible ==> exists|e: int|
                0 <= e < scan(req, criterion_allows_human, current, registry, obs, n).eligible.len() && scan(
                    req,
                    criterion_allows_human,
                    current,
                    registry,
                    obs,
                    n,
                ).eligible[e] == (obs[k].id, obs[k].status),
    decreases n,
{
    if n > 0 {
        lemma_scan_covers_eligible(req, criterion_allows_human, current, registry, obs, n - 1);
        let p = scan(req, criterion_allows_human, current, registry, obs, n - 1);
        let q = scan(req, criterion_allows_human, current, registry, obs, n);
        assert forall|k: int|
            0 <= k < n && screen(req, criterion_allows_human, current, registry, #[trigger] obs[k]) is Eligible implies exists|e: int|
                0 <= e < q.eligible.len() && q.eligible[e] == (obs[k].id, obs[k].status) by {
            if k < n - 1 {
                let e = choose|e: int| 0 <= e < p.eligible.len() && p.eligible[e] == (obs[k].id, obs[k].status);
                assert(q.eligible[e] == p.eligible[e]);
            } else {
                assert(q.eligible[p.eligible.len() as int] == (obs[k].id, obs[k].status));
            }
        }
    }
}

/// A requirement of cardinality All is Complete only when every given
/// observation that was eligible for it passed, and there are at least
/// `min_count` eligible ones.
pub proof fn lemma_complete_all_requirement(
    req: EvidenceRequirement,
    criterion_allows_human: bool,
    current: SubjectView,
    registry: Seq<DescriptorV>,
    obs: Seq<ObservationV>,
)
    requires
        req.cardinality == EvidenceCardinality::All,
        requirement_spec(req, criterion_allows_human, current, registry, obs).status == AssessmentStatus::Complete,
    ensures
        forall|k: int|
            0 <= k < obs.len() && screen(req, criterion_allows_human, current, registry, #[trigger] obs[k]) is Eligible
                ==> obs[k].status == EvidenceStatus::Passed,
        requirement_spec(req, criterion_allows_human, current, registry, obs).satisfying.len() >= req.min_count,
{
    let s = scan(req, criterion_allows_human, current, registry, obs, obs.len() as int);
    lemma_scan_covers_eligible(req, criterion_allows_human, current, registry, obs, obs.len() as int);
    lemma_complete_requirement_counts_passed(req, criterion_allows_human, current, registry, obs);
    assert(all_passed(s.eligible));
    assert forall|k: int|
        0 <= k < obs.len() && screen(req, criterion_allows_human, current, registry, #[trigger] obs[k]) is Eligible
            implies obs[k].status == EvidenceStatus::Passed by {
        let e = choose|e: int| 0 <= e < s.eligible.len() && s.eligible[e] == (obs[k].id, obs[k].status);
        assert(s.eligible[e].1 == EvidenceStatus::Passed);
    }
}

/// How many of the first `n` observations are eligible for the
/// requirement and passed.
pub open spec fn eligible_passed_count(
    req: EvidenceRequirement,
    criterion_allows_human: bool,
    current: SubjectView,
    registry: Seq<DescriptorV>,
    obs: Seq<ObservationV>,
    n: int,
) -> nat
    decreases n,
{
    if n <= 0 {
        0
    } else {
        eligible_passed_count(req, criterion_allows_human, current, registry, obs, n - 1) + if screen(
            req,
            criterion_allows_human,
            current,
            registry,
            obs[n - 1],
        ) is Eligible && obs[n - 1].status == EvidenceStatus::Passed {
            1nat
        } else {
            0nat
        }
    }
}

proof fn lemma_passed_ids_count(
    req: EvidenceRequirement,
    criterion_allows_human: bool,
    current: SubjectView,
    registry: Seq<DescriptorV>,
    obs: Seq<ObservationV>,
    n: int,
)
    requires
        0 <= n <= obs.len(),
    ensures
        passed_ids(scan(req, criterion_allows_human, current, registry, obs, n).eligible).len()
            == eligible_passed_count(req, criterion_allows_human, current, registry, obs, n),
    decreases n,
{
    if n > 0 {
        lemma_passed_ids_count(req, criterion_allows_human, current, registry, obs, n - 1);
        let p = scan(req, criterion_allows_human, current, registry, obs, n - 1);
        let x = (obs[n - 1].id, obs[n - 1].status);
        assert(p.eligible.push(x).drop_last() =~= p.eligible);
    }
}

/// A requirement of cardinality Any is Complete exactly on enough passing
/// evidence: when it is bound (or not execution-derived), it is Complete
/// if and only if at least `min_count` of the given observations are
/// eligible for it and passed.
pub proof fn lemma_any_requirement_complete_iff(
    req: EvidenceRequirement,
    criterion_allows_human: bool,
    current: SubjectView,
    registry: Seq<DescriptorV>,
    obs: Seq<ObservationV>,
)
    requires
        req.cardinality == EvidenceCardinality::Any,
        !(is_execution_kind(req.kind) && req.expected_verification_digest is None),
    ensures
        requirement_spec(req, criterion_allows_human, current, registry, obs).status == AssessmentStatus::Complete
            <==> eligible_passed_count(req, criterion_allows_human, current, registry, obs, obs.len() as int)
            >= req.min_count,
{
    lemma_passed_ids_count(req, criterion_allows_human, current, registry, obs, obs.len() as int);
}

} // verus!
