//! The repository check: whether pending closures must be recovered
//! first, and the state each stored plan is reported in. Reading the store
//! stays with the host program.
use crate::assessment::{
    any_stale, assess_plan, obs_keys, obs_views, permuted, reason_views, AssessmentReason, AssessmentStatus,
    PlanAssessmentV, ReasonV,
};
use crate::cli::{failure, CliFailure, FailureV};
use crate::closure::{effective_observations, kept, lineage_fault, ClosureRecord, EvidenceSupersessionRecord};
use crate::evidence::{EvidenceObservation, EvidenceStatus, ObservationV, ProviderRegistry};
use crate::identity::PlanId;
use crate::ledger::{effective_spec, reassessed};
use crate::markdown_text::{join, join_chars, views};
use crate::model::{Plan, SubjectRevision};
use crate::projection::{distinct_codes, sorted_reason_codes};
use crate::text::{chars_of, owned, push_str, string_of};

use vstd::prelude::*;

verus! {

/// The checked state of one plan.
#[derive(Debug, Clone, PartialEq, Eq)]
pub struct CheckedPlan {
    pub plan_id: PlanId,
    pub state: String,
    pub assessment_status: Option<AssessmentStatus>,
    pub reason_codes: Vec<String>,
    pub current_subject_available: bool,
}

/// The identifiers of pending closures, joined by commas.
pub open spec fn pending_list(pending: Seq<PlanId>) -> Seq<char> {
    join(Seq::new(pending.len(), |i: int| pending[i]@), ',')
}

/// Decides whether the check recovers pending closures: with none
/// pending, exactly when recovery was asked for; with some pending, only
/// when it was asked for, and otherwise a `recovery_required` refusal
/// naming them.
pub fn check_recovery(pending: &Vec<PlanId>, recover: bool, json: bool) -> (r: Result<bool, CliFailure>)
    ensures
        r is Err <==> (pending@.len() > 0 && !recover),
        r matches Ok(b) ==> b == recover,
        r matches Err(f) ==> f@ == (FailureV {
            command: "check"@,
            code: "recovery_required"@,
            message: "pending closures require explicit --recover-pending: "@ + pending_list(pending@),
            json,
        }),
{
    if pending.len() == 0 || recover {
        return Ok(recover);
    }
    let mut parts: Vec<Vec<char>> = Vec::new();
    let mut i: usize = 0;
    while i < pending.len()
        invariant
            i <= pending@.len(),
            views(parts@) == Seq::new(i as nat, |k: int| pending@[k]@),
        decreases pending.len() - i,
    {
        let ghost before = views(parts@);
        let c = chars_of(pending[i].as_str());
        assert(c@ == pending@[i as int]@);
        parts.push(c);
        assert(views(parts@) =~= before.push(pending@[i as int]@));
        i = i + 1;
        assert(views(parts@) =~= Seq::new(i as nat, |k: int| pending@[k]@));
    }
    let joined = join_chars(&parts, ',');
    let mut m = owned("pending closures require explicit --recover-pending: ");
    push_str(&mut m, string_of(&joined).as_str());
    Err(failure("check", "recovery_required", m, json))
}

/// Some observation is Unavailable.
pub open spec fn any_unavailable(ov: Seq<ObservationV>) -> bool {
    exists|i: int| 0 <= i < ov.len() && (#[trigger] ov[i]).status == EvidenceStatus::Unavailable
}

/// The state a plan is reported in for an assessment status; a plan whose
/// evidence is missing is `unavailable` when some observation is
/// Unavailable, else `incomplete`.
pub open spec fn state_text(status: AssessmentStatus, unavailable: bool) -> Seq<char> {
    match status {
        AssessmentStatus::Complete => "complete"@,
        AssessmentStatus::InvalidOrStale => "invalid_or_stale"@,
        AssessmentStatus::EvidenceMissingOrUnavailable => if unavailable {
            "unavailable"@
        } else {
            "incomplete"@
        },
        AssessmentStatus::EvidenceFailed => "failed"@,
        AssessmentStatus::Blocked => "blocked"@,
        AssessmentStatus::InFlight => "in_flight"@,
        AssessmentStatus::AwaitingHumanJudgment => "awaiting_human_judgment"@,
        AssessmentStatus::Inconclusive => "inconclusive"@,
        AssessmentStatus::ActionableWorkRemaining => "incomplete"@,
    }
}

/// The state of an assessment status (see `state_text`).
pub fn assessment_state(status: AssessmentStatus, observations: &[EvidenceObservation]) -> (r: &'static str)
    ensures
        r@ == state_text(status, any_unavailable(obs_views(observations@))),
{
    let mut unavailable = false;
    let mut i: usize = 0;
    while i < observations.len()
        invariant
            i <= observations@.len(),
            unavailable == exists|k: int| 0 <= k < i && (#[trigger] obs_views(observations@)[k]).status
                == EvidenceStatus::Unavailable,
        decreases observations.len() - i,
    {
        if observations[i].status() == EvidenceStatus::Unavailable {
            assert(obs_views(observations@)[i as int].status == EvidenceStatus::Unavailable);
            unavailable = true;
        }
        i = i + 1;
    }
    match status {
        AssessmentStatus::Complete => "complete",
        AssessmentStatus::InvalidOrStale => "invalid_or_stale",
        AssessmentStatus::EvidenceMissingOrUnavailable => if unavailable {
            "unavailable"
        } else {
            "incomplete"
        },
        AssessmentStatus::EvidenceFailed => "failed",
        AssessmentStatus::Blocked => "blocked",
        AssessmentStatus::InFlight => "in_flight",
        AssessmentStatus::AwaitingHumanJudgment => "awaiting_human_judgment",
        AssessmentStatus::Inconclusive => "inconclusive",
        AssessmentStatus::ActionableWorkRemaining => "incomplete",
    }
}

/// The reasons of the plan, then of each item in order (criteria aside).
pub open spec fn item_level_reasons(items: Seq<crate::assessment::ItemV>) -> Seq<ReasonV>
    decreases items.len(),
{
    if items.len() == 0 {
        Seq::empty()
    } else {
        item_level_reasons(items.drop_last()) + items.last().reasons
    }
}

/// The reasons a check reports for an assessment.
pub open spec fn check_reasons(a: PlanAssessmentV) -> Seq<ReasonV> {
    a.reasons + item_level_reasons(a.items)
}

/// Whether a closure was recorded for another subject than the current one.
pub open spec fn closure_stale(closure: Option<ClosureRecord>, s: SubjectRevision) -> bool {
    closure matches Some(rec) && rec.candidate.subject@ != s@
}

/// The reported codes: `closure_subject_stale` first (it sorts before
/// every reason code) where the closure is stale, then the distinct codes
/// of the check reasons in ascending order.
pub open spec fn check_codes(a: PlanAssessmentV, stale: bool) -> Seq<Seq<char>> {
    (if stale {
        seq!["closure_subject_stale"@]
    } else {
        Seq::empty()
    }) + distinct_codes(check_reasons(a), 21)
}

/// What a check reports of a plan assessed as `a` against the current
/// subject `s`: the assessment status, the codes of `check_codes`, and the
/// state `stale` where the closure or a reason says the subject is stale,
/// otherwise the state of `state_text`.
pub open spec fn checked_is(
    c: CheckedPlan,
    plan: Plan,
    s: SubjectRevision,
    ov: Seq<ObservationV>,
    closure: Option<ClosureRecord>,
    a: PlanAssessmentV,
) -> bool {
    let stale = closure_stale(closure, s);
    &&& c.plan_id == plan.id
    &&& c.current_subject_available
    &&& c.assessment_status == Some(a.status)
    &&& crate::compat::strings_of(c.reason_codes@) == check_codes(a, stale)
    &&& c.state@ == if stale || any_stale(check_reasons(a)) {
        "stale"@
    } else {
        state_text(a.status, any_unavailable(ov))
    }
}

/// The stale-closure code where `stale` holds, then the distinct codes of
/// the reasons in ascending order.
fn assemble_codes(reasons: &Vec<AssessmentReason>, stale: bool) -> (codes: Vec<String>)
    ensures
        crate::compat::strings_of(codes@) == (if stale {
            seq!["closure_subject_stale"@]
        } else {
            Seq::empty()
        }) + distinct_codes(reason_views(reasons@), 21),
{
    let sorted = sorted_reason_codes(reasons);
    let ghost d = distinct_codes(reason_views(reasons@), 21);
    let mut codes: Vec<String> = Vec::new();
    if stale {
        codes.push(owned("closure_subject_stale"));
    }
    let ghost head = crate::compat::strings_of(codes@);
    assert(head =~= (if stale {
        seq!["closure_subject_stale"@]
    } else {
        Seq::empty()
    }));
    let mut j: usize = 0;
    while j < sorted.len()
        invariant
            j <= sorted@.len(),
            sorted@.len() == d.len(),
            forall|x: int| 0 <= x < sorted@.len() ==> (#[trigger] sorted@[x])@ == d[x],
            crate::compat::strings_of(codes@) == head + d.take(j as int),
        decreases sorted.len() - j,
    {
        let ghost before = crate::compat::strings_of(codes@);
        let c = sorted[j].clone();
        assert(c@ == d[j as int]);
        codes.push(c);
        assert(crate::compat::strings_of(codes@) =~= before.push(d[j as int]));
        assert(d.take(j + 1) =~= d.take(j as int).push(d[j as int]));
        j = j + 1;
    }
    assert(d.take(j as int) =~= d);
    codes
}

/// Checks one stored plan. Without a current subject it is `unavailable`
/// with the code `current_subject_unavailable`. Otherwise the effective
/// observations are assessed against the subject (an inconsistent
/// supersession lineage is refused with its message) and reported as
/// `checked_is` says.
pub fn check_plan(
    plan: &Plan,
    subject: Option<&SubjectRevision>,
    observations: &[EvidenceObservation],
    supersessions: &[EvidenceSupersessionRecord],
    closure: Option<&ClosureRecord>,
    providers: &ProviderRegistry,
) -> (r: Result<CheckedPlan, String>)
    ensures
        match subject {
            None => r matches Ok(c) && {
                &&& c.plan_id == plan.id
                &&& c.state@ == "unavailable"@
                &&& c.assessment_status is None
                &&& crate::compat::strings_of(c.reason_codes@) == seq!["current_subject_unavailable"@]
                &&& !c.current_subject_available
            },
            Some(s) => match lineage_fault(obs_views(observations@), supersessions@) {
                Some(e) => r matches Err(m) && m@ == e,
                None => r matches Ok(c) && checked_is(
                    c,
                    *plan,
                    *s,
                    obs_views(observations@),
                    match closure {
                        Some(x) => Some(*x),
                        None => None,
                    },
                    reassessed(*plan, *s, providers@, obs_views(observations@), supersessions@),
                ),
            },
        },
{
    let s = match subject {
        None => {
            let mut codes: Vec<String> = Vec::new();
            codes.push(owned("current_subject_unavailable"));
            assert(crate::compat::strings_of(codes@) =~= seq!["current_subject_unavailable"@]);
            return Ok(
                CheckedPlan {
                    plan_id: plan.id.duplicate(),
                    state: owned("unavailable"),
                    assessment_status: None,
                    reason_codes: codes,
                    current_subject_available: false,
                },
            );
        },
        Some(s) => s,
    };
    let ghost ov = obs_views(observations@);
    let effective = match effective_observations(observations, supersessions) {
        Ok(e) => e,
        Err(m) => {
            return Err(m);
        },
    };
    proof {
        let k = kept(ov, supersessions@, ov.len() as int);
        let perm = choose|perm: Seq<usize>|
            crate::closure::stably_sorted_kept(ov, supersessions@, perm) && obs_views(effective@) == permuted(k, perm);
        crate::sort::lemma_stable_perm(obs_keys(k), perm);
        assert(obs_views(effective@) == effective_spec(ov, supersessions@));
    }
    let assessment = assess_plan(plan, s, effective.as_slice(), providers);
    let ghost a = assessment@;
    let stale = match closure {
        Some(rec) => !rec.candidate.subject.same(s),
        None => false,
    };
    let mut reasons: Vec<AssessmentReason> = Vec::new();
    assert(reason_views(reasons@) =~= Seq::<ReasonV>::empty());
    crate::compat::push_reasons(&mut reasons, &assessment.reasons);
    let mut i: usize = 0;
    while i < assessment.items.len()
        invariant
            i <= assessment.items@.len(),
            a == assessment@,
            reason_views(reasons@) == a.reasons + item_level_reasons(a.items.take(i as int)),
        decreases assessment.items.len() - i,
    {
        crate::compat::push_reasons(&mut reasons, &assessment.items[i].reasons);
        i = i + 1;
        assert(a.items.take(i as int).drop_last() =~= a.items.take(i - 1));
    }
    assert(a.items.take(a.items.len() as int) =~= a.items);
    let codes = assemble_codes(&reasons, stale);
    assert(crate::compat::strings_of(codes@) == check_codes(a, stale));
    let stale_reason = crate::assessment::has_stale(&reasons);
    let state = if stale || stale_reason {
        owned("stale")
    } else {
        owned(assessment_state(assessment.status, observations))
    };
    Ok(
        CheckedPlan {
            plan_id: plan.id.duplicate(),
            state,
            assessment_status: Some(assessment.status),
            reason_codes: codes,
            current_subject_available: true,
        },
    )
}

} // verus!
