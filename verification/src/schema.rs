//! Canonical JSON of plans and plan assessments: compact, fields in declared
//! order, absent optional fields omitted, maps in key order.
use crate::assessment::{
    AssessmentReason, AssessmentStatus, CriterionAssessment, CriterionV, ItemAssessment, ItemV, PlanAssessment,
    PlanAssessmentV, ReasonV, RequirementAssessment, RequirementV,
};
use crate::evidence::{map_json, map_to_json, status_name, status_text, subject_json, subject_to_json};
use crate::identity::{EvidenceObservationId, PlanItemId};
use crate::json::{fields_of, push_field, push_value, values_of, JsonText, JsonV};
use crate::model::{
    item_status_name, item_status_text, kind_name, kind_text, plan_status_name, plan_status_text, AcceptanceCriterion,
    EvidenceCardinality, EvidenceRequirement, Plan, PlanItem,
};
use vstd::prelude::*;

verus! {

/// JSON text of a string, or omitted: the field list with it appended when present.
pub open spec fn with_opt(fields: Seq<(Seq<char>, JsonV)>, name: Seq<char>, v: Option<Seq<char>>) -> Seq<(Seq<char>, JsonV)> {
    match v {
        Some(s) => fields.push((name, JsonV::Str(s))),
        None => fields,
    }
}

/// View of an optional identifier-like value.
pub open spec fn opt_id<T: View<V = Seq<char>>>(v: Option<T>) -> Option<Seq<char>> {
    match v {
        Some(x) => Some(x@),
        None => None,
    }
}

/// JSON of an evidence requirement.
pub open spec fn requirement_json(r: EvidenceRequirement) -> JsonV {
    let a = with_opt(
        seq![("description"@, JsonV::Str(r.description@)), ("kind"@, JsonV::Str(kind_text(r.kind)))],
        "provider"@,
        opt_id(r.provider),
    );
    let b = a + seq![
        ("subject_policy"@, JsonV::Str("exact"@)),
        ("cardinality"@, JsonV::Str(
            match r.cardinality {
                EvidenceCardinality::Any => "any"@,
                EvidenceCardinality::All => "all"@,
            },
        )),
        ("min_count"@, JsonV::Nat(r.min_count as nat)),
        ("allow_human_judgment"@, JsonV::Bool(r.allow_human_judgment)),
    ];
    JsonV::Obj(with_opt(b, "expected_verification_digest"@, opt_id(r.expected_verification_digest)))
}

/// JSON of an acceptance criterion.
pub open spec fn criterion_json(c: AcceptanceCriterion) -> JsonV {
    JsonV::Obj(
        seq![
            ("id"@, JsonV::Str(c.id@)),
            ("statement"@, JsonV::Str(c.statement@)),
            ("human_judgment_allowed"@, JsonV::Bool(c.human_judgment_allowed)),
            ("requirements"@, JsonV::Arr(Seq::new(c.requirements@.len(), |i: int| requirement_json(c.requirements@[i])))),
        ],
    )
}

/// JSON strings of item identifiers.
pub open spec fn item_ids_json(ids: Seq<PlanItemId>) -> Seq<JsonV> {
    Seq::new(ids.len(), |i: int| JsonV::Str(ids[i]@))
}

/// JSON of a plan item.
pub open spec fn item_json(it: PlanItem) -> JsonV {
    let a = with_opt(
        seq![("id"@, JsonV::Str(it.id@)), ("position"@, JsonV::Nat(it.position as nat))],
        "parent"@,
        opt_id(it.parent),
    );
    let b = a + seq![
        ("dependencies"@, JsonV::Arr(item_ids_json(it.dependencies@))),
        ("status"@, JsonV::Str(item_status_text(it.status))),
        ("description"@, JsonV::Str(it.description@)),
        ("criteria"@, JsonV::Arr(Seq::new(it.criteria@.len(), |i: int| criterion_json(it.criteria@[i])))),
    ];
    JsonV::Obj(
        with_opt(
            with_opt(b, "blocker"@, crate::evidence::opt_seq(it.blocker)),
            "next_action"@,
            crate::evidence::opt_seq(it.next_action),
        ),
    )
}

/// JSON of a plan.
pub open spec fn plan_json(p: Plan) -> JsonV {
    let base = seq![
        ("schema_version"@, JsonV::Nat(p.schema_version as nat)),
        ("id"@, JsonV::Str(p.id@)),
        ("revision"@, JsonV::Nat(p.revision as nat)),
        ("objective"@, JsonV::Str(p.objective@)),
        ("status"@, JsonV::Str(plan_status_text(p.status))),
        ("provenance"@, map_json(p.provenance@)),
        ("items"@, JsonV::Arr(Seq::new(p.items@.len(), |i: int| item_json(p.items@[i])))),
    ];
    JsonV::Obj(
        match p.subject {
            Some(s) => base.push(("subject"@, subject_json(s@))),
            None => base,
        },
    )
}

/// A JSON string field appended when present.
fn push_opt_str(f: &mut Vec<(String, JsonText)>, name: &str, v: Option<&str>)
    requires
        forall|i: int| 0 <= i < old(f)@.len() ==> #[trigger] old(f)@[i].1.wf(),
    ensures
        fields_of(final(f)@) == with_opt(
            fields_of(old(f)@),
            name@,
            match v {
                Some(s) => Some(s@),
                None => None,
            },
        ),
        forall|i: int| 0 <= i < final(f)@.len() ==> #[trigger] final(f)@[i].1.wf(),
{
    if let Some(s) = v {
        push_field(f, name, JsonText::string(s));
    }
}

/// JSON of an evidence requirement.
pub fn requirement_to_json(r: &EvidenceRequirement) -> (j: JsonText)
    ensures
        j.wf(),
        j.value@ == requirement_json(*r),
{
    let mut f: Vec<(String, JsonText)> = Vec::new();
    push_field(&mut f, "description", JsonText::string(r.description.as_str()));
    push_field(&mut f, "kind", JsonText::string(kind_name(r.kind)));
    push_opt_str(
        &mut f,
        "provider",
        match &r.provider {
            Some(p) => Some(p.as_str()),
            None => None,
        },
    );
    push_field(&mut f, "subject_policy", JsonText::string("exact"));
    push_field(
        &mut f,
        "cardinality",
        JsonText::string(
            match r.cardinality {
                EvidenceCardinality::Any => "any",
                EvidenceCardinality::All => "all",
            },
        ),
    );
    push_field(&mut f, "min_count", JsonText::natural(r.min_count as u64));
    push_field(&mut f, "allow_human_judgment", JsonText::boolean(r.allow_human_judgment));
    push_opt_str(
        &mut f,
        "expected_verification_digest",
        match &r.expected_verification_digest {
            Some(d) => Some(d.as_str()),
            None => None,
        },
    );
    proof {
        assert(fields_of(f@) =~= requirement_json(*r)->Obj_0);
    }
    JsonText::object(f)
}

/// JSON of an acceptance criterion.
pub fn criterion_to_json(c: &AcceptanceCriterion) -> (j: JsonText)
    ensures
        j.wf(),
        j.value@ == criterion_json(*c),
{
    let mut reqs: Vec<JsonText> = Vec::new();
    let ghost all = Seq::new(c.requirements@.len(), |i: int| requirement_json(c.requirements@[i]));
    let mut i: usize = 0;
    while i < c.requirements.len()
        invariant
            i <= c.requirements.len(),
            all == Seq::new(c.requirements@.len(), |i: int| requirement_json(c.requirements@[i])),
            values_of(reqs@) == all.take(i as int),
            forall|k: int| 0 <= k < reqs@.len() ==> #[trigger] reqs@[k].wf(),
        decreases c.requirements.len() - i,
    {
        push_value(&mut reqs, requirement_to_json(&c.requirements[i]));
        assert(all.take(i + 1) =~= all.take(i as int).push(all[i as int]));
        i = i + 1;
    }
    assert(all.take(c.requirements.len() as int) =~= all);
    let mut f: Vec<(String, JsonText)> = Vec::new();
    push_field(&mut f, "id", JsonText::string(c.id.as_str()));
    push_field(&mut f, "statement", JsonText::string(c.statement.as_str()));
    push_field(&mut f, "human_judgment_allowed", JsonText::boolean(c.human_judgment_allowed));
    push_field(&mut f, "requirements", JsonText::array(reqs));
    proof {
        assert(fields_of(f@) =~= criterion_json(*c)->Obj_0);
    }
    JsonText::object(f)
}

/// JSON of a list of item identifiers.
pub fn item_ids_to_json(ids: &Vec<PlanItemId>) -> (j: JsonText)
    ensures
        j.wf(),
        j.value@ == JsonV::Arr(item_ids_json(ids@)),
{
    let mut out: Vec<JsonText> = Vec::new();
    let mut i: usize = 0;
    while i < ids.len()
        invariant
            i <= ids.len(),
            values_of(out@) == item_ids_json(ids@).take(i as int),
            forall|k: int| 0 <= k < out@.len() ==> #[trigger] out@[k].wf(),
        decreases ids.len() - i,
    {
        push_value(&mut out, JsonText::string(ids[i].as_str()));
        assert(item_ids_json(ids@).take(i + 1) =~= item_ids_json(ids@).take(i as int).push(JsonV::Str(ids@[i as int]@)));
        i = i + 1;
    }
    assert(item_ids_json(ids@).take(ids.len() as int) =~= item_ids_json(ids@));
    JsonText::array(out)
}

/// JSON of a plan item.
pub fn item_to_json(it: &PlanItem) -> (j: JsonText)
    ensures
        j.wf(),
        j.value@ == item_json(*it),
{
    let mut crits: Vec<JsonText> = Vec::new();
    let ghost all = Seq::new(it.criteria@.len(), |i: int| criterion_json(it.criteria@[i]));
    let mut i: usize = 0;
    while i < it.criteria.len()
        invariant
            i <= it.criteria.len(),
            all == Seq::new(it.criteria@.len(), |i: int| criterion_json(it.criteria@[i])),
            values_of(crits@) == all.take(i as int),
            forall|k: int| 0 <= k < crits@.len() ==> #[trigger] crits@[k].wf(),
        decreases it.criteria.len() - i,
    {
        push_value(&mut crits, criterion_to_json(&it.criteria[i]));
        assert(all.take(i + 1) =~= all.take(i as int).push(all[i as int]));
        i = i + 1;
    }
    assert(all.take(it.criteria.len() as int) =~= all);
    let mut f: Vec<(String, JsonText)> = Vec::new();
    push_field(&mut f, "id", JsonText::string(it.id.as_str()));
    push_field(&mut f, "position", JsonText::natural(it.position as u64));
    push_opt_str(
        &mut f,
        "parent",
        match &it.parent {
            Some(p) => Some(p.as_str()),
            None => None,
        },
    );
    push_field(&mut f, "dependencies", item_ids_to_json(&it.dependencies));
    push_field(&mut f, "status", JsonText::string(item_status_name(it.status)));
    push_field(&mut f, "description", JsonText::string(it.description.as_str()));
    push_field(&mut f, "criteria", JsonText::array(crits));
    push_opt_str(
        &mut f,
        "blocker",
        match &it.blocker {
            Some(b) => Some(b.as_str()),
            None => None,
        },
    );
    push_opt_str(
        &mut f,
        "next_action",
        match &it.next_action {
            Some(b) => Some(b.as_str()),
            None => None,
        },
    );
    proof {
        assert(fields_of(f@) =~= item_json(*it)->Obj_0);
    }
    JsonText::object(f)
}

/// JSON of a plan.
pub fn plan_to_json(p: &Plan) -> (j: JsonText)
    ensures
        j.wf(),
        j.value@ == plan_json(*p),
{
    let mut items: Vec<JsonText> = Vec::new();
    let ghost all = Seq::new(p.items@.len(), |i: int| item_json(p.items@[i]));
    let mut i: usize = 0;
    while i < p.items.len()
        invariant
            i <= p.items.len(),
            all == Seq::new(p.items@.len(), |i: int| item_json(p.items@[i])),
            values_of(items@) == all.take(i as int),
            forall|k: int| 0 <= k < items@.len() ==> #[trigger] items@[k].wf(),
        decreases p.items.len() - i,
    {
        push_value(&mut items, item_to_json(&p.items[i]));
        assert(all.take(i + 1) =~= all.take(i as int).push(all[i as int]));
        i = i + 1;
    }
    assert(all.take(p.items.len() as int) =~= all);
    let mut f: Vec<(String, JsonText)> = Vec::new();
    push_field(&mut f, "schema_version", JsonText::natural(p.schema_version as u64));
    push_field(&mut f, "id", JsonText::string(p.id.as_str()));
    push_field(&mut f, "revision", JsonText::natural(p.revision));
    push_field(&mut f, "objective", JsonText::string(p.objective.as_str()));
    push_field(&mut f, "status", JsonText::string(plan_status_name(p.status)));
    push_field(&mut f, "provenance", map_to_json(&p.provenance));
    push_field(&mut f, "items", JsonText::array(items));
    if let Some(s) = &p.subject {
        push_field(&mut f, "subject", subject_to_json(s));
    }
    proof {
        assert(fields_of(f@) =~= plan_json(*p)->Obj_0);
    }
    JsonText::object(f)
}

/// The serialized name of an assessment status.
pub open spec fn assessment_status_text(s: AssessmentStatus) -> Seq<char> {
    match s {
        AssessmentStatus::Complete => "complete"@,
        AssessmentStatus::ActionableWorkRemaining => "actionable_work_remaining"@,
        AssessmentStatus::Blocked => "blocked"@,
        AssessmentStatus::EvidenceFailed => "evidence_failed"@,
        AssessmentStatus::EvidenceMissingOrUnavailable => "evidence_missing_or_unavailable"@,
        AssessmentStatus::InFlight => "in_flight"@,
        AssessmentStatus::AwaitingHumanJudgment => "awaiting_human_judgment"@,
        AssessmentStatus::Inconclusive => "inconclusive"@,
        AssessmentStatus::InvalidOrStale => "invalid_or_stale"@,
    }
}

/// The serialized name of an assessment status (see `assessment_status_text`).
pub fn assessment_status_name(s: AssessmentStatus) -> (r: &'static str)
    ensures
        r@ == assessment_status_text(s),
{
    match s {
        AssessmentStatus::Complete => "complete",
        AssessmentStatus::ActionableWorkRemaining => "actionable_work_remaining",
        AssessmentStatus::Blocked => "blocked",
        AssessmentStatus::EvidenceFailed => "evidence_failed",
        AssessmentStatus::EvidenceMissingOrUnavailable => "evidence_missing_or_unavailable",
        AssessmentStatus::InFlight => "in_flight",
        AssessmentStatus::AwaitingHumanJudgment => "awaiting_human_judgment",
        AssessmentStatus::Inconclusive => "inconclusive",
        AssessmentStatus::InvalidOrStale => "invalid_or_stale",
    }
}

/// The stable code of a reason.
pub open spec fn reason_code_text(r: ReasonV) -> Seq<char> {
    match r {
        ReasonV::MissingObservation => "missing_observation"@,
        ReasonV::NoAcceptanceCriteria => "no_acceptance_criteria"@,
        ReasonV::NoEvidenceRequirement => "no_evidence_requirement"@,
        ReasonV::HumanJudgmentRequired => "human_judgment_required"@,
        ReasonV::StaleSubject(_) => "stale_subject"@,
        ReasonV::UntrustedProvider(_) => "untrusted_provider"@,
        ReasonV::ProviderKindNotAllowed(_) => "provider_kind_not_allowed"@,
        ReasonV::ProviderMismatch(_) => "provider_mismatch"@,
        ReasonV::LegacyUnboundExecutionRequirement => "legacy_unbound_execution_requirement"@,
        ReasonV::ObservationMissingVerificationBinding(_) => "observation_missing_verification_binding"@,
        ReasonV::VerificationDigestMismatch(_) => "verification_digest_mismatch"@,
        ReasonV::EvidenceStatus(_, _) => "evidence_status"@,
        ReasonV::HumanJudgmentNotAllowed => "human_judgment_not_allowed"@,
        ReasonV::InvalidObservation(_) => "invalid_observation"@,
        ReasonV::DuplicateObservationId(_) => "duplicate_observation_id"@,
        ReasonV::PlanNotActive => "plan_not_active"@,
        ReasonV::InvalidPlan => "invalid_plan"@,
        ReasonV::ItemNotCompleted(_) => "item_not_completed"@,
        ReasonV::PlanBlocked => "plan_blocked"@,
        ReasonV::PlanCancelled => "plan_cancelled"@,
        ReasonV::NoPlanItems => "no_plan_items"@,
    }
}

/// The detail of a reason, if it carries one.
pub open spec fn reason_detail(r: ReasonV) -> Option<JsonV> {
    match r {
        ReasonV::StaleSubject(i) => Some(JsonV::Str(i)),
        ReasonV::UntrustedProvider(i) => Some(JsonV::Str(i)),
        ReasonV::ProviderKindNotAllowed(i) => Some(JsonV::Str(i)),
        ReasonV::ProviderMismatch(i) => Some(JsonV::Str(i)),
        ReasonV::ObservationMissingVerificationBinding(i) => Some(JsonV::Str(i)),
        ReasonV::VerificationDigestMismatch(i) => Some(JsonV::Str(i)),
        ReasonV::EvidenceStatus(i, s) => Some(JsonV::Arr(seq![JsonV::Str(i), JsonV::Str(status_text(s))])),
        ReasonV::InvalidObservation(i) => Some(JsonV::Str(i)),
        ReasonV::DuplicateObservationId(i) => Some(JsonV::Str(i)),
        ReasonV::ItemNotCompleted(s) => Some(JsonV::Str(item_status_text(s))),
        _ => None,
    }
}

/// JSON of a reason: its code, and its detail when it carries one.
pub open spec fn reason_json(r: ReasonV) -> JsonV {
    let base = seq![("code"@, JsonV::Str(reason_code_text(r)))];
    JsonV::Obj(
        match reason_detail(r) {
            Some(d) => base.push(("detail"@, d)),
            None => base,
        },
    )
}

/// JSON of reasons.
pub open spec fn reasons_json(rs: Seq<ReasonV>) -> JsonV {
    JsonV::Arr(Seq::new(rs.len(), |i: int| reason_json(rs[i])))
}

/// JSON strings of identifiers.
pub open spec fn ids_json(ids: Seq<Seq<char>>) -> JsonV {
    JsonV::Arr(Seq::new(ids.len(), |i: int| JsonV::Str(ids[i])))
}

/// JSON of a requirement assessment.
pub open spec fn requirement_assessment_json(r: RequirementV) -> JsonV {
    JsonV::Obj(
        seq![
            ("status"@, JsonV::Str(assessment_status_text(r.status))),
            ("requirement_kind"@, JsonV::Str(kind_text(r.kind))),
            ("satisfying_observation_ids"@, ids_json(r.satisfying)),
            ("reasons"@, reasons_json(r.reasons)),
        ],
    )
}

/// JSON of a criterion assessment.
pub open spec fn criterion_assessment_json(c: CriterionV) -> JsonV {
    JsonV::Obj(
        seq![
            ("criterion_id"@, JsonV::Str(c.criterion_id)),
            ("status"@, JsonV::Str(assessment_status_text(c.status))),
            ("requirements"@, JsonV::Arr(Seq::new(c.requirements.len(), |i: int| requirement_assessment_json(c.requirements[i])))),
            ("reasons"@, reasons_json(c.reasons)),
        ],
    )
}

/// JSON of an item assessment.
pub open spec fn item_assessment_json(it: ItemV) -> JsonV {
    JsonV::Obj(
        seq![
            ("item_id"@, JsonV::Str(it.item_id)),
            ("status"@, JsonV::Str(assessment_status_text(it.status))),
            ("criteria"@, JsonV::Arr(Seq::new(it.criteria.len(), |i: int| criterion_assessment_json(it.criteria[i])))),
            ("reasons"@, reasons_json(it.reasons)),
        ],
    )
}

/// JSON of a plan assessment.
pub open spec fn assessment_json(a: PlanAssessmentV) -> JsonV {
    JsonV::Obj(
        seq![
            ("plan_id"@, JsonV::Str(a.plan_id)),
            ("plan_revision"@, JsonV::Nat(a.plan_revision as nat)),
            ("subject"@, subject_json(a.subject)),
            ("status"@, JsonV::Str(assessment_status_text(a.status))),
            ("items"@, JsonV::Arr(Seq::new(a.items.len(), |i: int| item_assessment_json(a.items[i])))),
            ("reasons"@, reasons_json(a.reasons)),
        ],
    )
}

/// The stable code of a reason (see `reason_code_text`).
pub fn reason_code_str(r: &AssessmentReason) -> (c: &'static str)
    ensures
        c@ == reason_code_text(r@),
{
    match r {
        AssessmentReason::MissingObservation => "missing_observation",
        AssessmentReason::NoAcceptanceCriteria => "no_acceptance_criteria",
        AssessmentReason::NoEvidenceRequirement => "no_evidence_requirement",
        AssessmentReason::HumanJudgmentRequired => "human_judgment_required",
        AssessmentReason::StaleSubject(_) => "stale_subject",
        AssessmentReason::UntrustedProvider(_) => "untrusted_provider",
        AssessmentReason::ProviderKindNotAllowed(_) => "provider_kind_not_allowed",
        AssessmentReason::ProviderMismatch(_) => "provider_mismatch",
        AssessmentReason::LegacyUnboundExecutionRequirement => "legacy_unbound_execution_requirement",
        AssessmentReason::ObservationMissingVerificationBinding(_) => "observation_missing_verification_binding",
        AssessmentReason::VerificationDigestMismatch(_) => "verification_digest_mismatch",
        AssessmentReason::EvidenceStatus(_, _) => "evidence_status",
        AssessmentReason::HumanJudgmentNotAllowed => "human_judgment_not_allowed",
        AssessmentReason::InvalidObservation(_) => "invalid_observation",
        AssessmentReason::DuplicateObservationId(_) => "duplicate_observation_id",
        AssessmentReason::PlanNotActive => "plan_not_active",
        AssessmentReason::InvalidPlan => "invalid_plan",
        AssessmentReason::ItemNotCompleted(_) => "item_not_completed",
        AssessmentReason::PlanBlocked => "plan_blocked",
        AssessmentReason::PlanCancelled => "plan_cancelled",
        AssessmentReason::NoPlanItems => "no_plan_items",
    }
}

/// JSON of a reason.
pub fn reason_to_json(r: &AssessmentReason) -> (j: JsonText)
    ensures
        j.wf(),
        j.value@ == reason_json(r@),
{
    let mut f: Vec<(String, JsonText)> = Vec::new();
    push_field(&mut f, "code", JsonText::string(reason_code_str(r)));
    match r {
        AssessmentReason::StaleSubject(i) | AssessmentReason::InvalidObservation(i)
        | AssessmentReason::ObservationMissingVerificationBinding(i) | AssessmentReason::VerificationDigestMismatch(
            i,
        ) | AssessmentReason::DuplicateObservationId(i) => {
            push_field(&mut f, "detail", JsonText::string(i.as_str()));
        },
        AssessmentReason::UntrustedProvider(i) | AssessmentReason::ProviderKindNotAllowed(i)
        | AssessmentReason::ProviderMismatch(i) => {
            push_field(&mut f, "detail", JsonText::string(i.as_str()));
        },
        AssessmentReason::EvidenceStatus(i, s) => {
            let mut pair: Vec<JsonText> = Vec::new();
            push_value(&mut pair, JsonText::string(i.as_str()));
            push_value(&mut pair, JsonText::string(status_name(*s)));
            assert(values_of(pair@) =~= seq![JsonV::Str(i@), JsonV::Str(status_text(*s))]);
            push_field(&mut f, "detail", JsonText::array(pair));
        },
        AssessmentReason::ItemNotCompleted(s) => {
            push_field(&mut f, "detail", JsonText::string(item_status_name(*s)));
        },
        _ => {},
    }
    proof {
        assert(fields_of(f@) =~= reason_json(r@)->Obj_0);
    }
    JsonText::object(f)
}

/// JSON of reasons.
pub fn reasons_to_json(rs: &Vec<AssessmentReason>) -> (j: JsonText)
    ensures
        j.wf(),
        j.value@ == reasons_json(crate::assessment::reason_views(rs@)),
{
    let ghost all = reasons_json(crate::assessment::reason_views(rs@))->Arr_0;
    let mut out: Vec<JsonText> = Vec::new();
    let mut i: usize = 0;
    while i < rs.len()
        invariant
            i <= rs.len(),
            all == reasons_json(crate::assessment::reason_views(rs@))->Arr_0,
            values_of(out@) == all.take(i as int),
            forall|k: int| 0 <= k < out@.len() ==> #[trigger] out@[k].wf(),
        decreases rs.len() - i,
    {
        push_value(&mut out, reason_to_json(&rs[i]));
        assert(all.take(i + 1) =~= all.take(i as int).push(all[i as int]));
        i = i + 1;
    }
    assert(all.take(rs.len() as int) =~= all);
    JsonText::array(out)
}

/// JSON strings of observation identifiers.
pub fn obs_ids_to_json(ids: &Vec<EvidenceObservationId>) -> (j: JsonText)
    ensures
        j.wf(),
        j.value@ == ids_json(crate::assessment::obs_id_views(ids@)),
{
    let ghost all = ids_json(crate::assessment::obs_id_views(ids@))->Arr_0;
    let mut out: Vec<JsonText> = Vec::new();
    let mut i: usize = 0;
    while i < ids.len()
        invariant
            i <= ids.len(),
            all == ids_json(crate::assessment::obs_id_views(ids@))->Arr_0,
            values_of(out@) == all.take(i as int),
            forall|k: int| 0 <= k < out@.len() ==> #[trigger] out@[k].wf(),
        decreases ids.len() - i,
    {
        push_value(&mut out, JsonText::string(ids[i].as_str()));
        assert(all.take(i + 1) =~= all.take(i as int).push(all[i as int]));
        i = i + 1;
    }
    assert(all.take(ids.len() as int) =~= all);
    JsonText::array(out)
}

/// JSON of a requirement assessment.
pub fn requirement_assessment_to_json(r: &RequirementAssessment) -> (j: JsonText)
    ensures
        j.wf(),
        j.value@ == requirement_assessment_json(r@),
{
    let mut f: Vec<(String, JsonText)> = Vec::new();
    push_field(&mut f, "status", JsonText::string(assessment_status_name(r.status)));
    push_field(&mut f, "requirement_kind", JsonText::string(kind_name(r.requirement_kind)));
    push_field(&mut f, "satisfying_observation_ids", obs_ids_to_json(&r.satisfying_observation_ids));
    push_field(&mut f, "reasons", reasons_to_json(&r.reasons));
    proof {
        assert(fields_of(f@) =~= requirement_assessment_json(r@)->Obj_0);
    }
    JsonText::object(f)
}

/// JSON of a criterion assessment.
pub fn criterion_assessment_to_json(c: &CriterionAssessment) -> (j: JsonText)
    ensures
        j.wf(),
        j.value@ == criterion_assessment_json(c@),
{
    let ghost all = criterion_assessment_json(c@)->Obj_0[2].1->Arr_0;
    let mut out: Vec<JsonText> = Vec::new();
    let mut i: usize = 0;
    while i < c.requirements.len()
        invariant
            i <= c.requirements.len(),
            all == criterion_assessment_json(c@)->Obj_0[2].1->Arr_0,
            values_of(out@) == all.take(i as int),
            forall|k: int| 0 <= k < out@.len() ==> #[trigger] out@[k].wf(),
        decreases c.requirements.len() - i,
    {
        push_value(&mut out, requirement_assessment_to_json(&c.requirements[i]));
        assert(all.take(i + 1) =~= all.take(i as int).push(all[i as int]));
        i = i + 1;
    }
    assert(all.take(c.requirements.len() as int) =~= all);
    let mut f: Vec<(String, JsonText)> = Vec::new();
    push_field(&mut f, "criterion_id", JsonText::string(c.criterion_id.as_str()));
    push_field(&mut f, "status", JsonText::string(assessment_status_name(c.status)));
    push_field(&mut f, "requirements", JsonText::array(out));
    push_field(&mut f, "reasons", reasons_to_json(&c.reasons));
    proof {
        assert(fields_of(f@) =~= criterion_assessment_json(c@)->Obj_0);
    }
    JsonText::object(f)
}

/// JSON of an item assessment.
pub fn item_assessment_to_json(it: &ItemAssessment) -> (j: JsonText)
    ensures
        j.wf(),
        j.value@ == item_assessment_json(it@),
{
    let ghost all = item_assessment_json(it@)->Obj_0[2].1->Arr_0;
    let mut out: Vec<JsonText> = Vec::new();
    let mut i: usize = 0;
    while i < it.criteria.len()
        invariant
            i <= it.criteria.len(),
            all == item_assessment_json(it@)->Obj_0[2].1->Arr_0,
            values_of(out@) == all.take(i as int),
            forall|k: int| 0 <= k < out@.len() ==> #[trigger] out@[k].wf(),
        decreases it.criteria.len() - i,
    {
        push_value(&mut out, criterion_assessment_to_json(&it.criteria[i]));
        assert(all.take(i + 1) =~= all.take(i as int).push(all[i as int]));
        i = i + 1;
    }
    assert(all.take(it.criteria.len() as int) =~= all);
    let mut f: Vec<(String, JsonText)> = Vec::new();
    push_field(&mut f, "item_id", JsonText::string(it.item_id.as_str()));
    push_field(&mut f, "status", JsonText::string(assessment_status_name(it.status)));
    push_field(&mut f, "criteria", JsonText::array(out));
    push_field(&mut f, "reasons", reasons_to_json(&it.reasons));
    proof {
        assert(fields_of(f@) =~= item_assessment_json(it@)->Obj_0);
    }
    JsonText::object(f)
}

/// JSON of a plan assessment.
pub fn assessment_to_json(a: &PlanAssessment) -> (j: JsonText)
    ensures
        j.wf(),
        j.value@ == assessment_json(a@),
{
    let ghost all = assessment_json(a@)->Obj_0[4].1->Arr_0;
    let mut out: Vec<JsonText> = Vec::new();
    let mut i: usize = 0;
    while i < a.items.len()
        invariant
            i <= a.items.len(),
            all == assessment_json(a@)->Obj_0[4].1->Arr_0,
            values_of(out@) == all.take(i as int),
            forall|k: int| 0 <= k < out@.len() ==> #[trigger] out@[k].wf(),
        decreases a.items.len() - i,
    {
        push_value(&mut out, item_assessment_to_json(&a.items[i]));
        assert(all.take(i + 1) =~= all.take(i as int).push(all[i as int]));
        i = i + 1;
    }
    assert(all.take(a.items.len() as int) =~= all);
    let mut f: Vec<(String, JsonText)> = Vec::new();
    push_field(&mut f, "plan_id", JsonText::string(a.plan_id.as_str()));
    push_field(&mut f, "plan_revision", JsonText::natural(a.plan_revision));
    push_field(&mut f, "subject", subject_to_json(&a.subject));
    push_field(&mut f, "status", JsonText::string(assessment_status_name(a.status)));
    push_field(&mut f, "items", JsonText::array(out));
    push_field(&mut f, "reasons", reasons_to_json(&a.reasons));
    proof {
        assert(fields_of(f@) =~= assessment_json(a@)->Obj_0);
    }
    JsonText::object(f)
}

} // verus!
