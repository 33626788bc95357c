//! Bounded, stable summaries derived from canonical plan state.
use crate::assessment::{AssessmentReason, AssessmentStatus, PlanAssessment, ReasonV};
use crate::graph::{item_keys, item_readiness, items_in_order, readiness_matches, waiting_on, Readiness};
use crate::identity::{PlanId, PlanItemId};
use crate::model::{item_status_name, item_status_text, Plan, PlanItem, PlanItemStatus, PlanStatus, SubjectRevision};
use crate::schema::{reason_code_str, reason_code_text};
use crate::sort::stably_sorted;
use crate::text::{chars_of, owned, string_of};
use vstd::prelude::*;

verus! {

/// Version of the output envelope.
pub const OUTPUT_SCHEMA_VERSION: u32 = 1;
/// Most plans a registry projection lists.
pub const MAX_PROJECTED_PLANS: usize = 100;
/// Most items (or blockers) a projection lists.
pub const MAX_PROJECTED_ITEMS: usize = 100;
/// Most characters of projected text.
pub const MAX_TEXT_CHARS: usize = 512;
/// Most warnings (and reason codes) an output carries.
pub const MAX_WARNINGS: usize = 32;

/// Text cut to at most `max` characters.
pub open spec fn cut(s: Seq<char>, max: nat) -> Seq<char> {
    if s.len() > max {
        s.take(max as int)
    } else {
        s
    }
}

/// The first `max` characters of a text, and whether any were cut.
pub fn truncate(value: &str, max: usize) -> (r: (String, bool))
    ensures
        r.0@ == cut(value@, max as nat),
        r.1 == (value@.len() > max),
{
    let cs = chars_of(value);
    if cs.len() <= max {
        return (owned(value), false);
    }
    let mut out: Vec<char> = Vec::new();
    let mut i: usize = 0;
    while i < max
        invariant
            i <= max < cs.len(),
            out@ == cs@.take(i as int),
        decreases max - i,
    {
        out.push(cs[i]);
        assert(cs@.take(i + 1) =~= cs@.take(i as int).push(cs@[i as int]));
        i = i + 1;
    }
    (string_of(&out), true)
}

/// A machine-readable error.
#[derive(Debug, Clone, PartialEq, Eq)]
pub struct Diagnostic {
    pub code: String,
    pub message: String,
}

/// The versioned envelope of every command's output.
#[derive(Debug, Clone, PartialEq, Eq)]
pub struct OutputEnvelope<T> {
    pub schema_version: u32,
    pub command: String,
    pub ok: bool,
    pub data: Option<T>,
    pub error: Option<Diagnostic>,
    pub warnings: Vec<String>,
}

/// At most `MAX_WARNINGS` warnings, each cut to `MAX_TEXT_CHARS`.
pub fn bound_warnings(warnings: &Vec<String>) -> (r: Vec<String>)
    ensures
        r@.len() == if warnings@.len() > MAX_WARNINGS {
            MAX_WARNINGS as nat
        } else {
            warnings@.len()
        },
        forall|i: int| 0 <= i < r@.len() ==> (#[trigger] r@[i])@ == cut(warnings@[i]@, MAX_TEXT_CHARS as nat),
{
    let n = if warnings.len() > MAX_WARNINGS {
        MAX_WARNINGS
    } else {
        warnings.len()
    };
    let mut out: Vec<String> = Vec::new();
    let mut i: usize = 0;
    while i < n
        invariant
            i <= n <= warnings.len(),
            out@.len() == i,
            forall|k: int| 0 <= k < i ==> (#[trigger] out@[k])@ == cut(warnings@[k]@, MAX_TEXT_CHARS as nat),
        decreases n - i,
    {
        out.push(truncate(warnings[i].as_str(), MAX_TEXT_CHARS).0);
        i = i + 1;
    }
    out
}

impl<T> OutputEnvelope<T> {
    /// A successful output with bounded warnings.
    pub fn success(command: &str, data: T, warnings: Vec<String>) -> (r: OutputEnvelope<T>)
        ensures
            r.schema_version == OUTPUT_SCHEMA_VERSION,
            r.command@ == command@,
            r.ok,
            r.data == Some(data),
            r.error is None,
            r.warnings@.len() == if warnings@.len() > MAX_WARNINGS {
                MAX_WARNINGS as nat
            } else {
                warnings@.len()
            },
            forall|i: int| 0 <= i < r.warnings@.len() ==> (#[trigger] r.warnings@[i])@ == cut(
                warnings@[i]@,
                MAX_TEXT_CHARS as nat,
            ),
    {
        OutputEnvelope {
            schema_version: OUTPUT_SCHEMA_VERSION,
            command: owned(command),
            ok: true,
            data: Some(data),
            error: None,
            warnings: bound_warnings(&warnings),
        }
    }

    /// A failed output with a code and a bounded message.
    pub fn failure(command: &str, code: &str, message: &str) -> (r: OutputEnvelope<T>)
        ensures
            r.schema_version == OUTPUT_SCHEMA_VERSION,
            r.command@ == command@,
            !r.ok,
            r.data is None,
            r.error matches Some(d) && d.code@ == code@ && d.message@ == cut(message@, MAX_TEXT_CHARS as nat),
            r.warnings@.len() == 0,
    {
        OutputEnvelope {
            schema_version: OUTPUT_SCHEMA_VERSION,
            command: owned(command),
            ok: false,
            data: None,
            error: Some(Diagnostic { code: owned(code), message: truncate(message, MAX_TEXT_CHARS).0 }),
            warnings: Vec::new(),
        }
    }
}

/// The stable code of a reason (see `reason_code_text`).
pub fn reason_code(reason: &AssessmentReason) -> (r: String)
    ensures
        r@ == reason_code_text(reason@),
{
    owned(reason_code_str(reason))
}

/// The stable code of an item status.
pub fn item_status_code(status: PlanItemStatus) -> (r: &'static str)
    ensures
        r@ == item_status_text(status),
{
    item_status_name(status)
}

/// Item statuses in the order of their codes.
pub open spec fn statuses_by_code() -> Seq<PlanItemStatus> {
    seq![
        PlanItemStatus::Actionable,
        PlanItemStatus::Blocked,
        PlanItemStatus::Cancelled,
        PlanItemStatus::Completed,
        PlanItemStatus::InProgress,
        PlanItemStatus::Pending,
    ]
}

/// Number of items with a status among the first `n`.
pub open spec fn count_status(items: Seq<PlanItem>, s: PlanItemStatus, n: int) -> nat
    decreases n,
{
    if n <= 0 {
        0
    } else {
        count_status(items, s, n - 1) + if items[n - 1].status == s {
            1nat
        } else {
            0nat
        }
    }
}

/// Status counts in code order, the statuses that occur only.
pub open spec fn status_counts(items: Seq<PlanItem>, k: int) -> Seq<(Seq<char>, nat)>
    decreases k,
{
    if k <= 0 {
        Seq::empty()
    } else {
        let s = statuses_by_code()[k - 1];
        let c = count_status(items, s, items.len() as int);
        if c > 0 {
            status_counts(items, k - 1).push((item_status_text(s), c))
        } else {
            status_counts(items, k - 1)
        }
    }
}

/// Reason codes in sorted order.
pub open spec fn codes_sorted() -> Seq<Seq<char>> {
    seq![
        "duplicate_observation_id"@,
        "evidence_status"@,
        "human_judgment_not_allowed"@,
        "human_judgment_required"@,
        "invalid_observation"@,
        "invalid_plan"@,
        "item_not_completed"@,
        "legacy_unbound_execution_requirement"@,
        "missing_observation"@,
        "no_acceptance_criteria"@,
        "no_evidence_requirement"@,
        "no_plan_items"@,
        "observation_missing_verification_binding"@,
        "plan_blocked"@,
        "plan_cancelled"@,
        "plan_not_active"@,
        "provider_kind_not_allowed"@,
        "provider_mismatch"@,
        "stale_subject"@,
        "untrusted_provider"@,
        "verification_digest_mismatch"@,
    ]
}

/// Reason codes in sorted order.
fn codes_sorted_exec() -> (r: Vec<&'static str>)
    ensures
        r@.len() == codes_sorted().len(),
        forall|i: int| 0 <= i < r@.len() ==> (#[trigger] r@[i])@ == codes_sorted()[i],
{
    let r = vec![
        "duplicate_observation_id",
        "evidence_status",
        "human_judgment_not_allowed",
        "human_judgment_required",
        "invalid_observation",
        "invalid_plan",
        "item_not_completed",
        "legacy_unbound_execution_requirement",
        "missing_observation",
        "no_acceptance_criteria",
        "no_evidence_requirement",
        "no_plan_items",
        "observation_missing_verification_binding",
        "plan_blocked",
        "plan_cancelled",
        "plan_not_active",
        "provider_kind_not_allowed",
        "provider_mismatch",
        "stale_subject",
        "untrusted_provider",
        "verification_digest_mismatch",
    ];
    r
}

/// Some reason has the code.
pub open spec fn has_code(rs: Seq<ReasonV>, code: Seq<char>) -> bool {
    exists|i: int| 0 <= i < rs.len() && reason_code_text(#[trigger] rs[i]) == code
}

/// The distinct codes of reasons among the first `k` codes, in sorted order.
pub open spec fn distinct_codes(rs: Seq<ReasonV>, k: int) -> Seq<Seq<char>>
    decreases k,
{
    if k <= 0 {
        Seq::empty()
    } else if has_code(rs, codes_sorted()[k - 1]) {
        distinct_codes(rs, k - 1).push(codes_sorted()[k - 1])
    } else {
        distinct_codes(rs, k - 1)
    }
}

/// The distinct reason codes of an assessment, in sorted order.
pub fn sorted_reason_codes(reasons: &Vec<AssessmentReason>) -> (r: Vec<String>)
    ensures
        r@.len() == distinct_codes(crate::assessment::reason_views(reasons@), 21).len(),
        forall|i: int| 0 <= i < r@.len() ==> (#[trigger] r@[i])@ == distinct_codes(
            crate::assessment::reason_views(reasons@),
            21,
        )[i],
{
    let ghost rv = crate::assessment::reason_views(reasons@);
    let codes = codes_sorted_exec();
    let mut out: Vec<String> = Vec::new();
    let mut k: usize = 0;
    while k < codes.len()
        invariant
            k <= codes.len(),
            codes@.len() == 21,
            forall|i: int| 0 <= i < codes@.len() ==> (#[trigger] codes@[i])@ == codes_sorted()[i],
            rv == crate::assessment::reason_views(reasons@),
            out@.len() == distinct_codes(rv, k as int).len(),
            forall|i: int| 0 <= i < out@.len() ==> (#[trigger] out@[i])@ == distinct_codes(rv, k as int)[i],
        decreases codes.len() - k,
    {
        let mut found = false;
        let mut j: usize = 0;
        while j < reasons.len()
            invariant
                j <= reasons.len(),
                k < codes@.len(),
                rv == crate::assessment::reason_views(reasons@),
                found == exists|i: int| 0 <= i < j && reason_code_text(#[trigger] rv[i]) == codes@[k as int]@,
            decreases reasons.len() - j,
        {
            let c = reason_code_str(&reasons[j]);
            proof {
                assert(rv[j as int] == reasons@[j as int]@);
            }
            if crate::text::str_eq(c, codes[k]) {
                found = true;
            }
            j = j + 1;
        }
        if found {
            out.push(owned(codes[k]));
        }
        k = k + 1;
    }
    out
}

/// A summary of a plan.
#[derive(Debug, Clone, PartialEq, Eq)]
pub struct PlanSummary {
    pub plan_id: PlanId,
    pub revision: u64,
    pub status: PlanStatus,
    pub objective: String,
    pub objective_truncated: bool,
    pub item_count: usize,
    pub projected_item_count: usize,
    pub items_truncated: bool,
    pub item_status_counts: Vec<(String, usize)>,
    pub current_subject: Option<SubjectRevision>,
    pub assessment_status: Option<AssessmentStatus>,
    pub assessment_reason_codes: Vec<String>,
    pub has_closure: bool,
}

fn count_items_with(items: &Vec<PlanItem>, s: PlanItemStatus) -> (c: usize)
    ensures
        c == count_status(items@, s, items@.len() as int),
{
    let mut c: usize = 0;
    let mut i: usize = 0;
    while i < items.len()
        invariant
            i <= items.len(),
            c == count_status(items@, s, i as int),
            c <= i,
        decreases items.len() - i,
    {
        if items[i].status == s {
            c = c + 1;
        }
        i = i + 1;
    }
    c
}

/// Summarizes a plan, its current subject, assessment and closure.
pub fn summarize_plan(
    plan: &Plan,
    subject: Option<SubjectRevision>,
    assessment: Option<&PlanAssessment>,
    has_closure: bool,
) -> (r: PlanSummary)
    ensures
        r.plan_id@ == plan.id@,
        r.revision == plan.revision,
        r.status == plan.status,
        r.objective@ == cut(plan.objective@, MAX_TEXT_CHARS as nat),
        r.objective_truncated == (plan.objective@.len() > MAX_TEXT_CHARS),
        r.item_count == plan.items@.len(),
        r.projected_item_count == if plan.items@.len() > MAX_PROJECTED_ITEMS {
            MAX_PROJECTED_ITEMS as nat
        } else {
            plan.items@.len()
        },
        r.items_truncated == (plan.items@.len() > MAX_PROJECTED_ITEMS),
        r.item_status_counts@.len() == status_counts(plan.items@, 6).len(),
        forall|i: int| 0 <= i < r.item_status_counts@.len() ==> (#[trigger] r.item_status_counts@[i]).0@ == status_counts(
            plan.items@,
            6,
        )[i].0 && r.item_status_counts@[i].1 == status_counts(plan.items@, 6)[i].1,
        r.current_subject == subject,
        r.assessment_status == match assessment {
            Some(a) => Some(a.status),
            None => None,
        },
        r.assessment_reason_codes@.len() == match assessment {
            Some(a) => distinct_codes(crate::assessment::reason_views(a.reasons@), 21).len(),
            None => 0,
        },
        forall|i: int| 0 <= i < r.assessment_reason_codes@.len() ==> (#[trigger] r.assessment_reason_codes@[i])@
            == distinct_codes(crate::assessment::reason_views(assessment->0.reasons@), 21)[i],
        r.has_closure == has_closure,
{
    let (objective, objective_truncated) = truncate(plan.objective.as_str(), MAX_TEXT_CHARS);
    let order = vec![
        PlanItemStatus::Actionable,
        PlanItemStatus::Blocked,
        PlanItemStatus::Cancelled,
        PlanItemStatus::Completed,
        PlanItemStatus::InProgress,
        PlanItemStatus::Pending,
    ];
    assert(order@ =~= statuses_by_code());
    let mut counts: Vec<(String, usize)> = Vec::new();
    let mut k: usize = 0;
    while k < 6
        invariant
            k <= 6,
            order@ == statuses_by_code(),
            counts@.len() == status_counts(plan.items@, k as int).len(),
            forall|i: int| 0 <= i < counts@.len() ==> (#[trigger] counts@[i]).0@ == status_counts(plan.items@, k as int)[i].0
                && counts@[i].1 == status_counts(plan.items@, k as int)[i].1,
        decreases 6 - k,
    {
        let c = count_items_with(&plan.items, order[k]);
        if c > 0 {
            counts.push((owned(item_status_code(order[k])), c));
        }
        k = k + 1;
    }
    let reason_codes = match assessment {
        Some(a) => sorted_reason_codes(&a.reasons),
        None => Vec::new(),
    };
    PlanSummary {
        plan_id: plan.id.duplicate(),
        revision: plan.revision,
        status: plan.status,
        objective,
        objective_truncated,
        item_count: plan.items.len(),
        projected_item_count: if plan.items.len() > MAX_PROJECTED_ITEMS {
            MAX_PROJECTED_ITEMS
        } else {
            plan.items.len()
        },
        items_truncated: plan.items.len() > MAX_PROJECTED_ITEMS,
        item_status_counts: counts,
        current_subject: subject,
        assessment_status: match assessment {
            Some(a) => Some(a.status),
            None => None,
        },
        assessment_reason_codes: reason_codes,
        has_closure,
    }
}

/// A summary of an item and its readiness.
#[derive(Debug, Clone, PartialEq, Eq)]
pub struct ItemSummary {
    pub item_id: PlanItemId,
    pub position: u32,
    pub status: PlanItemStatus,
    pub description: String,
    pub description_truncated: bool,
    pub dependencies: Vec<PlanItemId>,
    pub readiness: Option<String>,
    pub waiting_on: Vec<PlanItemId>,
    pub blocker: Option<String>,
    pub blocker_truncated: bool,
    pub next_action: Option<String>,
    pub next_action_truncated: bool,
}

/// A plan summary with its item summaries.
#[derive(Debug, Clone, PartialEq, Eq)]
pub struct PlanDetail {
    pub plan: PlanSummary,
    pub items: Vec<ItemSummary>,
}

/// The item can be worked on: the plan is Active and the item Pending or Actionable.
pub open spec fn actionable(plan_status: PlanStatus, item: PlanItem) -> bool {
    plan_status == PlanStatus::Active && (item.status == PlanItemStatus::Pending || item.status
        == PlanItemStatus::Actionable)
}

/// Readiness classes: ready, waiting on dependencies, not actionable.
pub enum ReadinessKind {
    Ready,
    Waiting,
    NotActionable,
}

/// The readiness class of an item.
pub open spec fn readiness_kind(plan_status: PlanStatus, items: Seq<PlanItem>, item: PlanItem) -> ReadinessKind {
    if !actionable(plan_status, item) {
        ReadinessKind::NotActionable
    } else if waiting_on(items, item.dependencies@).len() == 0 {
        ReadinessKind::Ready
    } else {
        ReadinessKind::Waiting
    }
}

/// The readiness code of an item.
pub open spec fn readiness_text(plan_status: PlanStatus, items: Seq<PlanItem>, item: PlanItem) -> Seq<char> {
    match readiness_kind(plan_status, items, item) {
        ReadinessKind::NotActionable => "not_actionable"@,
        ReadinessKind::Ready => "ready"@,
        ReadinessKind::Waiting => "waiting_on_dependencies"@,
    }
}

/// An optional text cut to the projection bound.
pub open spec fn opt_cut(s: Option<String>) -> Option<Seq<char>> {
    match s {
        Some(v) => Some(cut(v@, MAX_TEXT_CHARS as nat)),
        None => None,
    }
}

/// An optional text was longer than the projection bound.
pub open spec fn opt_cut_flag(s: Option<String>) -> bool {
    match s {
        Some(v) => v@.len() > MAX_TEXT_CHARS,
        None => false,
    }
}

/// `s` summarizes `item` of a plan with `plan_status` and `items`.
pub open spec fn summarizes(plan_status: PlanStatus, items: Seq<PlanItem>, item: PlanItem, s: ItemSummary) -> bool {
    &&& s.item_id@ == item.id@
    &&& s.position == item.position
    &&& s.status == item.status
    &&& s.description@ == cut(item.description@, MAX_TEXT_CHARS as nat)
    &&& s.description_truncated == (item.description@.len() > MAX_TEXT_CHARS)
    &&& s.dependencies@ == item.dependencies@
    &&& s.readiness matches Some(t) && t@ == readiness_text(plan_status, items, item)
    &&& s.waiting_on@ == if readiness_kind(plan_status, items, item) is Waiting {
        waiting_on(items, item.dependencies@)
    } else {
        Seq::empty()
    }
    &&& crate::evidence::opt_seq(s.blocker) == opt_cut(item.blocker)
    &&& s.blocker_truncated == opt_cut_flag(item.blocker)
    &&& crate::evidence::opt_seq(s.next_action) == opt_cut(item.next_action)
    &&& s.next_action_truncated == opt_cut_flag(item.next_action)
}

fn cut_opt(s: &Option<String>) -> (r: (Option<String>, bool))
    ensures
        crate::evidence::opt_seq(r.0) == opt_cut(*s),
        r.1 == opt_cut_flag(*s),
{
    match s {
        Some(v) => {
            let (t, f) = truncate(v.as_str(), MAX_TEXT_CHARS);
            (Some(t), f)
        },
        None => (None, false),
    }
}

fn copy_ids(ids: &Vec<PlanItemId>) -> (r: Vec<PlanItemId>)
    ensures
        r@ == ids@,
{
    let mut r: Vec<PlanItemId> = Vec::new();
    let mut i: usize = 0;
    while i < ids.len()
        invariant
            i <= ids.len(),
            r@ == ids@.take(i as int),
        decreases ids.len() - i,
    {
        r.push(ids[i].duplicate());
        assert(ids@.take(i + 1) =~= ids@.take(i as int).push(ids@[i as int]));
        i = i + 1;
    }
    assert(ids@.take(ids.len() as int) =~= ids@);
    r
}

/// Summarizes an item of a plan.
pub fn item_summary(plan: &Plan, item: &PlanItem) -> (s: ItemSummary)
    ensures
        summarizes(plan.status, plan.items@, *item, s),
{
    let (description, description_truncated) = truncate(item.description.as_str(), MAX_TEXT_CHARS);
    let (blocker, blocker_truncated) = cut_opt(&item.blocker);
    let (next_action, next_action_truncated) = cut_opt(&item.next_action);
    let rd = item_readiness(plan.status, &plan.items, item);
    let (readiness, waiting) = match rd {
        Readiness::Ready => (owned("ready"), Vec::new()),
        Readiness::WaitingOnDependencies(ids) => (owned("waiting_on_dependencies"), ids),
        Readiness::NotActionable => (owned("not_actionable"), Vec::new()),
    };
    ItemSummary {
        item_id: item.id.duplicate(),
        position: item.position,
        status: item.status,
        description,
        description_truncated,
        dependencies: copy_ids(&item.dependencies),
        readiness: Some(readiness),
        waiting_on: waiting,
        blocker,
        blocker_truncated,
        next_action,
        next_action_truncated,
    }
}

/// Readiness of a plan's items, bounded.
#[derive(Debug, Clone, PartialEq, Eq)]
pub struct ReadinessProjection {
    pub plan_id: PlanId,
    pub items: Vec<ItemSummary>,
    pub total_items: usize,
    pub ready_count: usize,
    pub waiting_count: usize,
    pub not_actionable_count: usize,
    pub truncated: bool,
}

/// Number of items among the first `n` in a readiness class.
pub open spec fn count_readiness(plan_status: PlanStatus, items: Seq<PlanItem>, kind: ReadinessKind, n: int) -> nat
    decreases n,
{
    if n <= 0 {
        0
    } else {
        count_readiness(plan_status, items, kind, n - 1) + if readiness_kind(plan_status, items, items[n - 1]) == kind {
            1nat
        } else {
            0nat
        }
    }
}

/// At most `max`.
pub open spec fn at_most(n: nat, max: nat) -> nat {
    if n > max {
        max
    } else {
        n
    }
}

/// Counts the items of each readiness class: ready, waiting, not actionable.
fn count_readiness_kinds(plan: &Plan) -> (c: (usize, usize, usize))
    ensures
        c.0 == count_readiness(plan.status, plan.items@, ReadinessKind::Ready, plan.items@.len() as int),
        c.1 == count_readiness(plan.status, plan.items@, ReadinessKind::Waiting, plan.items@.len() as int),
        c.2 == count_readiness(plan.status, plan.items@, ReadinessKind::NotActionable, plan.items@.len() as int),
{
    let mut ready: usize = 0;
    let mut waiting: usize = 0;
    let mut idle: usize = 0;
    let mut i: usize = 0;
    while i < plan.items.len()
        invariant
            i <= plan.items.len(),
            ready == count_readiness(plan.status, plan.items@, ReadinessKind::Ready, i as int),
            waiting == count_readiness(plan.status, plan.items@, ReadinessKind::Waiting, i as int),
            idle == count_readiness(plan.status, plan.items@, ReadinessKind::NotActionable, i as int),
            ready + waiting + idle == i,
        decreases plan.items.len() - i,
    {
        match item_readiness(plan.status, &plan.items, &plan.items[i]) {
            Readiness::Ready => {
                ready = ready + 1;
            },
            Readiness::WaitingOnDependencies(_) => {
                waiting = waiting + 1;
            },
            Readiness::NotActionable => {
                idle = idle + 1;
            },
        }
        i = i + 1;
    }
    (ready, waiting, idle)
}

/// The items of a plan in (position, identifier) order, with their
/// readiness, at most `MAX_PROJECTED_ITEMS` of them, and readiness counts
/// over all items.
pub fn readiness_projection(plan: &Plan) -> (r: ReadinessProjection)
    ensures
        r.plan_id@ == plan.id@,
        r.total_items == plan.items@.len(),
        r.truncated == (plan.items@.len() > MAX_PROJECTED_ITEMS),
        r.ready_count == count_readiness(plan.status, plan.items@, ReadinessKind::Ready, plan.items@.len() as int),
        r.waiting_count == count_readiness(plan.status, plan.items@, ReadinessKind::Waiting, plan.items@.len() as int),
        r.not_actionable_count == count_readiness(
            plan.status,
            plan.items@,
            ReadinessKind::NotActionable,
            plan.items@.len() as int,
        ),
        exists|perm: Seq<usize>| #[trigger] stably_sorted(item_keys(plan.items@), perm) && r.items@.len() == at_most(
            plan.items@.len(),
            MAX_PROJECTED_ITEMS as nat,
        ) && forall|k: int| 0 <= k < r.items@.len() ==> summarizes(
            plan.status,
            plan.items@,
            plan.items@[perm[k] as int],
            #[trigger] r.items@[k],
        ),
{
    let perm = items_in_order(&plan.items);
    let n = if plan.items.len() > MAX_PROJECTED_ITEMS {
        MAX_PROJECTED_ITEMS
    } else {
        plan.items.len()
    };
    let mut items: Vec<ItemSummary> = Vec::new();
    let mut k: usize = 0;
    while k < n
        invariant
            k <= n,
            n == at_most(plan.items@.len(), MAX_PROJECTED_ITEMS as nat),
            stably_sorted(item_keys(plan.items@), perm@),
            items@.len() == k,
            forall|j: int| 0 <= j < k ==> summarizes(plan.status, plan.items@, plan.items@[perm@[j] as int], #[trigger] items@[j]),
        decreases n - k,
    {
        items.push(item_summary(plan, &plan.items[perm[k]]));
        k = k + 1;
    }
    let (ready_count, waiting_count, not_actionable_count) = count_readiness_kinds(plan);
    ReadinessProjection {
        plan_id: plan.id.duplicate(),
        items,
        total_items: plan.items.len(),
        ready_count,
        waiting_count,
        not_actionable_count,
        truncated: plan.items.len() > MAX_PROJECTED_ITEMS,
    }
}

/// A node of the graph projection.
#[derive(Debug, Clone, PartialEq, Eq)]
pub struct GraphNode {
    pub item_id: PlanItemId,
    pub position: u32,
    pub status: PlanItemStatus,
    pub description: String,
    pub description_truncated: bool,
}

/// An edge of the graph projection.
#[derive(Debug, Clone, PartialEq, Eq)]
pub struct GraphEdge {
    pub from: PlanItemId,
    pub to: PlanItemId,
}

/// The dependency and parent graphs of a plan, bounded.
#[derive(Debug, Clone, PartialEq, Eq)]
pub struct GraphProjection {
    pub plan_id: PlanId,
    pub nodes: Vec<GraphNode>,
    pub dependency_edges: Vec<GraphEdge>,
    pub parent_edges: Vec<GraphEdge>,
    pub total_dependency_edges: usize,
    pub total_parent_edges: usize,
    pub edges_truncated: bool,
    pub truncated: bool,
    pub total_nodes: usize,
}

/// Number of dependencies of the first `n` items.
pub open spec fn total_deps(items: Seq<PlanItem>, n: int) -> nat
    decreases n,
{
    if n <= 0 {
        0
    } else {
        total_deps(items, n - 1) + items[n - 1].dependencies@.len()
    }
}

/// Number of items among the first `n` with a parent.
pub open spec fn total_parents(items: Seq<PlanItem>, n: int) -> nat
    decreases n,
{
    if n <= 0 {
        0
    } else {
        total_parents(items, n - 1) + if items[n - 1].parent is Some {
            1nat
        } else {
            0nat
        }
    }
}

/// The values of edges.
pub open spec fn edge_views(e: Seq<GraphEdge>) -> Seq<(Seq<char>, Seq<char>)> {
    Seq::new(e.len(), |i: int| (e[i].from@, e[i].to@))
}

/// The identifier is one of the selected items.
pub open spec fn selected(sel: Seq<PlanItem>, id: Seq<char>) -> bool {
    exists|i: int| 0 <= i < sel.len() && (#[trigger] sel[i]).id@ == id
}

/// Dependency edges of one item into the selection, in dependency order.
pub open spec fn item_dep_edges(sel: Seq<PlanItem>, it: PlanItem, n: int) -> Seq<(Seq<char>, Seq<char>)>
    decreases n,
{
    if n <= 0 {
        Seq::empty()
    } else if selected(sel, it.dependencies@[n - 1]@) {
        item_dep_edges(sel, it, n - 1).push((it.id@, it.dependencies@[n - 1]@))
    } else {
        item_dep_edges(sel, it, n - 1)
    }
}

/// Dependency edges among the first `k` selected items, in selection order.
pub open spec fn dep_edges_of(sel: Seq<PlanItem>, k: int) -> Seq<(Seq<char>, Seq<char>)>
    decreases k,
{
    if k <= 0 {
        Seq::empty()
    } else {
        dep_edges_of(sel, k - 1) + item_dep_edges(sel, sel[k - 1], sel[k - 1].dependencies@.len() as int)
    }
}

/// Parent edges among the first `k` selected items, in selection order.
pub open spec fn parent_edges_of(sel: Seq<PlanItem>, k: int) -> Seq<(Seq<char>, Seq<char>)>
    decreases k,
{
    if k <= 0 {
        Seq::empty()
    } else if sel[k - 1].parent is Some && selected(sel, sel[k - 1].parent->0@) {
        parent_edges_of(sel, k - 1).push((sel[k - 1].id@, sel[k - 1].parent->0@))
    } else {
        parent_edges_of(sel, k - 1)
    }
}

/// Sort keys of edges: by source, then target.
pub open spec fn edge_keys(e: Seq<(Seq<char>, Seq<char>)>) -> Seq<crate::sort::KeyV> {
    Seq::new(e.len(), |i: int| crate::sort::KeyV { rank: 0, first: e[i].0, second: e[i].1 })
}

/// `out` is `raw` in stable edge order.
pub open spec fn edges_sorted(raw: Seq<(Seq<char>, Seq<char>)>, out: Seq<(Seq<char>, Seq<char>)>) -> bool {
    exists|perm: Seq<usize>| #[trigger] stably_sorted(edge_keys(raw), perm) && out == crate::closure::reorder(raw, perm)
}

/// The selected items: the first `MAX_PROJECTED_ITEMS` in (position, identifier) order.
pub open spec fn selection(items: Seq<PlanItem>, perm: Seq<usize>) -> Seq<PlanItem> {
    Seq::new(at_most(perm.len(), MAX_PROJECTED_ITEMS as nat), |k: int| items[perm[k] as int])
}

fn in_selection(items: &Vec<PlanItem>, perm: &Vec<usize>, m: usize, id: &PlanItemId) -> (r: bool)
    requires
        m == at_most(perm@.len(), MAX_PROJECTED_ITEMS as nat),
        forall|k: int| 0 <= k < perm@.len() ==> (#[trigger] perm@[k]) < items@.len(),
    ensures
        r == selected(selection(items@, perm@), id@),
{
    let ghost sv = selection(items@, perm@);
    let mut i: usize = 0;
    while i < m
        invariant
            i <= m,
            m == sv.len(),
            sv == selection(items@, perm@),
            forall|k: int| 0 <= k < perm@.len() ==> (#[trigger] perm@[k]) < items@.len(),
            forall|k: int| 0 <= k < i ==> (#[trigger] sv[k]).id@ != id@,
        decreases m - i,
    {
        if items[perm[i]].id.same(id) {
            assert(sv[i as int] == items@[perm@[i as int] as int]);
            return true;
        }
        i = i + 1;
    }
    false
}

fn sort_edges(raw: Vec<GraphEdge>) -> (r: Vec<GraphEdge>)
    ensures
        edges_sorted(edge_views(raw@), edge_views(r@)),
{
    let ghost rv = edge_views(raw@);
    let mut keys: Vec<crate::sort::SortKey> = Vec::new();
    let mut i: usize = 0;
    while i < raw.len()
        invariant
            i <= raw.len(),
            rv == edge_views(raw@),
            keys@.len() == i,
            forall|k: int| 0 <= k < i ==> (#[trigger] keys@[k])@ == edge_keys(rv)[k],
        decreases raw.len() - i,
    {
        keys.push(crate::sort::SortKey { rank: 0, first: raw[i].from.to_string(), second: raw[i].to.to_string() });
        i = i + 1;
    }
    assert(crate::sort::key_views(keys@) =~= edge_keys(rv));
    let perm = crate::sort::stable_order(&keys);
    let mut out: Vec<GraphEdge> = Vec::new();
    let mut i: usize = 0;
    while i < perm.len()
        invariant
            i <= perm.len(),
            rv == edge_views(raw@),
            stably_sorted(edge_keys(rv), perm@),
            out@.len() == i,
            forall|k: int| 0 <= k < i ==> (#[trigger] edge_views(out@)[k]) == crate::closure::reorder(rv, perm@)[k],
        decreases perm.len() - i,
    {
        let ghost before = out@;
        let e = &raw[perm[i]];
        out.push(GraphEdge { from: e.from.duplicate(), to: e.to.duplicate() });
        proof {
            assert forall|k: int| 0 <= k < i + 1 implies (#[trigger] edge_views(out@)[k]) == crate::closure::reorder(rv, perm@)[k] by {
                if k < i {
                    assert(edge_views(before)[k] == crate::closure::reorder(rv, perm@)[k]);
                    assert(out@[k] == before[k]);
                }
            }
        }
        i = i + 1;
    }
    assert(edge_views(out@) =~= crate::closure::reorder(rv, perm@));
    out
}

/// The dependency and parent graphs among the first `MAX_PROJECTED_ITEMS`
/// items in (position, identifier) order; edges sorted by source then
/// target; totals count every edge of the plan.
pub fn graph_projection(plan: &Plan) -> (r: GraphProjection)
    requires
        total_deps(plan.items@, plan.items@.len() as int) <= usize::MAX,
    ensures
        r.plan_id@ == plan.id@,
        r.total_nodes == plan.items@.len(),
        r.truncated == (plan.items@.len() > MAX_PROJECTED_ITEMS),
        r.total_dependency_edges == total_deps(plan.items@, plan.items@.len() as int),
        r.total_parent_edges == total_parents(plan.items@, plan.items@.len() as int),
        r.edges_truncated == (r.dependency_edges@.len() < r.total_dependency_edges || r.parent_edges@.len()
            < r.total_parent_edges),
        exists|perm: Seq<usize>| #[trigger] stably_sorted(item_keys(plan.items@), perm) && {
            let sel = selection(plan.items@, perm);
            &&& r.nodes@.len() == sel.len()
            &&& forall|k: int| 0 <= k < sel.len() ==> {
                &&& (#[trigger] r.nodes@[k]).item_id@ == sel[k].id@
                &&& r.nodes@[k].position == sel[k].position
                &&& r.nodes@[k].status == sel[k].status
                &&& r.nodes@[k].description@ == cut(sel[k].description@, MAX_TEXT_CHARS as nat)
                &&& r.nodes@[k].description_truncated == (sel[k].description@.len() > MAX_TEXT_CHARS)
            }
            &&& edges_sorted(dep_edges_of(sel, sel.len() as int), edge_views(r.dependency_edges@))
            &&& edges_sorted(parent_edges_of(sel, sel.len() as int), edge_views(r.parent_edges@))
        },
{
    let perm = items_in_order(&plan.items);
    let m = if plan.items.len() > MAX_PROJECTED_ITEMS {
        MAX_PROJECTED_ITEMS
    } else {
        plan.items.len()
    };
    let mut nodes: Vec<GraphNode> = Vec::new();
    let mut k: usize = 0;
    while k < m
        invariant
            k <= m,
            m == at_most(plan.items@.len(), MAX_PROJECTED_ITEMS as nat),
            stably_sorted(item_keys(plan.items@), perm@),
            nodes@.len() == k,
            forall|j: int| 0 <= j < k ==> {
                &&& (#[trigger] nodes@[j]).item_id@ == selection(plan.items@, perm@)[j].id@
                &&& nodes@[j].position == selection(plan.items@, perm@)[j].position
                &&& nodes@[j].status == selection(plan.items@, perm@)[j].status
                &&& nodes@[j].description@ == cut(selection(plan.items@, perm@)[j].description@, MAX_TEXT_CHARS as nat)
                &&& nodes@[j].description_truncated == (selection(plan.items@, perm@)[j].description@.len() > MAX_TEXT_CHARS)
            },
        decreases m - k,
    {
        let item = &plan.items[perm[k]];
        let (description, description_truncated) = truncate(item.description.as_str(), MAX_TEXT_CHARS);
        nodes.push(GraphNode { item_id: item.id.duplicate(), position: item.position, status: item.status, description, description_truncated });
        k = k + 1;
    }
    let ghost sv = selection(plan.items@, perm@);
    let mut total_dep: usize = 0;
    let mut total_par: usize = 0;
    let mut i: usize = 0;
    while i < plan.items.len()
        invariant
            i <= plan.items.len(),
            total_deps(plan.items@, plan.items@.len() as int) <= usize::MAX,
            total_dep == total_deps(plan.items@, i as int),
            total_par == total_parents(plan.items@, i as int),
            total_par <= i,
        decreases plan.items.len() - i,
    {
        proof {
            lemma_total_deps_monotone(plan.items@, i + 1, plan.items@.len() as int);
        }
        total_dep = total_dep + plan.items[i].dependencies.len();
        if plan.items[i].parent.is_some() {
            total_par = total_par + 1;
        }
        i = i + 1;
    }
    let mut deps: Vec<GraphEdge> = Vec::new();
    let mut parents: Vec<GraphEdge> = Vec::new();
    let mut k: usize = 0;
    while k < m
        invariant
            k <= m,
            m == sv.len(),
            sv == selection(plan.items@, perm@),
            stably_sorted(item_keys(plan.items@), perm@),
            edge_views(deps@) == dep_edges_of(sv, k as int),
            edge_views(parents@) == parent_edges_of(sv, k as int),
        decreases m - k,
    {
        let item = &plan.items[perm[k]];
        assert(*item == sv[k as int]);
        let ghost start = edge_views(deps@);
        let mut d: usize = 0;
        while d < item.dependencies.len()
            invariant
                d <= item.dependencies.len(),
                *item == sv[k as int],
                m == sv.len(),
                sv == selection(plan.items@, perm@),
                stably_sorted(item_keys(plan.items@), perm@),
                edge_views(deps@) == start + item_dep_edges(sv, *item, d as int),
            decreases item.dependencies.len() - d,
        {
            if in_selection(&plan.items, &perm, m, &item.dependencies[d]) {
                let ghost before = deps@;
                deps.push(GraphEdge { from: item.id.duplicate(), to: item.dependencies[d].duplicate() });
                assert(edge_views(deps@) =~= edge_views(before).push((item.id@, item.dependencies@[d as int]@)));
            }
            d = d + 1;
        }
        if let Some(p) = &item.parent {
            if in_selection(&plan.items, &perm, m, p) {
                let ghost before = parents@;
                parents.push(GraphEdge { from: item.id.duplicate(), to: p.duplicate() });
                assert(edge_views(parents@) =~= edge_views(before).push((item.id@, p@)));
            }
        }
        k = k + 1;
    }
    let dependency_edges = sort_edges(deps);
    let parent_edges = sort_edges(parents);
    proof {
        lemma_reorder_len(dep_edges_of(sv, sv.len() as int), edge_views(dependency_edges@));
        lemma_reorder_len(parent_edges_of(sv, sv.len() as int), edge_views(parent_edges@));
    }
    let edges_truncated = dependency_edges.len() < total_dep || parent_edges.len() < total_par;
    GraphProjection {
        plan_id: plan.id.duplicate(),
        nodes,
        dependency_edges,
        parent_edges,
        total_dependency_edges: total_dep,
        total_parent_edges: total_par,
        edges_truncated,
        truncated: plan.items.len() > MAX_PROJECTED_ITEMS,
        total_nodes: plan.items.len(),
    }
}

proof fn lemma_reorder_len(raw: Seq<(Seq<char>, Seq<char>)>, out: Seq<(Seq<char>, Seq<char>)>)
    requires
        edges_sorted(raw, out),
    ensures
        out.len() == raw.len(),
{
}

proof fn lemma_total_deps_monotone(items: Seq<PlanItem>, n: int, m: int)
    requires
        0 <= n <= m,
    ensures
        total_deps(items, n) <= total_deps(items, m),
    decreases m - n,
{
    if m > n {
        lemma_total_deps_monotone(items, n, m - 1);
    }
}

/// A plan in the registry projection.
#[derive(Debug, Clone, PartialEq, Eq)]
pub struct RegistryPlan {
    pub plan_id: PlanId,
    pub revision: u64,
    pub status: PlanStatus,
    pub item_count: usize,
    pub closure_present: bool,
    pub readiness_count: usize,
    pub assessment_status: Option<AssessmentStatus>,
    pub assessment_reason_codes: Vec<String>,
}

/// A blocked item in the registry projection.
#[derive(Debug, Clone, PartialEq, Eq)]
pub struct RegistryBlocker {
    pub plan_id: PlanId,
    pub item_id: PlanItemId,
    pub text: String,
    pub text_truncated: bool,
}

/// The plans of a repository, bounded, with their blocked items.
#[derive(Debug, Clone, PartialEq, Eq)]
pub struct RegistryProjection {
    pub repository_id: String,
    pub plan_count: usize,
    pub projected_plan_count: usize,
    pub plans_truncated: bool,
    pub plans: Vec<RegistryPlan>,
    pub blocker_count: usize,
    pub blockers_truncated: bool,
    pub blockers: Vec<RegistryBlocker>,
}

/// Value of a registry blocker.
pub struct BlockerV {
    pub plan_id: Seq<char>,
    pub item_id: Seq<char>,
    pub text: Seq<char>,
    pub text_truncated: bool,
}

/// Sort keys of registry entries: by plan identifier.
pub open spec fn plan_keys(ps: Seq<(Plan, bool, Option<PlanAssessment>)>) -> Seq<crate::sort::KeyV> {
    Seq::new(ps.len(), |i: int| crate::sort::KeyV { rank: 0, first: ps[i].0.id@, second: Seq::empty() })
}

/// The blocked items among the first `k` of `order`, as blockers of `plan_id`.
pub open spec fn blockers_in(plan_id: Seq<char>, order: Seq<PlanItem>, k: int) -> Seq<BlockerV>
    decreases k,
{
    if k <= 0 {
        Seq::empty()
    } else if order[k - 1].blocker is Some {
        blockers_in(plan_id, order, k - 1).push(
            BlockerV {
                plan_id,
                item_id: order[k - 1].id@,
                text: cut(order[k - 1].blocker->0@, MAX_TEXT_CHARS as nat),
                text_truncated: order[k - 1].blocker->0@.len() > MAX_TEXT_CHARS,
            },
        )
    } else {
        blockers_in(plan_id, order, k - 1)
    }
}

/// The blocked items of a plan in (position, identifier) order.
pub open spec fn blockers_of(p: Plan) -> Seq<BlockerV> {
    let order = crate::closure::reorder(p.items@, crate::sort::stable_perm(item_keys(p.items@)));
    blockers_in(p.id@, order, order.len() as int)
}

/// Blocked items of the first `k` plans.
pub open spec fn all_blockers(ps: Seq<(Plan, bool, Option<PlanAssessment>)>, k: int) -> Seq<BlockerV>
    decreases k,
{
    if k <= 0 {
        Seq::empty()
    } else {
        all_blockers(ps, k - 1) + blockers_of(ps[k - 1].0)
    }
}

/// The values of blockers.
pub open spec fn blocker_views(b: Seq<RegistryBlocker>) -> Seq<BlockerV> {
    Seq::new(
        b.len(),
        |i: int| BlockerV { plan_id: b[i].plan_id@, item_id: b[i].item_id@, text: b[i].text@, text_truncated: b[i].text_truncated },
    )
}

/// `rp` describes the registry entry `e`.
pub open spec fn registry_entry(e: (Plan, bool, Option<PlanAssessment>), rp: RegistryPlan) -> bool {
    &&& rp.plan_id@ == e.0.id@
    &&& rp.revision == e.0.revision
    &&& rp.status == e.0.status
    &&& rp.item_count == e.0.items@.len()
    &&& rp.closure_present == e.1
    &&& rp.readiness_count == count_readiness(e.0.status, e.0.items@, ReadinessKind::Ready, e.0.items@.len() as int)
    &&& rp.assessment_status == match e.2 {
        Some(a) => Some(a.status),
        None => None,
    }
    &&& rp.assessment_reason_codes@.len() == match e.2 {
        Some(a) => at_most(distinct_codes(crate::assessment::reason_views(a.reasons@), 21).len(), MAX_WARNINGS as nat),
        None => 0,
    }
    &&& forall|i: int| 0 <= i < rp.assessment_reason_codes@.len() ==> (#[trigger] rp.assessment_reason_codes@[i])@
        == distinct_codes(crate::assessment::reason_views(e.2->0.reasons@), 21)[i]
}

fn plan_blockers(plan: &Plan, out: &mut Vec<RegistryBlocker>)
    ensures
        blocker_views(final(out)@) == blocker_views(old(out)@) + blockers_of(*plan),
{
    let perm = items_in_order(&plan.items);
    proof {
        crate::sort::lemma_stable_perm(item_keys(plan.items@), perm@);
    }
    let ghost order = crate::closure::reorder(plan.items@, perm@);
    let ghost start = blocker_views(out@);
    let mut k: usize = 0;
    while k < perm.len()
        invariant
            k <= perm.len(),
            order == crate::closure::reorder(plan.items@, perm@),
            stably_sorted(item_keys(plan.items@), perm@),
            blocker_views(out@) == start + blockers_in(plan.id@, order, k as int),
        decreases perm.len() - k,
    {
        let item = &plan.items[perm[k]];
        assert(*item == order[k as int]);
        if let Some(b) = &item.blocker {
            let (text, text_truncated) = truncate(b.as_str(), MAX_TEXT_CHARS);
            let ghost before = out@;
            out.push(RegistryBlocker { plan_id: plan.id.duplicate(), item_id: item.id.duplicate(), text, text_truncated });
            assert(blocker_views(out@) =~= blocker_views(before).push(blockers_in(plan.id@, order, k + 1).last()));
        }
        k = k + 1;
    }
}

fn registry_plan(e: &(Plan, bool, Option<PlanAssessment>)) -> (rp: RegistryPlan)
    ensures
        registry_entry(*e, rp),
{
    let plan = &e.0;
    let (ready, _, _) = count_readiness_kinds(plan);
    let codes = match &e.2 {
        Some(a) => {
            let mut c = sorted_reason_codes(&a.reasons);
            c.truncate(MAX_WARNINGS);
            c
        },
        None => Vec::new(),
    };
    RegistryPlan {
        plan_id: plan.id.duplicate(),
        revision: plan.revision,
        status: plan.status,
        item_count: plan.items.len(),
        closure_present: e.1,
        readiness_count: ready,
        assessment_status: match &e.2 {
            Some(a) => Some(a.status),
            None => None,
        },
        assessment_reason_codes: codes,
    }
}

/// Plans in identifier order (at most `MAX_PROJECTED_PLANS`), and the blocked
/// items of all plans in plan order, then (position, identifier) order (at
/// most `MAX_PROJECTED_ITEMS`); the counts report the full collections.
pub fn registry_projection(repository_id: &str, plans: Vec<(Plan, bool, Option<PlanAssessment>)>) -> (r: RegistryProjection)
    ensures
        r.repository_id@ == repository_id@,
        r.plan_count == plans@.len(),
        r.plans_truncated == (plans@.len() > MAX_PROJECTED_PLANS),
        r.projected_plan_count == r.plans@.len(),
        r.plans@.len() == at_most(plans@.len(), MAX_PROJECTED_PLANS as nat),
        ({
            let sorted = crate::closure::reorder(plans@, crate::sort::stable_perm(plan_keys(plans@)));
            &&& forall|k: int| 0 <= k < r.plans@.len() ==> registry_entry(sorted[k], #[trigger] r.plans@[k])
            &&& r.blocker_count == all_blockers(sorted, sorted.len() as int).len()
            &&& r.blockers_truncated == (r.blocker_count > MAX_PROJECTED_ITEMS)
            &&& blocker_views(r.blockers@) == all_blockers(sorted, sorted.len() as int).take(
                at_most(r.blocker_count as nat, MAX_PROJECTED_ITEMS as nat) as int,
            )
        }),
{
    let mut keys: Vec<crate::sort::SortKey> = Vec::new();
    let mut i: usize = 0;
    while i < plans.len()
        invariant
            i <= plans.len(),
            keys@.len() == i,
            forall|k: int| 0 <= k < i ==> (#[trigger] keys@[k])@ == plan_keys(plans@)[k],
        decreases plans.len() - i,
    {
        keys.push(crate::sort::SortKey { rank: 0, first: plans[i].0.id.to_string(), second: String::new() });
        i = i + 1;
    }
    assert(crate::sort::key_views(keys@) =~= plan_keys(plans@));
    let perm = crate::sort::stable_order(&keys);
    proof {
        crate::sort::lemma_stable_perm(plan_keys(plans@), perm@);
    }
    let ghost sorted = crate::closure::reorder(plans@, perm@);
    let mut blockers: Vec<RegistryBlocker> = Vec::new();
    let mut k: usize = 0;
    assert(blocker_views(blockers@) =~= Seq::<BlockerV>::empty());
    while k < perm.len()
        invariant
            k <= perm.len(),
            sorted == crate::closure::reorder(plans@, perm@),
            stably_sorted(plan_keys(plans@), perm@),
            blocker_views(blockers@) == all_blockers(sorted, k as int),
        decreases perm.len() - k,
    {
        plan_blockers(&plans[perm[k]].0, &mut blockers);
        assert(sorted[k as int] == plans@[perm@[k as int] as int]);
        k = k + 1;
    }
    let blocker_count = blockers.len();
    let ghost all = blocker_views(blockers@);
    blockers.truncate(MAX_PROJECTED_ITEMS);
    assert(blocker_views(blockers@) =~= all.take(at_most(blocker_count as nat, MAX_PROJECTED_ITEMS as nat) as int));
    let n = if perm.len() > MAX_PROJECTED_PLANS {
        MAX_PROJECTED_PLANS
    } else {
        perm.len()
    };
    let mut projected: Vec<RegistryPlan> = Vec::new();
    let mut k: usize = 0;
    while k < n
        invariant
            k <= n,
            n == at_most(plans@.len(), MAX_PROJECTED_PLANS as nat),
            sorted == crate::closure::reorder(plans@, perm@),
            stably_sorted(plan_keys(plans@), perm@),
            projected@.len() == k,
            forall|j: int| 0 <= j < k ==> registry_entry(sorted[j], #[trigger] projected@[j]),
        decreases n - k,
    {
        projected.push(registry_plan(&plans[perm[k]]));
        k = k + 1;
    }
    RegistryProjection {
        repository_id: owned(repository_id),
        plan_count: plans.len(),
        projected_plan_count: projected.len(),
        plans_truncated: plans.len() > MAX_PROJECTED_PLANS,
        plans: projected,
        blocker_count,
        blockers_truncated: blocker_count > MAX_PROJECTED_ITEMS,
        blockers,
    }
}

} // verus!
