//! Plan mutations requested from the command line: activation and item
//! updates, each guarded by the revision the caller expects. Reading and
//! swapping the stored plan stays with the host program.
use crate::cli::{failure, CliFailure, FailureV, ParsedArgs};
use crate::identity::PlanItemId;
use crate::json::{decimal, write_decimal};
use crate::model::{has_item_id, Plan, PlanItem, PlanItemStatus, PlanStatus};
use crate::text::{owned, push_str};
use crate::text_map::lookup;
use vstd::prelude::*;

verus! {

/// The message of a revision conflict.
pub open spec fn conflict_message(expected: u64, current: u64) -> Seq<char> {
    "expected revision "@ + decimal(expected as nat) + ", current "@ + decimal(current as nat)
}

/// The failure of `command` when the stored revision is not the expected one.
pub open spec fn conflict_failure(command: Seq<char>, expected: u64, current: u64, json: bool) -> FailureV {
    FailureV { command, code: "revision_conflict"@, message: conflict_message(expected, current), json }
}

/// A revision conflict of `command` (see `conflict_failure`).
pub fn revision_conflict(command: &str, expected: u64, current: u64, json: bool) -> (r: CliFailure)
    ensures
        r@ == conflict_failure(command@, expected, current, json),
{
    let mut m = owned("expected revision ");
    write_decimal(expected, &mut m);
    push_str(&mut m, ", current ");
    write_decimal(current, &mut m);
    failure(command, "revision_conflict", m, json)
}

/// `q` is `p` at the next revision, with only its status changed to `s`.
pub open spec fn advanced(p: Plan, q: Plan, s: PlanStatus) -> bool {
    &&& q.schema_version == p.schema_version
    &&& q.id == p.id
    &&& q.revision == p.revision + 1
    &&& q.objective == p.objective
    &&& q.status == s
    &&& q.provenance == p.provenance
    &&& q.items == p.items
    &&& q.subject == p.subject
}

/// Whether a plan in status `s` may be activated.
pub open spec fn activatable(s: PlanStatus) -> bool {
    s == PlanStatus::Draft || s == PlanStatus::Blocked
}

/// Activates a plan at the expected revision: a revision conflict when the
/// plan is at another revision, `invalid_transition` unless it is Draft or
/// Blocked, `invalid_update` when the revision cannot grow; otherwise the
/// plan Active at the next revision.
pub fn activate_plan(plan: Plan, expected: u64, json: bool) -> (r: Result<Plan, CliFailure>)
    ensures
        if plan.revision != expected {
            r matches Err(f) && f@ == conflict_failure("activate"@, expected, plan.revision, json)
        } else if !activatable(plan.status) {
            r matches Err(f) && f@ == (FailureV {
                command: "activate"@,
                code: "invalid_transition"@,
                message: "only Draft or Blocked Plans can be activated"@,
                json,
            })
        } else if plan.revision == u64::MAX {
            r matches Err(f) && f@ == (FailureV {
                command: "activate"@,
                code: "invalid_update"@,
                message: "revision overflow"@,
                json,
            })
        } else {
            r matches Ok(q) && advanced(plan, q, PlanStatus::Active)
        },
{
    if plan.revision != expected {
        return Err(revision_conflict("activate", expected, plan.revision, json));
    }
    match plan.status {
        PlanStatus::Draft | PlanStatus::Blocked => {},
        _ => {
            return Err(
                failure("activate", "invalid_transition", owned("only Draft or Blocked Plans can be activated"), json),
            );
        },
    }
    if plan.revision == u64::MAX {
        return Err(failure("activate", "invalid_update", owned("revision overflow"), json));
    }
    let mut plan = plan;
    plan.revision = plan.revision + 1;
    plan.status = PlanStatus::Active;
    Ok(plan)
}

/// The usage failure of an item update that changes nothing.
pub open spec fn no_change_failure(json: bool) -> FailureV {
    FailureV {
        command: "item update"@,
        code: "usage"@,
        message: "provide at least one of --status, --blocker, or --next-action"@,
        json,
    }
}

/// Requires an item update to name at least one of `--status`,
/// `--blocker` and `--next-action`.
pub fn require_item_change(args: &ParsedArgs) -> (r: Result<(), CliFailure>)
    ensures
        r is Ok <==> (lookup(args.options@, "--status"@) is Some || lookup(args.options@, "--blocker"@) is Some
            || lookup(args.options@, "--next-action"@) is Some),
        r matches Err(f) ==> f@ == no_change_failure(args.json),
{
    if args.options.contains_key("--status") || args.options.contains_key("--blocker") || args.options.contains_key(
        "--next-action",
    ) {
        Ok(())
    } else {
        Err(
            failure(
                "item update",
                "usage",
                owned("provide at least one of --status, --blocker, or --next-action"),
                args.json,
            ),
        )
    }
}

/// Finds the item to update in a plan at the expected revision: a
/// revision conflict when the plan is at another revision, `item_not_found`
/// when no item carries the identifier; otherwise the first item that does.
pub fn locate_item(plan: &Plan, expected: u64, item_id: &PlanItemId, json: bool) -> (r: Result<usize, CliFailure>)
    ensures
        if plan.revision != expected {
            r matches Err(f) && f@ == conflict_failure("item update"@, expected, plan.revision, json)
        } else if !has_item_id(plan.items@, item_id@) {
            r matches Err(f) && f@ == (FailureV {
                command: "item update"@,
                code: "item_not_found"@,
                message: item_id@,
                json,
            })
        } else {
            r matches Ok(i) && {
                &&& i < plan.items@.len()
                &&& plan.items@[i as int].id@ == item_id@
                &&& forall|j: int| 0 <= j < i ==> (#[trigger] plan.items@[j]).id@ != item_id@
            }
        },
{
    if plan.revision != expected {
        return Err(revision_conflict("item update", expected, plan.revision, json));
    }
    let mut k: usize = 0;
    while k < plan.items.len()
        invariant
            k <= plan.items@.len(),
            plan.revision == expected,
            forall|j: int| 0 <= j < k ==> (#[trigger] plan.items@[j]).id@ != item_id@,
        decreases plan.items.len() - k,
    {
        if crate::text::str_eq(plan.items[k].id.as_str(), item_id.as_str()) {
            assert(plan.items@[k as int].id@ == item_id@);
            return Ok(k);
        }
        k = k + 1;
    }
    Err(failure("item update", "item_not_found", item_id.to_string(), json))
}

/// An optional text as set by an update: an empty text clears it.
pub open spec fn set_text(v: Seq<char>) -> Option<Seq<char>> {
    if v.len() == 0 {
        None
    } else {
        Some(v)
    }
}

/// `after` is `before` with the requested changes: a new status, and a
/// blocker and next action set (cleared by an empty text), where given.
pub open spec fn item_updated(
    before: PlanItem,
    after: PlanItem,
    status: Option<PlanItemStatus>,
    blocker: Option<Seq<char>>,
    next_action: Option<Seq<char>>,
) -> bool {
    &&& after.id == before.id
    &&& after.position == before.position
    &&& after.parent == before.parent
    &&& after.dependencies == before.dependencies
    &&& after.description == before.description
    &&& after.criteria == before.criteria
    &&& after.status == match status {
        Some(s) => s,
        None => before.status,
    }
    &&& crate::json::opt_view(after.blocker) == match blocker {
        Some(b) => set_text(b),
        None => crate::json::opt_view(before.blocker),
    }
    &&& crate::json::opt_view(after.next_action) == match next_action {
        Some(n) => set_text(n),
        None => crate::json::opt_view(before.next_action),
    }
}

fn set_optional(v: &str) -> (r: Option<String>)
    ensures
        crate::json::opt_view(r) == set_text(v@),
{
    if crate::text::char_count(v) == 0 {
        None
    } else {
        Some(owned(v))
    }
}

/// Applies an item update to the item at `index`: `invalid_update` when
/// the revision cannot grow; otherwise the plan at the next revision with
/// that item changed as `item_updated` says and every other part kept.
pub fn apply_item_update(
    plan: Plan,
    index: usize,
    status: Option<PlanItemStatus>,
    blocker: Option<&str>,
    next_action: Option<&str>,
    json: bool,
) -> (r: Result<Plan, CliFailure>)
    requires
        index < plan.items@.len(),
    ensures
        if plan.revision == u64::MAX {
            r matches Err(f) && f@ == (FailureV {
                command: "item update"@,
                code: "invalid_update"@,
                message: "revision overflow"@,
                json,
            })
        } else {
            r matches Ok(q) && {
                &&& q.schema_version == plan.schema_version
                &&& q.id == plan.id
                &&& q.revision == plan.revision + 1
                &&& q.objective == plan.objective
                &&& q.status == plan.status
                &&& q.provenance == plan.provenance
                &&& q.subject == plan.subject
                &&& q.items@.len() == plan.items@.len()
                &&& forall|j: int| 0 <= j < q.items@.len() && j != index ==> q.items@[j] == plan.items@[j]
                &&& item_updated(
                    plan.items@[index as int],
                    q.items@[index as int],
                    status,
                    crate::markdown::opt_str(blocker),
                    crate::markdown::opt_str(next_action),
                )
            }
        },
{
    if plan.revision == u64::MAX {
        return Err(failure("item update", "invalid_update", owned("revision overflow"), json));
    }
    let mut plan = plan;
    let ghost before = plan.items@;
    let mut item = plan.items.remove(index);
    match status {
        Some(s) => {
            item.status = s;
        },
        None => {},
    }
    match blocker {
        Some(b) => {
            item.blocker = set_optional(b);
        },
        None => {},
    }
    match next_action {
        Some(n) => {
            item.next_action = set_optional(n);
        },
        None => {},
    }
    plan.items.insert(index, item);
    plan.revision = plan.revision + 1;
    assert forall|j: int| 0 <= j < plan.items@.len() && j != index implies plan.items@[j] == before[j] by {
        if j < index {
        } else {
        }
    }
    Ok(plan)
}

/// Requires a plan given to `new` to be a Draft at revision zero.
pub fn require_new_draft(plan: &Plan, json: bool) -> (r: Result<(), CliFailure>)
    ensures
        r is Ok <==> (plan.revision == 0 && plan.status == PlanStatus::Draft),
        r matches Err(f) ==> f@ == (FailureV {
            command: "new"@,
            code: "invalid_plan"@,
            message: "new Plan must be revision zero and Draft"@,
            json,
        }),
{
    match plan.status {
        PlanStatus::Draft => {
            if plan.revision == 0 {
                return Ok(());
            }
        },
        _ => {},
    }
    Err(failure("new", "invalid_plan", owned("new Plan must be revision zero and Draft"), json))
}

} // verus!
