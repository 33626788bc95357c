//! The bounded report of an assessment: the plan's distinct reason codes,
//! and one row per item up to a row limit, each with its distinct reason
//! codes up to a per-row limit.
use crate::assessment::{AssessmentStatus, ItemAssessment, ItemV, PlanAssessment};
use crate::compat::strings_of;
use crate::identity::{PlanId, PlanItemId};
use crate::projection::{distinct_codes, sorted_reason_codes};

use vstd::prelude::*;

verus! {

/// Most item rows a report holds.
pub const MAX_ASSESSMENT_ROWS: usize = 100;

/// Most reason codes one row holds.
pub const MAX_REASONS_PER_ROW: usize = 32;

/// One reported item.
#[derive(Debug, Clone, PartialEq, Eq)]
pub struct AssessmentRow {
    pub item_id: PlanItemId,
    pub status: AssessmentStatus,
    pub reason_codes: Vec<String>,
    pub total_reasons: usize,
    pub reasons_truncated: bool,
}

/// A reported assessment.
#[derive(Debug, Clone, PartialEq, Eq)]
pub struct AssessmentData {
    pub plan_id: PlanId,
    pub plan_revision: u64,
    pub status: AssessmentStatus,
    pub reason_codes: Vec<String>,
    pub items: Vec<AssessmentRow>,
    pub total_items: usize,
    pub items_truncated: bool,
}

/// The smaller of a length and a limit.
pub open spec fn capped(n: int, limit: int) -> int {
    if n > limit {
        limit
    } else {
        n
    }
}

/// The row of an item: its identifier and status, its distinct reason
/// codes in ascending order up to the per-row limit, how many there are,
/// and whether some were left out.
pub open spec fn row_is(row: AssessmentRow, item: ItemV) -> bool {
    let d = distinct_codes(item.reasons, 21);
    &&& row.item_id@ == item.item_id
    &&& row.status == item.status
    &&& strings_of(row.reason_codes@) == d.take(capped(d.len() as int, MAX_REASONS_PER_ROW as int))
    &&& row.total_reasons == d.len()
    &&& row.reasons_truncated == (d.len() > MAX_REASONS_PER_ROW)
}

fn assessment_row(item: &ItemAssessment) -> (r: AssessmentRow)
    ensures
        row_is(r, item@),
{
    let codes = sorted_reason_codes(&item.reasons);
    let ghost d = distinct_codes(item@.reasons, 21);
    let total = codes.len();
    let mut kept: Vec<String> = Vec::new();
    let mut i: usize = 0;
    while i < total && i < MAX_REASONS_PER_ROW
        invariant
            total == codes@.len(),
            codes@.len() == d.len(),
            forall|x: int| 0 <= x < codes@.len() ==> (#[trigger] codes@[x])@ == d[x],
            i <= total,
            i <= MAX_REASONS_PER_ROW,
            strings_of(kept@) == d.take(i as int),
        decreases total - i,
    {
        let ghost before = strings_of(kept@);
        kept.push(codes[i].clone());
        assert(strings_of(kept@) =~= before.push(d[i as int]));
        assert(d.take(i + 1) =~= d.take(i as int).push(d[i as int]));
        i = i + 1;
    }
    AssessmentRow {
        item_id: item.item_id.duplicate(),
        status: item.status,
        reason_codes: kept,
        total_reasons: total,
        reasons_truncated: total > MAX_REASONS_PER_ROW,
    }
}

/// The report of an assessment: its plan, revision and status, the plan's
/// distinct reason codes in ascending order, the rows of its first items
/// up to the row limit, how many items there are, and whether some were
/// left out.
pub fn assessment_data(assessment: &PlanAssessment) -> (r: AssessmentData)
    ensures
        r.plan_id == assessment.plan_id,
        r.plan_revision == assessment.plan_revision,
        r.status == assessment.status,
        strings_of(r.reason_codes@) == distinct_codes(assessment@.reasons, 21),
        r.total_items == assessment.items@.len(),
        r.items_truncated == (assessment.items@.len() > MAX_ASSESSMENT_ROWS),
        r.items@.len() == capped(assessment.items@.len() as int, MAX_ASSESSMENT_ROWS as int),
        forall|i: int| 0 <= i < r.items@.len() ==> row_is(#[trigger] r.items@[i], assessment@.items[i]),
{
    let codes = sorted_reason_codes(&assessment.reasons);
    assert(strings_of(codes@) =~= distinct_codes(assessment@.reasons, 21));
    let total = assessment.items.len();
    let mut rows: Vec<AssessmentRow> = Vec::new();
    let mut i: usize = 0;
    while i < total && i < MAX_ASSESSMENT_ROWS
        invariant
            total == assessment.items@.len(),
            i <= total,
            i <= MAX_ASSESSMENT_ROWS,
            rows@.len() == i,
            forall|k: int| 0 <= k < i ==> row_is(#[trigger] rows@[k], assessment@.items[k]),
        decreases total - i,
    {
        let row = assessment_row(&assessment.items[i]);
        rows.push(row);
        i = i + 1;
    }
    AssessmentData {
        plan_id: assessment.plan_id.duplicate(),
        plan_revision: assessment.plan_revision,
        status: assessment.status,
        reason_codes: codes,
        items: rows,
        total_items: total,
        items_truncated: total > MAX_ASSESSMENT_ROWS,
    }
}

} // verus!
