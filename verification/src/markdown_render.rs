//! Native Markdown rendering: the plan's intent as a framed JSON payload,
//! followed by a human-readable view that is for display only.
use crate::identity::VerificationDigest;
use crate::json::{decimal, write_decimal};
use crate::markdown::{MarkdownError, MAX_INPUT_BYTES, NATIVE_FENCE, NATIVE_MARKER};
use crate::model::{
    plan_error, plan_status_name, plan_status_text, item_status_name, item_status_text, validation_message,
    AcceptanceCriterion, EvidenceCardinality, EvidenceKind, EvidenceRequirement, Plan, PlanItem,
};
use crate::text::{char_count, chars_of, owned, push_str};
use vstd::prelude::*;

verus! {

/// `n` capped at the largest `usize`.
pub open spec fn capped(n: int) -> int {
    if n > usize::MAX { usize::MAX as int } else { n }
}

/// Bytes a text may take in the payload: six per scalar value, enough
/// for any JSON escape.
pub open spec fn text_estimate(s: Seq<char>) -> int {
    6 * s.len() as int
}

/// Estimate of an optional text.
pub open spec fn opt_estimate(s: Option<Seq<char>>) -> int {
    match s {
        Some(t) => text_estimate(t),
        None => 0,
    }
}

/// Estimate of an evidence requirement.
pub open spec fn requirement_estimate(r: EvidenceRequirement) -> int {
    512 + text_estimate(r.description@) + opt_estimate(crate::model::opt_provider(r.provider))
        + opt_estimate(crate::model::opt_digest(r.expected_verification_digest))
}

/// Estimate of a list of requirements.
pub open spec fn requirements_estimate(rs: Seq<EvidenceRequirement>) -> int
    decreases rs.len(),
{
    if rs.len() == 0 {
        0
    } else {
        requirements_estimate(rs.drop_last()) + requirement_estimate(rs.last())
    }
}

/// Estimate of an acceptance criterion.
pub open spec fn criterion_estimate(c: AcceptanceCriterion) -> int {
    512 + text_estimate(c.id@) + text_estimate(c.statement@) + requirements_estimate(c.requirements@)
}

/// Estimate of a list of criteria.
pub open spec fn criteria_estimate(cs: Seq<AcceptanceCriterion>) -> int
    decreases cs.len(),
{
    if cs.len() == 0 {
        0
    } else {
        criteria_estimate(cs.drop_last()) + criterion_estimate(cs.last())
    }
}

/// Estimate of dependency identifiers.
pub open spec fn dependencies_estimate(ds: Seq<crate::identity::PlanItemId>) -> int
    decreases ds.len(),
{
    if ds.len() == 0 {
        0
    } else {
        dependencies_estimate(ds.drop_last()) + text_estimate(ds.last()@)
    }
}

/// View of an optional item identifier.
pub open spec fn opt_item_id(p: Option<crate::identity::PlanItemId>) -> Option<Seq<char>> {
    match p {
        Some(v) => Some(v@),
        None => None,
    }
}

/// Estimate of an item.
pub open spec fn item_estimate(it: PlanItem) -> int {
    512 + text_estimate(it.id@) + text_estimate(it.description@) + opt_estimate(crate::json::opt_view(it.blocker))
        + opt_estimate(crate::json::opt_view(it.next_action)) + dependencies_estimate(it.dependencies@)
        + opt_estimate(opt_item_id(it.parent)) + criteria_estimate(it.criteria@)
}

/// Estimate of a list of items.
pub open spec fn items_estimate(items: Seq<PlanItem>) -> int
    decreases items.len(),
{
    if items.len() == 0 {
        0
    } else {
        items_estimate(items.drop_last()) + item_estimate(items.last())
    }
}

/// An upper bound on the size of a plan's payload, checked before it is
/// encoded: eight KiB, 512 bytes per item, criterion and requirement, and
/// six bytes per scalar value of every text.
pub open spec fn payload_estimate(p: Plan) -> int {
    8192 + text_estimate(p.id@) + text_estimate(p.objective@) + items_estimate(p.items@)
}

proof fn lemma_requirements_nonneg(rs: Seq<EvidenceRequirement>)
    ensures
        requirements_estimate(rs) >= 0,
    decreases rs.len(),
{
    if rs.len() > 0 {
        lemma_requirements_nonneg(rs.drop_last());
    }
}

proof fn lemma_criteria_nonneg(cs: Seq<AcceptanceCriterion>)
    ensures
        criteria_estimate(cs) >= 0,
    decreases cs.len(),
{
    if cs.len() > 0 {
        lemma_criteria_nonneg(cs.drop_last());
        lemma_requirements_nonneg(cs.last().requirements@);
    }
}

proof fn lemma_dependencies_nonneg(ds: Seq<crate::identity::PlanItemId>)
    ensures
        dependencies_estimate(ds) >= 0,
    decreases ds.len(),
{
    if ds.len() > 0 {
        lemma_dependencies_nonneg(ds.drop_last());
    }
}

proof fn lemma_items_nonneg(items: Seq<PlanItem>)
    ensures
        items_estimate(items) >= 0,
    decreases items.len(),
{
    if items.len() > 0 {
        lemma_items_nonneg(items.drop_last());
        lemma_dependencies_nonneg(items.last().dependencies@);
        lemma_criteria_nonneg(items.last().criteria@);
    }
}

/// `size + 6 * |s|`, capped.
fn add_text(size: usize, s: &str) -> (r: usize)
    ensures
        r == capped(size + text_estimate(s@)),
{
    let n = char_count(s);
    let six: usize = if n > usize::MAX / 6 {
        usize::MAX
    } else {
        n * 6
    };
    size.saturating_add(six)
}

fn add_opt_text(size: usize, s: Option<&str>) -> (r: usize)
    ensures
        r == capped(size + match s {
            Some(t) => text_estimate(t@),
            None => 0,
        }),
{
    match s {
        Some(t) => add_text(size, t),
        None => size,
    }
}

fn add_requirements(size: usize, rs: &Vec<EvidenceRequirement>) -> (r: usize)
    ensures
        r == capped(size + requirements_estimate(rs@)),
{
    let mut acc = size;
    let mut i: usize = 0;
    while i < rs.len()
        invariant
            i <= rs@.len(),
            acc == capped(size + requirements_estimate(rs@.take(i as int))),
        decreases rs.len() - i,
    {
        let r = &rs[i];
        proof {
            assert(rs@.take(i + 1).drop_last() =~= rs@.take(i as int));
            lemma_requirements_nonneg(rs@.take(i as int));
        }
        acc = acc.saturating_add(512);
        acc = add_text(acc, r.description.as_str());
        acc = add_opt_text(acc, match &r.provider {
            Some(p) => Some(p.as_str()),
            None => None,
        });
        acc = add_opt_text(acc, match &r.expected_verification_digest {
            Some(d) => Some(d.as_str()),
            None => None,
        });
        i = i + 1;
    }
    assert(rs@.take(rs@.len() as int) =~= rs@);
    acc
}

fn add_criteria(size: usize, cs: &Vec<AcceptanceCriterion>) -> (r: usize)
    ensures
        r == capped(size + criteria_estimate(cs@)),
{
    let mut acc = size;
    let mut i: usize = 0;
    while i < cs.len()
        invariant
            i <= cs@.len(),
            acc == capped(size + criteria_estimate(cs@.take(i as int))),
        decreases cs.len() - i,
    {
        let c = &cs[i];
        proof {
            assert(cs@.take(i + 1).drop_last() =~= cs@.take(i as int));
            lemma_criteria_nonneg(cs@.take(i as int));
            lemma_requirements_nonneg(c.requirements@);
        }
        acc = acc.saturating_add(512);
        acc = add_text(acc, c.id.as_str());
        acc = add_text(acc, c.statement.as_str());
        acc = add_requirements(acc, &c.requirements);
        i = i + 1;
    }
    assert(cs@.take(cs@.len() as int) =~= cs@);
    acc
}

fn add_dependencies(size: usize, ds: &Vec<crate::identity::PlanItemId>) -> (r: usize)
    ensures
        r == capped(size + dependencies_estimate(ds@)),
{
    let mut acc = size;
    let mut i: usize = 0;
    while i < ds.len()
        invariant
            i <= ds@.len(),
            acc == capped(size + dependencies_estimate(ds@.take(i as int))),
        decreases ds.len() - i,
    {
        proof {
            assert(ds@.take(i + 1).drop_last() =~= ds@.take(i as int));
            lemma_dependencies_nonneg(ds@.take(i as int));
        }
        acc = add_text(acc, ds[i].as_str());
        i = i + 1;
    }
    assert(ds@.take(ds@.len() as int) =~= ds@);
    acc
}

fn add_item(size: usize, it: &PlanItem) -> (r: usize)
    ensures
        r == capped(size + item_estimate(*it)),
{
    proof {
        lemma_dependencies_nonneg(it.dependencies@);
        lemma_criteria_nonneg(it.criteria@);
    }
    let mut acc = size.saturating_add(512);
    acc = add_text(acc, it.id.as_str());
    acc = add_text(acc, it.description.as_str());
    acc = add_opt_text(acc, match &it.blocker {
        Some(b) => Some(b.as_str()),
        None => None,
    });
    acc = add_opt_text(acc, match &it.next_action {
        Some(n) => Some(n.as_str()),
        None => None,
    });
    acc = add_dependencies(acc, &it.dependencies);
    acc = add_opt_text(acc, match &it.parent {
        Some(p) => Some(p.as_str()),
        None => None,
    });
    acc = add_criteria(acc, &it.criteria);
    acc
}

/// The payload estimate of a plan, capped at the largest `usize`.
fn estimated_payload_size(p: &Plan) -> (r: usize)
    ensures
        r == capped(payload_estimate(*p)),
{
    let mut acc: usize = 8192;
    acc = add_text(acc, p.id.as_str());
    acc = add_text(acc, p.objective.as_str());
    let mut i: usize = 0;
    while i < p.items.len()
        invariant
            i <= p.items@.len(),
            acc == capped(8192 + text_estimate(p.id@) + text_estimate(p.objective@)
                + items_estimate(p.items@.take(i as int))),
        decreases p.items.len() - i,
    {
        proof {
            assert(p.items@.take(i + 1).drop_last() =~= p.items@.take(i as int));
            lemma_items_nonneg(p.items@.take(i as int));
            lemma_dependencies_nonneg(p.items@[i as int].dependencies@);
            lemma_criteria_nonneg(p.items@[i as int].criteria@);
        }
        acc = add_item(acc, &p.items[i]);
        i = i + 1;
    }
    assert(p.items@.take(p.items@.len() as int) =~= p.items@);
    acc
}

/// A character as it is displayed: `&`, `<` and `>` as entities, a
/// carriage return dropped, a line feed as `<br>`.
pub open spec fn md_char(c: char) -> Seq<char> {
    if c == '&' {
        "&amp;"@
    } else if c == '<' {
        "&lt;"@
    } else if c == '>' {
        "&gt;"@
    } else if c == '\r' {
        Seq::empty()
    } else if c == '\n' {
        "<br>"@
    } else {
        seq![c]
    }
}

/// A text as it is displayed, character by character (see `md_char`).
pub open spec fn md_text(s: Seq<char>) -> Seq<char>
    decreases s.len(),
{
    if s.len() == 0 {
        Seq::empty()
    } else {
        md_text(s.drop_last()) + md_char(s.last())
    }
}

/// How an evidence kind is written in the display.
pub open spec fn kind_label(k: EvidenceKind) -> Seq<char> {
    match k {
        EvidenceKind::Command => "Command"@,
        EvidenceKind::Test => "Test"@,
        EvidenceKind::StaticAnalysis => "StaticAnalysis"@,
        EvidenceKind::Revision => "Revision"@,
        EvidenceKind::Artifact => "Artifact"@,
        EvidenceKind::DelegatedRun => "DelegatedRun"@,
        EvidenceKind::Benchmark => "Benchmark"@,
        EvidenceKind::Research => "Research"@,
        EvidenceKind::HumanJudgment => "HumanJudgment"@,
        EvidenceKind::Attestation => "Attestation"@,
    }
}

/// How a cardinality is written in the display.
pub open spec fn cardinality_label(c: EvidenceCardinality) -> Seq<char> {
    match c {
        EvidenceCardinality::Any => "Any"@,
        EvidenceCardinality::All => "All"@,
    }
}

/// The display line of a requirement.
pub open spec fn requirement_text(r: EvidenceRequirement) -> Seq<char> {
    "\nEvidence requirement (display only): kind="@ + kind_label(r.kind) + ", provider="@
        + match crate::model::opt_provider(r.provider) {
            Some(p) => p,
            None => "unspecified"@,
        } + ", cardinality="@ + cardinality_label(r.cardinality) + ", min_count="@ + decimal(r.min_count as nat)
        + " \u{2014} "@ + md_text(r.description@) + match crate::model::opt_digest(r.expected_verification_digest) {
            Some(d) => ", verification="@ + d,
            None => Seq::empty(),
        } + "\n"@
}

/// The display lines of requirements, in order.
pub open spec fn requirements_text(rs: Seq<EvidenceRequirement>) -> Seq<char>
    decreases rs.len(),
{
    if rs.len() == 0 {
        Seq::empty()
    } else {
        requirements_text(rs.drop_last()) + requirement_text(rs.last())
    }
}

/// The display section of a criterion.
pub open spec fn criterion_text(c: AcceptanceCriterion) -> Seq<char> {
    "\n### Acceptance "@ + md_text(c.id@) + "\n\n"@ + md_text(c.statement@) + "\n"@
        + requirements_text(c.requirements@)
}

/// The display sections of criteria, in order.
pub open spec fn criteria_text(cs: Seq<AcceptanceCriterion>) -> Seq<char>
    decreases cs.len(),
{
    if cs.len() == 0 {
        Seq::empty()
    } else {
        criteria_text(cs.drop_last()) + criterion_text(cs.last())
    }
}

/// Texts separated by `, `.
pub open spec fn comma_list(parts: Seq<Seq<char>>) -> Seq<char>
    decreases parts.len(),
{
    if parts.len() == 0 {
        Seq::empty()
    } else if parts.len() == 1 {
        parts[0]
    } else {
        comma_list(parts.drop_last()) + ", "@ + parts.last()
    }
}

/// The texts of dependency identifiers.
pub open spec fn dependency_texts(ds: Seq<crate::identity::PlanItemId>) -> Seq<Seq<char>> {
    Seq::new(ds.len(), |i: int| ds[i]@)
}

/// The heading, status and description of an item.
pub open spec fn item_title(it: PlanItem) -> Seq<char> {
    "\n## "@ + md_text(it.id@) + " \u{2014} "@ + md_text(it.description@) + "\n\nStatus: `"@
        + item_status_text(it.status) + "`\n\n"@ + md_text(it.description@) + "\n"@
}

/// The parent line of an item, if it has one.
pub open spec fn item_parent(it: PlanItem) -> Seq<char> {
    match opt_item_id(it.parent) {
        Some(p) => "\nParent: `"@ + p + "`\n"@,
        None => Seq::empty(),
    }
}

/// The dependency line of an item: identifiers in ascending order, if
/// it has any.
pub open spec fn item_dependencies(it: PlanItem) -> Seq<char> {
    if it.dependencies@.len() == 0 {
        Seq::empty()
    } else {
        "\nDependencies: "@ + comma_list(crate::sort::sorted_texts(dependency_texts(it.dependencies@))) + "\n"@
    }
}

/// The blocker and next-action lines of an item, where it has them.
pub open spec fn item_notes(it: PlanItem) -> Seq<char> {
    (match crate::json::opt_view(it.blocker) {
        Some(b) => "\nBlocker: "@ + md_text(b) + "\n"@,
        None => Seq::empty(),
    }) + (match crate::json::opt_view(it.next_action) {
        Some(n) => "\nNext action: "@ + md_text(n) + "\n"@,
        None => Seq::empty(),
    })
}

/// The display section of an item.
pub open spec fn item_text(it: PlanItem) -> Seq<char> {
    item_title(it) + item_parent(it) + item_dependencies(it) + item_notes(it) + criteria_text(it.criteria@)
}

/// The display sections of items, in the order given.
pub open spec fn items_text(items: Seq<PlanItem>) -> Seq<char>
    decreases items.len(),
{
    if items.len() == 0 {
        Seq::empty()
    } else {
        items_text(items.drop_last()) + item_text(items.last())
    }
}

/// Items in (position, identifier) order.
pub open spec fn ordered_items(items: Seq<PlanItem>) -> Seq<PlanItem> {
    let perm = crate::sort::stable_perm(crate::graph::item_keys(items));
    Seq::new(perm.len(), |k: int| items[perm[k] as int])
}

/// The framed payload and the plan's summary lines.
pub open spec fn head_text(p: Plan, has_closure: bool, payload: Seq<char>) -> Seq<char> {
    NATIVE_MARKER@ + "\n\n```"@ + NATIVE_FENCE@ + "\n"@ + payload + "\n```\n\n"@ + "# "@ + md_text(p.objective@)
        + "\n\nPlan: `"@ + p.id@ + "` \u{b7} revision "@ + decimal(p.revision as nat) + " \u{b7} status `"@
        + plan_status_text(p.status) + "`\n\nItems: "@ + decimal(p.items@.len()) + "\n\nClosure record present: "@
        + (if has_closure { "yes"@ } else { "no"@ }) + " (display only)\n"@
}

/// The rendered document: the framed payload, the summary, then every
/// item in (position, identifier) order.
pub open spec fn render_text(p: Plan, has_closure: bool, payload: Seq<char>) -> Seq<char> {
    head_text(p, has_closure, payload) + items_text(ordered_items(p.items@))
}

/// What `render` gives: refused for an invalid plan, for a plan whose
/// payload estimate exceeds the interchange bound, and for a document
/// whose UTF-8 encoding exceeds it; otherwise the document.
pub open spec fn render_outcome(p: Plan, has_closure: bool, payload: Seq<char>, r: Result<String, MarkdownError>) -> bool {
    match plan_error(p) {
        Some(e) => r matches Err(x) && x.0@ == "invalid plan: "@ + validation_message(e),
        None => if payload_estimate(p) > MAX_INPUT_BYTES {
            r matches Err(x) && x.0@ == "plan intent exceeds Markdown interchange byte bound"@
        } else if crate::markdown_text::utf8_len(render_text(p, has_closure, payload)) > MAX_INPUT_BYTES {
            r matches Err(x) && x.0@ == "rendered Markdown exceeds interchange byte limit"@
        } else {
            r matches Ok(s) && s@ == render_text(p, has_closure, payload)
        },
    }
}

/// Appends a text as it is displayed (see `md_text`).
fn push_markdown(out: &mut String, s: &str)
    ensures
        final(out)@ == old(out)@ + md_text(s@),
{
    let cs = chars_of(s);
    let mut i: usize = 0;
    while i < cs.len()
        invariant
            i <= cs@.len(),
            cs@ == s@,
            out@ == old(out)@ + md_text(cs@.take(i as int)),
        decreases cs.len() - i,
    {
        let c = cs[i];
        proof {
            assert(cs@.take(i + 1).drop_last() =~= cs@.take(i as int));
        }
        if c == '&' {
            push_str(out, "&amp;");
        } else if c == '<' {
            push_str(out, "&lt;");
        } else if c == '>' {
            push_str(out, "&gt;");
        } else if c == '\r' {
        } else if c == '\n' {
            push_str(out, "<br>");
        } else {
            out.push(c);
            assert(seq![c] =~= Seq::empty().push(c));
        }
        i = i + 1;
    }
    assert(cs@.take(cs@.len() as int) =~= cs@);
}

fn kind_label_of(k: EvidenceKind) -> (r: &'static str)
    ensures
        r@ == kind_label(k),
{
    match k {
        EvidenceKind::Command => "Command",
        EvidenceKind::Test => "Test",
        EvidenceKind::StaticAnalysis => "StaticAnalysis",
        EvidenceKind::Revision => "Revision",
        EvidenceKind::Artifact => "Artifact",
        EvidenceKind::DelegatedRun => "DelegatedRun",
        EvidenceKind::Benchmark => "Benchmark",
        EvidenceKind::Research => "Research",
        EvidenceKind::HumanJudgment => "HumanJudgment",
        EvidenceKind::Attestation => "Attestation",
    }
}

fn cardinality_label_of(c: EvidenceCardinality) -> (r: &'static str)
    ensures
        r@ == cardinality_label(c),
{
    match c {
        EvidenceCardinality::Any => "Any",
        EvidenceCardinality::All => "All",
    }
}

fn write_requirement(out: &mut String, r: &EvidenceRequirement)
    ensures
        final(out)@ == old(out)@ + requirement_text(*r),
{
    push_str(out, "\nEvidence requirement (display only): kind=");
    push_str(out, kind_label_of(r.kind));
    push_str(out, ", provider=");
    match &r.provider {
        Some(p) => push_str(out, p.as_str()),
        None => push_str(out, "unspecified"),
    }
    push_str(out, ", cardinality=");
    push_str(out, cardinality_label_of(r.cardinality));
    push_str(out, ", min_count=");
    write_decimal(r.min_count as u64, out);
    push_str(out, " \u{2014} ");
    push_markdown(out, r.description.as_str());
    match &r.expected_verification_digest {
        Some(d) => {
            push_str(out, ", verification=");
            push_str(out, d.as_str());
        },
        None => {},
    }
    push_str(out, "\n");
}

fn write_criterion(out: &mut String, c: &AcceptanceCriterion)
    ensures
        final(out)@ == old(out)@ + criterion_text(*c),
{
    let ghost start = out@;
    push_str(out, "\n### Acceptance ");
    push_markdown(out, c.id.as_str());
    push_str(out, "\n\n");
    push_markdown(out, c.statement.as_str());
    push_str(out, "\n");
    let ghost base = out@;
    let mut i: usize = 0;
    while i < c.requirements.len()
        invariant
            i <= c.requirements@.len(),
            out@ == base + requirements_text(c.requirements@.take(i as int)),
        decreases c.requirements.len() - i,
    {
        proof {
            assert(c.requirements@.take(i + 1).drop_last() =~= c.requirements@.take(i as int));
        }
        write_requirement(out, &c.requirements[i]);
        i = i + 1;
    }
    assert(c.requirements@.take(c.requirements@.len() as int) =~= c.requirements@);
}

fn write_dependencies(out: &mut String, ds: &Vec<crate::identity::PlanItemId>)
    requires
        ds@.len() > 0,
    ensures
        final(out)@ == old(out)@ + comma_list(crate::sort::sorted_texts(dependency_texts(ds@))),
{
    let ghost v = dependency_texts(ds@);
    let mut keys: Vec<crate::sort::SortKey> = Vec::new();
    let mut i: usize = 0;
    while i < ds.len()
        invariant
            i <= ds@.len(),
            v == dependency_texts(ds@),
            keys@.len() == i,
            forall|k: int| 0 <= k < i ==> (#[trigger] keys@[k])@ == crate::sort::text_keys(v)[k],
        decreases ds.len() - i,
    {
        keys.push(crate::sort::SortKey { rank: 0, first: ds[i].to_string(), second: String::new() });
        i = i + 1;
    }
    let ghost kv = crate::sort::text_keys(v);
    assert(crate::sort::key_views(keys@) =~= kv);
    let perm = crate::sort::stable_order(&keys);
    proof {
        crate::sort::lemma_stable_perm(kv, perm@);
    }
    let ghost sorted = crate::sort::sorted_texts(v);
    let ghost base = out@;
    let mut k: usize = 0;
    while k < perm.len()
        invariant
            k <= perm@.len(),
            perm@ == crate::sort::stable_perm(kv),
            crate::sort::stably_sorted(kv, perm@),
            kv == crate::sort::text_keys(v),
            kv.len() == ds@.len(),
            v == dependency_texts(ds@),
            sorted == crate::sort::sorted_texts(v),
            sorted.len() == perm@.len(),
            out@ == base + comma_list(sorted.take(k as int)),
        decreases perm.len() - k,
    {
        let j = perm[k];
        proof {
            assert(sorted.take(k + 1).drop_last() =~= sorted.take(k as int));
            assert(sorted[k as int] == ds@[j as int]@);
        }
        if k > 0 {
            push_str(out, ", ");
        } else {
            assert(sorted.take(1) =~= seq![sorted[0]]);
        }
        push_str(out, ds[j].as_str());
        k = k + 1;
    }
    assert(sorted.take(sorted.len() as int) =~= sorted);
}

fn write_item_title(out: &mut String, it: &PlanItem)
    ensures
        final(out)@ == old(out)@ + item_title(*it),
{
    push_str(out, "\n## ");
    push_markdown(out, it.id.as_str());
    push_str(out, " \u{2014} ");
    push_markdown(out, it.description.as_str());
    push_str(out, "\n\nStatus: `");
    push_str(out, item_status_name(it.status));
    push_str(out, "`\n\n");
    push_markdown(out, it.description.as_str());
    push_str(out, "\n");
}

fn write_item_links(out: &mut String, it: &PlanItem)
    ensures
        final(out)@ == old(out)@ + item_parent(*it) + item_dependencies(*it),
{
    let ghost start = out@;
    match &it.parent {
        Some(p) => {
            push_str(out, "\nParent: `");
            push_str(out, p.as_str());
            push_str(out, "`\n");
        },
        None => {},
    }
    assert(out@ =~= start + item_parent(*it));
    let ghost mid = out@;
    if it.dependencies.len() > 0 {
        push_str(out, "\nDependencies: ");
        write_dependencies(out, &it.dependencies);
        push_str(out, "\n");
    }
    assert(out@ =~= mid + item_dependencies(*it));
}

fn write_item_notes(out: &mut String, it: &PlanItem)
    ensures
        final(out)@ == old(out)@ + item_notes(*it),
{
    let ghost start = out@;
    match &it.blocker {
        Some(b) => {
            push_str(out, "\nBlocker: ");
            push_markdown(out, b.as_str());
            push_str(out, "\n");
        },
        None => {},
    }
    let ghost mid = out@;
    match &it.next_action {
        Some(n) => {
            push_str(out, "\nNext action: ");
            push_markdown(out, n.as_str());
            push_str(out, "\n");
        },
        None => {},
    }
    assert(out@ =~= start + item_notes(*it));
}

fn write_item(out: &mut String, it: &PlanItem)
    ensures
        final(out)@ == old(out)@ + item_text(*it),
{
    let ghost start = out@;
    write_item_title(out, it);
    write_item_links(out, it);
    write_item_notes(out, it);
    let ghost base = out@;
    let mut i: usize = 0;
    while i < it.criteria.len()
        invariant
            i <= it.criteria@.len(),
            out@ == base + criteria_text(it.criteria@.take(i as int)),
        decreases it.criteria.len() - i,
    {
        proof {
            assert(it.criteria@.take(i + 1).drop_last() =~= it.criteria@.take(i as int));
        }
        write_criterion(out, &it.criteria[i]);
        i = i + 1;
    }
    assert(it.criteria@.take(it.criteria@.len() as int) =~= it.criteria@);
    assert(out@ =~= start + item_text(*it));
}

fn write_head(out: &mut String, p: &Plan, has_closure: bool, payload: &str)
    ensures
        final(out)@ == old(out)@ + head_text(*p, has_closure, payload@),
{
    push_str(out, NATIVE_MARKER);
    push_str(out, "\n\n```");
    push_str(out, NATIVE_FENCE);
    push_str(out, "\n");
    push_str(out, payload);
    push_str(out, "\n```\n\n");
    push_str(out, "# ");
    push_markdown(out, p.objective.as_str());
    push_str(out, "\n\nPlan: `");
    push_str(out, p.id.as_str());
    push_str(out, "` \u{b7} revision ");
    write_decimal(p.revision, out);
    push_str(out, " \u{b7} status `");
    push_str(out, plan_status_name(p.status));
    push_str(out, "`\n\nItems: ");
    write_decimal(p.items.len() as u64, out);
    push_str(out, "\n\nClosure record present: ");
    if has_closure {
        push_str(out, "yes");
    } else {
        push_str(out, "no");
    }
    push_str(out, " (display only)\n");
}

/// Renders a plan as native Markdown (see `render_outcome`). The caller
/// hands over `payload_json`, the plan's interchange payload as indented
/// JSON; it is framed as given, never parsed.
pub fn render(plan: &Plan, has_closure: bool, payload_json: &str) -> (r: Result<String, MarkdownError>)
    ensures
        render_outcome(*plan, has_closure, payload_json@, r),
{
    match plan.validate() {
        Ok(()) => {},
        Err(e) => {
            let mut m = owned("invalid plan: ");
            push_str(&mut m, e.message().as_str());
            return Err(MarkdownError(m));
        },
    }
    if estimated_payload_size(plan) > MAX_INPUT_BYTES {
        return Err(MarkdownError(owned("plan intent exceeds Markdown interchange byte bound")));
    }
    let mut out = String::new();
    write_head(&mut out, plan, has_closure, payload_json);
    let ghost head = out@;
    let ghost keys = crate::graph::item_keys(plan.items@);
    let perm = crate::graph::items_in_order(&plan.items);
    proof {
        crate::sort::lemma_stable_perm(keys, perm@);
    }
    let ghost ordered = ordered_items(plan.items@);
    let mut k: usize = 0;
    while k < perm.len()
        invariant
            k <= perm@.len(),
            keys == crate::graph::item_keys(plan.items@),
            perm@ == crate::sort::stable_perm(keys),
            crate::sort::stably_sorted(keys, perm@),
            ordered == ordered_items(plan.items@),
            ordered.len() == perm@.len(),
            out@ == head + items_text(ordered.take(k as int)),
        decreases perm.len() - k,
    {
        let j = perm[k];
        proof {
            assert(ordered.take(k + 1).drop_last() =~= ordered.take(k as int));
        }
        write_item(&mut out, &plan.items[j]);
        k = k + 1;
    }
    assert(ordered.take(ordered.len() as int) =~= ordered);
    let cs = chars_of(out.as_str());
    if crate::markdown_text::utf8_longer_than(&cs, MAX_INPUT_BYTES) {
        return Err(MarkdownError(owned("rendered Markdown exceeds interchange byte limit")));
    }
    Ok(out)
}

} // verus!
